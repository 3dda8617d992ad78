//! Mapping rates to raw gauge values, in thousandths of a gauge unit
//! (a needle spans 0 to 255 units). Clamping is left to the smoother.
use vstd::prelude::*;

use crate::fixed::{floor_div, lemma_div_bounded, sat_i64, saturate_i64};

verus! {

/// Thousandths in one gauge unit.
pub const GAUGE_SCALE: i64 = 1000;

/// Disk rate, in sectors per second, that moves the needle by 256 units.
pub const DISK_FULL_SCALE: i64 = 200_000;

/// Where the needle of the centred network gauge rests, in gauge units.
pub const NET_CENTER: i64 = 108;

/// The lowest gauge unit of the centred network gauge.
pub const NET_FLOOR: i64 = 28;

/// The highest gauge unit of the centred network gauge.
pub const NET_CEILING: i64 = 255;

/// Share, in thousandths, of the span above the center that a receive rate of
/// the configured ceiling moves the needle by.
pub const NET_UP_FACTOR: i64 = 430;

/// Share, in thousandths, of the span below the center that a transmit rate
/// of the configured ceiling moves the needle by.
pub const NET_DOWN_FACTOR: i64 = 830;

/// The CPU gauge for busy shares `r` in thousandths of a percent: the
/// aggregate at index 0, then the cores from the busiest down. The two
/// busiest are averaged; with four or five cores 0.8 of the sum of the third
/// and fourth is added; with six or more, half of that sum and a third of the
/// sum of the fifth and sixth. A single core's share is scaled from 100 to
/// 256. Rounded down and held to the range of `i64`.
pub open spec fn cpu_gauge_of(r: Seq<i64>) -> int {
    let n = r.len() - 1;
    sat_i64(
        if n >= 6 {
            (3 * (r[1] + r[2]) + 3 * (r[3] + r[4]) + 2 * (r[5] + r[6])) / 6
        } else if n >= 4 {
            (5 * (r[1] + r[2]) + 8 * (r[3] + r[4])) / 10
        } else if n >= 2 {
            (r[1] + r[2]) / 2
        } else {
            (256 * r[1]) / 100
        },
    )
}

/// Maps CPU busy shares, aggregate first and cores from the busiest down, to
/// a gauge value in thousandths.
pub fn cpu_gauge(rates: &Vec<i64>) -> (r: i64)
    requires
        rates@.len() >= 2,
    ensures
        r == cpu_gauge_of(rates@),
{
    let n = rates.len() - 1;
    let top: i128 = rates[1] as i128 + if n >= 2 {
        rates[2] as i128
    } else {
        0
    };
    let g = if n >= 6 {
        let mid: i128 = rates[3] as i128 + rates[4] as i128;
        let low: i128 = rates[5] as i128 + rates[6] as i128;
        floor_div(3 * top + 3 * mid + 2 * low, 6)
    } else if n >= 4 {
        let mid: i128 = rates[3] as i128 + rates[4] as i128;
        floor_div(5 * top + 8 * mid, 10)
    } else if n >= 2 {
        floor_div(top, 2)
    } else {
        floor_div(256 * top, 100)
    };
    saturate_i64(g)
}

/// The disk gauge: the busiest device's rate alone, in sectors per second,
/// scaled so that `DISK_FULL_SCALE` gives 256 units; 0 with no device.
/// Rounded down and held to the range of `i64`.
pub open spec fn disk_gauge_of(rates: Seq<i64>) -> int {
    if rates.len() == 0 {
        0
    } else {
        sat_i64((256 * GAUGE_SCALE * rates[0]) / (DISK_FULL_SCALE as int))
    }
}

/// Maps disk rates, from the largest down, to a gauge value in thousandths.
pub fn disk_gauge(rates: &Vec<i64>) -> (r: i64)
    ensures
        r == disk_gauge_of(rates@),
{
    if rates.len() == 0 {
        return 0;
    }
    saturate_i64(floor_div(256 * GAUGE_SCALE as i128 * rates[0] as i128, DISK_FULL_SCALE as i128))
}

/// The one-way network gauge: the busier direction's rate, in bits per
/// second, as a share of `max_mbps` megabits per second, over 256 units.
/// Rounded down and held to the range of `i64`.
pub open spec fn net_gauge_of(rx: i64, tx: i64, max_mbps: u16) -> int {
    let busier = if rx >= tx {
        rx
    } else {
        tx
    };
    sat_i64((256 * GAUGE_SCALE * busier) / (1_000_000 * max_mbps))
}

/// Maps receive and transmit bit rates to a one-way gauge value in
/// thousandths.
pub fn net_gauge(rx: i64, tx: i64, max_mbps: u16) -> (r: i64)
    requires
        max_mbps > 0,
    ensures
        r == net_gauge_of(rx, tx, max_mbps),
{
    let busier: i64 = if rx >= tx {
        rx
    } else {
        tx
    };
    proof {
        assert(-3_000_000_000_000_000_000_000_000 <= 256000 * busier <= 3_000_000_000_000_000_000_000_000)
            by (nonlinear_arith)
            requires
                i64::MIN <= busier <= i64::MAX,
        ;
    }
    saturate_i64(
        floor_div(256 * GAUGE_SCALE as i128 * busier as i128, 1_000_000 * max_mbps as i128),
    )
}

/// The centred network gauge: the needle rests at `NET_CENTER` and moves up
/// for more received than sent, down for more sent than received. A net rate
/// of `max_mbps` megabits per second moves it `NET_UP_FACTOR` thousandths of
/// the span above the center up, or `NET_DOWN_FACTOR` thousandths of the span
/// below it down. Rounded down and held to the range of `i64`.
pub open spec fn net_gauge_centered_of(rx: i64, tx: i64, max_mbps: u16) -> int {
    let net = rx - tx;
    let span = if net >= 0 {
        (NET_CEILING - NET_CENTER) * NET_UP_FACTOR
    } else {
        (NET_CENTER - NET_FLOOR) * NET_DOWN_FACTOR
    };
    sat_i64(NET_CENTER * GAUGE_SCALE + (span * net) / (1_000_000 * max_mbps))
}

/// Maps receive and transmit bit rates to a centred gauge value in
/// thousandths.
pub fn net_gauge_centered(rx: i64, tx: i64, max_mbps: u16) -> (r: i64)
    requires
        max_mbps > 0,
    ensures
        r == net_gauge_centered_of(rx, tx, max_mbps),
{
    let net: i128 = rx as i128 - tx as i128;
    let span: i128 = if net >= 0 {
        ((NET_CEILING - NET_CENTER) * NET_UP_FACTOR) as i128
    } else {
        ((NET_CENTER - NET_FLOOR) * NET_DOWN_FACTOR) as i128
    };
    proof {
        assert(-3_000_000_000_000_000_000_000_000 <= span * net <= 3_000_000_000_000_000_000_000_000)
            by (nonlinear_arith)
            requires
                0 < span <= 66400,
                -20_000_000_000_000_000_000 <= net <= 20_000_000_000_000_000_000,
        ;
    }
    let moved = floor_div(span * net, 1_000_000 * max_mbps as i128);
    proof {
        lemma_div_bounded(span * net, 3_000_000_000_000_000_000_000_000, 1_000_000 * max_mbps);
    }
    saturate_i64((NET_CENTER * GAUGE_SCALE) as i128 + moved)
}

} // verus!
