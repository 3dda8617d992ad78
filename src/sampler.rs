//! One tick of the sampling loop: counters to rates, rates to gauges,
//! gauges to rate-limited frames, for the CPU, disk and network channels.
use vstd::prelude::*;

use crate::gauge::{
    cpu_gauge, cpu_gauge_of, disk_gauge, disk_gauge_of, net_gauge, net_gauge_centered,
    net_gauge_centered_of, net_gauge_of,
};
use crate::gauge::{NET_CEILING, NET_CENTER, NET_FLOOR};
use crate::meter::{frame_of, frame_views, smoothed, ChannelRange, Smoother, CHANNELS_NUM};
use crate::order::sorted_desc;
use crate::stats::{
    bitrate_of, cpu_idle_of, cpu_rates_of, disk_rates_from, disk_stats_of, number_of, CpuStats,
    DiskStats, IfStats, StatsError,
};

verus! {

/// The channel of the CPU gauge.
pub const CPU_CHANNEL: u8 = 1;

/// The channel of the disk gauge.
pub const DISK_CHANNEL: u8 = 2;

/// The channel of the network gauge.
pub const NET_CHANNEL: u8 = 3;

/// The channels of the meter: channel 0 is unused; every gauge channel
/// spans `NET_FLOOR` to `NET_CEILING`; the CPU and disk needles rest at the
/// bottom, the network needle at `NET_CENTER`.
pub fn meter_ranges() -> (r: Vec<ChannelRange>)
    ensures
        r@ == seq![
            ChannelRange { lo: 0, hi: 255, rest: 0 },
            ChannelRange { lo: 28, hi: 255, rest: 28 },
            ChannelRange { lo: 28, hi: 255, rest: 28 },
            ChannelRange { lo: 28, hi: 255, rest: 108 },
        ],
        r@.len() == NET_CHANNEL + 1,
        r@.len() <= CHANNELS_NUM,
        forall|i: int| 0 <= i < r@.len() ==> (#[trigger] r@[i]).wf(),
        forall|i: int|
            CPU_CHANNEL <= i <= NET_CHANNEL ==> #[trigger] r@[i].lo == NET_FLOOR && r@[i].hi
                == NET_CEILING,
        r@[NET_CHANNEL as int].rest == NET_CENTER,
{
    let r = vec![
        ChannelRange { lo: 0, hi: 255, rest: 0 },
        ChannelRange { lo: NET_FLOOR as u8, hi: NET_CEILING as u8, rest: NET_FLOOR as u8 },
        ChannelRange { lo: NET_FLOOR as u8, hi: NET_CEILING as u8, rest: NET_FLOOR as u8 },
        ChannelRange { lo: NET_FLOOR as u8, hi: NET_CEILING as u8, rest: NET_CENTER as u8 },
    ];
    proof {
        assert(r@ =~= seq![
            ChannelRange { lo: 0, hi: 255, rest: 0 },
            ChannelRange { lo: 28, hi: 255, rest: 28 },
            ChannelRange { lo: 28, hi: 255, rest: 28 },
            ChannelRange { lo: 28, hi: 255, rest: 108 },
        ]);
    }
    r
}

/// How the network gauge shows traffic.
#[derive(Debug, Clone, Copy, PartialEq, Eq, Structural)]
pub enum NetMode {
    /// The busier direction, from zero up.
    OneWay,
    /// Received less sent, around a center.
    Centered,
}

/// The network gauge, in thousandths, that `mode` gives.
pub open spec fn net_gauge_in(mode: NetMode, rx: i64, tx: i64, max_mbps: u16) -> int {
    match mode {
        NetMode::OneWay => net_gauge_of(rx, tx, max_mbps),
        NetMode::Centered => net_gauge_centered_of(rx, tx, max_mbps),
    }
}

/// What one tick measured and sent.
#[derive(Debug)]
pub struct Tick {
    /// CPU busy shares, in thousandths of a percent: aggregate, then cores
    /// from the busiest down.
    pub cpu_rates: Vec<i64>,
    /// Disk rates in sectors per second, from the largest down.
    pub disk_rates: Vec<i64>,
    /// Received bits per second.
    pub rx_rate: i64,
    /// Sent bits per second.
    pub tx_rate: i64,
    /// The raw CPU gauge, in thousandths, before smoothing.
    pub cpu_gauge: i64,
    /// The raw disk gauge, in thousandths, before smoothing.
    pub disk_gauge: i64,
    /// The raw network gauge, in thousandths, before smoothing.
    pub net_gauge: i64,
    /// The frames to send, in order: CPU, disk, network.
    pub frames: Vec<[u8; 4]>,
}

/// The counter sources and the meter that one sampling loop drives.
#[derive(Debug)]
pub struct VuMeter {
    pub cpu: CpuStats,
    pub disk: DiskStats,
    pub rx: IfStats,
    pub tx: IfStats,
    pub meter: Smoother,
    pub mode: NetMode,
    pub max_mbps: u16,
}

impl VuMeter {
    /// The meter has the three gauge channels and a network ceiling.
    pub open spec fn wf(&self) -> bool {
        &&& self.meter.wf()
        &&& self.meter.limits().len() > NET_CHANNEL
        &&& self.max_mbps > 0
    }

    /// Whether a tick at `now_us` on these counter texts succeeds: every text
    /// reads, the CPU count is unchanged and time has passed for every source.
    pub open spec fn tick_succeeds(
        &self,
        cpu_text: Seq<u8>,
        disk_text: Seq<u8>,
        rx_text: Seq<u8>,
        tx_text: Seq<u8>,
        now_us: u64,
    ) -> bool {
        &&& cpu_idle_of(cpu_text) matches Ok(idle) && idle.len() == self.cpu.idle().len()
        &&& disk_stats_of(disk_text) is Ok
        &&& number_of(rx_text) is Ok
        &&& number_of(tx_text) is Ok
        &&& now_us > self.cpu.stamp()
        &&& now_us > self.disk.stamp()
        &&& now_us > self.rx.stamp()
        &&& now_us > self.tx.stamp()
    }

    /// Takes one sample of every source at `now_us`, maps the rates to
    /// gauges, moves the needles toward them and returns the frames that show
    /// the new positions. Fails with the first source's error otherwise.
    pub fn tick(
        &mut self,
        cpu_text: &[u8],
        disk_text: &[u8],
        rx_text: &[u8],
        tx_text: &[u8],
        now_us: u64,
    ) -> (r: Result<Tick, StatsError>)
        requires
            old(self).wf(),
        ensures
            final(self).wf(),
            final(self).mode == old(self).mode,
            final(self).max_mbps == old(self).max_mbps,
            r is Ok <==> old(self).tick_succeeds(cpu_text@, disk_text@, rx_text@, tx_text@, now_us),
            r matches Ok(t) ==> {
                &&& cpu_idle_of(cpu_text@) matches Ok(idle) && cpu_rates_of(
                    t.cpu_rates@,
                    old(self).cpu.idle(),
                    idle,
                    now_us - old(self).cpu.stamp(),
                )
                &&& disk_stats_of(disk_text@) matches Ok(cur) && t.disk_rates@.to_multiset()
                    == disk_rates_from(
                    cur,
                    old(self).disk.table(),
                    now_us - old(self).disk.stamp(),
                    0,
                ).to_multiset()
                &&& sorted_desc(t.disk_rates@)
                &&& final(self).cpu.stamp() == now_us && final(self).disk.stamp() == now_us
                &&& final(self).rx.stamp() == now_us && final(self).tx.stamp() == now_us
                &&& cpu_idle_of(cpu_text@) matches Ok(idle) && final(self).cpu.idle() == idle
                &&& disk_stats_of(disk_text@) matches Ok(cur) && final(self).disk.table() == cur
                &&& number_of(rx_text@) matches Ok(c) && final(self).rx.count() == c
                &&& number_of(tx_text@) matches Ok(c) && final(self).tx.count() == c
                &&& number_of(rx_text@) matches Ok(c) && t.rx_rate == bitrate_of(
                    old(self).rx.count(),
                    c,
                    now_us - old(self).rx.stamp(),
                )
                &&& number_of(tx_text@) matches Ok(c) && t.tx_rate == bitrate_of(
                    old(self).tx.count(),
                    c,
                    now_us - old(self).tx.stamp(),
                )
                &&& t.cpu_gauge == cpu_gauge_of(t.cpu_rates@)
                &&& t.disk_gauge == disk_gauge_of(t.disk_rates@)
                &&& t.net_gauge == net_gauge_in(old(self).mode, t.rx_rate, t.tx_rate, old(self).max_mbps)
                &&& final(self).meter.limits() == old(self).meter.limits()
                &&& final(self).meter.shown() == old(self).meter.shown().update(
                    CPU_CHANNEL as int,
                    smoothed(
                        old(self).meter.shown()[CPU_CHANNEL as int] as int,
                        old(self).meter.limits()[CPU_CHANNEL as int],
                        t.cpu_gauge as int,
                    ) as u8,
                ).update(
                    DISK_CHANNEL as int,
                    smoothed(
                        old(self).meter.shown()[DISK_CHANNEL as int] as int,
                        old(self).meter.limits()[DISK_CHANNEL as int],
                        t.disk_gauge as int,
                    ) as u8,
                ).update(
                    NET_CHANNEL as int,
                    smoothed(
                        old(self).meter.shown()[NET_CHANNEL as int] as int,
                        old(self).meter.limits()[NET_CHANNEL as int],
                        t.net_gauge as int,
                    ) as u8,
                )
                &&& frame_views(t.frames@) == seq![
                    frame_of(CPU_CHANNEL, final(self).meter.shown()[CPU_CHANNEL as int]),
                    frame_of(DISK_CHANNEL, final(self).meter.shown()[DISK_CHANNEL as int]),
                    frame_of(NET_CHANNEL, final(self).meter.shown()[NET_CHANNEL as int]),
                ]
            },
    {
        let cpu_rates = self.cpu.cpurates(cpu_text, now_us)?;
        let disk_rates = self.disk.diskrates(disk_text, now_us)?;
        let rx_rate = self.rx.bitrate(rx_text, now_us)?;
        let tx_rate = self.tx.bitrate(tx_text, now_us)?;
        let cg = cpu_gauge(&cpu_rates);
        let dg = disk_gauge(&disk_rates);
        let ng = match self.mode {
            NetMode::OneWay => net_gauge(rx_rate, tx_rate, self.max_mbps),
            NetMode::Centered => net_gauge_centered(rx_rate, tx_rate, self.max_mbps),
        };
        let mut frames: Vec<[u8; 4]> = Vec::new();
        frames.push(set_channel(&mut self.meter, CPU_CHANNEL, cg));
        frames.push(set_channel(&mut self.meter, DISK_CHANNEL, dg));
        frames.push(set_channel(&mut self.meter, NET_CHANNEL, ng));
        proof {
            assert(frame_views(frames@) =~= seq![
                frame_of(CPU_CHANNEL, self.meter.shown()[CPU_CHANNEL as int]),
                frame_of(DISK_CHANNEL, self.meter.shown()[DISK_CHANNEL as int]),
                frame_of(NET_CHANNEL, self.meter.shown()[NET_CHANNEL as int]),
            ]);
        }
        Ok(
            Tick {
                cpu_rates,
                disk_rates,
                rx_rate,
                tx_rate,
                cpu_gauge: cg,
                disk_gauge: dg,
                net_gauge: ng,
                frames,
            },
        )
    }
}

/// Moves a channel that the meter has toward `gauge` and returns its frame.
fn set_channel(meter: &mut Smoother, channel: u8, gauge: i64) -> (f: [u8; 4])
    requires
        old(meter).wf(),
        (channel as int) < old(meter).limits().len(),
    ensures
        final(meter).wf(),
        final(meter).limits() == old(meter).limits(),
        final(meter).shown() == old(meter).shown().update(
            channel as int,
            smoothed(
                old(meter).shown()[channel as int] as int,
                old(meter).limits()[channel as int],
                gauge as int,
            ) as u8,
        ),
        f@ == frame_of(channel, final(meter).shown()[channel as int]),
{
    match meter.set_vu(channel, gauge) {
        Ok(f) => f,
        Err(_) => {
            proof {
                assert(false);
            }
            [0u8; 4]
        },
    }
}

} // verus!
