//! The meter's channels: rate-limited needle positions and the four-byte
//! command frames that set them.
use vstd::prelude::*;

use crate::fixed::floor_div;
use crate::gauge::GAUGE_SCALE;

verus! {

/// The most a needle moves in one update, in gauge units.
pub const MAX_STEP: i64 = 96;

/// How many channels a frame can address.
pub const CHANNELS_NUM: usize = 192;

/// First byte of every frame.
pub const FRAME_SYNC: u8 = 0xFD;

/// Second byte of every frame: the command that sets a needle.
pub const FRAME_SET: u8 = 0x02;

/// Added to a channel number to give the frame's channel byte.
pub const CHANNEL_BASE: u8 = 0x30;

/// The frame that sets `channel` to `value`.
pub open spec fn frame_of(channel: u8, value: u8) -> Seq<u8> {
    seq![FRAME_SYNC, FRAME_SET, (CHANNEL_BASE + channel) as u8, value]
}

/// Builds the frame that sets `channel` to `value`.
pub fn encode_frame(channel: u8, value: u8) -> (r: [u8; 4])
    requires
        (channel as usize) < CHANNELS_NUM,
    ensures
        r@ == frame_of(channel, value),
{
    let r = [FRAME_SYNC, FRAME_SET, CHANNEL_BASE + channel, value];
    proof {
        assert(r@ =~= frame_of(channel, value));
    }
    r
}

/// The positions a channel's needle may take, and where it starts.
#[derive(Debug, Clone, Copy, PartialEq, Eq, Structural)]
pub struct ChannelRange {
    pub lo: u8,
    pub hi: u8,
    pub rest: u8,
}

impl ChannelRange {
    /// The range is not empty and holds the starting position.
    pub open spec fn wf(&self) -> bool {
        self.lo <= self.rest <= self.hi
    }
}

/// Where a raw gauge value `g`, in thousandths, asks the needle to be: its
/// whole units, rounded down and clamped into `[lo, hi]`.
pub open spec fn target_of(g: int, lo: int, hi: int) -> int {
    let units = g / GAUGE_SCALE as int;
    if units < lo {
        lo
    } else if units > hi {
        hi
    } else {
        units
    }
}

/// Where a needle at `last` goes on its way to `target`: toward it by at
/// most `MAX_STEP` units.
pub open spec fn step_toward(last: int, target: int) -> int {
    let delta = target - last;
    if delta > MAX_STEP {
        last + MAX_STEP
    } else if delta < -MAX_STEP {
        last - MAX_STEP
    } else {
        target
    }
}

/// Where a needle at `last` on a channel of range `c` goes for the raw gauge
/// value `g`.
pub open spec fn smoothed(last: int, c: ChannelRange, g: int) -> int {
    step_toward(last, target_of(g, c.lo as int, c.hi as int))
}

/// Whatever the raw gauge value, a needle that starts in its channel's
/// range stays in it, and moves by at most `MAX_STEP` units.
pub proof fn lemma_smoothed_bounds(last: int, c: ChannelRange, g: int)
    requires
        c.lo <= last <= c.hi,
    ensures
        c.lo <= smoothed(last, c, g) <= c.hi,
        -MAX_STEP <= smoothed(last, c, g) - last <= MAX_STEP,
{
}

/// Why a channel could not be set.
#[derive(Debug, Clone, Copy, PartialEq, Eq, Structural)]
pub enum MeterError {
    /// The meter has no such channel.
    NoSuchChannel,
}

/// The needle positions of every channel of the meter.
#[derive(Debug)]
pub struct Smoother {
    ranges: Vec<ChannelRange>,
    last: Vec<u8>,
}

impl Smoother {
    /// Each channel's range.
    pub closed spec fn limits(&self) -> Seq<ChannelRange> {
        self.ranges@
    }

    /// Each channel's needle position.
    pub closed spec fn shown(&self) -> Seq<u8> {
        self.last@
    }

    /// Well-formed: every needle lies in its channel's range, and every
    /// channel can be addressed by a frame.
    pub open spec fn wf(&self) -> bool {
        &&& self.limits().len() == self.shown().len()
        &&& self.limits().len() <= CHANNELS_NUM
        &&& forall|i: int|
            0 <= i < self.limits().len() ==> #[trigger] self.limits()[i].lo <= self.shown()[i]
                <= self.limits()[i].hi
    }

    /// A meter whose channels have the given ranges, each needle at rest.
    pub fn new(ranges: Vec<ChannelRange>) -> (r: Smoother)
        requires
            ranges@.len() <= CHANNELS_NUM,
            forall|i: int| 0 <= i < ranges@.len() ==> (#[trigger] ranges@[i]).wf(),
        ensures
            r.wf(),
            r.limits() == ranges@,
            r.shown() == ranges@.map_values(|c: ChannelRange| c.rest),
    {
        let mut last: Vec<u8> = Vec::new();
        let mut i: usize = 0;
        while i < ranges.len()
            invariant
                i <= ranges@.len(),
                last@ == ranges@.take(i as int).map_values(|c: ChannelRange| c.rest),
            decreases ranges.len() - i,
        {
            last.push(ranges[i].rest);
            i = i + 1;
            proof {
                assert(last@ =~= ranges@.take(i as int).map_values(|c: ChannelRange| c.rest));
            }
        }
        proof {
            assert(ranges@.take(i as int) =~= ranges@);
        }
        Smoother { ranges, last }
    }

    /// Moves `channel`'s needle toward the raw gauge value `gauge`, in
    /// thousandths, and returns its new position.
    pub fn smooth(&mut self, channel: u8, gauge: i64) -> (r: Result<u8, MeterError>)
        requires
            old(self).wf(),
        ensures
            final(self).wf(),
            final(self).limits() == old(self).limits(),
            r matches Ok(v) ==> old(self).limits()[channel as int].lo <= v <= old(
                self,
            ).limits()[channel as int].hi,
            r matches Ok(v) ==> -MAX_STEP <= v - old(self).shown()[channel as int] <= MAX_STEP,
            if (channel as int) < old(self).limits().len() {
                r == Ok::<u8, MeterError>(
                    smoothed(
                        old(self).shown()[channel as int] as int,
                        old(self).limits()[channel as int],
                        gauge as int,
                    ) as u8,
                ) && final(self).shown() == old(self).shown().update(
                    channel as int,
                    smoothed(
                        old(self).shown()[channel as int] as int,
                        old(self).limits()[channel as int],
                        gauge as int,
                    ) as u8,
                )
            } else {
                r == Err::<u8, MeterError>(MeterError::NoSuchChannel) && final(self).shown()
                    == old(self).shown()
            },
    {
        let ch = channel as usize;
        if ch >= self.ranges.len() {
            return Err(MeterError::NoSuchChannel);
        }
        let c = self.ranges[ch];
        let units = floor_div(gauge as i128, GAUGE_SCALE as i128);
        let target: i64 = if units < c.lo as i128 {
            c.lo as i64
        } else if units > c.hi as i128 {
            c.hi as i64
        } else {
            units as i64
        };
        let last = self.last[ch] as i64;
        let delta = target - last;
        let next: i64 = if delta > MAX_STEP {
            last + MAX_STEP
        } else if delta < -MAX_STEP {
            last - MAX_STEP
        } else {
            target
        };
        let value = next as u8;
        self.last.set(ch, value);
        Ok(value)
    }
}

/// Number of steps in the start-up sweep.
pub const SWEEP_LEN: usize = 1024;

/// The needle position, in gauge units, at step `i` of the start-up sweep:
/// up from 0 to 255, down to 128, up to 255, down to 0, up to 255.
pub open spec fn sweep_at(i: int) -> int {
    if i < 256 {
        i
    } else if i < 384 {
        255 - (i - 256)
    } else if i < 512 {
        128 + (i - 384)
    } else if i < 768 {
        255 - (i - 512)
    } else {
        i - 768
    }
}

/// Computes `sweep_at(i)`.
pub fn sweep_value(i: usize) -> (r: u8)
    requires
        i < SWEEP_LEN,
    ensures
        r == sweep_at(i as int),
{
    if i < 256 {
        i as u8
    } else if i < 384 {
        (255 - (i - 256)) as u8
    } else if i < 512 {
        (128 + (i - 384)) as u8
    } else if i < 768 {
        (255 - (i - 512)) as u8
    } else {
        (i - 768) as u8
    }
}

/// The channel that update `t` of the start-up sweep over channels 1 to `n`
/// sets.
pub open spec fn hello_channel(n: int, t: int) -> int {
    t % n + 1
}

/// The needle positions after the first `t` updates of the start-up sweep
/// over channels 1 to `n`, from positions `shown` on channels of ranges
/// `limits`. At each step of the sweep every channel in turn is asked for
/// the sweep's position.
pub open spec fn hello_shown(shown: Seq<u8>, limits: Seq<ChannelRange>, n: int, t: nat) -> Seq<u8>
    decreases t,
{
    if t == 0 {
        shown
    } else {
        let prev = hello_shown(shown, limits, n, (t - 1) as nat);
        let c = hello_channel(n, t - 1);
        prev.update(
            c,
            smoothed(prev[c] as int, limits[c], sweep_at((t - 1) / n) * GAUGE_SCALE) as u8,
        )
    }
}

/// The frames of the start-up sweep over channels 1 to `n`, from positions
/// `shown` on channels of ranges `limits`.
pub open spec fn hello_frames(shown: Seq<u8>, limits: Seq<ChannelRange>, n: int) -> Seq<Seq<u8>> {
    Seq::new(
        (SWEEP_LEN * n) as nat,
        |t: int|
            frame_of(
                hello_channel(n, t) as u8,
                hello_shown(shown, limits, n, (t + 1) as nat)[hello_channel(n, t)],
            ),
    )
}

/// The views of a list of frames.
pub open spec fn frame_views(v: Seq<[u8; 4]>) -> Seq<Seq<u8>> {
    v.map_values(|f: [u8; 4]| f@)
}

/// The start-up sweep depends on the channel count and the starting needle
/// positions alone: two fresh meters with the same channel ranges send the
/// same frames.
pub proof fn lemma_hello_restartable(a: Smoother, b: Smoother, n: int)
    requires
        a.limits() == b.limits(),
        a.shown() == a.limits().map_values(|c: ChannelRange| c.rest),
        b.shown() == b.limits().map_values(|c: ChannelRange| c.rest),
    ensures
        hello_frames(a.shown(), a.limits(), n) == hello_frames(b.shown(), b.limits(), n),
{
}

impl Smoother {
    /// Moves `channel`'s needle toward the raw gauge value `gauge`, in
    /// thousandths, and returns the frame that shows its new position.
    pub fn set_vu(&mut self, channel: u8, gauge: i64) -> (r: Result<[u8; 4], MeterError>)
        requires
            old(self).wf(),
        ensures
            final(self).wf(),
            final(self).limits() == old(self).limits(),
            if (channel as int) < old(self).limits().len() {
                r matches Ok(f) && f@ == frame_of(channel, final(self).shown()[channel as int])
                    && final(self).shown() == old(self).shown().update(
                    channel as int,
                    smoothed(
                        old(self).shown()[channel as int] as int,
                        old(self).limits()[channel as int],
                        gauge as int,
                    ) as u8,
                )
            } else {
                r == Err::<[u8; 4], MeterError>(MeterError::NoSuchChannel) && final(self).shown()
                    == old(self).shown()
            },
    {
        let value = self.smooth(channel, gauge)?;
        Ok(encode_frame(channel, value))
    }

    /// Sweeps channels 1 to `channels` through the start-up sequence and
    /// returns the frames that show it, in order.
    pub fn hello(&mut self, channels: u8) -> (r: Vec<[u8; 4]>)
        requires
            old(self).wf(),
            1 <= channels,
            (channels as int) < old(self).limits().len(),
        ensures
            final(self).wf(),
            final(self).limits() == old(self).limits(),
            final(self).shown() == hello_shown(
                old(self).shown(),
                old(self).limits(),
                channels as int,
                (SWEEP_LEN * channels) as nat,
            ),
            frame_views(r@) == hello_frames(old(self).shown(), old(self).limits(), channels as int),
    {
        let ghost start = self.shown();
        let ghost lim = self.limits();
        let ghost n = channels as int;
        let ghost all = hello_frames(start, lim, n);
        let mut frames: Vec<[u8; 4]> = Vec::new();
        let mut i: usize = 0;
        proof {
            assert(frame_views(frames@) =~= all.take(0));
        }
        while i < SWEEP_LEN
            invariant
                i <= SWEEP_LEN,
                n == channels as int,
                1 <= n < lim.len(),
                self.wf(),
                self.limits() == lim,
                all == hello_frames(start, lim, n),
                self.shown() == hello_shown(start, lim, n, (i * n) as nat),
                frame_views(frames@) == all.take(i * n),
            decreases SWEEP_LEN - i,
        {
            let value = sweep_value(i);
            let gauge: i64 = value as i64 * GAUGE_SCALE;
            let mut c: u8 = 1;
            while c <= channels
                invariant
                    i < SWEEP_LEN,
                    1 <= c <= channels + 1,
                    n == channels as int,
                    1 <= n < lim.len(),
                    self.wf(),
                    self.limits() == lim,
                    all == hello_frames(start, lim, n),
                    value == sweep_at(i as int),
                    gauge == value * GAUGE_SCALE,
                    self.shown() == hello_shown(start, lim, n, (i * n + c - 1) as nat),
                    frame_views(frames@) == all.take(i * n + c - 1),
                decreases channels + 1 - c,
            {
                let ghost t = i * n + c - 1;
                proof {
                    vstd::arithmetic::div_mod::lemma_fundamental_div_mod_converse(
                        t,
                        n,
                        i as int,
                        c - 1,
                    );
                    assert(hello_channel(n, t) == c);
                    assert(t < SWEEP_LEN * n) by (nonlinear_arith)
                        requires
                            t == i * n + c - 1,
                            i < SWEEP_LEN,
                            1 <= c <= n,
                    ;
                }
                let f = match self.set_vu(c, gauge) {
                    Ok(f) => f,
                    Err(_) => {
                        proof {
                            assert(false);
                        }
                        return frames;
                    },
                };
                proof {
                    assert(self.shown() == hello_shown(start, lim, n, (t + 1) as nat));
                    assert(f@ == all[t]);
                    assert(frame_views(frames@.push(f)) =~= frame_views(frames@).push(f@));
                    assert(all.take(t + 1) =~= all.take(t).push(all[t]));
                }
                frames.push(f);
                c = c + 1;
            }
            proof {
                assert(i * n + channels == (i + 1) * n) by (nonlinear_arith)
                    requires
                        n == channels as int,
                ;
            }
            i = i + 1;
        }
        proof {
            assert(all.take(SWEEP_LEN * n) =~= all);
        }
        frames
    }
}

} // verus!
