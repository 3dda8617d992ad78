use perf_vumeter::{
    meter_ranges, encode_frame, sweep_value, ChannelRange, MeterError, Smoother, CHANNELS_NUM, MAX_STEP,
    SWEEP_LEN,
};

fn full(n: usize) -> Vec<ChannelRange> {
    vec![ChannelRange { lo: 0, hi: 255, rest: 0 }; n]
}

#[test]
fn frame_layout() {
    assert_eq!(encode_frame(1, 200), [0xFD, 0x02, 0x31, 200]);
    assert_eq!(encode_frame(3, 0), [0xFD, 0x02, 0x33, 0]);
    assert_eq!(encode_frame((CHANNELS_NUM - 1) as u8, 255), [0xFD, 0x02, 0xEF, 255]);
}

#[test]
fn smoothing_limits_each_step() {
    let mut m = Smoother::new(full(4));
    assert_eq!(MAX_STEP, 96);
    assert_eq!(m.smooth(1, 255_000), Ok(96));
    assert_eq!(m.smooth(1, 255_000), Ok(192));
    assert_eq!(m.smooth(1, 255_000), Ok(255));
    assert_eq!(m.smooth(1, 0), Ok(159));
    assert_eq!(m.smooth(1, 150_999), Ok(150));
}

#[test]
fn smoothing_clamps_into_the_channel_range() {
    let mut m = Smoother::new(vec![
        ChannelRange { lo: 0, hi: 255, rest: 0 },
        ChannelRange { lo: 28, hi: 255, rest: 108 },
    ]);
    assert_eq!(m.smooth(1, -5_000_000), Ok(28));
    assert_eq!(m.smooth(1, 9_000_000_000), Ok(124));
    assert_eq!(m.smooth(0, -1), Ok(0));
    assert_eq!(m.smooth(0, i64::MAX), Ok(96));
}

#[test]
fn smoothing_unknown_channel() {
    let mut m = Smoother::new(full(2));
    assert_eq!(m.smooth(2, 0), Err(MeterError::NoSuchChannel));
    assert_eq!(m.set_vu(200, 0), Err(MeterError::NoSuchChannel));
}

#[test]
fn set_vu_sends_the_smoothed_position() {
    let mut m = Smoother::new(full(4));
    assert_eq!(m.set_vu(1, 200_000), Ok([0xFD, 0x02, 0x31, 96]));
    assert_eq!(m.set_vu(1, 200_000), Ok([0xFD, 0x02, 0x31, 192]));
    assert_eq!(m.set_vu(1, 200_000), Ok([0xFD, 0x02, 0x31, 200]));
}

#[test]
fn sweep_shape() {
    assert_eq!(SWEEP_LEN, 1024);
    assert_eq!(sweep_value(0), 0);
    assert_eq!(sweep_value(255), 255);
    assert_eq!(sweep_value(256), 255);
    assert_eq!(sweep_value(383), 128);
    assert_eq!(sweep_value(384), 128);
    assert_eq!(sweep_value(511), 255);
    assert_eq!(sweep_value(767), 0);
    assert_eq!(sweep_value(1023), 255);
}

#[test]
fn hello_sweeps_every_channel() {
    let mut m = Smoother::new(full(4));
    let frames = m.hello(3);
    assert_eq!(frames.len(), SWEEP_LEN * 3);
    assert_eq!(frames[0], [0xFD, 0x02, 0x31, 0]);
    assert_eq!(frames[1], [0xFD, 0x02, 0x32, 0]);
    assert_eq!(frames[2], [0xFD, 0x02, 0x33, 0]);
    assert_eq!(frames[3 * 255], [0xFD, 0x02, 0x31, 255]);
    assert_eq!(frames[3 * 767 + 2], [0xFD, 0x02, 0x33, 0]);
    assert_eq!(frames[3 * 1023 + 2], [0xFD, 0x02, 0x33, 255]);
}

#[test]
fn hello_is_restartable() {
    let ranges = vec![
        ChannelRange { lo: 28, hi: 255, rest: 28 },
        ChannelRange { lo: 28, hi: 255, rest: 28 },
        ChannelRange { lo: 28, hi: 255, rest: 28 },
        ChannelRange { lo: 28, hi: 255, rest: 108 },
    ];
    let first = Smoother::new(ranges.clone()).hello(3);
    let second = Smoother::new(ranges).hello(3);
    assert_eq!(first, second);
    assert_eq!(first[0], [0xFD, 0x02, 0x31, 28]);
}

#[test]
fn meter_ranges_rest_each_needle() {
    let r = meter_ranges();
    assert_eq!(r.len(), 4);
    assert_eq!(r[1], ChannelRange { lo: 28, hi: 255, rest: 28 });
    assert_eq!(r[3], ChannelRange { lo: 28, hi: 255, rest: 108 });
    let mut m = Smoother::new(r);
    assert_eq!(m.smooth(2, 0), Ok(28));
    assert_eq!(m.smooth(3, 0), Ok(28));
}
