//! Drives a multi-channel analog meter from operating-system performance
//! counters: counter text is parsed into samples, samples into rates, rates
//! into gauge values, and gauge values into rate-limited four-byte frames.

mod config;
mod fixed;
mod gauge;
mod meter;
mod order;
mod sampler;
mod stats;
mod text;

pub use config::{sample_period_ns, sleep_ns, LogLevel, OptsCommon};
pub use gauge::{
    cpu_gauge, disk_gauge, net_gauge, net_gauge_centered, DISK_FULL_SCALE, GAUGE_SCALE,
    NET_CENTER, NET_CEILING, NET_DOWN_FACTOR, NET_FLOOR, NET_UP_FACTOR,
};
pub use meter::{
    encode_frame, sweep_value, ChannelRange, MeterError, Smoother, CHANNELS_NUM, CHANNEL_BASE,
    FRAME_SET, FRAME_SYNC, MAX_STEP, SWEEP_LEN,
};
pub use order::sort_desc;
pub use sampler::{meter_ranges, NetMode, Tick, VuMeter, CPU_CHANNEL, DISK_CHANNEL, NET_CHANNEL};
pub use stats::{
    bitrate_between, busy_between, disk_rate_between, read_cpu_idle, read_diskstats,
    read_number, CpuStats, DiskCounters, DiskStats, IfCounter, IfStats, StatsError,
};
pub use text::{parse_i64, split_fields, split_lines};
