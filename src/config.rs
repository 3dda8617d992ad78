//! The options the meter runs with, and the timing of its samples.
use vstd::prelude::*;

verus! {

/// How much the program logs, from least to most.
#[derive(Debug, Clone, Copy, PartialEq, Eq, Structural)]
pub enum LogLevel {
    Error,
    Warn,
    Info,
    Debug,
    Trace,
}

/// The options the meter runs with.
#[derive(Debug, Default, Clone)]
pub struct OptsCommon {
    pub verbose: bool,
    pub debug: bool,
    pub trace: bool,
    /// The serial device the meter is attached to.
    pub port: String,
    /// The network interface whose traffic is shown.
    pub interface: String,
    /// Samples per second.
    pub samplerate: u16,
    /// The network rate, in megabits per second, that fills the gauge.
    pub max_mbps: u16,
}

impl OptsCommon {
    /// The log level the flags ask for: the most detailed one set, else only
    /// errors.
    pub fn get_loglevel(&self) -> (r: LogLevel)
        ensures
            r == (if self.trace {
                LogLevel::Trace
            } else if self.debug {
                LogLevel::Debug
            } else if self.verbose {
                LogLevel::Info
            } else {
                LogLevel::Error
            }),
    {
        if self.trace {
            LogLevel::Trace
        } else if self.debug {
            LogLevel::Debug
        } else if self.verbose {
            LogLevel::Info
        } else {
            LogLevel::Error
        }
    }
}

/// Nanoseconds between samples at `samplerate` samples per second.
pub fn sample_period_ns(samplerate: u16) -> (r: u32)
    requires
        samplerate > 0,
    ensures
        r == 1_000_000_000int / (samplerate as int),
{
    1_000_000_000u32 / samplerate as u32
}

/// How long to sleep before the next sample, so that samples stay one
/// period apart: the period less the time the previous sample took, and no
/// sleep once that time reaches the period.
pub fn sleep_ns(period_ns: u32, elapsed_ns: u32) -> (r: u32)
    ensures
        r == (if elapsed_ns < period_ns {
            period_ns - elapsed_ns
        } else {
            0
        }),
        r <= period_ns,
{
    if elapsed_ns < period_ns {
        period_ns - elapsed_ns
    } else {
        0
    }
}

} // verus!
