//! The runtime configuration handed to the command layer: a log level
//! and the two program paths.

use vstd::prelude::*;

verus! {

/// How verbose logging should be.
#[derive(Clone, Copy, Debug, PartialEq, Eq, Structural)]
pub enum LogLevel {
    Off,
    Error,
    Warn,
    Info,
    Debug,
    Trace,
}

/// The loaded configuration.
pub struct Config {
    pub loglevel: LogLevel,
    pub ffmpeg: String,
    pub ffprobe: String,
}

impl Config {
    /// The configured log level.
    pub fn loglevel(&self) -> (r: LogLevel)
        ensures
            r == self.loglevel,
    {
        self.loglevel
    }

    /// The configured ffmpeg command.
    pub fn ffmpeg(&self) -> (r: &str)
        ensures
            r@ == self.ffmpeg@,
    {
        self.ffmpeg.as_str()
    }

    /// The configured ffprobe command.
    pub fn ffprobe(&self) -> (r: &str)
        ensures
            r@ == self.ffprobe@,
    {
        self.ffprobe.as_str()
    }
}

} // verus!
