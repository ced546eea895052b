//! The file-backed application settings: which binaries to drive.
//! Reading the settings file belongs to the embedding application; the
//! defaults and accessors live here.

use vstd::prelude::*;

verus! {

/// The binary locations, by command name by default.
pub struct Binary {
    pub ffmpeg: String,
    pub ffprob: String,
}

impl Binary {
    /// The default ffmpeg location: the plain command name.
    pub fn default_ffmpeg() -> (r: String)
        ensures
            r@ == "ffmpeg"@,
    {
        String::from_str("ffmpeg")
    }

    /// The default ffprobe location: the plain command name.
    pub fn default_ffprobe() -> (r: String)
        ensures
            r@ == "ffprobe"@,
    {
        String::from_str("ffprobe")
    }

    /// Both locations at their defaults.
    pub fn default() -> (r: Binary)
        ensures
            r.ffmpeg@ == "ffmpeg"@,
            r.ffprob@ == "ffprobe"@,
    {
        Binary { ffmpeg: Binary::default_ffmpeg(), ffprob: Binary::default_ffprobe() }
    }

    /// The ffmpeg command.
    pub fn ffmpeg(&self) -> (r: &str)
        ensures
            r@ == self.ffmpeg@,
    {
        self.ffmpeg.as_str()
    }

    /// The ffprobe command.
    pub fn ffprobe(&self) -> (r: &str)
        ensures
            r@ == self.ffprob@,
    {
        self.ffprob.as_str()
    }
}

/// The whole settings file.
pub struct Config {
    pub binary: Binary,
}

impl Config {
    /// Settings with every field at its default.
    pub fn default() -> (r: Config)
        ensures
            r.binary.ffmpeg@ == "ffmpeg"@,
            r.binary.ffprob@ == "ffprobe"@,
    {
        Config { binary: Binary::default() }
    }

    /// The binary locations.
    pub fn binary(&self) -> (r: &Binary)
        ensures
            *r == self.binary,
    {
        &self.binary
    }
}

} // verus!
