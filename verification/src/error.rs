//! Error kinds surfaced by the core.
//!
//! Every failure the supervisor can report is one of these variants.  The
//! embedding application converts raw I/O errors into plain strings before
//! handing them to the library, so the variants hold only plain values.

use vstd::prelude::*;

verus! {

/// An error that carries enough structure for a UI to build localized
/// messages: a kind plus the keywords that belong to it.
#[derive(Debug)]
#[allow(inconsistent_fields)]
pub enum Error {
    /// Fallback for unexpected I/O or event-emission failures.
    Internal { raw_error: String },
    /// The subprocess exited with failure, or its progress stream ended
    /// before a `progress=end` line.
    ProcessUnexpectedKilled,
    /// Spawning ffmpeg reported "no such file".
    FFmpegNotFound { program: String },
    /// Spawning ffprobe reported "no such file".
    FFprobeNotFound { program: String },
    /// Spawning ffmpeg failed for another reason.
    FFmpegUnavailable { program: String, raw_error: Option<String> },
    /// Spawning ffprobe failed for another reason.
    FFprobeUnavailable { program: String, raw_error: Option<String> },
    /// ffmpeg wrote to its diagnostic stream while transcoding.
    FFmpegRuntimeError { reason: String },
    /// ffprobe wrote to its diagnostic stream.
    FFprobeRuntimeError { reason: String },
    /// A directory handed in by a collaborator does not exist.
    DirectoryNotFound { path: String },
    /// A store operation named an id with no live task.
    TaskNotFound { id: String },
    /// A store insertion named an id that is already live.
    TaskExisting { id: String },
    /// A command ran before the configuration was loaded.
    ConfigurationNotLoaded,
    /// The configuration could not be validated.
    ConfigurationUnavailable { reasons: Vec<Error> },
}

impl Error {
    pub fn internal(raw_error: String) -> (r: Error)
        ensures
            r == (Error::Internal { raw_error }),
    {
        Error::Internal { raw_error }
    }

    pub fn process_unexpected_killed() -> (r: Error)
        ensures
            r == Error::ProcessUnexpectedKilled,
    {
        Error::ProcessUnexpectedKilled
    }

    pub fn ffmpeg_not_found(program: String) -> (r: Error)
        ensures
            r == (Error::FFmpegNotFound { program }),
    {
        Error::FFmpegNotFound { program }
    }

    pub fn ffprobe_not_found(program: String) -> (r: Error)
        ensures
            r == (Error::FFprobeNotFound { program }),
    {
        Error::FFprobeNotFound { program }
    }

    pub fn ffmpeg_unavailable_with_raw_error(program: String, raw_error: String) -> (r: Error)
        ensures
            r == (Error::FFmpegUnavailable { program, raw_error: Some(raw_error) }),
    {
        Error::FFmpegUnavailable { program, raw_error: Some(raw_error) }
    }

    pub fn ffmpeg_unavailable(program: String) -> (r: Error)
        ensures
            r == (Error::FFmpegUnavailable { program, raw_error: None }),
    {
        Error::FFmpegUnavailable { program, raw_error: None }
    }

    pub fn ffprobe_unavailable_with_raw_error(program: String, raw_error: String) -> (r: Error)
        ensures
            r == (Error::FFprobeUnavailable { program, raw_error: Some(raw_error) }),
    {
        Error::FFprobeUnavailable { program, raw_error: Some(raw_error) }
    }

    pub fn ffprobe_unavailable(program: String) -> (r: Error)
        ensures
            r == (Error::FFprobeUnavailable { program, raw_error: None }),
    {
        Error::FFprobeUnavailable { program, raw_error: None }
    }

    pub fn ffmpeg_runtime_error(reason: String) -> (r: Error)
        ensures
            r == (Error::FFmpegRuntimeError { reason }),
    {
        Error::FFmpegRuntimeError { reason }
    }

    pub fn ffprobe_runtime_error(reason: String) -> (r: Error)
        ensures
            r == (Error::FFprobeRuntimeError { reason }),
    {
        Error::FFprobeRuntimeError { reason }
    }

    pub fn directory_not_found(path: String) -> (r: Error)
        ensures
            r == (Error::DirectoryNotFound { path }),
    {
        Error::DirectoryNotFound { path }
    }

    pub fn task_not_found(id: String) -> (r: Error)
        ensures
            r == (Error::TaskNotFound { id }),
    {
        Error::TaskNotFound { id }
    }

    pub fn task_existing(id: String) -> (r: Error)
        ensures
            r == (Error::TaskExisting { id }),
    {
        Error::TaskExisting { id }
    }

    pub fn configuration_not_loaded() -> (r: Error)
        ensures
            r == Error::ConfigurationNotLoaded,
    {
        Error::ConfigurationNotLoaded
    }

    pub fn configuration_unavailable(reasons: Vec<Error>) -> (r: Error)
        ensures
            r == (Error::ConfigurationUnavailable { reasons }),
    {
        Error::ConfigurationUnavailable { reasons }
    }
}

} // verus!

verus! {

pub open spec fn msg_internal(cause: Seq<char>) -> Seq<char> {
    "internal error: "@ + cause
}

pub open spec fn msg_process_unexpected_killed() -> Seq<char> {
    "process unexpected killed"@
}

pub open spec fn msg_ffmpeg_not_found(program: Seq<char>) -> Seq<char> {
    "ffmpeg binary not found: \""@ + program + "\""@
}

pub open spec fn msg_ffprobe_not_found(program: Seq<char>) -> Seq<char> {
    "ffprobe binary not found: \""@ + program + "\""@
}

pub open spec fn msg_ffmpeg_unavailable(program: Seq<char>, raw: Option<Seq<char>>) -> Seq<char> {
    match raw {
        Some(e) => "ffmpeg binary unavailable: \""@ + program + "\" "@ + e,
        None => "ffmpeg binary unavailable: \""@ + program + "\""@,
    }
}

pub open spec fn msg_ffprobe_unavailable(program: Seq<char>, raw: Option<Seq<char>>) -> Seq<char> {
    match raw {
        Some(e) => "ffprobe binary unavailable: \""@ + program + "\" "@ + e,
        None => "ffprobe binary unavailable: \""@ + program + "\""@,
    }
}

pub open spec fn msg_ffmpeg_runtime(reason: Seq<char>) -> Seq<char> {
    "ffmpeg runtime error: "@ + reason
}

pub open spec fn msg_ffprobe_runtime(reason: Seq<char>) -> Seq<char> {
    "ffprobe runtime error: "@ + reason
}

pub open spec fn msg_directory_not_found(path: Seq<char>) -> Seq<char> {
    "directory not found: \""@ + path + "\""@
}

pub open spec fn msg_task_not_found(id: Seq<char>) -> Seq<char> {
    "task with specified id not found: \""@ + id + "\""@
}

pub open spec fn msg_task_existing(id: Seq<char>) -> Seq<char> {
    "task with specified id is existing: \""@ + id + "\""@
}

pub open spec fn msg_configuration_not_loaded() -> Seq<char> {
    "configuration not loaded"@
}

/// The reasons' messages, joined with a line feed (on every platform:
/// the embedding's platform-conditional line ending is not modelled).
pub open spec fn spec_joined_reasons(rs: Vec<Error>, i: int) -> Seq<char>
    decreases rs, rs@.len() - i,
{
    if i < 0 || i >= rs@.len() {
        Seq::empty()
    } else if i == rs@.len() - 1 {
        rs@[i].spec_message()
    } else {
        rs@[i].spec_message() + "\n"@ + spec_joined_reasons(rs, i + 1)
    }
}

impl Error {
    /// The rendered message of this error.  An unavailable
    /// configuration renders its summary followed by every reason's
    /// message, one per line.
    pub open spec fn spec_message(self) -> Seq<char>
        decreases self, 0int,
    {
        match self {
            Error::Internal { raw_error } => msg_internal(raw_error@),
            Error::ProcessUnexpectedKilled => msg_process_unexpected_killed(),
            Error::FFmpegNotFound { program } => msg_ffmpeg_not_found(program@),
            Error::FFprobeNotFound { program } => msg_ffprobe_not_found(program@),
            Error::FFmpegUnavailable { program, raw_error } => msg_ffmpeg_unavailable(
                program@,
                match raw_error {
                    Some(e) => Some(e@),
                    None => None,
                },
            ),
            Error::FFprobeUnavailable { program, raw_error } => msg_ffprobe_unavailable(
                program@,
                match raw_error {
                    Some(e) => Some(e@),
                    None => None,
                },
            ),
            Error::FFmpegRuntimeError { reason } => msg_ffmpeg_runtime(reason@),
            Error::FFprobeRuntimeError { reason } => msg_ffprobe_runtime(reason@),
            Error::DirectoryNotFound { path } => msg_directory_not_found(path@),
            Error::TaskNotFound { id } => msg_task_not_found(id@),
            Error::TaskExisting { id } => msg_task_existing(id@),
            Error::ConfigurationNotLoaded => msg_configuration_not_loaded(),
            Error::ConfigurationUnavailable { reasons } => "configuration unavailable: "@
                + spec_joined_reasons(reasons, 0),
        }
    }

    /// Renders the message, exactly as [`Error::spec_message`] states it.
    pub fn to_message(&self) -> (r: String)
        ensures
            r@ == self.spec_message(),
        decreases self, 0int,
    {
        match self {
            Error::Internal { raw_error } => String::from_str("internal error: ").concat(
                raw_error.as_str(),
            ),
            Error::ProcessUnexpectedKilled => String::from_str("process unexpected killed"),
            Error::FFmpegNotFound { program } => String::from_str(
                "ffmpeg binary not found: \"",
            ).concat(program.as_str()).concat("\""),
            Error::FFprobeNotFound { program } => String::from_str(
                "ffprobe binary not found: \"",
            ).concat(program.as_str()).concat("\""),
            Error::FFmpegUnavailable { program, raw_error } => {
                match raw_error {
                    Some(e) => String::from_str("ffmpeg binary unavailable: \"").concat(
                        program.as_str(),
                    ).concat("\" ").concat(e.as_str()),
                    None => String::from_str("ffmpeg binary unavailable: \"").concat(
                        program.as_str(),
                    ).concat("\""),
                }
            },
            Error::FFprobeUnavailable { program, raw_error } => {
                match raw_error {
                    Some(e) => String::from_str("ffprobe binary unavailable: \"").concat(
                        program.as_str(),
                    ).concat("\" ").concat(e.as_str()),
                    None => String::from_str("ffprobe binary unavailable: \"").concat(
                        program.as_str(),
                    ).concat("\""),
                }
            },
            Error::FFmpegRuntimeError { reason } => String::from_str(
                "ffmpeg runtime error: ",
            ).concat(reason.as_str()),
            Error::FFprobeRuntimeError { reason } => String::from_str(
                "ffprobe runtime error: ",
            ).concat(reason.as_str()),
            Error::DirectoryNotFound { path } => String::from_str(
                "directory not found: \"",
            ).concat(path.as_str()).concat("\""),
            Error::TaskNotFound { id } => String::from_str(
                "task with specified id not found: \"",
            ).concat(id.as_str()).concat("\""),
            Error::TaskExisting { id } => String::from_str(
                "task with specified id is existing: \"",
            ).concat(id.as_str()).concat("\""),
            Error::ConfigurationNotLoaded => String::from_str("configuration not loaded"),
            Error::ConfigurationUnavailable { reasons } => {
                let joined = joined_reasons(reasons, 0);
                String::from_str("configuration unavailable: ").concat(joined.as_str())
            },
        }
    }
}

/// Renders the reasons from `i` on, each on its own line, as
/// [`spec_joined_reasons`] states it.
fn joined_reasons(rs: &Vec<Error>, i: usize) -> (r: String)
    requires
        i <= rs@.len(),
    ensures
        r@ == spec_joined_reasons(*rs, i as int),
    decreases rs, rs@.len() - i,
{
    if i >= rs.len() {
        String::new()
    } else if i == rs.len() - 1 {
        rs[i].to_message()
    } else {
        rs[i].to_message().concat("\n").concat(joined_reasons(rs, i + 1).as_str())
    }
}

} // verus!
