//! The task lifecycle state machine.
//!
//! A task moves Idle → Running ↔ Pausing → Stopped/Finished/Errored.
//! Every transition is a total function of the current state and the
//! outcomes of the effects the embedding application performed for it
//! (probing and spawning, joining the watchdog, signalling, killing);
//! the application performs the effect, then hands its outcome here.
//! Illegal transitions return the state unchanged, and terminal states
//! absorb everything.

use vstd::prelude::*;

use crate::error::Error;
use crate::progress::ProgressType;

verus! {

/// The name of a state, without its resources.
#[derive(Clone, Copy, Debug, PartialEq, Eq, Structural)]
pub enum TaskStateCode {
    Idle,
    Running,
    Pausing,
    Stopped,
    Finished,
    Errored,
}

/// A state node.  Running and Pausing carry the progress basis computed
/// when the task first started; an errored state carries its reason.
pub enum TaskState {
    Idle,
    Running { progress_type: ProgressType },
    Pausing { progress_type: ProgressType },
    Stopped,
    Finished,
    Errored { reason: String },
}

/// How spawning the subprocess ended.
pub enum SpawnOutcome {
    Spawned,
    NotFound,
    Other { reason: String },
}

/// How awaiting the watchdog ended.
pub enum JoinOutcome {
    Joined,
    Panicked { reason: String },
}

/// How killing the subprocess and awaiting its exit ended.  A process
/// that had already exited counts as stopped, not as a failure.
pub enum KillOutcome {
    Killed,
    AlreadyExited,
    Failed { reason: String },
}

/// How delivering a pause or resume signal (or control byte) ended.
pub enum SignalOutcome {
    Delivered,
    NoPid,
    Failed { reason: String },
}

/// The reason reported when the subprocess id could not be read for
/// signalling.
pub open spec fn msg_pid_not_found() -> Seq<char> {
    "ffmpeg pid not found"@
}

impl TaskState {
    /// Which state this is.
    pub fn code(&self) -> (r: TaskStateCode)
        ensures
            r == self.spec_code(),
    {
        match self {
            TaskState::Idle => TaskStateCode::Idle,
            TaskState::Running { .. } => TaskStateCode::Running,
            TaskState::Pausing { .. } => TaskStateCode::Pausing,
            TaskState::Stopped => TaskStateCode::Stopped,
            TaskState::Finished => TaskStateCode::Finished,
            TaskState::Errored { .. } => TaskStateCode::Errored,
        }
    }

    pub open spec fn spec_code(&self) -> TaskStateCode {
        match self {
            TaskState::Idle => TaskStateCode::Idle,
            TaskState::Running { .. } => TaskStateCode::Running,
            TaskState::Pausing { .. } => TaskStateCode::Pausing,
            TaskState::Stopped => TaskStateCode::Stopped,
            TaskState::Finished => TaskStateCode::Finished,
            TaskState::Errored { .. } => TaskStateCode::Errored,
        }
    }

    /// Stopped, Finished and Errored absorb every transition.
    pub open spec fn is_terminal(&self) -> bool {
        self is Stopped || self is Finished || self is Errored
    }

    /// The errored reason, when there is one.
    pub fn message(&self) -> (r: Option<&str>)
        ensures
            match r {
                Some(m) => self matches TaskState::Errored { reason } && m@ == reason@,
                None => !(self is Errored),
            },
    {
        match self {
            TaskState::Errored { reason } => Some(reason.as_str()),
            _ => None,
        }
    }

    /// Starting: resolve the progress basis, create output directories,
    /// spawn the subprocess.  All three succeeding makes the task
    /// Running; the first failure makes it Errored with that failure's
    /// message.  Only an Idle task starts; any other state is returned
    /// unchanged.
    pub fn start(
        self,
        resolve: Result<ProgressType, Error>,
        mkdir: Result<(), String>,
        spawn: SpawnOutcome,
        ffmpeg_program: &str,
    ) -> (r: TaskState)
        ensures
            match self {
                TaskState::Idle => match resolve {
                    Result::Err(e) => r matches TaskState::Errored { reason } && reason@
                        == e.spec_message(),
                    Result::Ok(pt) => match mkdir {
                        Result::Err(m) => r matches TaskState::Errored { reason } && reason@ == m@,
                        Result::Ok(_) => match spawn {
                            SpawnOutcome::Spawned => r == (TaskState::Running {
                                progress_type: pt,
                            }),
                            SpawnOutcome::NotFound => r matches TaskState::Errored { reason }
                                && reason@ == crate::error::msg_ffmpeg_not_found(
                                ffmpeg_program@,
                            ),
                            SpawnOutcome::Other { reason: raw } => r matches TaskState::Errored {
                                reason,
                            } && reason@ == crate::error::msg_ffmpeg_unavailable(
                                ffmpeg_program@,
                                Some(raw@),
                            ),
                        },
                    },
                },
                _ => r == self,
            },
            r@ == spec_start(self@, resolve, mkdir, spawn, ffmpeg_program@),
    {
        match self {
            TaskState::Idle => {
                match resolve {
                    Result::Err(e) => TaskState::Errored { reason: e.to_message() },
                    Result::Ok(pt) => {
                        match mkdir {
                            Result::Err(m) => TaskState::Errored { reason: m },
                            Result::Ok(_) => {
                                match spawn {
                                    SpawnOutcome::Spawned => TaskState::Running {
                                        progress_type: pt,
                                    },
                                    SpawnOutcome::NotFound => {
                                        let e = Error::ffmpeg_not_found(
                                            String::from_str(ffmpeg_program),
                                        );
                                        TaskState::Errored { reason: e.to_message() }
                                    },
                                    SpawnOutcome::Other { reason: raw } => {
                                        let e = Error::ffmpeg_unavailable_with_raw_error(
                                            String::from_str(ffmpeg_program),
                                            raw,
                                        );
                                        TaskState::Errored { reason: e.to_message() }
                                    },
                                }
                            },
                        }
                    },
                }
            },
            other => other,
        }
    }

    /// Pausing: cancel the captures, await the watchdog, then signal the
    /// subprocess to stop.  Only a Running task pauses; any other state
    /// is returned unchanged.
    pub fn pause(self, join: JoinOutcome, signal: SignalOutcome) -> (r: TaskState)
        ensures
            match self {
                TaskState::Running { progress_type } => match join {
                    JoinOutcome::Panicked { reason: jr } => r matches TaskState::Errored { reason }
                        && reason@ == jr@,
                    JoinOutcome::Joined => match signal {
                        SignalOutcome::Delivered => r == (TaskState::Pausing { progress_type }),
                        SignalOutcome::NoPid => r matches TaskState::Errored { reason } && reason@
                            == msg_pid_not_found(),
                        SignalOutcome::Failed { reason: sr } => r matches TaskState::Errored {
                            reason,
                        } && reason@ == sr@,
                    },
                },
                _ => r == self,
            },
            r@ == spec_pause(self@, join, signal),
    {
        match self {
            TaskState::Running { progress_type } => {
                match join {
                    JoinOutcome::Panicked { reason } => TaskState::Errored { reason },
                    JoinOutcome::Joined => {
                        match signal {
                            SignalOutcome::Delivered => TaskState::Pausing { progress_type },
                            SignalOutcome::NoPid => TaskState::Errored {
                                reason: String::from_str("ffmpeg pid not found"),
                            },
                            SignalOutcome::Failed { reason } => TaskState::Errored { reason },
                        }
                    },
                }
            },
            other => other,
        }
    }

    /// Resuming: signal the subprocess to continue, then relaunch a
    /// watchdog.  Only a Pausing task resumes; any other state is
    /// returned unchanged.
    pub fn resume(self, signal: SignalOutcome) -> (r: TaskState)
        ensures
            match self {
                TaskState::Pausing { progress_type } => match signal {
                    SignalOutcome::Delivered => r == (TaskState::Running { progress_type }),
                    SignalOutcome::NoPid => r matches TaskState::Errored { reason } && reason@
                        == msg_pid_not_found(),
                    SignalOutcome::Failed { reason: sr } => r matches TaskState::Errored { reason }
                        && reason@ == sr@,
                },
                _ => r == self,
            },
            r@ == spec_resume(self@, signal),
    {
        match self {
            TaskState::Pausing { progress_type } => {
                match signal {
                    SignalOutcome::Delivered => TaskState::Running { progress_type },
                    SignalOutcome::NoPid => TaskState::Errored {
                        reason: String::from_str("ffmpeg pid not found"),
                    },
                    SignalOutcome::Failed { reason } => TaskState::Errored { reason },
                }
            },
            other => other,
        }
    }

    /// Stopping: for a Running task, cancel the captures and await the
    /// watchdog, then kill the subprocess and await its exit; a Pausing
    /// task skips the watchdog (it has already joined); an Idle task has
    /// nothing to free.  A subprocess that had already exited still
    /// counts as stopped.  Terminal states are returned unchanged.
    pub fn stop(self, join: JoinOutcome, kill: KillOutcome) -> (r: TaskState)
        ensures
            match self {
                TaskState::Idle => r == TaskState::Stopped,
                TaskState::Running { .. } => match join {
                    JoinOutcome::Panicked { reason: jr } => r matches TaskState::Errored { reason }
                        && reason@ == jr@,
                    JoinOutcome::Joined => match kill {
                        KillOutcome::Killed => r == TaskState::Stopped,
                        KillOutcome::AlreadyExited => r == TaskState::Stopped,
                        KillOutcome::Failed { reason: kr } => r matches TaskState::Errored {
                            reason,
                        } && reason@ == kr@,
                    },
                },
                TaskState::Pausing { .. } => match kill {
                    KillOutcome::Killed => r == TaskState::Stopped,
                    KillOutcome::AlreadyExited => r == TaskState::Stopped,
                    KillOutcome::Failed { reason: kr } => r matches TaskState::Errored { reason }
                        && reason@ == kr@,
                },
                _ => r == self,
            },
            // killing a subprocess that had already exited is never an
            // error: the task still ends Stopped
            !self.is_terminal() && kill is AlreadyExited && (self matches TaskState::Running { .. }
                ==> join is Joined) ==> r == TaskState::Stopped,
            r@ == spec_stop(self@, join, kill),
    {
        match self {
            TaskState::Idle => TaskState::Stopped,
            TaskState::Running { .. } => {
                match join {
                    JoinOutcome::Panicked { reason } => TaskState::Errored { reason },
                    JoinOutcome::Joined => {
                        match kill {
                            KillOutcome::Killed => TaskState::Stopped,
                            KillOutcome::AlreadyExited => TaskState::Stopped,
                            KillOutcome::Failed { reason } => TaskState::Errored { reason },
                        }
                    },
                }
            },
            TaskState::Pausing { .. } => {
                match kill {
                    KillOutcome::Killed => TaskState::Stopped,
                    KillOutcome::AlreadyExited => TaskState::Stopped,
                    KillOutcome::Failed { reason } => TaskState::Errored { reason },
                }
            },
            other => other,
        }
    }

    /// Finishing: cancel the captures and await the watchdog.  Only a
    /// Running task finishes (the watchdog calls this when the progress
    /// stream reports end); any other state is returned unchanged.
    pub fn finish(self, join: JoinOutcome) -> (r: TaskState)
        ensures
            match self {
                TaskState::Running { .. } => match join {
                    JoinOutcome::Joined => r == TaskState::Finished,
                    JoinOutcome::Panicked { reason: jr } => r matches TaskState::Errored { reason }
                        && reason@ == jr@,
                },
                _ => r == self,
            },
            r@ == spec_finish(self@, join),
    {
        match self {
            TaskState::Running { .. } => {
                match join {
                    JoinOutcome::Joined => TaskState::Finished,
                    JoinOutcome::Panicked { reason } => TaskState::Errored { reason },
                }
            },
            other => other,
        }
    }

    /// Failing: run the stop path, then report `reason` — unless the
    /// stop path itself failed, whose reason then wins.  Terminal
    /// states absorb the error and keep their existing disposition.
    pub fn error(self, join: JoinOutcome, kill: KillOutcome, reason: String) -> (r: TaskState)
        ensures
            match self {
                TaskState::Idle => r == (TaskState::Errored { reason }),
                TaskState::Running { .. } => match join {
                    JoinOutcome::Panicked { reason: jr } => r matches TaskState::Errored {
                        reason: rr,
                    } && rr@ == jr@,
                    JoinOutcome::Joined => match kill {
                        KillOutcome::Failed { reason: kr } => r matches TaskState::Errored {
                            reason: rr,
                        } && rr@ == kr@,
                        _ => r == (TaskState::Errored { reason }),
                    },
                },
                TaskState::Pausing { .. } => match kill {
                    KillOutcome::Failed { reason: kr } => r matches TaskState::Errored {
                        reason: rr,
                    } && rr@ == kr@,
                    _ => r == (TaskState::Errored { reason }),
                },
                _ => r == self,
            },
            r@ == spec_error(self@, join, kill, reason@),
    {
        match self {
            TaskState::Idle => TaskState::Errored { reason },
            TaskState::Running { .. } => {
                match join {
                    JoinOutcome::Panicked { reason: jr } => TaskState::Errored { reason: jr },
                    JoinOutcome::Joined => {
                        match kill {
                            KillOutcome::Failed { reason: kr } => TaskState::Errored { reason: kr },
                            _ => TaskState::Errored { reason },
                        }
                    },
                }
            },
            TaskState::Pausing { .. } => {
                match kill {
                    KillOutcome::Failed { reason: kr } => TaskState::Errored { reason: kr },
                    _ => TaskState::Errored { reason },
                }
            },
            other => other,
        }
    }
}

} // verus!

verus! {

/// Mathematical image of [`TaskState`].
pub ghost enum StateView {
    Idle,
    Running(crate::progress::ProgressTypeView),
    Pausing(crate::progress::ProgressTypeView),
    Stopped,
    Finished,
    Errored(Seq<char>),
}

impl View for TaskState {
    type V = StateView;

    open spec fn view(&self) -> StateView {
        match self {
            TaskState::Idle => StateView::Idle,
            TaskState::Running { progress_type } => StateView::Running(progress_type@),
            TaskState::Pausing { progress_type } => StateView::Pausing(progress_type@),
            TaskState::Stopped => StateView::Stopped,
            TaskState::Finished => StateView::Finished,
            TaskState::Errored { reason } => StateView::Errored(reason@),
        }
    }
}

impl StateView {
    /// Stopped, Finished and Errored absorb every transition.
    pub open spec fn is_terminal(self) -> bool {
        self is Stopped || self is Finished || self is Errored
    }

    pub open spec fn code(self) -> TaskStateCode {
        match self {
            StateView::Idle => TaskStateCode::Idle,
            StateView::Running(_) => TaskStateCode::Running,
            StateView::Pausing(_) => TaskStateCode::Pausing,
            StateView::Stopped => TaskStateCode::Stopped,
            StateView::Finished => TaskStateCode::Finished,
            StateView::Errored(_) => TaskStateCode::Errored,
        }
    }
}

/// [`TaskState::start`], on views.
pub open spec fn spec_start(
    s: StateView,
    resolve: Result<ProgressType, Error>,
    mkdir: Result<(), String>,
    spawn: SpawnOutcome,
    program: Seq<char>,
) -> StateView {
    match s {
        StateView::Idle => match resolve {
            Result::Err(e) => StateView::Errored(e.spec_message()),
            Result::Ok(pt) => match mkdir {
                Result::Err(m) => StateView::Errored(m@),
                Result::Ok(_) => match spawn {
                    SpawnOutcome::Spawned => StateView::Running(pt@),
                    SpawnOutcome::NotFound => StateView::Errored(
                        crate::error::msg_ffmpeg_not_found(program),
                    ),
                    SpawnOutcome::Other { reason } => StateView::Errored(
                        crate::error::msg_ffmpeg_unavailable(program, Some(reason@)),
                    ),
                },
            },
        },
        _ => s,
    }
}

/// [`TaskState::pause`], on views.
pub open spec fn spec_pause(s: StateView, join: JoinOutcome, signal: SignalOutcome) -> StateView {
    match s {
        StateView::Running(pt) => match join {
            JoinOutcome::Panicked { reason } => StateView::Errored(reason@),
            JoinOutcome::Joined => match signal {
                SignalOutcome::Delivered => StateView::Pausing(pt),
                SignalOutcome::NoPid => StateView::Errored(msg_pid_not_found()),
                SignalOutcome::Failed { reason } => StateView::Errored(reason@),
            },
        },
        _ => s,
    }
}

/// [`TaskState::resume`], on views.
pub open spec fn spec_resume(s: StateView, signal: SignalOutcome) -> StateView {
    match s {
        StateView::Pausing(pt) => match signal {
            SignalOutcome::Delivered => StateView::Running(pt),
            SignalOutcome::NoPid => StateView::Errored(msg_pid_not_found()),
            SignalOutcome::Failed { reason } => StateView::Errored(reason@),
        },
        _ => s,
    }
}

/// [`TaskState::stop`], on views.
pub open spec fn spec_stop(s: StateView, join: JoinOutcome, kill: KillOutcome) -> StateView {
    match s {
        StateView::Idle => StateView::Stopped,
        StateView::Running(_) => match join {
            JoinOutcome::Panicked { reason } => StateView::Errored(reason@),
            JoinOutcome::Joined => match kill {
                KillOutcome::Killed => StateView::Stopped,
                KillOutcome::AlreadyExited => StateView::Stopped,
                KillOutcome::Failed { reason } => StateView::Errored(reason@),
            },
        },
        StateView::Pausing(_) => match kill {
            KillOutcome::Killed => StateView::Stopped,
            KillOutcome::AlreadyExited => StateView::Stopped,
            KillOutcome::Failed { reason } => StateView::Errored(reason@),
        },
        _ => s,
    }
}

/// [`TaskState::finish`], on views.
pub open spec fn spec_finish(s: StateView, join: JoinOutcome) -> StateView {
    match s {
        StateView::Running(_) => match join {
            JoinOutcome::Joined => StateView::Finished,
            JoinOutcome::Panicked { reason } => StateView::Errored(reason@),
        },
        _ => s,
    }
}

/// [`TaskState::error`], on views.
pub open spec fn spec_error(
    s: StateView,
    join: JoinOutcome,
    kill: KillOutcome,
    reason: Seq<char>,
) -> StateView {
    match s {
        StateView::Idle => StateView::Errored(reason),
        StateView::Running(_) => match join {
            JoinOutcome::Panicked { reason: jr } => StateView::Errored(jr@),
            JoinOutcome::Joined => match kill {
                KillOutcome::Failed { reason: kr } => StateView::Errored(kr@),
                _ => StateView::Errored(reason),
            },
        },
        StateView::Pausing(_) => match kill {
            KillOutcome::Failed { reason: kr } => StateView::Errored(kr@),
            _ => StateView::Errored(reason),
        },
        _ => s,
    }
}

} // verus!

verus! {

/// Terminal states absorb: once stopped, finished or errored, no
/// transition moves a task again, whatever the effect outcomes.
pub proof fn lemma_terminal_absorbs(
    t: StateView,
    resolve: Result<ProgressType, Error>,
    mkdir: Result<(), String>,
    spawn: SpawnOutcome,
    program: Seq<char>,
    join: JoinOutcome,
    kill: KillOutcome,
    signal: SignalOutcome,
    reason: Seq<char>,
)
    requires
        t.is_terminal(),
    ensures
        spec_start(t, resolve, mkdir, spawn, program) == t,
        spec_pause(t, join, signal) == t,
        spec_resume(t, signal) == t,
        spec_stop(t, join, kill) == t,
        spec_finish(t, join) == t,
        spec_error(t, join, kill, reason) == t,
{
}

} // verus!
