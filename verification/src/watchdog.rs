//! The watchdog's decision rules.
//!
//! The watchdog races the two capture readers against subprocess exit
//! and reports the task's disposition upward: finish when the progress
//! stream reported end, an error when a capture failed or the process
//! died unexpectedly, and nothing when the captures stopped for a pause
//! or the process exited cleanly.  The racing itself is the embedding
//! application's work; the decision from what it observed is here.

use vstd::prelude::*;

use crate::error::Error;
use crate::strutil::spec_trim;
use crate::strutil::str_starts_with;
use crate::strutil::trim;

verus! {

/// How the progress capture ended: the stream reported completion, the
/// reader stopped while the task was no longer running (a pause or a
/// cancellation), or it failed.
pub enum CaptureEnd {
    Finished,
    Paused,
    Failed { error: Error },
}

/// How the diagnostic capture ended.
pub enum DiagnosticEnd {
    Clean,
    Failed { error: Error },
}

/// What the watchdog observed: both captures done (each possibly having
/// panicked before returning), or the subprocess exiting first, or the
/// wait on it failing.
pub enum WatchdogEvent {
    CapturesDone {
        progress: Result<CaptureEnd, String>,
        diagnostic: Result<DiagnosticEnd, String>,
    },
    Exited { success: bool },
    WaitFailed { reason: String },
}

/// What the watchdog tells the task to do.
pub enum WatchdogDecision {
    CallFinish,
    CallError { reason: String },
    DoNothing,
}

/// The reason reported when a capture reader panicked.
pub open spec fn msg_capture_panic(which: Seq<char>, cause: Seq<char>) -> Seq<char> {
    which + " handle exited failure: "@ + cause
}

/// The decision for an observation, on views.
pub open spec fn spec_watchdog_decision(ev: WatchdogEvent) -> WatchdogDecisionView {
    match ev {
        WatchdogEvent::CapturesDone { progress, diagnostic } => match (progress, diagnostic) {
            (Result::Err(e), Result::Ok(_)) => WatchdogDecisionView::Error(
                msg_capture_panic("stdout"@, e@),
            ),
            (Result::Ok(_), Result::Err(e)) => WatchdogDecisionView::Error(
                msg_capture_panic("stderr"@, e@),
            ),
            (Result::Err(e0), Result::Err(e1)) => WatchdogDecisionView::Error(
                msg_capture_panic("stdout"@, e0@) + ". "@ + msg_capture_panic("stderr"@, e1@),
            ),
            (Result::Ok(p), Result::Ok(d)) => match d {
                DiagnosticEnd::Failed { error } => WatchdogDecisionView::Error(
                    error.spec_message(),
                ),
                DiagnosticEnd::Clean => match p {
                    CaptureEnd::Finished => WatchdogDecisionView::Finish,
                    CaptureEnd::Paused => WatchdogDecisionView::Nothing,
                    CaptureEnd::Failed { error } => WatchdogDecisionView::Error(
                        error.spec_message(),
                    ),
                },
            },
        },
        WatchdogEvent::Exited { success } => if success {
            WatchdogDecisionView::Nothing
        } else {
            WatchdogDecisionView::Error(crate::error::msg_process_unexpected_killed())
        },
        WatchdogEvent::WaitFailed { reason } => WatchdogDecisionView::Error(
            crate::error::msg_internal(reason@),
        ),
    }
}

/// Mathematical image of [`WatchdogDecision`].
pub ghost enum WatchdogDecisionView {
    Finish,
    Error(Seq<char>),
    Nothing,
}

impl View for WatchdogDecision {
    type V = WatchdogDecisionView;

    open spec fn view(&self) -> WatchdogDecisionView {
        match self {
            WatchdogDecision::CallFinish => WatchdogDecisionView::Finish,
            WatchdogDecision::CallError { reason } => WatchdogDecisionView::Error(reason@),
            WatchdogDecision::DoNothing => WatchdogDecisionView::Nothing,
        }
    }
}

/// Decides the task's disposition from what the watchdog observed:
/// finish only when the progress stream reported end and the diagnostic
/// capture was clean; a pause (captures returned without completion) or
/// a clean exit decides nothing; everything else names an error, a
/// diagnostic failure outranking a progress one.
pub fn watchdog_decision(ev: WatchdogEvent) -> (r: WatchdogDecision)
    ensures
        r@ == spec_watchdog_decision(ev),
{
    proof {
        reveal_strlit("stdout");
        reveal_strlit("stderr");
        reveal_strlit(" handle exited failure: ");
        reveal_strlit("stdout handle exited failure: ");
        reveal_strlit("stderr handle exited failure: ");
        reveal_strlit(". ");
        reveal_strlit(". stderr handle exited failure: ");
        assert("stdout handle exited failure: "@ =~= "stdout"@ + " handle exited failure: "@);
        assert("stderr handle exited failure: "@ =~= "stderr"@ + " handle exited failure: "@);
        assert(". stderr handle exited failure: "@ =~= ". "@ + "stderr handle exited failure: "@);
    }
    match ev {
        WatchdogEvent::CapturesDone { progress, diagnostic } => {
            match (progress, diagnostic) {
                (Result::Err(e), Result::Ok(_)) => {
                    let reason = String::from_str("stdout handle exited failure: ").concat(
                        e.as_str(),
                    );
                    proof {
                        assert(reason@ =~= msg_capture_panic("stdout"@, e@));
                    }
                    WatchdogDecision::CallError { reason }
                },
                (Result::Ok(_), Result::Err(e)) => {
                    let reason = String::from_str("stderr handle exited failure: ").concat(
                        e.as_str(),
                    );
                    proof {
                        assert(reason@ =~= msg_capture_panic("stderr"@, e@));
                    }
                    WatchdogDecision::CallError { reason }
                },
                (Result::Err(e0), Result::Err(e1)) => {
                    let reason = String::from_str("stdout handle exited failure: ").concat(
                        e0.as_str(),
                    ).concat(". stderr handle exited failure: ").concat(e1.as_str());
                    proof {
                        assert(reason@ =~= msg_capture_panic("stdout"@, e0@) + ". "@
                            + msg_capture_panic("stderr"@, e1@));
                    }
                    WatchdogDecision::CallError { reason }
                },
                (Result::Ok(p), Result::Ok(d)) => {
                    match d {
                        DiagnosticEnd::Failed { error } => WatchdogDecision::CallError {
                            reason: error.to_message(),
                        },
                        DiagnosticEnd::Clean => {
                            match p {
                                CaptureEnd::Finished => WatchdogDecision::CallFinish,
                                CaptureEnd::Paused => WatchdogDecision::DoNothing,
                                CaptureEnd::Failed { error } => WatchdogDecision::CallError {
                                    reason: error.to_message(),
                                },
                            }
                        },
                    }
                },
            }
        },
        WatchdogEvent::Exited { success } => {
            if success {
                WatchdogDecision::DoNothing
            } else {
                let e = Error::process_unexpected_killed();
                WatchdogDecision::CallError { reason: e.to_message() }
            }
        },
        WatchdogEvent::WaitFailed { reason } => {
            let e = Error::internal(reason);
            WatchdogDecision::CallError { reason: e.to_message() }
        },
    }
}

/// What the progress capture reader observed on one turn of its loop.
pub enum CaptureReadEvent {
    StateNotRunning,
    Cancelled,
    Eof,
    ReadFailed { unexpected_eof: bool, cause: String },
    EmitFailed { cause: String },
    Line,
}

/// How the progress capture reacts to one observation, on views: keep
/// reading on a line; stop quietly when cancelled or no longer running;
/// an end of stream before `progress=end` is an unexpected
/// termination; any other failure is internal.
pub open spec fn spec_capture_exit(ev: CaptureReadEvent) -> Option<Result<CaptureEnd, Seq<char>>> {
    match ev {
        CaptureReadEvent::Line => None,
        CaptureReadEvent::StateNotRunning => Some(Result::Ok(CaptureEnd::Paused)),
        CaptureReadEvent::Cancelled => Some(Result::Ok(CaptureEnd::Paused)),
        CaptureReadEvent::Eof => Some(Result::Err(crate::error::msg_process_unexpected_killed())),
        CaptureReadEvent::ReadFailed { unexpected_eof, cause } => if unexpected_eof {
            Some(Result::Err(crate::error::msg_process_unexpected_killed()))
        } else {
            Some(Result::Err(crate::error::msg_internal(cause@)))
        },
        CaptureReadEvent::EmitFailed { cause } => Some(
            Result::Err(crate::error::msg_internal(cause@)),
        ),
    }
}

/// Classifies one observation of the progress capture loop: `None` means
/// keep reading; `Some(Ok(end))` a quiet exit; `Some(Err(e))` a failure.
pub fn capture_exit(ev: CaptureReadEvent) -> (r: Option<Result<CaptureEnd, Error>>)
    ensures
        match r {
            None => spec_capture_exit(ev) is None,
            Some(Result::Ok(end)) => spec_capture_exit(ev) == Some(
                Result::<CaptureEnd, Seq<char>>::Ok(end),
            ),
            Some(Result::Err(e)) => spec_capture_exit(ev) matches Some(Result::Err(m)) && m
                == e.spec_message(),
        },
{
    match ev {
        CaptureReadEvent::Line => None,
        CaptureReadEvent::StateNotRunning => Some(Ok(CaptureEnd::Paused)),
        CaptureReadEvent::Cancelled => Some(Ok(CaptureEnd::Paused)),
        CaptureReadEvent::Eof => Some(Err(Error::process_unexpected_killed())),
        CaptureReadEvent::ReadFailed { unexpected_eof, cause } => {
            if unexpected_eof {
                Some(Err(Error::process_unexpected_killed()))
            } else {
                Some(Err(Error::internal(cause)))
            }
        },
        CaptureReadEvent::EmitFailed { cause } => Some(Err(Error::internal(cause))),
    }
}

/// Whether trimmed diagnostic text opens with an ignored encoder banner.
pub open spec fn spec_diagnostic_ignored(t: Seq<char>) -> bool {
    ||| t.len() >= 4 && t.subrange(0, 4) == "x264"@
    ||| t.len() >= 4 && t.subrange(0, 4) == "x265"@
}

/// Classifies captured diagnostic text: empty capture is no error, and
/// a line opening with an informational encoder banner (`x264`, `x265`)
/// is ignored; anything else is a runtime error carrying the trimmed
/// text.
pub fn classify_diagnostic(captured: &str) -> (r: Option<Error>)
    ensures
        ({
            let t = spec_trim(captured@);
            if captured@.len() == 0 || spec_diagnostic_ignored(t) {
                r is None
            } else {
                r matches Some(e) && (e matches Error::FFmpegRuntimeError { reason } && reason@
                    == t)
            }
        }),
{
    if captured.unicode_len() == 0 {
        return None;
    }
    let t = trim(captured);
    if str_starts_with(t, "x264") || str_starts_with(t, "x265") {
        proof {
            reveal_strlit("x264");
            reveal_strlit("x265");
        }
        return None;
    }
    proof {
        reveal_strlit("x264");
        reveal_strlit("x265");
    }
    Some(Error::ffmpeg_runtime_error(String::from_str(t)))
}

} // verus!
