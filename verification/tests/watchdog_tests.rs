use transcode_core::error::Error;
use transcode_core::watchdog::CaptureEnd;
use transcode_core::watchdog::CaptureReadEvent;
use transcode_core::watchdog::DiagnosticEnd;
use transcode_core::watchdog::WatchdogDecision;
use transcode_core::watchdog::WatchdogEvent;
use transcode_core::watchdog::capture_exit;
use transcode_core::watchdog::classify_diagnostic;
use transcode_core::watchdog::watchdog_decision;

#[test]
fn finished_captures_call_finish() {
    let d = watchdog_decision(WatchdogEvent::CapturesDone {
        progress: Ok(CaptureEnd::Finished),
        diagnostic: Ok(DiagnosticEnd::Clean),
    });
    assert!(matches!(d, WatchdogDecision::CallFinish));
}

#[test]
fn paused_captures_do_nothing() {
    let d = watchdog_decision(WatchdogEvent::CapturesDone {
        progress: Ok(CaptureEnd::Paused),
        diagnostic: Ok(DiagnosticEnd::Clean),
    });
    assert!(matches!(d, WatchdogDecision::DoNothing));
}

#[test]
fn progress_failure_calls_error() {
    let d = watchdog_decision(WatchdogEvent::CapturesDone {
        progress: Ok(CaptureEnd::Failed { error: Error::process_unexpected_killed() }),
        diagnostic: Ok(DiagnosticEnd::Clean),
    });
    match d {
        WatchdogDecision::CallError { reason } => {
            assert_eq!(reason, "process unexpected killed");
        },
        _ => panic!("a failed capture must call error"),
    }
}

#[test]
fn diagnostic_failure_outranks_progress() {
    let d = watchdog_decision(WatchdogEvent::CapturesDone {
        progress: Ok(CaptureEnd::Failed { error: Error::process_unexpected_killed() }),
        diagnostic: Ok(DiagnosticEnd::Failed {
            error: Error::ffmpeg_runtime_error("Invalid argument".to_string()),
        }),
    });
    match d {
        WatchdogDecision::CallError { reason } => {
            assert!(reason.contains("Invalid argument"));
        },
        _ => panic!("a diagnostic failure must call error"),
    }
}

#[test]
fn capture_panic_is_reported() {
    let d = watchdog_decision(WatchdogEvent::CapturesDone {
        progress: Err("cancelled".to_string()),
        diagnostic: Ok(DiagnosticEnd::Clean),
    });
    match d {
        WatchdogDecision::CallError { reason } => {
            assert_eq!(reason, "stdout handle exited failure: cancelled");
        },
        _ => panic!("a panicked capture must call error"),
    }
}

#[test]
fn clean_exit_does_nothing_failed_exit_errors() {
    assert!(matches!(
        watchdog_decision(WatchdogEvent::Exited { success: true }),
        WatchdogDecision::DoNothing
    ));
    match watchdog_decision(WatchdogEvent::Exited { success: false }) {
        WatchdogDecision::CallError { reason } => {
            assert_eq!(reason, "process unexpected killed");
        },
        _ => panic!("a failed exit must call error"),
    }
}

#[test]
fn capture_loop_dispositions() {
    assert!(capture_exit(CaptureReadEvent::Line).is_none());
    assert!(matches!(
        capture_exit(CaptureReadEvent::Cancelled),
        Some(Ok(CaptureEnd::Paused))
    ));
    assert!(matches!(
        capture_exit(CaptureReadEvent::StateNotRunning),
        Some(Ok(CaptureEnd::Paused))
    ));
    assert!(matches!(
        capture_exit(CaptureReadEvent::Eof),
        Some(Err(Error::ProcessUnexpectedKilled))
    ));
    assert!(matches!(
        capture_exit(CaptureReadEvent::ReadFailed {
            unexpected_eof: true,
            cause: "eof".to_string()
        }),
        Some(Err(Error::ProcessUnexpectedKilled))
    ));
    assert!(matches!(
        capture_exit(CaptureReadEvent::ReadFailed {
            unexpected_eof: false,
            cause: "io".to_string()
        }),
        Some(Err(Error::Internal { .. }))
    ));
    assert!(matches!(
        capture_exit(CaptureReadEvent::EmitFailed { cause: "channel closed".to_string() }),
        Some(Err(Error::Internal { .. }))
    ));
}

#[test]
fn empty_diagnostic_capture_is_no_error() {
    assert!(classify_diagnostic("").is_none());
}

#[test]
fn encoder_banners_are_ignored() {
    assert!(classify_diagnostic("x264 [info]: using cpu capabilities").is_none());
    assert!(classify_diagnostic("x265 [info]: HEVC encoder").is_none());
}

#[test]
fn diagnostic_text_becomes_a_runtime_error() {
    match classify_diagnostic("Invalid argument\n") {
        Some(Error::FFmpegRuntimeError { reason }) => assert_eq!(reason, "Invalid argument"),
        _ => panic!("diagnostic text must become a runtime error"),
    }
}
