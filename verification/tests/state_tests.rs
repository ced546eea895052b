use transcode_core::error::Error;
use transcode_core::progress::ProgressType;
use transcode_core::state_machine::JoinOutcome;
use transcode_core::state_machine::KillOutcome;
use transcode_core::state_machine::SignalOutcome;
use transcode_core::state_machine::SpawnOutcome;
use transcode_core::state_machine::TaskState;
use transcode_core::state_machine::TaskStateCode;

fn pt() -> ProgressType {
    ProgressType::ByDuration { duration: 10_000_000 }
}

fn running() -> TaskState {
    TaskState::Running { progress_type: pt() }
}

fn pausing() -> TaskState {
    TaskState::Pausing { progress_type: pt() }
}

#[test]
fn idle_start_success_runs() {
    let next = TaskState::Idle.start(Ok(pt()), Ok(()), SpawnOutcome::Spawned, "ffmpeg");
    assert_eq!(next.code(), TaskStateCode::Running);
}

#[test]
fn idle_start_spawn_not_found_errors() {
    let next = TaskState::Idle.start(Ok(pt()), Ok(()), SpawnOutcome::NotFound, "/no/such");
    assert_eq!(next.code(), TaskStateCode::Errored);
    let reason = next.message().unwrap().to_string();
    assert!(reason.contains("not found"));
    assert!(reason.contains("/no/such"));
}

#[test]
fn idle_start_resolve_failure_errors() {
    let probe_error = Error::ffprobe_not_found("/no/probe".to_string());
    let next = TaskState::Idle.start(Err(probe_error), Ok(()), SpawnOutcome::Spawned, "ffmpeg");
    assert_eq!(next.code(), TaskStateCode::Errored);
    assert!(next.message().unwrap().contains("ffprobe binary not found"));
}

#[test]
fn running_pause_and_resume() {
    let paused = running().pause(JoinOutcome::Joined, SignalOutcome::Delivered);
    assert_eq!(paused.code(), TaskStateCode::Pausing);
    let resumed = paused.resume(SignalOutcome::Delivered);
    assert_eq!(resumed.code(), TaskStateCode::Running);
}

#[test]
fn pause_signal_failure_errors() {
    let next = running().pause(
        JoinOutcome::Joined,
        SignalOutcome::Failed { reason: "no permission".to_string() },
    );
    assert_eq!(next.code(), TaskStateCode::Errored);
    assert_eq!(next.message(), Some("no permission"));
}

#[test]
fn running_stop_kills_and_stops() {
    let next = running().stop(JoinOutcome::Joined, KillOutcome::Killed);
    assert_eq!(next.code(), TaskStateCode::Stopped);
}

#[test]
fn stop_on_already_exited_process_is_not_errored() {
    let next = running().stop(JoinOutcome::Joined, KillOutcome::AlreadyExited);
    assert_eq!(next.code(), TaskStateCode::Stopped);
    let next = pausing().stop(JoinOutcome::Joined, KillOutcome::AlreadyExited);
    assert_eq!(next.code(), TaskStateCode::Stopped);
}

#[test]
fn running_finish_finishes() {
    let next = running().finish(JoinOutcome::Joined);
    assert_eq!(next.code(), TaskStateCode::Finished);
}

#[test]
fn running_error_reports_reason_after_clean_stop() {
    let next = running().error(JoinOutcome::Joined, KillOutcome::Killed, "boom".to_string());
    assert_eq!(next.code(), TaskStateCode::Errored);
    assert_eq!(next.message(), Some("boom"));
}

#[test]
fn error_stop_path_failure_wins() {
    let next = running().error(
        JoinOutcome::Joined,
        KillOutcome::Failed { reason: "kill failed".to_string() },
        "boom".to_string(),
    );
    assert_eq!(next.message(), Some("kill failed"));
}

#[test]
fn illegal_transitions_are_no_ops() {
    let next = TaskState::Idle.pause(JoinOutcome::Joined, SignalOutcome::Delivered);
    assert_eq!(next.code(), TaskStateCode::Idle);
    let next = running().resume(SignalOutcome::Delivered);
    assert_eq!(next.code(), TaskStateCode::Running);
    let next = pausing().finish(JoinOutcome::Joined);
    assert_eq!(next.code(), TaskStateCode::Pausing);
}

#[test]
fn idle_stop_stops() {
    let next = TaskState::Idle.stop(JoinOutcome::Joined, KillOutcome::Killed);
    assert_eq!(next.code(), TaskStateCode::Stopped);
}

#[test]
fn terminal_states_absorb_everything() {
    let stopped = TaskState::Stopped.finish(JoinOutcome::Joined);
    assert_eq!(stopped.code(), TaskStateCode::Stopped);
    let finished = TaskState::Finished.stop(JoinOutcome::Joined, KillOutcome::Killed);
    assert_eq!(finished.code(), TaskStateCode::Finished);
    let errored = TaskState::Errored { reason: "first".to_string() }.error(
        JoinOutcome::Joined,
        KillOutcome::Killed,
        "second".to_string(),
    );
    assert_eq!(errored.message(), Some("first"));
}
