use transcode_core::args::TaskArgs;
use transcode_core::error::Error;
use transcode_core::message::TaskMessage;
use transcode_core::message::TaskRunningMessage;
use transcode_core::progress::ProgressType;
use transcode_core::state_machine::JoinOutcome;
use transcode_core::state_machine::KillOutcome;
use transcode_core::state_machine::SignalOutcome;
use transcode_core::state_machine::SpawnOutcome;
use transcode_core::state_machine::TaskStateCode;
use transcode_core::store::TaskStore;

fn empty_args() -> TaskArgs {
    TaskArgs { inputs: vec![], outputs: vec![] }
}

fn register(store: &mut TaskStore, id: &str) {
    store
        .start(id.to_string(), empty_args(), "ffmpeg".to_string(), "ffprobe".to_string())
        .expect("fresh id must register");
}

fn run(store: &mut TaskStore, id: &str) {
    let rep = store
        .drive_start(
            id,
            Ok(ProgressType::ByDuration { duration: 10_000_000 }),
            Ok(()),
            SpawnOutcome::Spawned,
        )
        .expect("task must exist");
    assert_eq!(rep.code, TaskStateCode::Running);
    assert!(rep.events.is_empty());
}

#[test]
fn duplicate_id_is_refused_and_first_task_unaffected() {
    let mut store = TaskStore::new();
    register(&mut store, "T3");
    run(&mut store, "T3");
    let second = store.start(
        "T3".to_string(),
        empty_args(),
        "ffmpeg".to_string(),
        "ffprobe".to_string(),
    );
    match second {
        Err(Error::TaskExisting { id }) => assert_eq!(id, "T3"),
        _ => panic!("a live id must be refused with TaskExisting"),
    }
    assert_eq!(store.state_code("T3"), Some(TaskStateCode::Running));
    assert_eq!(store.len(), 1);
}

#[test]
fn unknown_id_is_refused_with_task_not_found() {
    let mut store = TaskStore::new();
    match store.stop("missing", JoinOutcome::Joined, KillOutcome::Killed) {
        Err(Error::TaskNotFound { id }) => assert_eq!(id, "missing"),
        _ => panic!("an unknown id must be refused with TaskNotFound"),
    }
    assert!(store.pause("missing", JoinOutcome::Joined, SignalOutcome::Delivered).is_err());
    assert!(store.resume("missing", SignalOutcome::Delivered).is_err());
}

#[test]
fn ids_are_unique_and_independent() {
    let mut store = TaskStore::new();
    register(&mut store, "A");
    register(&mut store, "B");
    assert_eq!(store.len(), 2);
    run(&mut store, "A");
    assert_eq!(store.state_code("A"), Some(TaskStateCode::Running));
    assert_eq!(store.state_code("B"), Some(TaskStateCode::Idle));
}

#[test]
fn finish_removes_before_the_terminal_event_is_published() {
    let mut store = TaskStore::new();
    register(&mut store, "T1");
    run(&mut store, "T1");
    let rep = store.finish("T1", JoinOutcome::Joined).unwrap();
    // the key is gone by the time the caller publishes the event
    assert!(!store.contains("T1"));
    assert_eq!(rep.events.len(), 1);
    match &rep.events[0] {
        TaskMessage::Finished { id } => assert_eq!(id, "T1"),
        _ => panic!("a finish publishes exactly one Finished event"),
    }
}

#[test]
fn error_removes_and_publishes_one_errored_event() {
    let mut store = TaskStore::new();
    register(&mut store, "T1");
    run(&mut store, "T1");
    let rep = store
        .error("T1", JoinOutcome::Joined, KillOutcome::Killed, "boom".to_string())
        .unwrap();
    assert!(!store.contains("T1"));
    assert_eq!(rep.events.len(), 1);
    match &rep.events[0] {
        TaskMessage::Errored { id, reason } => {
            assert_eq!(id, "T1");
            assert_eq!(reason, "boom");
        },
        _ => panic!("an error publishes exactly one Errored event"),
    }
}

#[test]
fn stop_removes_and_publishes_nothing() {
    let mut store = TaskStore::new();
    register(&mut store, "T1");
    run(&mut store, "T1");
    let rep = store.stop("T1", JoinOutcome::Joined, KillOutcome::Killed).unwrap();
    assert_eq!(rep.code, TaskStateCode::Stopped);
    assert!(rep.events.is_empty());
    assert!(!store.contains("T1"));
}

#[test]
fn after_a_terminal_transition_further_operations_find_nothing() {
    let mut store = TaskStore::new();
    register(&mut store, "T1");
    run(&mut store, "T1");
    store.finish("T1", JoinOutcome::Joined).unwrap();
    assert!(store.stop("T1", JoinOutcome::Joined, KillOutcome::Killed).is_err());
    assert!(store.finish("T1", JoinOutcome::Joined).is_err());
}

#[test]
fn progress_events_only_for_live_running_tasks() {
    let mut store = TaskStore::new();
    let msg = TaskRunningMessage::new("T1".to_string(), ProgressType::Unspecified);
    // absent id: no event
    assert!(store.running_event(&msg).is_none());
    register(&mut store, "T1");
    // present but Idle: no event
    assert!(store.running_event(&msg).is_none());
    run(&mut store, "T1");
    match store.running_event(&msg) {
        Some(TaskMessage::Running(shipped)) => assert_eq!(shipped.id, "T1"),
        _ => panic!("a live Running task must get its progress event"),
    }
    store.pause("T1", JoinOutcome::Joined, SignalOutcome::Delivered).unwrap();
    // Pausing: no event
    assert!(store.running_event(&msg).is_none());
}

#[test]
fn failed_start_removes_and_reports_not_found_reason() {
    let mut store = TaskStore::new();
    register(&mut store, "T2");
    let rep = store
        .drive_start("T2", Ok(ProgressType::Unspecified), Ok(()), SpawnOutcome::NotFound)
        .unwrap();
    assert_eq!(rep.code, TaskStateCode::Errored);
    assert!(!store.contains("T2"));
    match &rep.events[0] {
        TaskMessage::Errored { id, reason } => {
            assert_eq!(id, "T2");
            assert!(reason.contains("not found"));
        },
        _ => panic!("a failed start publishes an Errored event"),
    }
}
