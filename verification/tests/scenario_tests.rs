//! End-to-end scenarios over the model: the embedding application's
//! effects are played back as outcome values, the core decides.

use transcode_core::args::TaskArgs;
use transcode_core::args::TaskInputArgs;
use transcode_core::args::TaskOutputArgs;
use transcode_core::error::Error;
use transcode_core::message::TaskMessage;
use transcode_core::message::TaskRunningMessage;
use transcode_core::parser::parse_line;
use transcode_core::progress::ProgressType;
use transcode_core::progress::find_progress_type;
use transcode_core::state_machine::JoinOutcome;
use transcode_core::state_machine::KillOutcome;
use transcode_core::state_machine::SignalOutcome;
use transcode_core::state_machine::SpawnOutcome;
use transcode_core::state_machine::TaskStateCode;
use transcode_core::store::TaskStore;
use transcode_core::watchdog::CaptureEnd;
use transcode_core::watchdog::DiagnosticEnd;
use transcode_core::watchdog::WatchdogDecision;
use transcode_core::watchdog::WatchdogEvent;
use transcode_core::watchdog::classify_diagnostic;
use transcode_core::watchdog::watchdog_decision;

const SEC: i64 = 1_000_000;

fn simple_args() -> TaskArgs {
    TaskArgs {
        inputs: vec![TaskInputArgs { path: "a.mp4".to_string(), args: vec![] }],
        outputs: vec![TaskOutputArgs {
            path: Some("b.mp4".to_string()),
            args: vec!["-t".to_string(), "10".to_string()],
        }],
    }
}

fn start_simple(store: &mut TaskStore, id: &str) -> ProgressType {
    let args = simple_args();
    // the probe reports 30 seconds for the one input
    let basis = find_progress_type(&args, &vec![Some(30 * SEC)]);
    assert!(matches!(basis, ProgressType::ByDuration { duration } if duration == 10 * SEC));
    store
        .start(id.to_string(), args, "ffmpeg".to_string(), "ffprobe".to_string())
        .unwrap();
    let rep = store.drive_start(id, Ok(basis), Ok(()), SpawnOutcome::Spawned).unwrap();
    assert_eq!(rep.code, TaskStateCode::Running);
    basis
}

/// Feeds one progress frame; returns the published event, if any.
fn feed(
    store: &TaskStore,
    msg: &mut TaskRunningMessage,
    lines: &[&str],
) -> (Option<TaskMessage>, bool) {
    let mut shipped = None;
    let mut finished = false;
    for line in lines {
        let (event, fin) = parse_line(msg, line);
        finished = finished || fin;
        if let Some(event) = event {
            if let TaskMessage::Running(frame) = event {
                shipped = store.running_event(&frame);
            }
        }
    }
    (shipped, finished)
}

#[test]
fn simple_transcode_streams_progress_then_finishes() {
    let mut store = TaskStore::new();
    let basis = start_simple(&mut store, "T1");
    let mut msg = TaskRunningMessage::new("T1".to_string(), basis);

    let mut last_time: usize = 0;
    let mut frames = 0;
    for (time, tag) in [(1_000_000usize, "continue"), (5_000_000, "continue"), (10_000_000, "end")]
    {
        let lines =
            [format!("out_time_ms={}", time), format!("progress={}", tag)];
        let line_refs: Vec<&str> = lines.iter().map(|s| s.as_str()).collect();
        let (event, finished) = feed(&store, &mut msg, &line_refs);
        match event {
            Some(TaskMessage::Running(frame)) => {
                let t = frame.output_time_ms.unwrap();
                assert!(t >= last_time, "output time must not go backwards");
                last_time = t;
                frames += 1;
            },
            _ => panic!("a running task must get its progress events"),
        }
        if tag == "end" {
            assert!(finished);
        }
    }
    assert_eq!(frames, 3);

    // the watchdog sees both captures done and the stream finished
    let decision = watchdog_decision(WatchdogEvent::CapturesDone {
        progress: Ok(CaptureEnd::Finished),
        diagnostic: Ok(DiagnosticEnd::Clean),
    });
    assert!(matches!(decision, WatchdogDecision::CallFinish));
    let rep = store.finish("T1", JoinOutcome::Joined).unwrap();
    assert!(!store.contains("T1"));
    assert!(matches!(&rep.events[0], TaskMessage::Finished { id } if id == "T1"));
    assert_eq!(store.len(), 0);
}

#[test]
fn pause_suspends_progress_and_resume_restores_it() {
    let mut store = TaskStore::new();
    let basis = start_simple(&mut store, "T1");
    let mut msg = TaskRunningMessage::new("T1".to_string(), basis);

    let (event, _) = feed(&store, &mut msg, &["out_time_ms=500000", "progress=continue"]);
    assert!(event.is_some());

    store.pause("T1", JoinOutcome::Joined, SignalOutcome::Delivered).unwrap();
    // no further Running events while paused
    let (event, _) = feed(&store, &mut msg, &["out_time_ms=600000", "progress=continue"]);
    assert!(event.is_none());

    store.resume("T1", SignalOutcome::Delivered).unwrap();
    let (event, finished) =
        feed(&store, &mut msg, &["out_time_ms=10000000", "progress=end"]);
    assert!(event.is_some());
    assert!(finished);
    let rep = store.finish("T1", JoinOutcome::Joined).unwrap();
    assert!(matches!(&rep.events[0], TaskMessage::Finished { id } if id == "T1"));
    assert!(!store.contains("T1"));
}

#[test]
fn stop_mid_flight_removes_without_events() {
    let mut store = TaskStore::new();
    let basis = start_simple(&mut store, "T1");
    let mut msg = TaskRunningMessage::new("T1".to_string(), basis);
    feed(&store, &mut msg, &["out_time_ms=500000", "progress=continue"]);

    let rep = store.stop("T1", JoinOutcome::Joined, KillOutcome::Killed).unwrap();
    assert_eq!(rep.code, TaskStateCode::Stopped);
    assert!(rep.events.is_empty(), "no Finished, no Errored on a stop");
    assert!(!store.contains("T1"));
    // no further Running events either
    let (event, _) = feed(&store, &mut msg, &["out_time_ms=600000", "progress=continue"]);
    assert!(event.is_none());
}

#[test]
fn missing_binary_errors_and_empties_the_store() {
    let mut store = TaskStore::new();
    store
        .start("T2".to_string(), simple_args(), "/no/such".to_string(), "ffprobe".to_string())
        .unwrap();
    let rep = store
        .drive_start("T2", Ok(ProgressType::Unspecified), Ok(()), SpawnOutcome::NotFound)
        .unwrap();
    assert_eq!(rep.code, TaskStateCode::Errored);
    match &rep.events[0] {
        TaskMessage::Errored { id, reason } => {
            assert_eq!(id, "T2");
            assert!(reason.contains("not found"));
        },
        _ => panic!("a failed start publishes an Errored event"),
    }
    assert_eq!(store.len(), 0);
}

#[test]
fn diagnostic_output_errors_the_task() {
    let mut store = TaskStore::new();
    start_simple(&mut store, "T1");

    // the diagnostic capture reads one line from the stream
    let error = classify_diagnostic("Invalid argument\n").expect("diagnostic text is an error");
    let decision = watchdog_decision(WatchdogEvent::CapturesDone {
        progress: Ok(CaptureEnd::Paused),
        diagnostic: Ok(DiagnosticEnd::Failed { error }),
    });
    let reason = match decision {
        WatchdogDecision::CallError { reason } => reason,
        _ => panic!("a diagnostic failure must call error"),
    };
    assert!(reason.contains("Invalid argument"));

    let rep = store.error("T1", JoinOutcome::Joined, KillOutcome::Killed, reason).unwrap();
    assert_eq!(rep.code, TaskStateCode::Errored);
    match &rep.events[0] {
        TaskMessage::Errored { id, reason } => {
            assert_eq!(id, "T1");
            assert!(reason.contains("Invalid argument"));
        },
        _ => panic!("an errored task publishes an Errored event"),
    }
    assert_eq!(store.len(), 0);
}

#[test]
fn duplicate_start_leaves_first_task_running() {
    let mut store = TaskStore::new();
    start_simple(&mut store, "T3");
    let second = store.start(
        "T3".to_string(),
        simple_args(),
        "ffmpeg".to_string(),
        "ffprobe".to_string(),
    );
    match second {
        Err(Error::TaskExisting { id }) => assert_eq!(id, "T3"),
        _ => panic!("the second start must be refused"),
    }
    assert_eq!(store.state_code("T3"), Some(TaskStateCode::Running));
}
