use transcode_core::message::TaskMessage;
use transcode_core::message::TaskRunningMessage;
use transcode_core::parser::parse_line;
use transcode_core::progress::ProgressType;

fn fresh() -> TaskRunningMessage {
    TaskRunningMessage::new("T1".to_string(), ProgressType::ByDuration { duration: 10_000_000 })
}

#[test]
fn counters_are_stored() {
    let mut msg = fresh();
    let (event, finished) = parse_line(&mut msg, "frame=42");
    assert!(event.is_none());
    assert!(!finished);
    assert_eq!(msg.frame, Some(42));
    parse_line(&mut msg, "total_size=1024");
    assert_eq!(msg.total_size, Some(1024));
    parse_line(&mut msg, "out_time_ms=1500000");
    assert_eq!(msg.output_time_ms, Some(1_500_000));
    parse_line(&mut msg, "dup_frames=1");
    parse_line(&mut msg, "drop_frames=2");
    assert_eq!(msg.dup_frames, Some(1));
    assert_eq!(msg.drop_frames, Some(2));
}

#[test]
fn bitrate_with_unit_suffix_is_stripped() {
    let mut msg = fresh();
    parse_line(&mut msg, "bitrate=1234.5kbits/s");
    assert_eq!(msg.bitrate.as_deref(), Some("1234.5"));
}

#[test]
fn bitrate_not_available_is_absent() {
    let mut msg = fresh();
    parse_line(&mut msg, "bitrate=1234.5kbits/s");
    parse_line(&mut msg, "bitrate=N/A");
    assert_eq!(msg.bitrate, None);
}

#[test]
fn speed_with_suffix_is_stripped() {
    let mut msg = fresh();
    parse_line(&mut msg, "speed=2.0x");
    assert_eq!(msg.speed.as_deref(), Some("2.0"));
}

#[test]
fn speed_not_available_is_absent() {
    let mut msg = fresh();
    parse_line(&mut msg, "speed=2.0x");
    parse_line(&mut msg, "speed=N/A");
    assert_eq!(msg.speed, None);
}

#[test]
fn fps_is_decimal() {
    let mut msg = fresh();
    parse_line(&mut msg, "fps=25.0");
    assert_eq!(msg.fps.as_deref(), Some("25.0"));
    parse_line(&mut msg, "fps=garbage");
    assert_eq!(msg.fps, None);
}

#[test]
fn unrecognized_keys_only_accumulate_raw() {
    let mut msg = fresh();
    parse_line(&mut msg, "stream_0_0_q=-1.0");
    assert_eq!(msg.raw, vec!["stream_0_0_q=-1.0".to_string()]);
    assert_eq!(msg.frame, None);
}

#[test]
fn value_stops_at_second_equals_sign() {
    let mut msg = fresh();
    parse_line(&mut msg, "frame=7=9");
    assert_eq!(msg.frame, Some(7));
}

#[test]
fn lines_are_trimmed() {
    let mut msg = fresh();
    parse_line(&mut msg, "  frame = 42 \n");
    assert_eq!(msg.frame, Some(42));
    assert_eq!(msg.raw, vec!["frame = 42".to_string()]);
}

#[test]
fn progress_continue_emits_and_clears() {
    let mut msg = fresh();
    parse_line(&mut msg, "frame=42");
    let (event, finished) = parse_line(&mut msg, "progress=continue");
    assert!(!finished);
    match event {
        Some(TaskMessage::Running(shipped)) => {
            assert_eq!(shipped.id, "T1");
            assert_eq!(shipped.frame, Some(42));
            assert_eq!(shipped.raw, vec!["frame=42".to_string(), "progress=continue".to_string()]);
        },
        other => panic!("expected a running event, got {:?}", other.is_some()),
    }
    assert_eq!(msg.frame, None);
    assert!(msg.raw.is_empty());
    assert_eq!(msg.id, "T1");
}

#[test]
fn progress_end_reports_finished() {
    let mut msg = fresh();
    let (event, finished) = parse_line(&mut msg, "progress=end");
    assert!(finished);
    assert!(event.is_some());
}

#[test]
fn progress_other_is_ignored() {
    let mut msg = fresh();
    let (event, finished) = parse_line(&mut msg, "progress=paused");
    assert!(!finished);
    assert!(event.is_none());
}

#[test]
fn speed_cleared_on_emission() {
    let mut msg = fresh();
    parse_line(&mut msg, "speed=2.0x");
    parse_line(&mut msg, "progress=continue");
    assert_eq!(msg.speed, None);
}

#[test]
fn parsing_same_line_twice_gives_same_fields() {
    let mut once = fresh();
    parse_line(&mut once, "bitrate=1234.5kbits/s");
    let mut twice = fresh();
    parse_line(&mut twice, "bitrate=1234.5kbits/s");
    parse_line(&mut twice, "bitrate=1234.5kbits/s");
    assert_eq!(once.bitrate, twice.bitrate);
    assert_eq!(once.frame, twice.frame);
    assert_eq!(once.speed, twice.speed);
    assert_eq!(twice.raw.len(), 2);
}
