use transcode_core::args::TaskArgs;
use transcode_core::args::TaskInputArgs;
use transcode_core::args::TaskOutputArgs;
use transcode_core::progress::OutputProgressSource;
use transcode_core::progress::ProgressType;
use transcode_core::progress::find_output_progress_sources;
use transcode_core::progress::find_progress_args;
use transcode_core::progress::find_progress_type;
use transcode_core::progress::input_effective_duration;

fn strings(items: &[&str]) -> Vec<String> {
    items.iter().map(|s| s.to_string()).collect()
}

fn output(path: Option<&str>, flags: &[&str]) -> TaskOutputArgs {
    TaskOutputArgs { path: path.map(|p| p.to_string()), args: strings(flags) }
}

fn input(path: &str, flags: &[&str]) -> TaskInputArgs {
    TaskInputArgs { path: path.to_string(), args: strings(flags) }
}

const SEC: i64 = 1_000_000;

#[test]
fn scans_flags_with_values() {
    let pa = find_progress_args(&strings(&["-ss", "5", "-c:v", "libx264", "-to", "20"]));
    assert_eq!(pa.ss, Some(5 * SEC));
    assert_eq!(pa.to, Some(20 * SEC));
    assert_eq!(pa.sseof, None);
    assert_eq!(pa.t, None);
    assert_eq!(pa.fs, None);
}

#[test]
fn later_occurrence_overrides_earlier() {
    let pa = find_progress_args(&strings(&["-t", "10", "-t", "20"]));
    assert_eq!(pa.t, Some(20 * SEC));
    let pa = find_progress_args(&strings(&["-t", "10", "-t", "junk"]));
    assert_eq!(pa.t, None);
}

#[test]
fn trailing_flag_takes_no_value() {
    let pa = find_progress_args(&strings(&["-ss", "5", "-t"]));
    assert_eq!(pa.ss, Some(5 * SEC));
    assert_eq!(pa.t, None);
}

#[test]
fn flag_value_is_not_rescanned() {
    // the token after a flag is consumed as its value, never as a flag
    let pa = find_progress_args(&strings(&["-ss", "-t", "7"]));
    assert_eq!(pa.ss, None);
    assert_eq!(pa.t, None);
}

#[test]
fn file_size_is_parsed() {
    let pa = find_progress_args(&strings(&["-fs", "1048576"]));
    assert_eq!(pa.fs, Some(1_048_576));
}

#[test]
fn output_classification() {
    assert!(matches!(
        find_output_progress_sources(&output(Some("o"), &["-fs", "100"])),
        OutputProgressSource::FileSize(100)
    ));
    assert!(matches!(
        find_output_progress_sources(&output(Some("o"), &["-t", "10"])),
        OutputProgressSource::Duration(d) if d == 10 * SEC
    ));
    assert!(matches!(
        find_output_progress_sources(&output(Some("o"), &["-fs", "100", "-t", "10"])),
        OutputProgressSource::FileSize(100)
    ));
    assert!(matches!(
        find_output_progress_sources(&output(Some("o"), &["-to", "20"])),
        OutputProgressSource::Duration(d) if d == 20 * SEC
    ));
    assert!(matches!(
        find_output_progress_sources(&output(Some("o"), &["-ss", "5"])),
        OutputProgressSource::DurationOffset(d) if d == 5 * SEC
    ));
    assert!(matches!(
        find_output_progress_sources(&output(Some("o"), &["-ss", "5", "-to", "20"])),
        OutputProgressSource::Duration(d) if d == 15 * SEC
    ));
    assert!(matches!(
        find_output_progress_sources(&output(Some("o"), &[])),
        OutputProgressSource::Unspecified
    ));
}

#[test]
fn clipping_follows_the_table() {
    let d = 30 * SEC;
    let none = find_progress_args(&strings(&[]));
    assert_eq!(input_effective_duration(d, &none), Some(30 * SEC));
    let t = find_progress_args(&strings(&["-t", "10"]));
    assert_eq!(input_effective_duration(d, &t), Some(10 * SEC));
    let t_long = find_progress_args(&strings(&["-t", "50"]));
    assert_eq!(input_effective_duration(d, &t_long), Some(30 * SEC));
    let to = find_progress_args(&strings(&["-to", "12"]));
    assert_eq!(input_effective_duration(d, &to), Some(12 * SEC));
    let sseof = find_progress_args(&strings(&["-sseof", "-10"]));
    assert_eq!(input_effective_duration(d, &sseof), Some(20 * SEC));
    let sseof_pos = find_progress_args(&strings(&["-sseof", "10"]));
    assert_eq!(input_effective_duration(d, &sseof_pos), Some(0));
    let ss = find_progress_args(&strings(&["-ss", "12"]));
    assert_eq!(input_effective_duration(d, &ss), Some(18 * SEC));
    let ss_beyond = find_progress_args(&strings(&["-ss", "50"]));
    assert_eq!(input_effective_duration(d, &ss_beyond), Some(0));
    let ss_to = find_progress_args(&strings(&["-ss", "5", "-to", "20"]));
    assert_eq!(input_effective_duration(d, &ss_to), Some(15 * SEC));
    let ss_after_to = find_progress_args(&strings(&["-ss", "20", "-to", "5"]));
    assert_eq!(input_effective_duration(d, &ss_after_to), Some(0));
    let ss_t = find_progress_args(&strings(&["-ss", "5", "-t", "10"]));
    assert_eq!(input_effective_duration(d, &ss_t), Some(10 * SEC));
    let fs = find_progress_args(&strings(&["-fs", "100"]));
    assert_eq!(input_effective_duration(d, &fs), None);
}

#[test]
fn negative_start_with_end_is_kept_verbatim() {
    // the supervised tool's observed anomaly: 2|ss| + to, past the
    // probed duration
    let d = 30 * SEC;
    let pa = find_progress_args(&strings(&["-ss", "-5", "-to", "20"]));
    assert_eq!(input_effective_duration(d, &pa), Some(30 * SEC));
    let pa = find_progress_args(&strings(&["-ss", "-20", "-to", "20"]));
    assert_eq!(input_effective_duration(d, &pa), Some(60 * SEC));
}

#[test]
fn all_size_outputs_sum() {
    let args = TaskArgs {
        inputs: vec![input("a", &[])],
        outputs: vec![
            output(Some("o1"), &["-fs", "100"]),
            output(Some("o2"), &["-fs", "200"]),
            output(Some("o3"), &[]),
        ],
    };
    let r = find_progress_type(&args, &vec![None]);
    assert!(matches!(r, ProgressType::ByFileSize { size: 300 }));
}

#[test]
fn all_duration_outputs_take_the_maximum() {
    let args = TaskArgs {
        inputs: vec![input("a", &[])],
        outputs: vec![
            output(Some("o1"), &["-t", "10"]),
            output(Some("o2"), &["-to", "25"]),
            output(Some("o3"), &[]),
        ],
    };
    let r = find_progress_type(&args, &vec![None]);
    assert!(matches!(r, ProgressType::ByDuration { duration } if duration == 25 * SEC));
}

#[test]
fn offset_outputs_use_probed_inputs() {
    let args = TaskArgs {
        inputs: vec![input("a", &[]), input("b", &["-t", "20"])],
        outputs: vec![output(Some("o1"), &["-ss", "5"])],
    };
    let r = find_progress_type(&args, &vec![Some(30 * SEC), Some(60 * SEC)]);
    // effective durations 30 and 20; the maximum less the offset
    assert!(matches!(r, ProgressType::ByDuration { duration } if duration == 25 * SEC));
}

#[test]
fn offset_outputs_without_probed_inputs_are_unspecified() {
    let args = TaskArgs {
        inputs: vec![input("a", &[])],
        outputs: vec![output(Some("o1"), &["-ss", "5"])],
    };
    let r = find_progress_type(&args, &vec![None]);
    assert!(matches!(r, ProgressType::Unspecified));
}

#[test]
fn mixed_outputs_are_unspecified() {
    let args = TaskArgs {
        inputs: vec![input("a", &[])],
        outputs: vec![output(Some("o1"), &["-t", "10"]), output(Some("o2"), &["-fs", "100"])],
    };
    let r = find_progress_type(&args, &vec![None]);
    assert!(matches!(r, ProgressType::Unspecified));
    let args = TaskArgs { inputs: vec![input("a", &[])], outputs: vec![output(Some("o"), &[])] };
    let r = find_progress_type(&args, &vec![None]);
    assert!(matches!(r, ProgressType::Unspecified));
}
