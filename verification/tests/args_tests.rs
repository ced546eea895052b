use transcode_core::args::TaskArgs;
use transcode_core::args::TaskInputArgs;
use transcode_core::args::TaskOutputArgs;

fn strings(items: &[&str]) -> Vec<String> {
    items.iter().map(|s| s.to_string()).collect()
}

fn simple_args() -> TaskArgs {
    TaskArgs {
        inputs: vec![TaskInputArgs { path: "a.mp4".to_string(), args: strings(&["-ss", "5"]) }],
        outputs: vec![TaskOutputArgs {
            path: Some("b.mp4".to_string()),
            args: strings(&["-t", "10"]),
        }],
    }
}

#[test]
fn serializes_in_contractual_order() {
    let tokens = simple_args().to_cli_args();
    assert_eq!(
        tokens,
        strings(&[
            "-hide_banner",
            "-progress",
            "-",
            "-nostats",
            "-ss",
            "5",
            "-i",
            "a.mp4",
            "-t",
            "10",
            "b.mp4",
            "-y",
        ])
    );
}

#[test]
fn discard_sink_serializes_as_null_triple() {
    let args = TaskArgs {
        inputs: vec![TaskInputArgs { path: "in.wav".to_string(), args: vec![] }],
        outputs: vec![TaskOutputArgs { path: None, args: vec![] }],
    };
    let tokens = args.to_cli_args();
    assert_eq!(
        tokens,
        strings(&["-hide_banner", "-progress", "-", "-nostats", "-i", "in.wav", "-f", "null", "-", "-y"])
    );
}

#[test]
fn empty_tokens_are_elided() {
    let args = TaskArgs {
        inputs: vec![TaskInputArgs {
            path: "a.mp4".to_string(),
            args: strings(&["", "-an", ""]),
        }],
        outputs: vec![TaskOutputArgs { path: Some("".to_string()), args: strings(&["-vn"]) }],
    };
    let tokens = args.to_cli_args();
    assert_eq!(
        tokens,
        strings(&["-hide_banner", "-progress", "-", "-nostats", "-an", "-i", "a.mp4", "-vn", "-y"])
    );
}

#[test]
fn no_inputs_no_outputs_is_preamble_and_suffix() {
    let args = TaskArgs { inputs: vec![], outputs: vec![] };
    assert_eq!(args.to_cli_args(), strings(&["-hide_banner", "-progress", "-", "-nostats", "-y"]));
}

#[test]
fn round_trip_preserves_token_list() {
    let args = simple_args();
    let first = args.to_cli_args();
    let back = TaskArgs::from_cli_args(&first).expect("well-formed command line must parse");
    let second = back.to_cli_args();
    assert_eq!(first, second);
}

#[test]
fn round_trip_with_discard_sink_and_many_groups() {
    let args = TaskArgs {
        inputs: vec![
            TaskInputArgs { path: "a.mp4".to_string(), args: strings(&["-ss", "5"]) },
            TaskInputArgs { path: "b.wav".to_string(), args: vec![] },
        ],
        outputs: vec![
            TaskOutputArgs { path: Some("out1.mp4".to_string()), args: strings(&["-t", "10"]) },
            TaskOutputArgs { path: None, args: strings(&["-f", "wav"]) },
        ],
    };
    let first = args.to_cli_args();
    let back = TaskArgs::from_cli_args(&first).expect("well-formed command line must parse");
    assert_eq!(first, back.to_cli_args());
}

#[test]
fn parse_recovers_input_groups_exactly() {
    let args = simple_args();
    let back = TaskArgs::from_cli_args(&args.to_cli_args()).unwrap();
    assert_eq!(back.inputs.len(), 1);
    assert_eq!(back.inputs[0].path, "a.mp4");
    assert_eq!(back.inputs[0].args, strings(&["-ss", "5"]));
}

#[test]
fn parse_rejects_missing_preamble() {
    let tokens = strings(&["-i", "a.mp4", "-y"]);
    assert!(TaskArgs::from_cli_args(&tokens).is_none());
    let tokens = strings(&["-progress", "-", "-nostats", "-hide_banner", "-i", "a.mp4", "-y"]);
    assert!(TaskArgs::from_cli_args(&tokens).is_none());
}

#[test]
fn parse_rejects_missing_suffix() {
    let tokens = strings(&["-hide_banner", "-progress", "-", "-nostats", "-i", "a.mp4"]);
    assert!(TaskArgs::from_cli_args(&tokens).is_none());
}
