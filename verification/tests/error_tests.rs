use transcode_core::config::Config;
use transcode_core::config::LogLevel;
use transcode_core::error::Error;
use transcode_core::settings::Binary;
use transcode_core::settings::Config as Settings;
use transcode_core::transcode::InputParams;
use transcode_core::transcode::OutputParams;
use transcode_core::transcode::TranscodeItem;

#[test]
fn messages_render_their_keywords() {
    assert_eq!(
        Error::internal("broken pipe".to_string()).to_message(),
        "internal error: broken pipe"
    );
    assert_eq!(Error::process_unexpected_killed().to_message(), "process unexpected killed");
    assert_eq!(
        Error::ffmpeg_not_found("/no/such".to_string()).to_message(),
        "ffmpeg binary not found: \"/no/such\""
    );
    assert_eq!(
        Error::ffprobe_not_found("/no/probe".to_string()).to_message(),
        "ffprobe binary not found: \"/no/probe\""
    );
    assert_eq!(
        Error::ffmpeg_unavailable("f".to_string()).to_message(),
        "ffmpeg binary unavailable: \"f\""
    );
    assert_eq!(
        Error::ffmpeg_unavailable_with_raw_error("f".to_string(), "denied".to_string())
            .to_message(),
        "ffmpeg binary unavailable: \"f\" denied"
    );
    assert_eq!(
        Error::ffprobe_unavailable("p".to_string()).to_message(),
        "ffprobe binary unavailable: \"p\""
    );
    assert_eq!(
        Error::ffprobe_unavailable_with_raw_error("p".to_string(), "denied".to_string())
            .to_message(),
        "ffprobe binary unavailable: \"p\" denied"
    );
    assert_eq!(
        Error::ffmpeg_runtime_error("bad flag".to_string()).to_message(),
        "ffmpeg runtime error: bad flag"
    );
    assert_eq!(
        Error::ffprobe_runtime_error("bad file".to_string()).to_message(),
        "ffprobe runtime error: bad file"
    );
    assert_eq!(
        Error::directory_not_found("/tmp/x".to_string()).to_message(),
        "directory not found: \"/tmp/x\""
    );
    assert_eq!(
        Error::task_not_found("T9".to_string()).to_message(),
        "task with specified id not found: \"T9\""
    );
    assert_eq!(
        Error::task_existing("T9".to_string()).to_message(),
        "task with specified id is existing: \"T9\""
    );
    assert_eq!(Error::configuration_not_loaded().to_message(), "configuration not loaded");
    assert_eq!(
        Error::configuration_unavailable(vec![]).to_message(),
        "configuration unavailable: "
    );
    assert_eq!(
        Error::configuration_unavailable(vec![Error::process_unexpected_killed()]).to_message(),
        "configuration unavailable: process unexpected killed"
    );
    assert_eq!(
        Error::configuration_unavailable(vec![
            Error::ffmpeg_not_found("f".to_string()),
            Error::process_unexpected_killed(),
        ])
        .to_message(),
        "configuration unavailable: ffmpeg binary not found: \"f\"\nprocess unexpected killed"
    );
}

#[test]
fn config_accessors_return_their_fields() {
    let config = Config {
        loglevel: LogLevel::Info,
        ffmpeg: "/usr/bin/ffmpeg".to_string(),
        ffprobe: "/usr/bin/ffprobe".to_string(),
    };
    assert_eq!(config.loglevel(), LogLevel::Info);
    assert_eq!(config.ffmpeg(), "/usr/bin/ffmpeg");
    assert_eq!(config.ffprobe(), "/usr/bin/ffprobe");
}

#[test]
fn settings_default_to_plain_command_names() {
    assert_eq!(Binary::default_ffmpeg(), "ffmpeg");
    assert_eq!(Binary::default_ffprobe(), "ffprobe");
    let settings = Settings::default();
    assert_eq!(settings.binary().ffmpeg(), "ffmpeg");
    assert_eq!(settings.binary().ffprobe(), "ffprobe");
}

#[test]
fn transcode_item_serializes_without_discard_triple() {
    let item = TranscodeItem {
        inputs: vec![InputParams { path: "a.mp4".to_string(), params: vec![] }],
        outputs: vec![OutputParams { path: None, params: vec!["-f".to_string(), "null".to_string()] }],
    };
    assert_eq!(
        item.to_args(),
        vec![
            "-hide_banner".to_string(),
            "-progress".to_string(),
            "-".to_string(),
            "-nostats".to_string(),
            "-i".to_string(),
            "a.mp4".to_string(),
            "-f".to_string(),
            "null".to_string(),
            "-y".to_string(),
        ]
    );
}
