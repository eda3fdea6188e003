use volnotify::args::{Args, ArgsError};
use volnotify::digits::{i64_to_string, u64_to_string};
use volnotify::icon::get_icon;
use volnotify::notify::{build_body, notification_command, parse_identity};
use volnotify::record::{format_record, parse_record};
use volnotify::store::Protocol;

fn args_for(task: &str) -> Args {
    Args {
        db_path: "/run/user/1000/volume.id".to_string(),
        interval: 512,
        sink: "@DEFAULT_SINK@".to_string(),
        task: task.to_string(),
    }
}

#[test]
fn up_raises_the_sink_volume_by_the_step() {
    let cmd = args_for("up").get_command_or_die().unwrap();
    assert_eq!(
        cmd,
        vec!["pactl", "set-sink-volume", "@DEFAULT_SINK@", "+512"]
    );
}

#[test]
fn down_lowers_the_sink_volume_by_the_step() {
    let cmd = args_for("down").get_command_or_die().unwrap();
    assert_eq!(
        cmd,
        vec!["pactl", "set-sink-volume", "@DEFAULT_SINK@", "-512"]
    );
}

#[test]
fn mute_toggles_the_sink() {
    let cmd = args_for("mute").get_command_or_die().unwrap();
    assert_eq!(cmd, vec!["pactl", "set-sink-mute", "@DEFAULT_SINK@", "toggle"]);
}

#[test]
fn noop_runs_the_do_nothing_command() {
    let cmd = args_for("noop").get_command_or_die().unwrap();
    assert_eq!(cmd, vec!["true"]);
}

#[test]
fn unknown_task_is_a_usage_error() {
    assert_eq!(
        args_for("sideways").get_command_or_die(),
        Err(ArgsError::UnknownTask)
    );
}

#[test]
fn numerals_format_with_their_sign() {
    assert_eq!(u64_to_string(0), "0");
    assert_eq!(u64_to_string(512), "512");
    assert_eq!(i64_to_string(-512), "-512");
    assert_eq!(i64_to_string(i64::MIN), "-9223372036854775808");
    assert_eq!(u64_to_string(u64::MAX), "18446744073709551615");
}

#[test]
fn body_lists_the_mute_line_then_the_channels() {
    let channels = vec![
        "Channel 1: 0 / 50% / 0.00 dB".to_string(),
        "Channel 2: 0 / 70% / 0.00 dB".to_string(),
    ];
    let body = build_body("Mute: no", &channels);
    assert_eq!(
        body,
        "Mute: no\n- Channel 1: 0 / 50% / 0.00 dB\n- Channel 2: 0 / 70% / 0.00 dB"
    );
}

#[test]
fn body_with_no_channels_is_just_the_mute_line() {
    let body = build_body("Mute: no", &Vec::new());
    assert_eq!(body, "Mute: no\n");
}

#[test]
fn fresh_notification_carries_no_replace_flag() {
    let channels = vec!["mono: 1 / 40% / 0.0 dB".to_string()];
    let cmd = notification_command("Mute: no", &channels, "audio-volume-medium", None);
    assert_eq!(
        cmd,
        vec![
            "notify-send",
            "Volume",
            "Mute: no\n- mono: 1 / 40% / 0.0 dB",
            "-p",
            "-i",
            "audio-volume-medium",
        ]
    );
}

#[test]
fn replacing_notification_names_the_stored_identity() {
    let channels = vec!["mono: 1 / 40% / 0.0 dB".to_string()];
    let cmd = notification_command("Mute: no", &channels, "audio-volume-medium", Some(33));
    assert_eq!(cmd.len(), 8);
    assert_eq!(&cmd[6..], &["-r".to_string(), "33".to_string()]);
}

#[test]
fn first_and_second_invocation_scenario() {
    // First-ever invocation, task `up`, empty record: the shared and the
    // exclusive read both find nothing, the notification goes out without
    // a replace flag, and the returned identifier becomes the record.
    let mut first = Protocol::new();
    first.observe("").unwrap();
    first.observe("").unwrap();
    let old = first.prior_identity();
    assert_eq!(old, None);
    let channels = vec!["mono: 1 / 40% / 0.0 dB".to_string()];
    let cmd = notification_command("Mute: no", &channels, get_icon("Mute: no", 40), old);
    assert!(!cmd.contains(&"-r".to_string()));
    let printed = "42\n";
    let new_id = parse_identity(printed).unwrap();
    assert!(first.must_write());
    let record = format_record(new_id);
    assert_eq!(record, "42");

    // Second invocation, task `down`, record now populated: the shared
    // read settles at once, the notification replaces identifier 42, and
    // the record is left alone.
    let mut second = Protocol::new();
    second.observe(&record).unwrap();
    let old = second.prior_identity();
    assert_eq!(old, Some(42));
    let cmd = notification_command("Mute: no", &channels, get_icon("Mute: no", 35), old);
    assert_eq!(&cmd[6..], &["-r".to_string(), "42".to_string()]);
    assert!(!second.must_write());
    assert_eq!(parse_record(&record), Ok(Some(42)));
}
