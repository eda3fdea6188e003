use volnotify::icon::get_icon;
use volnotify::volume::{parse_volume, VolumeError};

#[test]
fn two_channel_report() {
    let input = "Channel 1: 0 / 50% / 0.00 dB\nChannel 2: 0 / 70% / 0.00 dB";
    let (avg, channels) = parse_volume(input).unwrap();
    assert_eq!(
        channels,
        vec![
            "Channel 1: 0 / 50% / 0.00 dB".to_string(),
            "Channel 2: 0 / 70% / 0.00 dB".to_string(),
        ]
    );
    assert_eq!(avg, 60);
}

#[test]
fn single_channel_report() {
    let input = "front-left: 32768 / 50% / -18.06 dB";
    let (avg, channels) = parse_volume(input).unwrap();
    assert_eq!(avg, 50);
    assert_eq!(channels, vec![input.to_string()]);
}

#[test]
fn aligned_percentages_with_extra_spaces() {
    let input = "mono: 65536 /  100% / 0.00 dB";
    let (avg, channels) = parse_volume(input).unwrap();
    assert_eq!(avg, 100);
    assert_eq!(channels.len(), 1);
}

#[test]
fn average_truncates() {
    let input = "a: 1 / 1% / 0.0 dB\nb: 1 / 2% / 0.0 dB";
    let (avg, _) = parse_volume(input).unwrap();
    assert_eq!(avg, 1);
}

#[test]
fn non_channel_lines_are_skipped() {
    let input = "Volume: front-left\nx: 3 / 40% / 0.5 dB\ntrailer";
    let (avg, channels) = parse_volume(input).unwrap();
    assert_eq!(avg, 40);
    assert_eq!(channels, vec!["x: 3 / 40% / 0.5 dB".to_string()]);
}

#[test]
fn report_without_channels_is_an_error() {
    assert_eq!(parse_volume("hello"), Err(VolumeError::NoChannels));
    assert_eq!(parse_volume(""), Err(VolumeError::NoChannels));
    assert_eq!(
        parse_volume("almost: x / y% / z dB"),
        Err(VolumeError::NoChannels)
    );
}

#[test]
fn oversized_percentage_is_an_error() {
    let input = "x: 1 / 99999999999% / 0.0 dB";
    assert_eq!(parse_volume(input), Err(VolumeError::PercentTooLarge));
}

#[test]
fn negative_decibels_match() {
    let input = "rear: 16384 / 25% / -36.12 dB";
    let (avg, _) = parse_volume(input).unwrap();
    assert_eq!(avg, 25);
}

#[test]
fn icon_boundaries() {
    assert_eq!(get_icon("Mute: no", 0), "audio-volume-muted");
    assert_eq!(get_icon("Mute: no", 1), "audio-volume-low");
    assert_eq!(get_icon("Mute: no", 32), "audio-volume-low");
    assert_eq!(get_icon("Mute: no", 33), "audio-volume-medium");
    assert_eq!(get_icon("Mute: no", 65), "audio-volume-medium");
    assert_eq!(get_icon("Mute: no", 66), "audio-volume-high");
    assert_eq!(get_icon("Mute: no", 100), "audio-volume-high");
}

#[test]
fn mute_text_overrides_percentage() {
    assert_eq!(get_icon("Mute: yes", 100), "audio-volume-muted");
    assert_eq!(get_icon("Mute: yes", 50), "audio-volume-muted");
}

#[test]
fn trailing_newline_is_harmless() {
    let input = "x: 3 / 40% / 0.5 dB\n";
    let (avg, channels) = parse_volume(input).unwrap();
    assert_eq!(avg, 40);
    assert_eq!(channels, vec!["x: 3 / 40% / 0.5 dB".to_string()]);
}

#[test]
fn raising_every_channel_raises_the_average() {
    let before = "a: 1 / 40% / 0.0 dB\nb: 1 / 50% / 0.0 dB";
    let after = "a: 1 / 45% / 0.0 dB\nb: 1 / 55% / 0.0 dB";
    let (avg_before, _) = parse_volume(before).unwrap();
    let (avg_after, _) = parse_volume(after).unwrap();
    assert!(avg_after >= avg_before);
    assert_eq!(avg_before, 45);
    assert_eq!(avg_after, 50);
}
