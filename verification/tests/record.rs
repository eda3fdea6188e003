use volnotify::record::{default_record_path, format_record, parse_record, RecordError};
use volnotify::notify::parse_identity;

#[test]
fn record_round_trip() {
    let text = format_record(42);
    assert_eq!(text, "42");
    assert_eq!(parse_record(&text), Ok(Some(42)));
}

#[test]
fn record_empty_means_no_identity() {
    assert_eq!(parse_record(""), Ok(None));
    assert_eq!(parse_record("  \n\t"), Ok(None));
}

#[test]
fn record_tolerates_surrounding_whitespace() {
    assert_eq!(parse_record(" 7\n"), Ok(Some(7)));
    assert_eq!(parse_record("\t123 "), Ok(Some(123)));
}

#[test]
fn record_rejects_non_numerals() {
    assert_eq!(parse_record("x7"), Err(RecordError::Malformed));
    assert_eq!(parse_record("-5"), Err(RecordError::Malformed));
    assert_eq!(parse_record("4 2"), Err(RecordError::Malformed));
}

#[test]
fn record_rejects_oversized_numerals() {
    assert_eq!(
        parse_record("99999999999999999999999"),
        Err(RecordError::Malformed)
    );
    assert_eq!(parse_record("18446744073709551616"), Err(RecordError::Malformed));
    assert_eq!(
        parse_record("18446744073709551615"),
        Ok(Some(u64::MAX))
    );
}

#[test]
fn record_keeps_leading_zeros_value() {
    assert_eq!(parse_record("007"), Ok(Some(7)));
}

#[test]
fn identity_comes_from_trimmed_output() {
    assert_eq!(parse_identity("  123\n"), Ok(123));
    assert_eq!(parse_identity("0"), Ok(0));
}

#[test]
fn identity_rejects_empty_and_garbage() {
    assert!(parse_identity("").is_err());
    assert!(parse_identity("abc").is_err());
    assert!(parse_identity("12a").is_err());
}

#[test]
fn default_path_is_under_the_runtime_directory() {
    assert_eq!(default_record_path(1000), "/run/user/1000/volume.id");
    assert_eq!(default_record_path(0), "/run/user/0/volume.id");
}
