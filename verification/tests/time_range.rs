use srt_parser::time_range::TimeRange;
use srt_parser::traits::Parseable;
use srt_parser::ParseError;

fn ends(input: &str) -> ((u32, u32, u32, u32), (u32, u32, u32, u32)) {
    match TimeRange::parse(input) {
        Ok(r) => (
            (r.start.hours, r.start.minutes, r.start.seconds, r.start.milliseconds),
            (r.end.hours, r.end.minutes, r.end.seconds, r.end.milliseconds),
        ),
        Err(error) => panic!("Expected Ok, got {:?}", error),
    }
}

fn range_invalid_format(input: &str) -> String {
    match TimeRange::parse(input) {
        Err(ParseError::InvalidFormat(message)) => message,
        other => panic!("Expected InvalidFormat, got {:?}", other),
    }
}

fn range_invalid_timecode(input: &str) -> String {
    match TimeRange::parse(input) {
        Err(ParseError::InvalidTimecode(message)) => message,
        other => panic!("Expected InvalidTimecode, got {:?}", other),
    }
}

#[test]
fn test_valid_time_range() {
    let input = "00:00:01,000 --> 00:00:04,000";
    let result = TimeRange::parse(input);
    assert!(result.is_ok(), "Expected Ok, got {:?}", result);
}

#[test]
fn time_range_test_invalid_input() {
    let input = "00:00:01,000 -> 00:00:04,000";
    let result = TimeRange::parse(input);
    assert!(result.is_err(), "Expected Err, got {:?}", result);
}

#[test]
fn time_range_test_invalid_parts_count() {
    let input = "00:00:01,000";
    let result = TimeRange::parse(input);
    assert!(result.is_err(), "Expected Err, got {:?}", result);
}

#[test]
fn test_invalid_timecode_format() {
    let input = "00:00:01.000 --> 00:00:04.000";
    let result = TimeRange::parse(input);
    assert!(result.is_err(), "Expected Err, got {:?}", result);
}

#[test]
fn test_invalid_timecode_values() {
    let input = "00:60:60,1000 --> 00:00:04,000";
    let result = TimeRange::parse(input);
    assert!(result.is_err(), "Expected Err, got {:?}", result);
}

#[test]
fn time_range_ends_are_read_exactly() {
    assert_eq!(ends("00:00:01,000 --> 00:00:04,000"), ((0, 0, 1, 0), (0, 0, 4, 0)));
    assert_eq!(ends("  01:02:03,004 --> 23:59:59,999  "), ((1, 2, 3, 4), (23, 59, 59, 999)));
}

#[test]
fn time_range_may_end_before_it_starts() {
    assert_eq!(ends("00:00:04,000 --> 00:00:01,000"), ((0, 0, 4, 0), (0, 0, 1, 0)));
    assert_eq!(ends("00:00:01,000 --> 00:00:01,000"), ((0, 0, 1, 0), (0, 0, 1, 0)));
}

#[test]
fn time_range_each_side_is_trimmed() {
    assert_eq!(ends("00:00:01,000  -->   00:00:04,000"), ((0, 0, 1, 0), (0, 0, 4, 0)));
}

#[test]
fn time_range_blank_input() {
    assert_eq!(range_invalid_format(""), "Invalid input");
    assert_eq!(range_invalid_format(" \t "), "Invalid input");
}

#[test]
fn time_range_short_arrow_leaves_one_part() {
    assert_eq!(range_invalid_format("00:00:01,000 -> 00:00:04,000"), "Expected 2 parts, found 1");
    assert_eq!(range_invalid_format("00:00:01,000"), "Expected 2 parts, found 1");
    assert_eq!(range_invalid_format("00:00:01,000-->00:00:04,000"), "Expected 2 parts, found 1");
    assert_eq!(range_invalid_format(" --> "), "Expected 2 parts, found 1");
}

#[test]
fn time_range_two_arrows_leave_three_parts() {
    assert_eq!(
        range_invalid_format("00:00:01,000 --> 00:00:02,000 --> 00:00:03,000"),
        "Expected 2 parts, found 3"
    );
}

#[test]
fn time_range_arrows_do_not_overlap() {
    // The space between the two arrows belongs to the first one only.
    assert_eq!(range_invalid_format("a --> --> b"), "Expected 4 parts, found 1");
    assert_eq!(range_invalid_format("a -->  --> b"), "Expected 2 parts, found 3");
}

#[test]
fn time_range_error_of_a_side_is_passed_on() {
    assert_eq!(
        range_invalid_format("00:00:01.000 --> 00:00:04.000"),
        "Expected 4 parts, found 3"
    );
    assert_eq!(
        range_invalid_timecode("00:60:60,1000 --> 00:00:04,000"),
        "Time values out of range: 0:60:60,1000)"
    );
    assert_eq!(
        range_invalid_timecode("00:00:01,000 --> 00:00:0x,000"),
        "Failed to parse seconds: 0x"
    );
}

#[test]
fn time_range_left_side_fails_first() {
    assert_eq!(
        range_invalid_timecode("xx:00:01,000 --> 00:00:04,yyy"),
        "Failed to parse hours: xx"
    );
    assert_eq!(range_invalid_format("1:2:3 --> 99:99:99,9999"), "Expected 4 parts, found 3");
}
