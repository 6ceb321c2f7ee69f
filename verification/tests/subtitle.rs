use srt_parser::subtitle::Subtitle;
use srt_parser::traits::Parseable;
use srt_parser::ParseError;

fn subtitle(input: &str) -> Subtitle {
    match Subtitle::parse(input) {
        Ok(subtitle) => subtitle,
        Err(error) => panic!("Expected Ok, got {:?}", error),
    }
}

fn block_invalid_format(input: &str) -> String {
    match Subtitle::parse(input) {
        Err(ParseError::InvalidFormat(message)) => message,
        other => panic!("Expected InvalidFormat, got {:?}", other),
    }
}

#[test]
fn test_valid_subtitle() {
    let input = "1\n00:00:01,000 --> 00:00:04,000\nExample subtitle line.";
    let result = Subtitle::parse(input);
    assert!(result.is_ok(), "Expected Ok, got {:?}", result);
}

#[test]
fn subtitle_test_invalid_input() {
    let input = "1\n00:00:01,000 --> 00:00:04,000";
    let result = Subtitle::parse(input);
    assert!(result.is_err(), "Expected Err, got {:?}", result);
}

#[test]
fn test_missing_fields() {
    let input = "1";
    let result = Subtitle::parse(input);
    assert!(result.is_err(), "Expected Err, got {:?}", result);
}

#[test]
fn test_invalid_index() {
    let input = "0\n00:00:01,000 --> 00:00:04,000\nExample subtitle line.";
    let result = Subtitle::parse(input);
    assert!(result.is_err(), "Expected Err, got {:?}", result);
}

#[test]
fn test_invalid_time_range() {
    let input = "1\n00:00:01,000 -> 00:00:04,000\nExample subtitle line.";
    let result = Subtitle::parse(input);
    assert!(result.is_err(), "Expected Err, got {:?}", result);
}

#[test]
fn subtitle_is_read_exactly() {
    let s = subtitle("17\n00:00:01,000 --> 00:00:04,500\nExample subtitle line.");
    assert_eq!(s.index, 17);
    assert_eq!(s.time_range.start.seconds, 1);
    assert_eq!(s.time_range.start.milliseconds, 0);
    assert_eq!(s.time_range.end.seconds, 4);
    assert_eq!(s.time_range.end.milliseconds, 500);
    assert_eq!(s.text, "Example subtitle line.");
}

#[test]
fn subtitle_text_lines_are_joined_by_one_space() {
    let s = subtitle("1\n00:00:01,000 --> 00:00:04,000\nHello\nWorld\nagain");
    assert_eq!(s.text, "Hello World again");
    let s = subtitle("1\n00:00:01,000 --> 00:00:04,000\n  Hello \n World");
    assert_eq!(s.text, "  Hello   World");
    let s = subtitle("1\n00:00:01,000 --> 00:00:04,000\nHello\n\nWorld");
    assert_eq!(s.text, "Hello  World");
}

#[test]
fn subtitle_final_line_feed_adds_no_line() {
    let s = subtitle("1\n00:00:01,000 --> 00:00:04,000\nHello\n");
    assert_eq!(s.text, "Hello");
    assert!(matches!(
        Subtitle::parse("1\n00:00:01,000 --> 00:00:04,000\n"),
        Err(ParseError::MissingFields)
    ));
    let s = subtitle("1\n00:00:01,000 --> 00:00:04,000\n\n");
    assert_eq!(s.text, "");
}

#[test]
fn subtitle_lines_may_end_in_carriage_return_and_line_feed() {
    let s = subtitle("1\r\n00:00:01,000 --> 00:00:04,000\r\nHello\r\nWorld\r\n");
    assert_eq!(s.index, 1);
    assert_eq!(s.text, "Hello World");
    let s = subtitle("1\n00:00:01,000 --> 00:00:04,000\nHello\r");
    assert_eq!(s.text, "Hello\r");
}

#[test]
fn subtitle_blank_input() {
    assert_eq!(block_invalid_format(""), "Invalid input");
    assert_eq!(block_invalid_format("\n\n \n"), "Invalid input");
}

#[test]
fn subtitle_with_fewer_than_three_lines_misses_fields() {
    for input in ["1", "1\n00:00:01,000 --> 00:00:04,000", "x\ny", "0\n", "a"] {
        assert!(
            matches!(Subtitle::parse(input), Err(ParseError::MissingFields)),
            "{:?}",
            input
        );
    }
}

#[test]
fn subtitle_index_zero_is_refused() {
    assert_eq!(
        block_invalid_format("0\n00:00:01,000 --> 00:00:04,000\nExample subtitle line."),
        "Subtitle index must be a positive integer, found: 0"
    );
    assert_eq!(
        block_invalid_format("+000\n00:00:01,000 --> 00:00:04,000\nText"),
        "Subtitle index must be a positive integer, found: +000"
    );
}

#[test]
fn subtitle_index_must_be_a_number() {
    assert_eq!(
        block_invalid_format("one\n00:00:01,000 --> 00:00:04,000\nText"),
        "Failed to parse subtitle index: one"
    );
    assert_eq!(
        block_invalid_format("-1\n00:00:01,000 --> 00:00:04,000\nText"),
        "Failed to parse subtitle index: -1"
    );
    assert_eq!(
        block_invalid_format(" 1\n00:00:01,000 --> 00:00:04,000\nText"),
        "Failed to parse subtitle index:  1"
    );
    assert_eq!(
        block_invalid_format("4294967296\n00:00:01,000 --> 00:00:04,000\nText"),
        "Failed to parse subtitle index: 4294967296"
    );
    assert_eq!(subtitle("4294967295\n00:00:01,000 --> 00:00:04,000\nText").index, u32::MAX);
}

#[test]
fn subtitle_index_is_tested_before_the_time_range() {
    assert_eq!(
        block_invalid_format("x\nnot a range\nText"),
        "Failed to parse subtitle index: x"
    );
    assert_eq!(
        block_invalid_format("0\nnot a range\nText"),
        "Subtitle index must be a positive integer, found: 0"
    );
}

#[test]
fn subtitle_error_of_the_time_range_is_passed_on() {
    assert_eq!(
        block_invalid_format("1\n00:00:01,000 -> 00:00:04,000\nExample subtitle line."),
        "Expected 2 parts, found 1"
    );
    match Subtitle::parse("1\n00:00:01,000 --> 00:00:61,000\nText") {
        Err(ParseError::InvalidTimecode(message)) => {
            assert_eq!(message, "Time values out of range: 0:0:61,0)")
        }
        other => panic!("Expected InvalidTimecode, got {:?}", other),
    }
    assert_eq!(block_invalid_format("1\n \nText"), "Invalid input");
}
