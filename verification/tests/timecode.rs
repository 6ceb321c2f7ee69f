use srt_parser::timecode::Timecode;
use srt_parser::traits::Parseable;
use srt_parser::ParseError;

fn fields(input: &str) -> (u32, u32, u32, u32) {
    match Timecode::parse(input) {
        Ok(t) => (t.hours, t.minutes, t.seconds, t.milliseconds),
        Err(error) => panic!("Expected Ok, got {:?}", error),
    }
}

fn invalid_format(input: &str) -> String {
    match Timecode::parse(input) {
        Err(ParseError::InvalidFormat(message)) => message,
        other => panic!("Expected InvalidFormat, got {:?}", other),
    }
}

fn invalid_timecode(input: &str) -> String {
    match Timecode::parse(input) {
        Err(ParseError::InvalidTimecode(message)) => message,
        other => panic!("Expected InvalidTimecode, got {:?}", other),
    }
}

#[test]
fn test_valid_timecode() {
    let input = "12:34:56,789";
    let result = Timecode::parse(input);
    assert!(result.is_ok(), "Expected Ok, got {:?}", result);
}

#[test]
fn timecode_test_invalid_input() {
    let input = "12:34:56,789:";
    let result = Timecode::parse(input);
    assert!(result.is_err(), "Expected Err, got {:?}", result);
}

#[test]
fn timecode_test_invalid_parts_count() {
    let input = "12:34:56";
    let result = Timecode::parse(input);
    assert!(result.is_err(), "Expected Err, got {:?}", result);
}

#[test]
fn test_invalid_time_values() {
    let input = "25:61:61,1000";
    let result = Timecode::parse(input);
    assert!(result.is_err(), "Expected Err, got {:?}", result);
}

#[test]
fn timecode_fields_are_read_exactly() {
    assert_eq!(fields("12:34:56,789"), (12, 34, 56, 789));
    assert_eq!(fields("00:00:00,000"), (0, 0, 0, 0));
    assert_eq!(fields("23:59:59,999"), (23, 59, 59, 999));
    assert_eq!(fields("1:2:3,4"), (1, 2, 3, 4));
    assert_eq!(fields("0007:0008:0009,0010"), (7, 8, 9, 10));
}

#[test]
fn timecode_round_trips_every_hour_minute_and_millisecond() {
    for h in 0..24u32 {
        for m in 0..60u32 {
            let s = (h + m) % 60;
            let ms = (h * 60 + m) % 1000;
            let token = format!("{:02}:{:02}:{:02},{:03}", h, m, s, ms);
            assert_eq!(fields(&token), (h, m, s, ms));
        }
    }
    for ms in 0..1000u32 {
        let token = format!("00:00:00,{:03}", ms);
        assert_eq!(fields(&token), (0, 0, 0, ms));
    }
}

#[test]
fn timecode_is_trimmed_before_it_is_cut() {
    assert_eq!(fields("  12:34:56,789\t\n"), (12, 34, 56, 789));
    assert_eq!(fields("\u{3000}12:34:56,789\u{a0}"), (12, 34, 56, 789));
}

#[test]
fn timecode_takes_colon_comma_and_space_alike() {
    assert_eq!(fields("12 34 56 789"), (12, 34, 56, 789));
    assert_eq!(fields("12,34,56:789"), (12, 34, 56, 789));
    assert_eq!(fields("12:34:56 789"), (12, 34, 56, 789));
}

#[test]
fn timecode_takes_a_plus_sign() {
    assert_eq!(fields("+12:+34:+56,+789"), (12, 34, 56, 789));
}

#[test]
fn timecode_blank_input() {
    assert_eq!(invalid_format(""), "Invalid input");
    assert_eq!(invalid_format("   "), "Invalid input");
    assert_eq!(invalid_format("\n\t\r"), "Invalid input");
}

#[test]
fn timecode_part_count_is_reported() {
    assert_eq!(invalid_format("12:34:56,789:"), "Expected 4 parts, found 5");
    assert_eq!(invalid_format("12:34:56"), "Expected 4 parts, found 3");
    assert_eq!(invalid_format("12"), "Expected 4 parts, found 1");
    assert_eq!(invalid_format("00:00:01.000"), "Expected 4 parts, found 3");
    assert_eq!(invalid_format("1:2:3:4:5:6:7:8:9:10,11"), "Expected 4 parts, found 11");
}

#[test]
fn timecode_first_bad_field_is_reported() {
    assert_eq!(invalid_timecode("aa:34:56,789"), "Failed to parse hours: aa");
    assert_eq!(invalid_timecode("12:x:y,789"), "Failed to parse minutes: x");
    assert_eq!(invalid_timecode("12:34:5s,z"), "Failed to parse seconds: 5s");
    assert_eq!(invalid_timecode("12:34:56,7x9"), "Failed to parse milliseconds: 7x9");
    assert_eq!(invalid_timecode("12::56,789"), "Failed to parse minutes: ");
    assert_eq!(invalid_timecode("-1:00:00,000"), "Failed to parse hours: -1");
    assert_eq!(
        invalid_timecode("12:34:56,4294967296"),
        "Failed to parse milliseconds: 4294967296"
    );
}

#[test]
fn timecode_out_of_range_values_are_reported_together() {
    assert_eq!(invalid_timecode("25:61:61,1000"), "Time values out of range: 25:61:61,1000)");
    assert_eq!(invalid_timecode("00:60:60,1000"), "Time values out of range: 0:60:60,1000)");
    assert_eq!(invalid_timecode("24:00:00,000"), "Time values out of range: 24:0:0,0)");
    assert_eq!(invalid_timecode("00:60:00,000"), "Time values out of range: 0:60:0,0)");
    assert_eq!(invalid_timecode("00:00:60,000"), "Time values out of range: 0:0:60,0)");
    assert_eq!(invalid_timecode("00:00:00,1000"), "Time values out of range: 0:0:0,1000)");
    assert_eq!(
        invalid_timecode("4294967295:0:0,0"),
        "Time values out of range: 4294967295:0:0,0)"
    );
}

#[test]
fn timecode_parsing_twice_gives_the_same() {
    for input in ["12:34:56,789", "12:34", "", "99:99:99,9999", "a:b:c,d"] {
        let first = format!("{:?}", Timecode::parse(input));
        let second = format!("{:?}", Timecode::parse(input));
        assert_eq!(first, second);
    }
}
