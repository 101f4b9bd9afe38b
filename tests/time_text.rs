use tidecalc::clock::TimeOfDay;
use tidecalc::time_text::{is_valid_time, naive_time_from_string, pad_segments, trim_to_valid};

fn valid(s: &str) -> bool {
    is_valid_time(&s.to_string())
}

fn hms(hour: u32, minute: u32, second: u32) -> TimeOfDay {
    TimeOfDay { hour, minute, second }
}

#[test]
fn empty_text_is_valid_so_far() {
    assert!(valid(""));
}

#[test]
fn partial_shapes_accepted() {
    assert!(valid("1"));
    assert!(valid("12"));
    assert!(valid("12:"));
    assert!(valid("1:2"));
    assert!(valid("1:2:"));
    assert!(valid("12:34:56"));
    assert!(valid("09:05:3"));
}

#[test]
fn other_characters_rejected() {
    assert!(!valid("1a"));
    assert!(!valid("12 "));
    assert!(!valid("-1"));
    assert!(!valid("1.5"));
}

#[test]
fn bad_shapes_rejected() {
    assert!(!valid("123"));
    assert!(!valid(":"));
    assert!(!valid(":12"));
    assert!(!valid("1::2"));
    assert!(!valid("12:345"));
    assert!(!valid("1:2:3:"));
    assert!(!valid("1:2:3:4"));
    assert!(!valid("12:34:567"));
}

#[test]
fn segments_padded_to_two() {
    assert_eq!(pad_segments("9:5:3"), "09:05:03");
    assert_eq!(pad_segments("9:5"), "09:05");
    assert_eq!(pad_segments(""), "00");
    assert_eq!(pad_segments("12:"), "12:00");
    assert_eq!(pad_segments("123:4"), "123:04");
    assert_eq!(pad_segments("::"), "00:00:00");
}

#[test]
fn parse_short_segments() {
    assert_eq!(naive_time_from_string("9:5:3"), Some(hms(9, 5, 3)));
}

#[test]
fn parse_hour_and_minute() {
    assert_eq!(naive_time_from_string("14:30"), Some(hms(14, 30, 0)));
    assert_eq!(naive_time_from_string("7:"), Some(hms(7, 0, 0)));
    assert_eq!(naive_time_from_string("23:59:59"), Some(hms(23, 59, 59)));
}

#[test]
fn parse_out_of_range() {
    assert_eq!(naive_time_from_string("25:00"), None);
    assert_eq!(naive_time_from_string("12:60"), None);
    assert_eq!(naive_time_from_string("12:00:61"), None);
}

#[test]
fn parse_empty() {
    assert_eq!(naive_time_from_string(""), None);
}

#[test]
fn parse_needs_minutes() {
    assert_eq!(naive_time_from_string("9"), None);
}

#[test]
fn parse_rejects_other_text() {
    assert_eq!(naive_time_from_string("ab:cd"), None);
    assert_eq!(naive_time_from_string("1:2:3:4"), None);
}

fn trimmed(s: &str) -> String {
    trim_to_valid(&s.to_string())
}

#[test]
fn trim_keeps_valid_text() {
    assert_eq!(trimmed("12:3"), "12:3");
    assert_eq!(trimmed(""), "");
}

#[test]
fn trim_drops_bad_keystroke() {
    assert_eq!(trimmed("12:3a"), "12:3");
    assert_eq!(trimmed("123"), "12");
    assert_eq!(trimmed("12::"), "12:");
    assert_eq!(trimmed("1:2:3:"), "1:2:3");
}

#[test]
fn trim_to_longest_valid_prefix() {
    assert_eq!(trimmed("x12"), "");
    assert_eq!(trimmed("1:x:2"), "1:");
}
