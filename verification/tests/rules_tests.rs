use cli_schema::registry::TypeRule;
use cli_schema::rules::parse_boolean;
use cli_schema::rules::parse_integer;

#[test]
fn integers_are_read_in_decimal() {
    assert_eq!(parse_integer("0"), Some(0));
    assert_eq!(parse_integer("42"), Some(42));
    assert_eq!(parse_integer("-42"), Some(-42));
    assert_eq!(parse_integer("+42"), Some(42));
    assert_eq!(parse_integer("007"), Some(7));
    assert_eq!(parse_integer("-0"), Some(0));
}

#[test]
fn integers_reach_both_ends_of_the_range() {
    assert_eq!(parse_integer("9223372036854775807"), Some(i64::MAX));
    assert_eq!(parse_integer("-9223372036854775808"), Some(i64::MIN));
    assert_eq!(parse_integer("9223372036854775808"), None);
    assert_eq!(parse_integer("-9223372036854775809"), None);
    assert_eq!(parse_integer("+9223372036854775808"), None);
    assert_eq!(parse_integer("0000000000000000000009223372036854775807"), Some(i64::MAX));
    assert_eq!(parse_integer("99999999999999999999999999"), None);
    assert_eq!(parse_integer("-92233720368547758080"), None);
}

#[test]
fn other_text_is_no_integer() {
    assert_eq!(parse_integer(""), None);
    assert_eq!(parse_integer("-"), None);
    assert_eq!(parse_integer("+"), None);
    assert_eq!(parse_integer("--1"), None);
    assert_eq!(parse_integer("+-1"), None);
    assert_eq!(parse_integer("1-"), None);
    assert_eq!(parse_integer(" 1"), None);
    assert_eq!(parse_integer("1 "), None);
    assert_eq!(parse_integer("1_000"), None);
    assert_eq!(parse_integer("12a"), None);
    assert_eq!(parse_integer("1.5"), None);
    assert_eq!(parse_integer("0x10"), None);
    assert_eq!(parse_integer("\u{0661}"), None);
}

#[test]
fn integers_are_read_as_the_standard_library_reads_them() {
    let samples = [
        "", "0", "-0", "+0", "1", "-1", "+1", "10", "0010", "-", "+", "++1", "1+", "a", "1a",
        "9223372036854775807", "9223372036854775808", "-9223372036854775808",
        "-9223372036854775809", "18446744073709551616", " 7", "7 ", "-a", "1e3",
    ];
    for text in samples {
        assert_eq!(parse_integer(text), text.parse::<i64>().ok(), "{:?}", text);
    }
}

#[test]
fn truth_values_are_two_literals() {
    assert_eq!(parse_boolean("true"), Some(true));
    assert_eq!(parse_boolean("false"), Some(false));
    assert_eq!(parse_boolean("True"), None);
    assert_eq!(parse_boolean("1"), None);
    assert_eq!(parse_boolean(""), None);
    assert_eq!(parse_boolean("yes"), None);
    assert_eq!(parse_boolean("true "), None);
}

#[test]
fn rules_accept_what_they_can_read() {
    assert!(TypeRule::Text.accepts(""));
    assert!(TypeRule::Text.accepts("anything at all"));
    assert!(TypeRule::Integer.accepts("-17"));
    assert!(!TypeRule::Integer.accepts("seventeen"));
    assert!(!TypeRule::Integer.accepts(""));
    assert!(TypeRule::Boolean.accepts("false"));
    assert!(!TypeRule::Boolean.accepts("0"));
}
