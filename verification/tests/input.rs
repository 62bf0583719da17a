use linkage::input::{parse_scalar, TextInput, Theme};

#[test]
fn parses_plain_decimals() {
    assert_eq!(parse_scalar("1"), Some(1_000_000));
    assert_eq!(parse_scalar("007"), Some(7_000_000));
    assert_eq!(parse_scalar("1.5"), Some(1_500_000));
    assert_eq!(parse_scalar("0.000001"), Some(1));
    assert_eq!(parse_scalar("3"), Some(3_000_000));
}

#[test]
fn parses_signs_and_bare_dots() {
    assert_eq!(parse_scalar("-2.75"), Some(-2_750_000));
    assert_eq!(parse_scalar("+3"), Some(3_000_000));
    assert_eq!(parse_scalar(".5"), Some(500_000));
    assert_eq!(parse_scalar("1."), Some(1_000_000));
    assert_eq!(parse_scalar("-0"), Some(0));
}

#[test]
fn extra_fraction_digits_do_not_change_the_value() {
    assert_eq!(parse_scalar("0.1234567"), Some(123_456));
    assert_eq!(parse_scalar("0.12345699999"), Some(123_456));
}

#[test]
fn rejects_malformed_text() {
    assert_eq!(parse_scalar(""), None);
    assert_eq!(parse_scalar("-"), None);
    assert_eq!(parse_scalar("."), None);
    assert_eq!(parse_scalar("-."), None);
    assert_eq!(parse_scalar("1.2.3"), None);
    assert_eq!(parse_scalar("1e3"), None);
    assert_eq!(parse_scalar(" 1"), None);
    assert_eq!(parse_scalar("12a"), None);
    assert_eq!(parse_scalar("--1"), None);
}

#[test]
fn rejects_more_than_twelve_integer_digits() {
    assert_eq!(parse_scalar("999999999999"), Some(999_999_999_999_000_000));
    assert_eq!(parse_scalar("1000000000000"), None);
    assert_eq!(parse_scalar("0000000000000"), None);
}

#[test]
fn edits_keep_the_triple_consistent() {
    let mut field = TextInput::new(String::from("1"));
    assert!(field.valid);
    assert_eq!(field.parsed, Some(1_000_000));
    assert_eq!(field.theme(), Theme::Valid);

    let p = field.on_edit(String::from("2.5x"));
    assert_eq!(p, None);
    assert!(!field.valid);
    assert_eq!(field.parsed, None);
    assert_eq!(field.buffer, "2.5x");
    assert_eq!(field.theme(), Theme::Invalid);
}

#[test]
fn repeated_valid_edits_are_idempotent() {
    let mut field = TextInput::new(String::from("0"));
    let first = field.on_edit(String::from("4.25"));
    let second = field.on_edit(String::from("4.25"));
    assert_eq!(first, Some(4_250_000));
    assert_eq!(second, Some(4_250_000));
    assert!(field.valid);
    assert_eq!(field.parsed, Some(4_250_000));
}
