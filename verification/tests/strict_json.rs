//! Byte-level checks of strict v0 JSON.

use rigtether::strict_json::{contains_negative_zero, JsonError};

#[test]
fn negative_zero_outside_strings_is_found() {
    assert!(contains_negative_zero(br#"{"value":-0}"#));
    assert!(contains_negative_zero(br#"{"value":-0.0}"#));
    assert!(contains_negative_zero(br#"{"value":-0e1}"#));
    assert!(contains_negative_zero(br#"[-0, 1]"#));
    assert!(contains_negative_zero(b"-0"));
}

#[test]
fn negative_zero_inside_strings_or_other_numbers_is_not() {
    assert!(!contains_negative_zero(br#"{"value":"-0"}"#));
    assert!(!contains_negative_zero(br#"{"value":"\"-0"}"#));
    assert!(!contains_negative_zero(br#"{"value":-01}"#));
    assert!(!contains_negative_zero(br#"{"value":-10}"#));
    assert!(!contains_negative_zero(br#"{"value":0}"#));
    assert!(!contains_negative_zero(b""));
    assert!(!contains_negative_zero(b"-"));
}

#[test]
fn escaped_quotes_keep_the_string_open() {
    assert!(!contains_negative_zero(br#"{"a":"x\",-0"}"#));
    assert!(contains_negative_zero(br#"{"a":"x\\",-0}"#));
}

#[test]
fn json_error_reports_its_detail() {
    let error = JsonError(String::from("duplicate key seq"));
    assert_eq!(error.detail(), "duplicate key seq");
}
