//! Parsing input lines into codes: values, shapes, and every error.

use keypad_chain::code::{parse_input, parse_line, Code, ParseError};
use keypad_chain::keypad::NumPad;

#[test]
fn parse_line_reads_keys_and_value() {
    let code = parse_line(b"029A").unwrap();
    assert_eq!(code.value(), 29);
    assert_eq!(
        code.keys().as_slice(),
        &[NumPad::D0, NumPad::D2, NumPad::D9, NumPad::A]
    );
}

#[test]
fn parse_line_keeps_leading_zeroes_out_of_the_value() {
    assert_eq!(parse_line(b"000A").unwrap().value(), 0);
    assert_eq!(parse_line(b"007A").unwrap().value(), 7);
}

#[test]
fn empty_line_is_missing_activate() {
    assert_eq!(parse_line(b"").err(), Some(ParseError::MissingActivate));
}

#[test]
fn line_without_trailing_a_is_missing_activate() {
    assert_eq!(parse_line(b"029").err(), Some(ParseError::MissingActivate));
}

#[test]
fn line_with_a_stray_character_is_invalid() {
    assert_eq!(parse_line(b"02x9A").err(), Some(ParseError::InvalidCharacter));
    assert_eq!(parse_line(b"0A9A").err(), Some(ParseError::InvalidCharacter));
    assert_eq!(parse_line(b" 29A").err(), Some(ParseError::InvalidCharacter));
}

#[test]
fn bare_activate_line_has_no_digits() {
    assert_eq!(parse_line(b"A").err(), Some(ParseError::NoDigits));
}

#[test]
fn numeral_beyond_u64_is_too_large() {
    // u64::MAX is 18446744073709551615; twenty digits overflow.
    assert_eq!(parse_line(b"99999999999999999999A").err(), Some(ParseError::ValueTooLarge));
    assert_eq!(parse_line(b"18446744073709551615A").unwrap().value(), u64::MAX);
    assert_eq!(parse_line(b"18446744073709551616A").err(), Some(ParseError::ValueTooLarge));
}

#[test]
fn parse_input_splits_lines_in_order() {
    let codes = parse_input(b"029A\n980A\n179A").unwrap();
    assert_eq!(codes.len(), 3);
    assert_eq!(codes[0].value(), 29);
    assert_eq!(codes[1].value(), 980);
    assert_eq!(codes[2].value(), 179);
}

#[test]
fn parse_input_tolerates_one_trailing_newline() {
    let codes = parse_input(b"029A\n").unwrap();
    assert_eq!(codes.len(), 1);
    assert_eq!(codes[0].value(), 29);
}

#[test]
fn parse_input_rejects_a_blank_middle_line() {
    assert_eq!(parse_input(b"029A\n\n980A").err(), Some(ParseError::MissingActivate));
}

#[test]
fn parse_input_aborts_on_the_first_bad_line() {
    assert_eq!(parse_input(b"029A\n98!A\nxyz").err(), Some(ParseError::InvalidCharacter));
}

#[test]
fn parse_input_of_nothing_is_no_codes() {
    assert_eq!(parse_input(b"").unwrap().len(), 0);
}

#[test]
fn carriage_returns_are_not_permitted() {
    assert_eq!(parse_line(b"029A\r").err(), Some(ParseError::MissingActivate));
    // A CR before the newline leaves the first line ending in CR, not `A`.
    assert_eq!(parse_input(b"029A\r\n980A").err(), Some(ParseError::MissingActivate));
    assert_eq!(parse_line(b"02\r9A").err(), Some(ParseError::InvalidCharacter));
}

#[test]
fn from_keys_accepts_a_bare_activate_code_with_value_zero() {
    let code = Code::from_keys(vec![NumPad::A]).unwrap();
    assert_eq!(code.value(), 0);
    assert_eq!(code.keys().as_slice(), &[NumPad::A]);
}

#[test]
fn from_keys_rejects_misplaced_activate() {
    assert_eq!(
        Code::from_keys(Vec::new()).err(),
        Some(ParseError::MissingActivate)
    );
    assert_eq!(
        Code::from_keys(vec![NumPad::D1, NumPad::D2]).err(),
        Some(ParseError::MissingActivate)
    );
    assert_eq!(
        Code::from_keys(vec![NumPad::D1, NumPad::A, NumPad::D2, NumPad::A]).err(),
        Some(ParseError::InvalidCharacter)
    );
}
