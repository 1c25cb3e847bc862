use vlan_overview::numbers::{parse_u32_text, split_fields, IntError};
use vlan_overview::text::decimal_string;

#[test]
fn decimal_numbers_are_read() {
    assert_eq!(parse_u32_text("0"), Ok(0));
    assert_eq!(parse_u32_text("007"), Ok(7));
    assert_eq!(parse_u32_text("+42"), Ok(42));
    assert_eq!(parse_u32_text("4294967295"), Ok(u32::MAX));
}

#[test]
fn each_number_error_has_its_input() {
    assert_eq!(parse_u32_text(""), Err(IntError::Empty));
    assert_eq!(parse_u32_text("+"), Err(IntError::InvalidDigit));
    assert_eq!(parse_u32_text("-"), Err(IntError::InvalidDigit));
    assert_eq!(parse_u32_text("-1"), Err(IntError::InvalidDigit));
    assert_eq!(parse_u32_text("12a"), Err(IntError::InvalidDigit));
    assert_eq!(parse_u32_text("4294967296"), Err(IntError::PosOverflow));
    assert_eq!(parse_u32_text("99999999999a"), Err(IntError::PosOverflow));
    assert_eq!(parse_u32_text("a99999999999"), Err(IntError::InvalidDigit));
}

#[test]
fn fields_between_separators() {
    assert_eq!(split_fields("26:21,22", ':'), vec!["26".to_string(), "21,22".to_string()]);
    assert_eq!(split_fields("", ','), vec!["".to_string()]);
    assert_eq!(split_fields(",a,", ','), vec!["".to_string(), "a".to_string(), "".to_string()]);
    assert_eq!(split_fields("été:ü", ':'), vec!["été".to_string(), "ü".to_string()]);
}

#[test]
fn numbers_are_written_in_decimal() {
    assert_eq!(decimal_string(0), "0");
    assert_eq!(decimal_string(10), "10");
    assert_eq!(decimal_string(531), "531");
    assert_eq!(decimal_string(u32::MAX), "4294967295");
}
