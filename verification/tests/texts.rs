use commit_heatmap::day::{CalendarDay, DateError};
use commit_heatmap::text::{decimal_text, signed_decimal_text};

#[test]
fn decimal_text_writes_every_digit() {
    assert_eq!(decimal_text(0), "0");
    assert_eq!(decimal_text(7), "7");
    assert_eq!(decimal_text(10), "10");
    assert_eq!(decimal_text(1234567890), "1234567890");
    assert_eq!(decimal_text(u64::MAX), "18446744073709551615");
    for n in 0..1000u64 {
        assert_eq!(decimal_text(n), n.to_string());
    }
}

#[test]
fn signed_decimal_text_puts_a_minus_before_negative_numbers() {
    assert_eq!(signed_decimal_text(0), "0");
    assert_eq!(signed_decimal_text(-1), "-1");
    assert_eq!(signed_decimal_text(42), "42");
    assert_eq!(signed_decimal_text(-262143), "-262143");
    assert_eq!(signed_decimal_text(i64::MAX), "9223372036854775807");
    assert_eq!(signed_decimal_text(i64::MIN), "-9223372036854775808");
}

#[test]
fn an_invalid_date_is_named_in_its_message() {
    let error = CalendarDay::new(2023, 4, 31).unwrap_err();
    assert_eq!(error.message(), "no such day: 2023-4-31");
    let error = CalendarDay::new(-5, 13, 0).unwrap_err();
    assert_eq!(error.message(), "no such day: -5-13-0");
}

#[test]
fn a_timestamp_out_of_range_is_named_in_its_message() {
    let error = CalendarDay::from_timestamp(i64::MIN).unwrap_err();
    assert_eq!(error, DateError::TimestampOutOfRange { seconds: i64::MIN });
    assert_eq!(error.message(), "timestamp out of range: -9223372036854775808");
    let error = CalendarDay::from_timestamp(9_000_000_000_000).unwrap_err();
    assert_eq!(error.message(), "timestamp out of range: 9000000000000");
}
