use tene_checkout::errors::AppError;
use tene_checkout::money::{order_amount_minor, unit_price_micros};
use tene_checkout::text::{i64_to_string, lex_le, parse_digits_u64, str_eq, u64_to_string};

#[test]
fn unit_price_without_discount_is_price_in_micros() {
    // 50.00 with no discount: 5000 cents * 10000 = 50_000_000 micros
    assert_eq!(unit_price_micros(5000, 0), Some(50_000_000));
}

#[test]
fn unit_price_applies_discount_exactly() {
    // 100.00 with 10%: 10000 cents * (10000 - 1000) = 90_000_000 micros = 90.00
    assert_eq!(unit_price_micros(10_000, 1000), Some(90_000_000));
}

#[test]
fn unit_price_reports_overflow() {
    assert_eq!(unit_price_micros(u64::MAX, 0), None);
}

#[test]
fn order_amount_adds_delivery_and_truncates_once() {
    // one unit at 0.99 with a 33% discount: 99 * 6700 = 663_300 micros;
    // plus the 5.00 delivery surcharge: 5_663_300 micros = 566.33, truncated
    let unit = unit_price_micros(99, 3300).unwrap();
    let amount = order_amount_minor(&vec![(unit, 1)]).unwrap();
    assert_eq!(amount, 566);
}

#[test]
fn order_amount_of_reference_cart() {
    // two units at 50.00: 100.00 + 5.00 delivery = 10500 minor units
    let unit = unit_price_micros(5000, 0).unwrap();
    let amount = order_amount_minor(&vec![(unit, 2)]).unwrap();
    assert_eq!(amount, 10_500);
}

#[test]
fn order_amount_overflow_is_internal_error() {
    let r = order_amount_minor(&vec![(u64::MAX, 2)]);
    assert!(matches!(r, Err(AppError::InternalError(_))));
}

#[test]
fn empty_cart_amount_is_just_delivery() {
    let amount = order_amount_minor(&vec![]).unwrap();
    assert_eq!(amount, 500);
}

#[test]
fn u64_rendering() {
    assert_eq!(u64_to_string(0), "0");
    assert_eq!(u64_to_string(12_345), "12345");
    assert_eq!(u64_to_string(u64::MAX), "18446744073709551615");
}

#[test]
fn i64_rendering() {
    assert_eq!(i64_to_string(-42), "-42");
    assert_eq!(i64_to_string(7), "7");
    assert_eq!(i64_to_string(i64::MIN), "-9223372036854775808");
}

#[test]
fn digit_parsing() {
    assert_eq!(parse_digits_u64("42", u64::MAX), Some(42));
    assert_eq!(parse_digits_u64("", u64::MAX), None);
    assert_eq!(parse_digits_u64("4x2", u64::MAX), None);
    assert_eq!(parse_digits_u64("-5", u64::MAX), None);
    assert_eq!(parse_digits_u64("300", 255), None);
    assert_eq!(parse_digits_u64("255", 255), Some(255));
}

#[test]
fn string_equality_and_order() {
    assert!(str_eq("abc", "abc"));
    assert!(!str_eq("abc", "abd"));
    assert!(!str_eq("abc", "ab"));
    assert!(lex_le("amount", "currency"));
    assert!(!lex_le("currency", "amount"));
    assert!(lex_le("ab", "abc"));
    assert!(lex_le("same", "same"));
}
