use rsledger::commodity_value::fixed_decimal::FixedDecimal;

#[test]
fn test_fixed_decimal_from_str_with_decimal() {
    let fd = FixedDecimal::from_str("123.45").unwrap();
    assert_eq!(fd.raw_amount(), 12345);
    assert_eq!(fd.precision(), 2);
}

#[test]
fn test_fixed_decimal_from_str_no_decimal() {
    let fd = FixedDecimal::from_str("123").unwrap();
    assert_eq!(fd.raw_amount(), 123);
    assert_eq!(fd.precision(), 0);
}

#[test]
fn test_fixed_decimal_from_str_high_precision() {
    let fd = FixedDecimal::from_str("1.4567").unwrap();
    assert_eq!(fd.raw_amount(), 14567);
    assert_eq!(fd.precision(), 4);
}

#[test]
fn test_fixed_decimal_from_str_negative() {
    let fd = FixedDecimal::from_str("-123.45").unwrap();
    assert_eq!(fd.raw_amount(), -12345);
    assert_eq!(fd.precision(), 2);
}

#[test]
fn test_fixed_decimal_from_str_trailing_zeros() {
    let fd = FixedDecimal::from_str("1.40").unwrap();
    assert_eq!(fd.raw_amount(), 14);
    assert_eq!(fd.precision(), 1);
}

#[test]
fn test_fixed_decimal_multiple_trailing_zeros() {
    let fd = FixedDecimal::from_str("1.4000").unwrap();
    assert_eq!(fd.raw_amount(), 14);
    assert_eq!(fd.precision(), 1);
}

#[test]
fn test_fixed_decimal_all_trailing_zeros() {
    let fd = FixedDecimal::from_str("1.000").unwrap();
    assert_eq!(fd.raw_amount(), 1);
    assert_eq!(fd.precision(), 0);
}

#[test]
fn test_fixed_decimal_from_str_invalid_multiple_dots() {
    assert!(FixedDecimal::from_str("1.2.3").is_err());
}

#[test]
fn test_fixed_decimal_from_str_invalid_non_numeric() {
    assert!(FixedDecimal::from_str("abc").is_err());
}

#[test]
fn test_fixed_decimal_display_with_decimal() {
    let fd = FixedDecimal::from_str("123.45").unwrap();
    assert_eq!(fd.to_string(), "123.45");
}

#[test]
fn test_fixed_decimal_display_no_decimal() {
    let fd = FixedDecimal::from_str("123").unwrap();
    assert_eq!(fd.to_string(), "123");
}

#[test]
fn test_fixed_decimal_display_negative() {
    let fd = FixedDecimal::from_str("-123.45").unwrap();
    assert_eq!(fd.to_string(), "-123.45");
}

#[test]
fn test_fixed_decimal_display_trailing_zeros() {
    let fd = FixedDecimal::from_str("1.40").unwrap();
    assert_eq!(fd.to_string(), "1.4");
}

#[test]
fn test_fixed_decimal_equality_same_precision() {
    let fd1 = FixedDecimal::from_str("123.45").unwrap();
    let fd2 = FixedDecimal::from_str("123.45").unwrap();
    assert_eq!(fd1, fd2);
}

#[test]
fn test_fixed_decimal_equality_different_precision() {
    let fd1 = FixedDecimal::from_str("1.4").unwrap();
    let fd2 = FixedDecimal::from_str("1.40").unwrap();
    assert_eq!(fd1, fd2);
}

#[test]
fn test_fixed_decimal_inequality() {
    let fd1 = FixedDecimal::from_str("1.4").unwrap();
    let fd2 = FixedDecimal::from_str("1.5").unwrap();
    assert_ne!(fd1, fd2);
}

#[test]
fn test_fixed_decimal_negation() {
    let fd = FixedDecimal::from_str("123.45").unwrap();
    assert_eq!(fd.neg(), FixedDecimal::from_str("-123.45").unwrap());
}

#[test]
fn test_fixed_decimal_add_same_precision() {
    let fd1 = FixedDecimal::from_str("100.50").unwrap();
    let fd2 = FixedDecimal::from_str("23.75").unwrap();
    assert_eq!(fd1.add(&fd2), FixedDecimal::from_str("124.25").unwrap());
}

#[test]
fn test_fixed_decimal_add_different_precision() {
    let fd1 = FixedDecimal::from_str("100.5").unwrap();
    let fd2 = FixedDecimal::from_str("23.75").unwrap();
    assert_eq!(fd1.add(&fd2), FixedDecimal::from_str("124.25").unwrap());
}

#[test]
fn test_fixed_decimal_add_to_zero() {
    let fd1 = FixedDecimal::from_str("50.00").unwrap();
    let fd2 = FixedDecimal::from_str("-50.00").unwrap();
    assert_eq!(fd1.add(&fd2), FixedDecimal::from_str("0.00").unwrap());
}

#[test]
fn test_fixed_decimal_sub_same_precision() {
    let fd1 = FixedDecimal::from_str("100.50").unwrap();
    let fd2 = FixedDecimal::from_str("23.25").unwrap();
    assert_eq!(fd1.sub(&fd2), FixedDecimal::from_str("77.25").unwrap());
}

#[test]
fn test_fixed_decimal_sub_to_negative() {
    let fd1 = FixedDecimal::from_str("10.00").unwrap();
    let fd2 = FixedDecimal::from_str("25.00").unwrap();
    assert_eq!(fd1.sub(&fd2), FixedDecimal::from_str("-15.00").unwrap());
}

#[test]
fn test_fixed_decimal_add_assign() {
    let mut fd1 = FixedDecimal::from_str("100.50").unwrap();
    let fd2 = FixedDecimal::from_str("23.75").unwrap();
    fd1.add_assign(&fd2);
    assert_eq!(fd1, FixedDecimal::from_str("124.25").unwrap());
}

#[test]
fn test_fixed_decimal_sub_assign() {
    let mut fd1 = FixedDecimal::from_str("100.50").unwrap();
    let fd2 = FixedDecimal::from_str("23.25").unwrap();
    fd1.sub_assign(&fd2);
    assert_eq!(fd1, FixedDecimal::from_str("77.25").unwrap());
}

#[test]
fn test_new_already_canonical() {
    let fd = FixedDecimal::new(12345, 2);
    assert_eq!(fd.raw_amount(), 12345);
    assert_eq!(fd.precision(), 2);
}

#[test]
fn test_new_strips_one_trailing_zero() {
    let fd = FixedDecimal::new(140, 2);
    assert_eq!(fd.raw_amount(), 14);
    assert_eq!(fd.precision(), 1);
}

#[test]
fn test_new_strips_all_trailing_zeros_to_integer() {
    let fd = FixedDecimal::new(5000, 3);
    assert_eq!(fd.raw_amount(), 5);
    assert_eq!(fd.precision(), 0);
}

#[test]
fn test_new_zero_canonical() {
    let fd = FixedDecimal::new(0, 6);
    assert_eq!(fd.raw_amount(), 0);
    assert_eq!(fd.precision(), 0);
}

#[test]
fn test_new_negative_strips_trailing_zeros() {
    let fd = FixedDecimal::new(-1200, 2);
    assert_eq!(fd.raw_amount(), -12);
    assert_eq!(fd.precision(), 0);
}

#[test]
fn test_new_precision_zero_unchanged() {
    let fd = FixedDecimal::new(42, 0);
    assert_eq!(fd.raw_amount(), 42);
    assert_eq!(fd.precision(), 0);
}

#[test]
fn fixed_decimal_display_then_parse_round_trips() {
    let fd = FixedDecimal::from_str("-12.05").unwrap();
    let again = FixedDecimal::from_str(&fd.to_string()).unwrap();
    assert_eq!(fd, again);
    assert_eq!(again.raw_amount(), -1205);
}

#[test]
fn fixed_decimal_small_negative_loses_sign_in_display() {
    let fd = FixedDecimal::from_str("-0.5").unwrap();
    assert_eq!(fd.to_string(), "0.5");
}

#[test]
fn fixed_decimal_error_message() {
    assert_eq!(FixedDecimal::from_str("1.2.3").unwrap_err(), "Invalid decimal format: '1.2.3'.");
}

#[test]
fn additions_that_overflow_are_detected() {
    let d = |s: &str| rsledger::commodity_value::fixed_decimal::FixedDecimal::from_str(s).unwrap();
    assert!(d("1.5").add_fits_check(&d("2")));
    assert!(!d("9223372036854775807").add_fits_check(&d("1")));
    assert!(!d("922337203685477581").add_fits_check(&d("0.1")));
    assert!(d("-9223372036854775808").add_fits_check(&d("9223372036854775807")));
}
