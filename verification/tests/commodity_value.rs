use rsledger::transaction::commodity_value::CommodityValue;

#[test]
fn commodity_value_test_commodity_value_from_str_nominal_format() {
    let cv = CommodityValue::from_str("123.45 SEK").unwrap();
    assert_eq!(cv.amount().raw_amount(), 12345);
    assert_eq!(cv.amount().precision(), 2);
}

#[test]
fn commodity_value_test_commodity_value_from_str_no_decimal() {
    let cv = CommodityValue::from_str("123 SEK").unwrap();
    assert_eq!(cv.amount().raw_amount(), 123);
    assert_eq!(cv.amount().precision(), 0);
}

#[test]
fn commodity_value_test_commodity_value_from_str_high_precision() {
    let cv = CommodityValue::from_str("123.4567 USD").unwrap();
    assert_eq!(cv.amount().raw_amount(), 1234567);
    assert_eq!(cv.amount().precision(), 4);
}

#[test]
fn commodity_value_test_commodity_value_from_str_commodity_with_spaces() {
    let cv = CommodityValue::from_str("123.45 Gold Bar").unwrap();
    assert_eq!(cv.amount().raw_amount(), 12345);
    assert_eq!(cv.amount().precision(), 2);
}

#[test]
fn commodity_value_test_commodity_value_from_str_negative() {
    let cv = CommodityValue::from_str("-123.45 SEK").unwrap();
    assert_eq!(cv.amount().raw_amount(), -12345);
    assert_eq!(cv.amount().precision(), 2);
}

#[test]
fn commodity_value_test_commodity_value_from_str_invalid_format() {
    assert!(CommodityValue::from_str("123.45.67 SEK").is_err());
}

#[test]
fn commodity_value_test_commodity_value_from_str_invalid() {
    assert!(CommodityValue::from_str("invalid_amount").is_err());
}

#[test]
fn commodity_value_test_commodity_value_display_nominal_format() {
    let cv = CommodityValue::from_str("123.45 SEK").unwrap();
    assert_eq!(cv.to_string(), "123.45 SEK");
}

#[test]
fn commodity_value_test_commodity_value_display_no_decimal() {
    let cv = CommodityValue::from_str("123 SEK").unwrap();
    assert_eq!(cv.to_string(), "123 SEK");
}

#[test]
fn commodity_value_test_commodity_value_display_different_precision() {
    let cv = CommodityValue::from_str("123.4567 Gold Bar").unwrap();
    assert_eq!(cv.to_string(), "123.4567 Gold Bar");
}

#[test]
fn commodity_value_test_commodity_value_display_negative() {
    let cv = CommodityValue::from_str("-123.45 SEK").unwrap();
    assert_eq!(cv.to_string(), "-123.45 SEK");
}

#[test]
fn commodity_value_test_commodity_value_equality_same_precision() {
    let cv1 = CommodityValue::from_str("123.45 SEK").unwrap();
    let cv2 = CommodityValue::from_str("123.45 SEK").unwrap();
    assert_eq!(cv1, cv2);
}

#[test]
fn commodity_value_test_commodity_value_equality_different_precision() {
    let cv1 = CommodityValue::from_str("123.4 SEK").unwrap();
    let cv2 = CommodityValue::from_str("123.40 SEK").unwrap();
    assert_eq!(cv1, cv2);
}

#[test]
fn commodity_value_test_commodity_value_equality_different_commodities() {
    let cv1 = CommodityValue::from_str("123.45 SEK").unwrap();
    let cv2 = CommodityValue::from_str("123.45 USD").unwrap();
    assert_ne!(cv1, cv2);
}

#[test]
fn commodity_value_test_commodity_value_equality_different_precision_and_commodities() {
    let cv1 = CommodityValue::from_str("123.4 SEK").unwrap();
    let cv2 = CommodityValue::from_str("123.40 USD").unwrap();
    assert_ne!(cv1, cv2);
}

#[test]
fn commodity_value_test_commodity_value_negation() {
    let cv = CommodityValue::from_str("123.45 SEK").unwrap();
    assert_eq!(cv.neg(), CommodityValue::from_str("-123.45 SEK").unwrap());
}

#[test]
fn commodity_value_test_commodity_value_addition_same_precision() {
    let cv1 = CommodityValue::from_str("100.50 SEK").unwrap();
    let cv2 = CommodityValue::from_str("23.75 SEK").unwrap();
    assert_eq!(cv1.add(&cv2), CommodityValue::from_str("124.25 SEK").unwrap());
}

#[test]
fn commodity_value_test_commodity_value_addition_different_precision() {
    let cv1 = CommodityValue::from_str("100.5 SEK").unwrap();
    let cv2 = CommodityValue::from_str("23.75 SEK").unwrap();
    assert_eq!(cv1.add(&cv2), CommodityValue::from_str("124.25 SEK").unwrap());
}

#[test]
fn commodity_value_test_commodity_value_addition_to_zero() {
    let cv1 = CommodityValue::from_str("50.00 SEK").unwrap();
    let cv2 = CommodityValue::from_str("-50.00 SEK").unwrap();
    assert_eq!(cv1.add(&cv2), CommodityValue::from_str("0.00 SEK").unwrap());
}

#[test]
fn commodity_value_test_commodity_value_addition_negative() {
    let cv1 = CommodityValue::from_str("-10.00 SEK").unwrap();
    let cv2 = CommodityValue::from_str("-5.00 SEK").unwrap();
    assert_eq!(cv1.add(&cv2), CommodityValue::from_str("-15.00 SEK").unwrap());
}

#[test]
fn commodity_value_test_commodity_value_subtraction_same_precision() {
    let cv1 = CommodityValue::from_str("100.50 SEK").unwrap();
    let cv2 = CommodityValue::from_str("23.25 SEK").unwrap();
    assert_eq!(cv1.sub(&cv2), CommodityValue::from_str("77.25 SEK").unwrap());
}

#[test]
fn commodity_value_test_commodity_value_subtraction_different_precision() {
    let cv1 = CommodityValue::from_str("100.5 SEK").unwrap();
    let cv2 = CommodityValue::from_str("23.25 SEK").unwrap();
    assert_eq!(cv1.sub(&cv2), CommodityValue::from_str("77.25 SEK").unwrap());
}

#[test]
fn commodity_value_test_commodity_value_subtraction_to_zero() {
    let cv1 = CommodityValue::from_str("50.00 SEK").unwrap();
    let cv2 = CommodityValue::from_str("50.00 SEK").unwrap();
    assert_eq!(cv1.sub(&cv2), CommodityValue::from_str("0.00 SEK").unwrap());
}

#[test]
fn commodity_value_test_commodity_value_subtraction_to_negative() {
    let cv1 = CommodityValue::from_str("10.00 SEK").unwrap();
    let cv2 = CommodityValue::from_str("25.00 SEK").unwrap();
    assert_eq!(cv1.sub(&cv2), CommodityValue::from_str("-15.00 SEK").unwrap());
}
