use rsledger::journalist::transaction::DoubleEntry;
use rsledger::journalist::transaction::commodity_value::CommodityValue;

#[test]
fn test_double_entry_display() {
    let double_entry: DoubleEntry = DoubleEntry::new(
        "2024-01-01".to_string(),
        "Test Transaction".to_string(),
        "Account 1".to_string(),
        CommodityValue::from_str("123.45 SEK").unwrap(),
        "Account 2".to_string(),
        CommodityValue::from_str("-123.45 SEK").unwrap(),
    );

    let expected_display = "2024-01-01 Test Transaction\n\tAccount 1 123.45 SEK\n\tAccount 2 -123.45 SEK\n\n";
    assert_eq!(double_entry.to_string(), expected_display);
}
