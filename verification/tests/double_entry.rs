use rsledger::journalist::double_entry::{DoubleEntry, TransactionAmount};

#[test]
fn transaction_amount_reads_hundredths() {
    let a = TransactionAmount::from_str("123.45 SEK").unwrap();
    assert_eq!(a.to_string(), "123.45 SEK");
    let b = TransactionAmount::from_str("12 SEK").unwrap();
    assert_eq!(b.to_string(), "12.00 SEK");
    let c = TransactionAmount::from_str("1.5 SEK").unwrap();
    assert_eq!(c.to_string(), "0.15 SEK");
}

#[test]
fn transaction_amount_refuses_bad_input() {
    assert!(TransactionAmount::from_str("12").is_none());
    assert!(TransactionAmount::from_str("12 SEK extra").is_none());
    assert!(TransactionAmount::from_str("x SEK").is_none());
}

#[test]
fn transaction_amount_compares_and_negates() {
    let a = TransactionAmount::from_str("-0.05 SEK").unwrap();
    assert_eq!(a.to_string(), "0.05 SEK");
    let b = TransactionAmount::from_str("0.05 SEK").unwrap();
    assert!(a.same_currency(&b));
    assert!(!a.same_amount(&b));
    assert_eq!(a.neg(), b);
    assert!(a != b);
}

#[test]
fn double_entry_display() {
    let e = DoubleEntry::new(
        "2024-01-01".to_string(),
        "Lunch".to_string(),
        "expenses:food".to_string(),
        TransactionAmount::from_str("10.50 SEK").unwrap(),
        "assets:cash".to_string(),
        TransactionAmount::from_str("-10.50 SEK").unwrap(),
    );
    assert_eq!(e.to_string(), "2024-01-01 Lunch\n\texpenses:food 10.50 SEK\n\tassets:cash -10.50 SEK\n\n");
}
