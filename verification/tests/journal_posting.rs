use rsledger::journal::transaction::posting::Posting;

#[test]
fn test_posting_from_str() {
    let posting_str = "income:salary  3000 GBP";
    let posting = Posting::from_str(posting_str).unwrap();
    assert_eq!(posting.account().to_string(), "income:salary");
    assert_eq!(posting.amount().unwrap().to_string(), "3000 GBP");
}

#[test]
fn test_posting_from_str_no_amount() {
    let posting_str = "income:salary";
    let posting = Posting::from_str(posting_str).unwrap();
    assert_eq!(posting.account().to_string(), "income:salary");
    assert!(posting.amount().is_none());
}

#[test]
fn test_posting_from_str_account_with_space() {
    let posting_str = "expenses:food and drink  50 GBP";
    let posting = Posting::from_str(posting_str).unwrap();
    assert_eq!(posting.account().to_string(), "expenses:food and drink");
    assert_eq!(posting.amount().unwrap().to_string(), "50 GBP");
}

#[test]
fn test_posting_from_str_autobalancing() {
    let posting_str = "expenses:food";
    let posting = Posting::from_str(posting_str).unwrap();
    assert_eq!(posting.account().to_string(), "expenses:food");
    assert!(posting.amount().is_none());
}

#[test]
fn test_posting_from_str_autobalancing_with_space_in_account() {
    let posting_str = "expenses:food and drink";
    let posting = Posting::from_str(posting_str).unwrap();
    assert_eq!(posting.account().to_string(), "expenses:food and drink");
    assert!(posting.amount().is_none());
}

#[test]
fn posting_quotes_commodities_with_spaces_and_reports_errors() {
    let p = Posting::from_str("assets:vault    2 \"Gold Bar\"").unwrap();
    assert_eq!(p.to_string(), "assets:vault  2 \"Gold Bar\"");
    match Posting::from_str("bank  5 SEK") {
        Err(e) => assert_eq!(e.to_string(), "Could not parse bank  5 SEK: Failed to parse account: Could not parse bank: Invalid root account"),
        Ok(_) => panic!("expected an error"),
    }
    match Posting::from_str("assets:bank  5") {
        Err(e) => assert_eq!(
            e.to_string(),
            "Could not parse assets:bank  5: Failed to parse amount: Invalid amount format: '5'. Expected format: '<amount> <commodity>'."
        ),
        Ok(_) => panic!("expected an error"),
    }
}

#[test]
fn leading_double_space_means_no_amount() {
    let p = Posting::from_str("  assets:bank").unwrap();
    assert_eq!(p.to_string(), "assets:bank");
    assert!(p.amount().is_none());
}
