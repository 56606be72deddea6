use rsledger::date::Date;
use rsledger::transaction::Transaction;
use rsledger::transaction::commodity_value::CommodityValue;
use rsledger::transaction::posting::Posting;

#[test]
fn test_transaction_display_two_postings() {
    let transaction: Transaction = Transaction::new(
        Date::from_ymd_opt(2024, 1, 1).unwrap(),
        "Test Transaction".to_string(),
        vec![
            Posting::new(
                "Account 1".to_string(),
                Some(CommodityValue::from_str("123.45 SEK").unwrap()),
            ),
            Posting::new(
                "Account 2".to_string(),
                Some(CommodityValue::from_str("-123.45 SEK").unwrap()),
            ),
        ],
    );

    let expected_display =
        "2024-01-01 Test Transaction\n\tAccount 1  123.45 SEK\n\tAccount 2  -123.45 SEK";
    assert_eq!(transaction.to_string(), expected_display);
}

#[test]
fn test_transaction_display_multiple_postings() {
    let transaction: Transaction = Transaction::new(
        Date::from_ymd_opt(2024, 1, 1).unwrap(),
        "Test Transaction".to_string(),
        vec![
            Posting::new(
                "Account 1".to_string(),
                Some(CommodityValue::from_str("100.00 GBP").unwrap()),
            ),
            Posting::new(
                "Account 2".to_string(),
                Some(CommodityValue::from_str("-50.00 GBP").unwrap()),
            ),
            Posting::new(
                "Account 3".to_string(),
                Some(CommodityValue::from_str("-50.00 GBP").unwrap()),
            ),
        ],
    );

    let expected_display = "2024-01-01 Test Transaction\n\tAccount 1  100 GBP\n\tAccount 2  -50 GBP\n\tAccount 3  -50 GBP";
    assert_eq!(transaction.to_string(), expected_display);
}

#[test]
fn test_transaction_validate_balanced_single_commodity() {
    let transaction: Transaction = Transaction::new(
        Date::from_ymd_opt(2024, 1, 1).unwrap(),
        "Test Transaction".to_string(),
        vec![
            Posting::new(
                "Account 1".to_string(),
                Some(CommodityValue::from_str("100.00 GBP").unwrap()),
            ),
            Posting::new(
                "Account 2".to_string(),
                Some(CommodityValue::from_str("-50.00 GBP").unwrap()),
            ),
            Posting::new(
                "Account 3".to_string(),
                Some(CommodityValue::from_str("-50.00 GBP").unwrap()),
            ),
        ],
    );
    assert!(transaction.validate());
}

#[test]
fn test_transaction_validate_unbalanced_single_commodity() {
    let transaction: Transaction = Transaction::new(
        Date::from_ymd_opt(2024, 1, 1).unwrap(),
        "Test Transaction".to_string(),
        vec![
            Posting::new(
                "Account 1".to_string(),
                Some(CommodityValue::from_str("100.00 SEK").unwrap()),
            ),
            Posting::new(
                "Account 2".to_string(),
                Some(CommodityValue::from_str("-30.00 SEK").unwrap()),
            ),
            Posting::new(
                "Account 3".to_string(),
                Some(CommodityValue::from_str("-50.00 SEK").unwrap()),
            ),
        ],
    );
    assert!(!transaction.validate());
}

#[test]
fn test_transaction_validate_balanced_multiple_commodities() {
    let transaction: Transaction = Transaction::new(
        Date::from_ymd_opt(2024, 1, 1).unwrap(),
        "Test Transaction".to_string(),
        vec![
            Posting::new(
                "Account 1".to_string(),
                Some(CommodityValue::from_str("100.00 GBP").unwrap()),
            ),
            Posting::new(
                "Account 2".to_string(),
                Some(CommodityValue::from_str("-50.00 GBP").unwrap()),
            ),
            Posting::new(
                "Account 3".to_string(),
                Some(CommodityValue::from_str("-50.00 GBP").unwrap()),
            ),
            Posting::new(
                "Account 4".to_string(),
                Some(CommodityValue::from_str("200.00 SEK").unwrap()),
            ),
            Posting::new(
                "Account 5".to_string(),
                Some(CommodityValue::from_str("-200.00 SEK").unwrap()),
            ),
        ],
    );
    assert!(transaction.validate());
}

#[test]
fn test_transaction_validate_unbalanced_multiple_commodities() {
    let transaction: Transaction = Transaction::new(
        Date::from_ymd_opt(2024, 1, 1).unwrap(),
        "Test Transaction".to_string(),
        vec![
            Posting::new(
                "Account 1".to_string(),
                Some(CommodityValue::from_str("100.00 GBP").unwrap()),
            ),
            Posting::new(
                "Account 2".to_string(),
                Some(CommodityValue::from_str("-50.00 GBP").unwrap()),
            ),
            Posting::new(
                "Account 3".to_string(),
                Some(CommodityValue::from_str("-50.00 GBP").unwrap()),
            ),
            Posting::new(
                "Account 4".to_string(),
                Some(CommodityValue::from_str("200.00 SEK").unwrap()),
            ),
            Posting::new(
                "Account 5".to_string(),
                Some(CommodityValue::from_str("-150.00 SEK").unwrap()),
            ),
        ],
    );
    assert!(!transaction.validate());
}

#[test]
fn test_transaction_validate_exchange_two_commodities() {
    // Two unbalanced commodities with opposite signs → valid exchange
    let transaction: Transaction = Transaction::new(
        Date::from_ymd_opt(2024, 1, 1).unwrap(),
        "Currency Exchange".to_string(),
        vec![
            Posting::new(
                "assets:gbp".to_string(),
                Some(CommodityValue::from_str("100.00 GBP").unwrap()),
            ),
            Posting::new(
                "assets:sek".to_string(),
                Some(CommodityValue::from_str("-1500.00 SEK").unwrap()),
            ),
        ],
    );
    assert!(transaction.validate());
}

#[test]
fn test_transaction_validate_exchange_three_commodities_one_balanced() {
    // Two unbalanced commodities (opposite signs) + one balanced → valid exchange
    let transaction: Transaction = Transaction::new(
        Date::from_ymd_opt(2024, 1, 1).unwrap(),
        "Currency Exchange".to_string(),
        vec![
            Posting::new(
                "assets:gbp".to_string(),
                Some(CommodityValue::from_str("100.00 GBP").unwrap()),
            ),
            Posting::new(
                "assets:sek".to_string(),
                Some(CommodityValue::from_str("-1500.00 SEK").unwrap()),
            ),
            Posting::new(
                "expenses:fees".to_string(),
                Some(CommodityValue::from_str("5.00 EUR").unwrap()),
            ),
            Posting::new(
                "assets:eur".to_string(),
                Some(CommodityValue::from_str("-5.00 EUR").unwrap()),
            ),
        ],
    );
    assert!(transaction.validate());
}

#[test]
fn test_transaction_validate_exchange_three_commodities_all_unbalanced() {
    // Three unbalanced commodities, at least one positive and one negative → valid exchange
    let transaction: Transaction = Transaction::new(
        Date::from_ymd_opt(2024, 1, 1).unwrap(),
        "Multi-Currency Exchange".to_string(),
        vec![
            Posting::new(
                "assets:gbp".to_string(),
                Some(CommodityValue::from_str("100.00 GBP").unwrap()),
            ),
            Posting::new(
                "assets:sek".to_string(),
                Some(CommodityValue::from_str("-1500.00 SEK").unwrap()),
            ),
            Posting::new(
                "assets:eur".to_string(),
                Some(CommodityValue::from_str("50.00 EUR").unwrap()),
            ),
        ],
    );
    assert!(transaction.validate());
}

#[test]
fn test_transaction_validate_three_commodities_all_balanced() {
    // All three commodities individually sum to zero → valid
    let transaction: Transaction = Transaction::new(
        Date::from_ymd_opt(2024, 1, 1).unwrap(),
        "Test Transaction".to_string(),
        vec![
            Posting::new(
                "assets:gbp".to_string(),
                Some(CommodityValue::from_str("100.00 GBP").unwrap()),
            ),
            Posting::new(
                "expenses:gbp".to_string(),
                Some(CommodityValue::from_str("-100.00 GBP").unwrap()),
            ),
            Posting::new(
                "assets:sek".to_string(),
                Some(CommodityValue::from_str("200.00 SEK").unwrap()),
            ),
            Posting::new(
                "expenses:sek".to_string(),
                Some(CommodityValue::from_str("-200.00 SEK").unwrap()),
            ),
            Posting::new(
                "assets:eur".to_string(),
                Some(CommodityValue::from_str("50.00 EUR").unwrap()),
            ),
            Posting::new(
                "expenses:eur".to_string(),
                Some(CommodityValue::from_str("-50.00 EUR").unwrap()),
            ),
        ],
    );
    assert!(transaction.validate());
}

#[test]
fn test_transaction_validate_multi_commodity_both_positive_unbalanced() {
    // Two unbalanced commodities, both positive → invalid (not a valid exchange)
    let transaction: Transaction = Transaction::new(
        Date::from_ymd_opt(2024, 1, 1).unwrap(),
        "Test Transaction".to_string(),
        vec![
            Posting::new(
                "assets:gbp".to_string(),
                Some(CommodityValue::from_str("100.00 GBP").unwrap()),
            ),
            Posting::new(
                "assets:sek".to_string(),
                Some(CommodityValue::from_str("200.00 SEK").unwrap()),
            ),
        ],
    );
    assert!(!transaction.validate());
}

#[test]
fn test_transaction_validate_multi_commodity_both_negative_unbalanced() {
    // Two unbalanced commodities, both negative → invalid (not a valid exchange)
    let transaction: Transaction = Transaction::new(
        Date::from_ymd_opt(2024, 1, 1).unwrap(),
        "Test Transaction".to_string(),
        vec![
            Posting::new(
                "assets:gbp".to_string(),
                Some(CommodityValue::from_str("-100.00 GBP").unwrap()),
            ),
            Posting::new(
                "assets:sek".to_string(),
                Some(CommodityValue::from_str("-200.00 SEK").unwrap()),
            ),
        ],
    );
    assert!(!transaction.validate());
}

#[test]
fn test_transaction_validate_three_commodities_all_positive_unbalanced() {
    // Three unbalanced commodities, all positive → invalid
    let transaction: Transaction = Transaction::new(
        Date::from_ymd_opt(2024, 1, 1).unwrap(),
        "Test Transaction".to_string(),
        vec![
            Posting::new(
                "assets:gbp".to_string(),
                Some(CommodityValue::from_str("100.00 GBP").unwrap()),
            ),
            Posting::new(
                "assets:sek".to_string(),
                Some(CommodityValue::from_str("200.00 SEK").unwrap()),
            ),
            Posting::new(
                "assets:eur".to_string(),
                Some(CommodityValue::from_str("50.00 EUR").unwrap()),
            ),
        ],
    );
    assert!(!transaction.validate());
}

#[test]
fn test_transaction_validate_three_commodities_all_negative_unbalanced() {
    // Three unbalanced commodities, all negative → invalid
    let transaction: Transaction = Transaction::new(
        Date::from_ymd_opt(2024, 1, 1).unwrap(),
        "Test Transaction".to_string(),
        vec![
            Posting::new(
                "assets:gbp".to_string(),
                Some(CommodityValue::from_str("-100.00 GBP").unwrap()),
            ),
            Posting::new(
                "assets:sek".to_string(),
                Some(CommodityValue::from_str("-200.00 SEK").unwrap()),
            ),
            Posting::new(
                "assets:eur".to_string(),
                Some(CommodityValue::from_str("-50.00 EUR").unwrap()),
            ),
        ],
    );
    assert!(!transaction.validate());
}

#[test]
fn test_posting_display_no_amount() {
    let posting = Posting::new("Account 1".to_string(), None);
    assert_eq!(posting.to_string(), "Account 1");
}

#[test]
fn test_transaction_display_last_posting_no_amount() {
    let transaction: Transaction = Transaction::new(
        Date::from_ymd_opt(2024, 1, 1).unwrap(),
        "Test Transaction".to_string(),
        vec![
            Posting::new(
                "Account 1".to_string(),
                Some(CommodityValue::from_str("123.45 SEK").unwrap()),
            ),
            Posting::new("Account 2".to_string(), None),
        ],
    );
    let expected_display = "2024-01-01 Test Transaction\n\tAccount 1  123.45 SEK\n\tAccount 2";
    assert_eq!(transaction.to_string(), expected_display);
}

#[test]
fn test_transaction_validate_single_none_is_valid() {
    let transaction: Transaction = Transaction::new(
        Date::from_ymd_opt(2024, 1, 1).unwrap(),
        "Test Transaction".to_string(),
        vec![
            Posting::new(
                "Account 1".to_string(),
                Some(CommodityValue::from_str("123.45 SEK").unwrap()),
            ),
            Posting::new("Account 2".to_string(), None),
        ],
    );
    assert!(transaction.validate());
}

#[test]
fn test_transaction_validate_none_not_required_to_be_last() {
    let transaction: Transaction = Transaction::new(
        Date::from_ymd_opt(2024, 1, 1).unwrap(),
        "Test Transaction".to_string(),
        vec![
            Posting::new("Account 1".to_string(), None),
            Posting::new(
                "Account 2".to_string(),
                Some(CommodityValue::from_str("-123.45 SEK").unwrap()),
            ),
        ],
    );
    assert!(transaction.validate());
}

#[test]
fn test_transaction_validate_two_none_postings_is_invalid() {
    let transaction: Transaction = Transaction::new(
        Date::from_ymd_opt(2024, 1, 1).unwrap(),
        "Test Transaction".to_string(),
        vec![
            Posting::new(
                "Account 1".to_string(),
                Some(CommodityValue::from_str("123.45 SEK").unwrap()),
            ),
            Posting::new("Account 2".to_string(), None),
            Posting::new("Account 3".to_string(), None),
        ],
    );
    assert!(!transaction.validate());
}

#[test]
fn test_transaction_validate_single_none_among_many_postings_is_valid() {
    let transaction: Transaction = Transaction::new(
        Date::from_ymd_opt(2024, 1, 1).unwrap(),
        "Test Transaction".to_string(),
        vec![
            Posting::new(
                "Account 1".to_string(),
                Some(CommodityValue::from_str("100.00 SEK").unwrap()),
            ),
            Posting::new(
                "Account 2".to_string(),
                Some(CommodityValue::from_str("50.00 SEK").unwrap()),
            ),
            Posting::new("Account 3".to_string(), None),
        ],
    );
    assert!(transaction.validate());
}

#[test]
fn test_transaction_hash_same_input_is_stable() {
    let make = || {
        Transaction::new(
            Date::from_ymd_opt(2024, 1, 1).unwrap(),
            "Groceries".to_string(),
            vec![
                Posting::new(
                    "expenses:food".to_string(),
                    Some(CommodityValue::from_str("50.00 SEK").unwrap()),
                ),
                Posting::new(
                    "assets:bank".to_string(),
                    Some(CommodityValue::from_str("-50.00 SEK").unwrap()),
                ),
            ],
        )
    };
    assert_eq!(make().functional_hash(), make().functional_hash());
}

#[test]
fn test_transaction_hash_description_ignored() {
    let t1 = Transaction::new(
        Date::from_ymd_opt(2024, 1, 1).unwrap(),
        "Description A".to_string(),
        vec![
            Posting::new(
                "expenses:food".to_string(),
                Some(CommodityValue::from_str("50.00 SEK").unwrap()),
            ),
            Posting::new(
                "assets:bank".to_string(),
                Some(CommodityValue::from_str("-50.00 SEK").unwrap()),
            ),
        ],
    );
    let t2 = Transaction::new(
        Date::from_ymd_opt(2024, 1, 1).unwrap(),
        "Description B".to_string(),
        vec![
            Posting::new(
                "expenses:food".to_string(),
                Some(CommodityValue::from_str("50.00 SEK").unwrap()),
            ),
            Posting::new(
                "assets:bank".to_string(),
                Some(CommodityValue::from_str("-50.00 SEK").unwrap()),
            ),
        ],
    );
    assert_eq!(t1.functional_hash(), t2.functional_hash());
}

#[test]
fn test_transaction_hash_different_date_differs() {
    let t1 = Transaction::new(
        Date::from_ymd_opt(2024, 1, 1).unwrap(),
        "Test".to_string(),
        vec![
            Posting::new(
                "expenses:food".to_string(),
                Some(CommodityValue::from_str("50.00 SEK").unwrap()),
            ),
            Posting::new(
                "assets:bank".to_string(),
                Some(CommodityValue::from_str("-50.00 SEK").unwrap()),
            ),
        ],
    );
    let t2 = Transaction::new(
        Date::from_ymd_opt(2024, 1, 2).unwrap(),
        "Test".to_string(),
        vec![
            Posting::new(
                "expenses:food".to_string(),
                Some(CommodityValue::from_str("50.00 SEK").unwrap()),
            ),
            Posting::new(
                "assets:bank".to_string(),
                Some(CommodityValue::from_str("-50.00 SEK").unwrap()),
            ),
        ],
    );
    assert_ne!(t1.functional_hash(), t2.functional_hash());
}

#[test]
fn test_transaction_hash_different_account_differs() {
    let t1 = Transaction::new(
        Date::from_ymd_opt(2024, 1, 1).unwrap(),
        "Test".to_string(),
        vec![
            Posting::new(
                "expenses:food".to_string(),
                Some(CommodityValue::from_str("50.00 SEK").unwrap()),
            ),
            Posting::new(
                "assets:bank".to_string(),
                Some(CommodityValue::from_str("-50.00 SEK").unwrap()),
            ),
        ],
    );
    let t2 = Transaction::new(
        Date::from_ymd_opt(2024, 1, 1).unwrap(),
        "Test".to_string(),
        vec![
            Posting::new(
                "expenses:other".to_string(),
                Some(CommodityValue::from_str("50.00 SEK").unwrap()),
            ),
            Posting::new(
                "assets:bank".to_string(),
                Some(CommodityValue::from_str("-50.00 SEK").unwrap()),
            ),
        ],
    );
    assert_ne!(t1.functional_hash(), t2.functional_hash());
}

#[test]
fn test_transaction_hash_different_amount_differs() {
    let t1 = Transaction::new(
        Date::from_ymd_opt(2024, 1, 1).unwrap(),
        "Test".to_string(),
        vec![
            Posting::new(
                "expenses:food".to_string(),
                Some(CommodityValue::from_str("50.00 SEK").unwrap()),
            ),
            Posting::new(
                "assets:bank".to_string(),
                Some(CommodityValue::from_str("-50.00 SEK").unwrap()),
            ),
        ],
    );
    let t2 = Transaction::new(
        Date::from_ymd_opt(2024, 1, 1).unwrap(),
        "Test".to_string(),
        vec![
            Posting::new(
                "expenses:food".to_string(),
                Some(CommodityValue::from_str("99.00 SEK").unwrap()),
            ),
            Posting::new(
                "assets:bank".to_string(),
                Some(CommodityValue::from_str("-99.00 SEK").unwrap()),
            ),
        ],
    );
    assert_ne!(t1.functional_hash(), t2.functional_hash());
}

#[test]
fn test_transaction_hash_different_commodity_differs() {
    let t1 = Transaction::new(
        Date::from_ymd_opt(2024, 1, 1).unwrap(),
        "Test".to_string(),
        vec![
            Posting::new(
                "expenses:food".to_string(),
                Some(CommodityValue::from_str("50.00 SEK").unwrap()),
            ),
            Posting::new(
                "assets:bank".to_string(),
                Some(CommodityValue::from_str("-50.00 SEK").unwrap()),
            ),
        ],
    );
    let t2 = Transaction::new(
        Date::from_ymd_opt(2024, 1, 1).unwrap(),
        "Test".to_string(),
        vec![
            Posting::new(
                "expenses:food".to_string(),
                Some(CommodityValue::from_str("50.00 GBP").unwrap()),
            ),
            Posting::new(
                "assets:bank".to_string(),
                Some(CommodityValue::from_str("-50.00 GBP").unwrap()),
            ),
        ],
    );
    assert_ne!(t1.functional_hash(), t2.functional_hash());
}

#[test]
fn test_transaction_hash_different_posting_order() {
    let t1 = Transaction::new(
        Date::from_ymd_opt(2024, 1, 1).unwrap(),
        "Test".to_string(),
        vec![
            Posting::new(
                "expenses:food".to_string(),
                Some(CommodityValue::from_str("50.00 SEK").unwrap()),
            ),
            Posting::new(
                "assets:bank".to_string(),
                Some(CommodityValue::from_str("-50.00 SEK").unwrap()),
            ),
        ],
    );
    let t2 = Transaction::new(
        Date::from_ymd_opt(2024, 1, 1).unwrap(),
        "Test".to_string(),
        vec![
            Posting::new(
                "assets:bank".to_string(),
                Some(CommodityValue::from_str("-50.00 SEK").unwrap()),
            ),
            Posting::new(
                "expenses:food".to_string(),
                Some(CommodityValue::from_str("50.00 SEK").unwrap()),
            ),
        ],
    );
    assert_eq!(t1.functional_hash(), t2.functional_hash());
}

#[test]
fn test_transaction_hash_none_amount_differs_from_explicit() {
    let t1 = Transaction::new(
        Date::from_ymd_opt(2024, 1, 1).unwrap(),
        "Test".to_string(),
        vec![
            Posting::new(
                "expenses:food".to_string(),
                Some(CommodityValue::from_str("50.00 SEK").unwrap()),
            ),
            Posting::new("assets:bank".to_string(), None),
        ],
    );
    let t2 = Transaction::new(
        Date::from_ymd_opt(2024, 1, 1).unwrap(),
        "Test".to_string(),
        vec![
            Posting::new(
                "expenses:food".to_string(),
                Some(CommodityValue::from_str("50.00 SEK").unwrap()),
            ),
            Posting::new(
                "assets:bank".to_string(),
                Some(CommodityValue::from_str("-50.00 SEK").unwrap()),
            ),
        ],
    );
    assert_ne!(t1.functional_hash(), t2.functional_hash());
}

#[test]
fn test_partial_hash_same_input_is_stable() {
    let make = || {
        Transaction::new(
            Date::from_ymd_opt(2024, 1, 1).unwrap(),
            "Groceries".to_string(),
            vec![
                Posting::new(
                    "expenses:food".to_string(),
                    Some(CommodityValue::from_str("50.00 SEK").unwrap()),
                ),
                Posting::new(
                    "assets:bank".to_string(),
                    Some(CommodityValue::from_str("-50.00 SEK").unwrap()),
                ),
            ],
        )
    };
    assert_eq!(make().partial_hash(), make().partial_hash());
}

#[test]
fn test_partial_hash_different_date_differs() {
    let t1 = Transaction::new(
        Date::from_ymd_opt(2024, 1, 1).unwrap(),
        "Test".to_string(),
        vec![Posting::new(
            "expenses:food".to_string(),
            Some(CommodityValue::from_str("50.00 SEK").unwrap()),
        )],
    );
    let t2 = Transaction::new(
        Date::from_ymd_opt(2024, 1, 2).unwrap(),
        "Test".to_string(),
        vec![Posting::new(
            "expenses:food".to_string(),
            Some(CommodityValue::from_str("50.00 SEK").unwrap()),
        )],
    );
    assert_ne!(t1.partial_hash(), t2.partial_hash());
}

#[test]
fn test_partial_hash_description_ignored() {
    // Like the full functional_hash, partial_hash excludes the description.
    let t1 = Transaction::new(
        Date::from_ymd_opt(2024, 1, 1).unwrap(),
        "Description A".to_string(),
        vec![Posting::new(
            "expenses:food".to_string(),
            Some(CommodityValue::from_str("50.00 SEK").unwrap()),
        )],
    );
    let t2 = Transaction::new(
        Date::from_ymd_opt(2024, 1, 1).unwrap(),
        "Description B".to_string(),
        vec![Posting::new(
            "expenses:food".to_string(),
            Some(CommodityValue::from_str("50.00 SEK").unwrap()),
        )],
    );
    assert_eq!(t1.partial_hash(), t2.partial_hash());
}

#[test]
fn test_partial_hash_matches_with_different_description() {
    // partial_hash should match even when descriptions differ, as long as
    // date and first posting are the same.
    let t1 = Transaction::new(
        Date::from_ymd_opt(2024, 1, 1).unwrap(),
        "Supermarket ACME".to_string(),
        vec![
            Posting::new(
                "expenses:groceries".to_string(),
                Some(CommodityValue::from_str("120.00 SEK").unwrap()),
            ),
            Posting::new("assets:checking".to_string(), None),
        ],
    );
    let t2 = Transaction::new(
        Date::from_ymd_opt(2024, 1, 1).unwrap(),
        "ACME Store Purchase".to_string(),
        vec![
            Posting::new(
                "expenses:groceries".to_string(),
                Some(CommodityValue::from_str("120.00 SEK").unwrap()),
            ),
            Posting::new("assets:checking".to_string(), None),
        ],
    );
    assert_eq!(t1.partial_hash(), t2.partial_hash());
}

#[test]
fn test_partial_hash_different_first_posting_differs() {
    let t1 = Transaction::new(
        Date::from_ymd_opt(2024, 1, 1).unwrap(),
        "Test".to_string(),
        vec![Posting::new(
            "expenses:food".to_string(),
            Some(CommodityValue::from_str("50.00 SEK").unwrap()),
        )],
    );
    let t2 = Transaction::new(
        Date::from_ymd_opt(2024, 1, 1).unwrap(),
        "Test".to_string(),
        vec![Posting::new(
            "expenses:food".to_string(),
            Some(CommodityValue::from_str("99.00 SEK").unwrap()),
        )],
    );
    assert_ne!(t1.partial_hash(), t2.partial_hash());
}

#[test]
fn test_partial_hash_only_first_posting_considered() {
    // Same date, description, and first posting — second posting differs.
    // partial_hash should be identical.
    let t1 = Transaction::new(
        Date::from_ymd_opt(2024, 1, 1).unwrap(),
        "Test".to_string(),
        vec![
            Posting::new(
                "expenses:food".to_string(),
                Some(CommodityValue::from_str("50.00 SEK").unwrap()),
            ),
            Posting::new(
                "assets:bank".to_string(),
                Some(CommodityValue::from_str("-50.00 SEK").unwrap()),
            ),
        ],
    );
    let t2 = Transaction::new(
        Date::from_ymd_opt(2024, 1, 1).unwrap(),
        "Test".to_string(),
        vec![
            Posting::new(
                "expenses:food".to_string(),
                Some(CommodityValue::from_str("50.00 SEK").unwrap()),
            ),
            Posting::new(
                "assets:savings".to_string(),
                Some(CommodityValue::from_str("-50.00 SEK").unwrap()),
            ),
        ],
    );
    assert_eq!(t1.partial_hash(), t2.partial_hash());
}

#[test]
fn test_partial_hash_no_postings_is_stable() {
    let t1 = Transaction::new(
        Date::from_ymd_opt(2024, 1, 1).unwrap(),
        "Test".to_string(),
        vec![],
    );
    let t2 = Transaction::new(
        Date::from_ymd_opt(2024, 1, 1).unwrap(),
        "Test".to_string(),
        vec![],
    );
    assert_eq!(t1.partial_hash(), t2.partial_hash());
}

fn tx_with(amounts: &[&str]) -> Transaction {
    Transaction::new(
        Date::from_ymd_opt(2024, 1, 1).unwrap(),
        "Checks".to_string(),
        amounts
            .iter()
            .map(|a| Posting::new("assets:bank".to_string(), Some(CommodityValue::from_str(a).unwrap())))
            .collect(),
    )
}

#[test]
fn totals_that_overflow_are_detected_before_validating() {
    assert!(tx_with(&["9223372036854775807 SEK", "-1 SEK"]).totals_fit_check());
    assert!(!tx_with(&["9223372036854775807 SEK", "1 SEK"]).totals_fit_check());
    assert!(tx_with(&["9223372036854775807 SEK", "1 EUR"]).totals_fit_check());
    assert!(tx_with(&["922337203685477580 SEK", "0.1 SEK"]).totals_fit_check());
    assert!(!tx_with(&["922337203685477581 SEK", "0.1 SEK"]).totals_fit_check());
    assert!(tx_with(&["10 SEK", "-10.5 SEK", "0.5 SEK"]).validate());
}

#[test]
fn amounts_that_cannot_be_displayed_are_detected() {
    assert!(tx_with(&["10.25 SEK", "-10.25 SEK"]).postings_displayable());
    assert!(!tx_with(&["0.0000000000000000001 SEK"]).postings_displayable());
    assert!(!tx_with(&["-922337203685477580.8 SEK"]).postings_displayable());
}

#[test]
fn balance_follows_the_sum_of_each_commodity() {
    // every commodity sums to zero, amounts written at different precisions
    assert!(tx_with(&["10.5 SEK", "-10.50 SEK", "3 EUR", "-1.5 EUR", "-1.5 EUR"]).validate());
    // an exchange: two commodities off balance, one up and one down
    assert!(tx_with(&["100 SEK", "-10 EUR"]).validate());
    // two commodities off balance in the same direction
    assert!(!tx_with(&["100 SEK", "10 EUR"]).validate());
    // a single commodity off balance
    assert!(!tx_with(&["100 SEK", "-99.99 SEK"]).validate());
}
