use rsledger::csv_importer::ImportCandidate;
use rsledger::journalist::csv_parser::{DedupStep, account_answer_step, candidate_step, match_answer_step};
use rsledger::date::Date;
use rsledger::journalist::csv_parser::{complete_unclassified, hash_transactions, is_already_imported, is_yes, partial_matches};
use rsledger::transaction::Transaction;
use rsledger::transaction::commodity_value::CommodityValue;
use rsledger::transaction::posting::Posting;

fn tx(day: u32, desc: &str, postings: &[(&str, Option<&str>)]) -> Transaction {
    Transaction::new(
        Date::from_ymd_opt(2026, 1, day).unwrap(),
        desc.to_string(),
        postings
            .iter()
            .map(|(a, v)| Posting::new(a.to_string(), v.map(|s| CommodityValue::from_str(s).unwrap())))
            .collect(),
    )
}

#[test]
fn classified_candidate_with_same_postings_is_recognised() {
    let existing = hash_transactions(vec![
        tx(5, "Groceries", &[("expenses:food", Some("50.00 SEK")), ("assets:bank", Some("-50 SEK"))]),
        tx(6, "Rent", &[("expenses:rent", Some("5000 SEK")), ("assets:bank", Some("-5000 SEK"))]),
    ]);
    assert_eq!(existing.len(), 2);
    let again = tx(5, "ICA", &[("assets:bank", Some("-50.0 SEK")), ("expenses:food", Some("50 SEK"))]);
    assert!(is_already_imported(&existing, &again));
    let other_day = tx(7, "Groceries", &[("expenses:food", Some("50 SEK")), ("assets:bank", Some("-50 SEK"))]);
    assert!(!is_already_imported(&existing, &other_day));
}

#[test]
fn unclassified_candidate_lists_partial_matches_in_order() {
    let existing = hash_transactions(vec![
        tx(5, "A", &[("assets:bank", Some("-50 SEK")), ("expenses:food", None)]),
        tx(5, "B", &[("assets:bank", Some("-60 SEK")), ("expenses:food", None)]),
        tx(5, "C", &[("assets:bank", Some("-50.00 SEK")), ("expenses:other", None)]),
    ]);
    let candidate = tx(5, "Something else", &[("assets:bank", Some("-50 SEK"))]);
    assert_eq!(partial_matches(&existing, &candidate), vec![0, 2]);
}

#[test]
fn answers_and_completion() {
    assert!(is_yes("y"));
    assert!(is_yes("Y"));
    assert!(!is_yes("yes"));
    assert!(!is_yes(""));
    let candidate = tx(5, "Unknown", &[("assets:bank", Some("-50 SEK"))]);
    let done = complete_unclassified(&candidate, "expenses:misc".to_string());
    assert_eq!(done.to_string(), "2026-01-05 Unknown\n\tassets:bank  -50 SEK\n\texpenses:misc");
}

fn on(month: u32, day: u32, desc: &str, postings: &[(&str, Option<&str>)]) -> Transaction {
    Transaction::new(
        Date::from_ymd_opt(2026, month, day).unwrap(),
        desc.to_string(),
        postings
            .iter()
            .map(|(a, v)| Posting::new(a.to_string(), v.map(|s| CommodityValue::from_str(s).unwrap())))
            .collect(),
    )
}

#[test]
fn classified_dedup_ignores_description() {
    let existing = hash_transactions(vec![on(
        3,
        21,
        "GROCERY STORE (journal description)",
        &[("assets:bank:hsbc", Some("-25 GBP")), ("expenses:food:groceries", None)],
    )]);
    let candidate = on(
        3,
        21,
        "GROCERY STORE BRACKLEY (different CSV description)",
        &[("assets:bank:hsbc", Some("-25 GBP")), ("expenses:food:groceries", None)],
    );
    assert!(
        is_already_imported(&existing, &candidate),
        "classified transaction should be deduplicated even when descriptions differ"
    );
}

#[test]
fn unclassified_partial_match_ignores_description() {
    let existing = hash_transactions(vec![on(
        3,
        20,
        "SOME UNKNOWN SHOP original",
        &[("assets:bank:hsbc", Some("-15.50 GBP")), ("expenses:misc", None)],
    )]);
    let candidate = on(
        3,
        20,
        "SOME UNKNOWN SHOP re-import different description",
        &[("assets:bank:hsbc", Some("-15.50 GBP"))],
    );
    // the existing entry is offered as a match, and the answer `y` confirms it
    assert_eq!(partial_matches(&existing, &candidate), vec![0]);
    assert!(is_yes("y"));
}

#[test]
fn classified_dedup_handles_redundant_decimal_digits() {
    let existing = hash_transactions(vec![on(
        3,
        21,
        "GROCERY STORE BRACKLEY",
        &[("assets:bank:hsbc", Some("-25 GBP")), ("expenses:food:groceries", None)],
    )]);
    let candidate = on(
        3,
        21,
        "GROCERY STORE BRACKLEY",
        &[("assets:bank:hsbc", Some("-25.00 GBP")), ("expenses:food:groceries", None)],
    );
    assert!(
        is_already_imported(&existing, &candidate),
        "-25.00 GBP should be treated as identical to -25 GBP for deduplication"
    );
}

#[test]
fn dedup_steps_decide_what_happens_to_each_candidate() {
    let existing = hash_transactions(vec![
        tx(5, "A", &[("assets:bank", Some("-50 SEK")), ("expenses:food", None)]),
        tx(5, "B", &[("assets:bank", Some("-60 SEK")), ("expenses:food", None)]),
        tx(5, "C", &[("assets:bank", Some("-50.00 SEK")), ("expenses:other", None)]),
    ]);
    let known = ImportCandidate::Classified(tx(5, "again", &[("expenses:food", None), ("assets:bank", Some("-50 SEK"))]));
    assert!(matches!(candidate_step(&existing, &known), DedupStep::Skip));
    let fresh = ImportCandidate::Classified(tx(9, "new", &[("assets:bank", Some("-1 SEK")), ("expenses:food", None)]));
    match candidate_step(&existing, &fresh) {
        DedupStep::Add(t) => assert_eq!(t.to_string(), "2026-01-09 new\n\tassets:bank  -1 SEK\n\texpenses:food"),
        _ => panic!("expected an addition"),
    }
    let u = tx(5, "Unknown", &[("assets:bank", Some("-50 SEK"))]);
    assert!(matches!(candidate_step(&existing, &ImportCandidate::Unclassified(tx(5, "Unknown", &[("assets:bank", Some("-50 SEK"))]))), DedupStep::AskMatch(0)));
    assert!(matches!(match_answer_step(&existing, &u, 0, "n"), DedupStep::AskMatch(2)));
    assert!(matches!(match_answer_step(&existing, &u, 2, "n"), DedupStep::AskAccount));
    assert!(matches!(match_answer_step(&existing, &u, 0, "Y"), DedupStep::Skip));
    let lonely = ImportCandidate::Unclassified(tx(6, "Lonely", &[("assets:bank", Some("-7 SEK"))]));
    assert!(matches!(candidate_step(&existing, &lonely), DedupStep::AskAccount));
    assert!(matches!(account_answer_step(&u, ""), DedupStep::Skip));
    match account_answer_step(&u, "bank") {
        DedupStep::Reask(m) => assert!(m.starts_with("Invalid account 'bank'.")),
        _ => panic!("expected a refusal"),
    }
    match account_answer_step(&u, "expenses:misc") {
        DedupStep::Add(t) => assert_eq!(t.to_string(), "2026-01-05 Unknown\n\tassets:bank  -50 SEK\n\texpenses:misc"),
        _ => panic!("expected an addition"),
    }
}
