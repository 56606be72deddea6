use rsledger::csv_importer::ImportCandidate;
use rsledger::csv_importer::generic_importer::GenericImporter;
use rsledger::csv_importer::rules::{RegexRule, RuleEntry, rules_from_entries};
use rsledger::date::Date;
use rsledger::journal::account::Account;
use rsledger::journalist::transaction_importer::default_parser::DefaultParser;
use rsledger::transaction::Transaction;

fn rec(fields: &[&str]) -> Vec<String> {
    fields.iter().map(|s| s.to_string()).collect()
}

fn entry(pattern: &str, action: &str, account: Option<&str>) -> RuleEntry {
    RuleEntry { pattern: pattern.to_string(), action: action.to_string(), account: account.map(|a| a.to_string()) }
}

/// The rule sheet `valid_rules.toml`.
fn valid_rules() -> Vec<RegexRule> {
    rules_from_entries(&vec![
        entry("^GROCERY STORE", "assign_account", Some("expenses:food:groceries")),
        entry("NETFLIX|SPOTIFY", "assign_account", Some("expenses:entertainment:subscriptions")),
        entry("^INTERNAL TRANSFER", "skip", None),
    ])
}

fn rules(sheet: &str) -> Vec<RegexRule> {
    if sheet == "valid_rules.toml" { valid_rules() } else { Vec::new() }
}

/// The records (after the header row) of the CSV exports.
fn csv(name: &str) -> Vec<Vec<String>> {
    let v = |d: &str, d1: &str, d2: &str, amount: &str| {
        let mut r = vec![""; 13];
        r[4] = d;
        r[6] = d1;
        r[10] = d2;
        r[11] = amount;
        r[12] = "EUR";
        rec(&r)
    };
    match name {
        "seb_classified.csv" => vec![
            rec(&["2026-03-21", "2026-03-21", "5484-123", "GROCERY STORE ICA", "-250.00", "9750.00"]),
            rec(&["2026-03-20", "2026-03-20", "5484-124", "SPOTIFY", "-129.00", "10000.00"]),
        ],
        "seb_mixed.csv" => vec![
            rec(&["2026-03-21", "2026-03-21", "5484-125", "GROCERY STORE COOP", "-310.00", "9500.00"]),
            rec(&["2026-03-19", "2026-03-19", "5484-126", "LOCAL BAKERY", "-75.50", "9810.00"]),
        ],
        "volksbank_classified.csv" => vec![
            v("21.03.2026", "GROCERY STORE REWE", "Einkauf Filiale 42", "-25,00"),
            v("20.03.2026", "NETFLIX INTERNATIONAL", "", "-9,99"),
        ],
        "volksbank_mixed.csv" => vec![
            v("21.03.2026", "GROCERY STORE EDEKA", "", "-42,10"),
            v("19.03.2026", "MOEBELHAUS", "Sofa", "-1.250,50"),
        ],
        _ => Vec::new(),
    }
}

fn date_of(c: &ImportCandidate<Transaction>) -> Date {
    match c {
        ImportCandidate::Classified(t) | ImportCandidate::Unclassified(t) => *t.get_date(),
    }
}

fn seb_importer(rule_sheet: &str) -> GenericImporter {
    GenericImporter::new(
        Account::from_str("assets:bank:seb-lönekonto").unwrap(),
        "SEK".to_string(),
        rules(rule_sheet),
        ';',
        true,
        0,
        "%Y-%m-%d".to_string(),
        vec![3],
        4,
        None,
        None,
        '.',
    )
}

fn volksbank_importer(rule_sheet: &str) -> GenericImporter {
    GenericImporter::new(
        Account::from_str("assets:bank:volksbank").unwrap(),
        "EUR".to_string(),
        rules(rule_sheet),
        ';',
        true,
        4,
        "%d.%m.%Y".to_string(),
        vec![6, 10],
        11,
        Some(12),
        Some('.'),
        ',',
    )
}

fn seb_parser(rule_sheet: &str) -> DefaultParser {
    DefaultParser::new(
        "assets:bank:seb-lönekonto".to_string(),
        "SEK".to_string(),
        rules(rule_sheet),
        ';',
        true,
        0,
        "%Y-%m-%d".to_string(),
        vec![3],
        4,
        None,
        None,
        '.',
    )
}

fn volksbank_parser(rule_sheet: &str) -> DefaultParser {
    DefaultParser::new(
        "assets:bank:volksbank".to_string(),
        "EUR".to_string(),
        rules(rule_sheet),
        ';',
        true,
        4,
        "%d.%m.%Y".to_string(),
        vec![6, 10],
        11,
        Some(12),
        Some('.'),
        ',',
    )
}

#[test]
fn generic_importer_seb_classified_csv_imports_all_transactions() {
    let candidates = seb_importer("valid_rules.toml").import_records(&csv("seb_classified.csv"), "seb_classified.csv").unwrap();
    assert_eq!(candidates.len(), 2);
    assert!(matches!(&candidates[0], ImportCandidate::Classified(_)), "GROCERY STORE ICA should be classified");
    assert!(matches!(&candidates[1], ImportCandidate::Classified(_)), "SPOTIFY should be classified");
}

#[test]
fn generic_importer_seb_classified_csv_parses_dates_correctly() {
    let candidates = seb_importer("valid_rules.toml").import_records(&csv("seb_classified.csv"), "seb_classified.csv").unwrap();
    assert_eq!(date_of(&candidates[0]), Date::from_ymd_opt(2026, 3, 21).unwrap());
    assert_eq!(date_of(&candidates[1]), Date::from_ymd_opt(2026, 3, 20).unwrap());
}

#[test]
fn generic_importer_seb_classified_csv_parses_amounts_as_sek() {
    let candidates = seb_importer("valid_rules.toml").import_records(&csv("seb_classified.csv"), "seb_classified.csv").unwrap();
    if let ImportCandidate::Classified(t) = &candidates[0] {
        assert_eq!(t.get_postings()[0].get_amount().unwrap().to_string(), "-250 SEK");
    }
    if let ImportCandidate::Classified(t) = &candidates[1] {
        assert_eq!(t.get_postings()[0].get_amount().unwrap().to_string(), "-129 SEK");
    }
}

#[test]
fn generic_importer_seb_mixed_csv_produces_classified_and_unclassified() {
    let candidates = seb_importer("valid_rules.toml").import_records(&csv("seb_mixed.csv"), "seb_mixed.csv").unwrap();
    assert_eq!(candidates.len(), 2);
    assert!(matches!(&candidates[0], ImportCandidate::Classified(_)));
    assert!(matches!(&candidates[1], ImportCandidate::Unclassified(_)));
}

#[test]
fn generic_importer_seb_unclassified_has_single_posting() {
    let candidates = seb_importer("valid_rules.toml").import_records(&csv("seb_mixed.csv"), "seb_mixed.csv").unwrap();
    if let ImportCandidate::Unclassified(t) = &candidates[1] {
        assert_eq!(t.get_postings().len(), 1);
        assert_eq!(t.get_postings()[0].get_account(), "assets:bank:seb-lönekonto");
        assert_eq!(t.get_postings()[0].get_amount().unwrap().to_string(), "-75.5 SEK");
    } else {
        panic!("expected unclassified transaction");
    }
}

#[test]
fn generic_importer_seb_empty_rules_leaves_all_unclassified() {
    let candidates = seb_importer("empty_rules.toml").import_records(&csv("seb_classified.csv"), "seb_classified.csv").unwrap();
    assert_eq!(candidates.len(), 2);
    assert!(matches!(&candidates[0], ImportCandidate::Unclassified(_)));
    assert!(matches!(&candidates[1], ImportCandidate::Unclassified(_)));
}

#[test]
fn generic_importer_volksbank_classified_csv_imports_all_transactions() {
    let candidates = volksbank_importer("valid_rules.toml").import_records(&csv("volksbank_classified.csv"), "volksbank_classified.csv").unwrap();
    assert_eq!(candidates.len(), 2);
    assert!(matches!(&candidates[0], ImportCandidate::Classified(_)), "GROCERY STORE REWE should be classified");
    assert!(matches!(&candidates[1], ImportCandidate::Classified(_)), "NETFLIX INTERNATIONAL should be classified");
}

#[test]
fn generic_importer_volksbank_classified_csv_converts_dates_from_ddmmyyyy() {
    let candidates = volksbank_importer("valid_rules.toml").import_records(&csv("volksbank_classified.csv"), "volksbank_classified.csv").unwrap();
    assert_eq!(date_of(&candidates[0]), Date::from_ymd_opt(2026, 3, 21).unwrap());
    assert_eq!(date_of(&candidates[1]), Date::from_ymd_opt(2026, 3, 20).unwrap());
}

#[test]
fn generic_importer_volksbank_classified_csv_concatenates_description_columns() {
    let candidates = volksbank_importer("valid_rules.toml").import_records(&csv("volksbank_classified.csv"), "volksbank_classified.csv").unwrap();
    if let ImportCandidate::Classified(t) = &candidates[0] {
        assert_eq!(t.get_description(), "GROCERY STORE REWE Einkauf Filiale 42");
    } else {
        panic!("expected classified transaction");
    }
}

#[test]
fn generic_importer_volksbank_classified_csv_parses_comma_decimal_amounts() {
    let candidates = volksbank_importer("valid_rules.toml").import_records(&csv("volksbank_classified.csv"), "volksbank_classified.csv").unwrap();
    if let ImportCandidate::Classified(t) = &candidates[0] {
        assert_eq!(t.get_postings()[0].get_amount().unwrap().to_string(), "-25 EUR");
    }
    if let ImportCandidate::Classified(t) = &candidates[1] {
        assert_eq!(t.get_postings()[0].get_amount().unwrap().to_string(), "-9.99 EUR");
    }
}

#[test]
fn generic_importer_volksbank_classified_csv_reads_commodity_from_column() {
    let candidates = volksbank_importer("valid_rules.toml").import_records(&csv("volksbank_classified.csv"), "volksbank_classified.csv").unwrap();
    if let ImportCandidate::Classified(t) = &candidates[0] {
        assert!(t.get_postings()[0].get_amount().unwrap().to_string().ends_with("EUR"));
    }
}

#[test]
fn generic_importer_volksbank_mixed_csv_produces_classified_and_unclassified() {
    let candidates = volksbank_importer("valid_rules.toml").import_records(&csv("volksbank_mixed.csv"), "volksbank_mixed.csv").unwrap();
    assert_eq!(candidates.len(), 2);
    assert!(matches!(&candidates[0], ImportCandidate::Classified(_)));
    assert!(matches!(&candidates[1], ImportCandidate::Unclassified(_)));
}

#[test]
fn generic_importer_volksbank_mixed_csv_handles_thousands_separator() {
    let candidates = volksbank_importer("valid_rules.toml").import_records(&csv("volksbank_mixed.csv"), "volksbank_mixed.csv").unwrap();
    if let ImportCandidate::Unclassified(t) = &candidates[1] {
        assert_eq!(t.get_postings()[0].get_amount().unwrap().to_string(), "-1250.5 EUR");
    } else {
        panic!("expected unclassified transaction");
    }
}

#[test]
fn generic_importer_volksbank_empty_rules_leaves_all_unclassified() {
    let candidates = volksbank_importer("empty_rules.toml").import_records(&csv("volksbank_classified.csv"), "volksbank_classified.csv").unwrap();
    assert_eq!(candidates.len(), 2);
    assert!(matches!(&candidates[0], ImportCandidate::Unclassified(_)));
    assert!(matches!(&candidates[1], ImportCandidate::Unclassified(_)));
}

#[test]
fn default_parser_seb_classified_csv_imports_all_transactions() {
    let candidates = seb_parser("valid_rules.toml").import_records(&csv("seb_classified.csv"));
    assert_eq!(candidates.len(), 2);
    assert!(matches!(&candidates[0], ImportCandidate::Classified(_)), "GROCERY STORE ICA should be classified");
    assert!(matches!(&candidates[1], ImportCandidate::Classified(_)), "SPOTIFY should be classified");
}

#[test]
fn default_parser_seb_classified_csv_parses_dates_correctly() {
    let candidates = seb_parser("valid_rules.toml").import_records(&csv("seb_classified.csv"));
    assert_eq!(date_of(&candidates[0]), Date::from_ymd_opt(2026, 3, 21).unwrap());
    assert_eq!(date_of(&candidates[1]), Date::from_ymd_opt(2026, 3, 20).unwrap());
}

#[test]
fn default_parser_seb_classified_csv_parses_amounts_as_sek() {
    let candidates = seb_parser("valid_rules.toml").import_records(&csv("seb_classified.csv"));
    if let ImportCandidate::Classified(t) = &candidates[0] {
        assert_eq!(t.get_postings()[0].get_amount().unwrap().to_string(), "-250 SEK");
    }
    if let ImportCandidate::Classified(t) = &candidates[1] {
        assert_eq!(t.get_postings()[0].get_amount().unwrap().to_string(), "-129 SEK");
    }
}

#[test]
fn default_parser_seb_mixed_csv_produces_classified_and_unclassified() {
    let candidates = seb_parser("valid_rules.toml").import_records(&csv("seb_mixed.csv"));
    assert_eq!(candidates.len(), 2);
    assert!(matches!(&candidates[0], ImportCandidate::Classified(_)));
    assert!(matches!(&candidates[1], ImportCandidate::Unclassified(_)));
}

#[test]
fn default_parser_seb_unclassified_has_single_posting() {
    let candidates = seb_parser("valid_rules.toml").import_records(&csv("seb_mixed.csv"));
    if let ImportCandidate::Unclassified(t) = &candidates[1] {
        assert_eq!(t.get_postings().len(), 1);
        assert_eq!(t.get_postings()[0].get_account(), "assets:bank:seb-lönekonto");
        assert_eq!(t.get_postings()[0].get_amount().unwrap().to_string(), "-75.5 SEK");
    } else {
        panic!("expected unclassified transaction");
    }
}

#[test]
fn default_parser_seb_empty_rules_leaves_all_unclassified() {
    let candidates = seb_parser("empty_rules.toml").import_records(&csv("seb_classified.csv"));
    assert_eq!(candidates.len(), 2);
    assert!(matches!(&candidates[0], ImportCandidate::Unclassified(_)));
    assert!(matches!(&candidates[1], ImportCandidate::Unclassified(_)));
}

#[test]
fn default_parser_volksbank_classified_csv_imports_all_transactions() {
    let candidates = volksbank_parser("valid_rules.toml").import_records(&csv("volksbank_classified.csv"));
    assert_eq!(candidates.len(), 2);
    assert!(matches!(&candidates[0], ImportCandidate::Classified(_)), "GROCERY STORE REWE should be classified");
    assert!(matches!(&candidates[1], ImportCandidate::Classified(_)), "NETFLIX INTERNATIONAL should be classified");
}

#[test]
fn default_parser_volksbank_classified_csv_converts_dates_from_ddmmyyyy() {
    let candidates = volksbank_parser("valid_rules.toml").import_records(&csv("volksbank_classified.csv"));
    assert_eq!(date_of(&candidates[0]), Date::from_ymd_opt(2026, 3, 21).unwrap());
    assert_eq!(date_of(&candidates[1]), Date::from_ymd_opt(2026, 3, 20).unwrap());
}

#[test]
fn default_parser_volksbank_classified_csv_concatenates_description_columns() {
    let candidates = volksbank_parser("valid_rules.toml").import_records(&csv("volksbank_classified.csv"));
    if let ImportCandidate::Classified(t) = &candidates[0] {
        assert_eq!(t.get_description(), "GROCERY STORE REWE Einkauf Filiale 42");
    } else {
        panic!("expected classified transaction");
    }
}

#[test]
fn default_parser_volksbank_classified_csv_parses_comma_decimal_amounts() {
    let candidates = volksbank_parser("valid_rules.toml").import_records(&csv("volksbank_classified.csv"));
    if let ImportCandidate::Classified(t) = &candidates[0] {
        assert_eq!(t.get_postings()[0].get_amount().unwrap().to_string(), "-25 EUR");
    }
    if let ImportCandidate::Classified(t) = &candidates[1] {
        assert_eq!(t.get_postings()[0].get_amount().unwrap().to_string(), "-9.99 EUR");
    }
}

#[test]
fn default_parser_volksbank_classified_csv_reads_commodity_from_column() {
    let candidates = volksbank_parser("valid_rules.toml").import_records(&csv("volksbank_classified.csv"));
    if let ImportCandidate::Classified(t) = &candidates[0] {
        assert!(t.get_postings()[0].get_amount().unwrap().to_string().ends_with("EUR"));
    }
}

#[test]
fn default_parser_volksbank_mixed_csv_produces_classified_and_unclassified() {
    let candidates = volksbank_parser("valid_rules.toml").import_records(&csv("volksbank_mixed.csv"));
    assert_eq!(candidates.len(), 2);
    assert!(matches!(&candidates[0], ImportCandidate::Classified(_)));
    assert!(matches!(&candidates[1], ImportCandidate::Unclassified(_)));
}

#[test]
fn default_parser_volksbank_mixed_csv_handles_thousands_separator() {
    let candidates = volksbank_parser("valid_rules.toml").import_records(&csv("volksbank_mixed.csv"));
    if let ImportCandidate::Unclassified(t) = &candidates[1] {
        assert_eq!(t.get_postings()[0].get_amount().unwrap().to_string(), "-1250.5 EUR");
    } else {
        panic!("expected unclassified transaction");
    }
}

#[test]
fn default_parser_volksbank_empty_rules_leaves_all_unclassified() {
    let candidates = volksbank_parser("empty_rules.toml").import_records(&csv("volksbank_classified.csv"));
    assert_eq!(candidates.len(), 2);
    assert!(matches!(&candidates[0], ImportCandidate::Unclassified(_)));
    assert!(matches!(&candidates[1], ImportCandidate::Unclassified(_)));
}

#[test]
fn no_rule_sheet_leaves_all_unclassified() {
    let importer = GenericImporter::new(
        Account::from_str("assets:bank:seb-lönekonto").unwrap(),
        "SEK".to_string(),
        Vec::new(),
        ';',
        true,
        0,
        "%Y-%m-%d".to_string(),
        vec![3],
        4,
        None,
        None,
        '.',
    );
    let candidates = importer.import_records(&csv("seb_classified.csv"), "seb_classified.csv").unwrap();
    assert_eq!(candidates.len(), 2);
    assert!(matches!(&candidates[0], ImportCandidate::Unclassified(_)));
    assert!(matches!(&candidates[1], ImportCandidate::Unclassified(_)));
}

#[test]
fn valid_rules_are_parsed() {
    let rules = valid_rules();
    assert_eq!(rules.len(), 3);
    assert_eq!(rsledger::csv_importer::rules::find_first_match(&rules[0..1].to_vec(), "GROCERY STORE #123"), Some(0));
    assert!(matches!(&rules[0].action, rsledger::csv_importer::rules::RuleAction::AssignAccount(a) if a == "expenses:food:groceries"));
    assert_eq!(rsledger::csv_importer::rules::find_first_match(&rules[1..2].to_vec(), "NETFLIX subscription"), Some(0));
    assert_eq!(rsledger::csv_importer::rules::find_first_match(&rules[1..2].to_vec(), "SPOTIFY premium"), Some(0));
    assert!(matches!(&rules[1].action, rsledger::csv_importer::rules::RuleAction::AssignAccount(a) if a == "expenses:entertainment:subscriptions"));
    assert_eq!(rsledger::csv_importer::rules::find_first_match(&rules[2..3].to_vec(), "INTERNAL TRANSFER to savings"), Some(0));
    assert!(matches!(&rules[2].action, rsledger::csv_importer::rules::RuleAction::Skip));
}

#[test]
fn missing_account_skips_rule() {
    let rules = rules_from_entries(&vec![
        entry("^SALARY", "assign_account", None),
        entry("^RENT PAYMENT", "assign_account", Some("expenses:housing:rent")),
    ]);
    assert_eq!(rules.len(), 1);
    assert_eq!(rsledger::csv_importer::rules::find_first_match(&rules, "RENT PAYMENT"), Some(0));
    assert!(matches!(&rules[0].action, rsledger::csv_importer::rules::RuleAction::AssignAccount(a) if a == "expenses:housing:rent"));
}

#[test]
fn invalid_regex_skips_rule() {
    let rules = rules_from_entries(&vec![
        entry("[unclosed", "assign_account", Some("expenses:misc")),
        entry("^VALID PATTERN", "skip", None),
    ]);
    assert_eq!(rules.len(), 1);
    assert_eq!(rsledger::csv_importer::rules::find_first_match(&rules, "VALID PATTERN xyz"), Some(0));
    assert!(matches!(&rules[0].action, rsledger::csv_importer::rules::RuleAction::Skip));
}

#[test]
fn empty_rules_returns_empty_vec() {
    assert!(rules_from_entries(&Vec::new()).is_empty());
}

#[test]
fn skip_action_ignores_account_field() {
    let rules = rules_from_entries(&vec![entry("^INTERNAL TRANSFER", "skip", Some("assets:bank:savings"))]);
    assert_eq!(rules.len(), 1);
    assert!(matches!(&rules[0].action, rsledger::csv_importer::rules::RuleAction::Skip));
}

#[test]
fn action_matching_is_case_insensitive() {
    let rules = rules_from_entries(&vec![entry("^A", "SKIP", None), entry("^B", "Skip", None)]);
    assert_eq!(rules.len(), 2);
    assert!(matches!(&rules[0].action, rsledger::csv_importer::rules::RuleAction::Skip));
    assert!(matches!(&rules[1].action, rsledger::csv_importer::rules::RuleAction::Skip));
}
