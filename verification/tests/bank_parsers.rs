use rsledger::csv_importer::ImportCandidate;
use rsledger::csv_importer::rules::{RegexRule, RuleAction};
use rsledger::journalist::csv_parser::CSVImporter;
use rsledger::journalist::csv_parser::hsbc_parser::HSBCParser;
use rsledger::journalist::csv_parser::seb_parser::SebParser;
use rsledger::journalist::csv_parser::volksbank_parser::VolksbankParser;
use rsledger::transaction::Transaction;

fn rec(fields: &[&str]) -> Vec<String> {
    fields.iter().map(|s| s.to_string()).collect()
}

fn rules() -> Vec<RegexRule> {
    vec![
        RegexRule { pattern: "(?i)ica|coop".to_string(), action: RuleAction::AssignAccount("expenses:food".to_string()) },
        RegexRule { pattern: "^Transfer".to_string(), action: RuleAction::Skip },
    ]
}

fn shown(c: &ImportCandidate<Transaction>) -> (bool, String) {
    match c {
        ImportCandidate::Classified(t) => (true, t.to_string()),
        ImportCandidate::Unclassified(t) => (false, t.to_string()),
    }
}

#[test]
fn seb_rows_are_classified_skipped_or_left_unclassified() {
    let parser = SebParser::new("assets:bank:seb".to_string(), rules());
    let records = vec![
        rec(&["2026-01-03", "2026-01-03", "x", "ICA Maxi", "-250.50", "1000"]),
        rec(&["2026-01-04", "2026-01-04", "x", "Transfer to savings", "-100", "900"]),
        rec(&["2026-01-05", "2026-01-05", "x", " Spotify ", "-119", "781"]),
        rec(&["2026-01-06", "x", "y", "too short"]),
        rec(&["2026-02-30", "x", "y", "ICA", "-1"]),
        rec(&["2026-01-07", "x", "y", "ICA", "abc"]),
    ];
    let out = parser.import_records(&records);
    assert_eq!(out.len(), 2);
    assert_eq!(
        shown(&out[0]),
        (true, "2026-01-03 ICA Maxi\n\tassets:bank:seb  -250.5 SEK\n\texpenses:food".to_string())
    );
    assert_eq!(shown(&out[1]), (false, "2026-01-05 Spotify\n\tassets:bank:seb  -119 SEK".to_string()));
}

#[test]
fn seb_without_rules_leaves_rows_unclassified() {
    let parser = SebParser::new("assets:bank:seb".to_string(), Vec::new());
    let out = parser.import_records(&vec![rec(&["2026-01-03", "", "", "ICA", "10"])]);
    assert_eq!(out.len(), 1);
    assert_eq!(shown(&out[0]), (false, "2026-01-03 ICA\n\tassets:bank:seb  10 SEK".to_string()));
}

#[test]
fn volksbank_rows_read_dates_descriptions_and_comma_amounts() {
    let parser = VolksbankParser::new("assets:bank:volksbank".to_string(), rules());
    let mut row = vec![""; 13];
    row[4] = "15.01.2026";
    row[6] = "COOP Markt";
    row[10] = "Berlin";
    row[11] = "-1.234,56";
    row[12] = "EUR";
    let mut only_second = vec![""; 13];
    only_second[4] = "16.01.2026";
    only_second[10] = "Miete";
    only_second[11] = "-800,00";
    only_second[12] = "EUR";
    let mut bad_date = vec![""; 13];
    bad_date[4] = "2026-01-17";
    bad_date[6] = "COOP";
    bad_date[11] = "1,00";
    bad_date[12] = "EUR";
    let records = vec![rec(&row), rec(&only_second), rec(&bad_date), rec(&["short"])];
    let out = parser.import_records(&records);
    assert_eq!(out.len(), 2);
    assert_eq!(
        shown(&out[0]),
        (true, "2026-01-15 COOP Markt Berlin\n\tassets:bank:volksbank  -1234.56 EUR\n\texpenses:food".to_string())
    );
    assert_eq!(shown(&out[1]), (false, "2026-01-16 Miete\n\tassets:bank:volksbank  -800 EUR".to_string()));
}

#[test]
fn hsbc_rows_need_three_columns_and_a_day_month_year_date() {
    let parser = HSBCParser::new("assets:bank:hsbc".to_string(), rules());
    let records = vec![
        rec(&["05/02/2026", "Coop Food", "1,234.50"]),
        rec(&["06/02/2026", "Transfer out", "-20.00"]),
        rec(&["07/02/2026", "Pub", "-12.30"]),
        rec(&["2026-02-08", "Coop", "-1.00"]),
        rec(&["09/02/2026", "Coop", "-1.00", "extra"]),
        rec(&[" 10/02/2026 ", " Cafe ", " -3.10 "]),
    ];
    let out = parser.import_records(&records);
    assert_eq!(out.len(), 3);
    assert_eq!(
        shown(&out[0]),
        (true, "2026-02-05 Coop Food\n\tassets:bank:hsbc  1234.5 GBP\n\texpenses:food".to_string())
    );
    assert_eq!(shown(&out[1]), (false, "2026-02-07 Pub\n\tassets:bank:hsbc  -12.3 GBP".to_string()));
    assert_eq!(shown(&out[2]), (false, "2026-02-10 Cafe\n\tassets:bank:hsbc  -3.1 GBP".to_string()));
}

#[test]
fn single_rows_are_read_one_at_a_time() {
    let parser = HSBCParser::new("assets:bank:hsbc".to_string(), Vec::new());
    assert!(parser.import_row(&rec(&["31/02/2026", "Nowhere", "1.00"])).is_none());
    assert!(parser.import_row(&rec(&["01/03/2026", "Somewhere", "1.00"])).is_some());
}
