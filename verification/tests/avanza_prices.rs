use rsledger::commodity_value::fixed_decimal::FixedDecimal;
use rsledger::csv_importer::ImportCandidate;
use rsledger::csv_importer::avanza_prices::AvanzaPricesImporter;
use rsledger::date::Date;
use rsledger::error::RsledgerError;
use rsledger::price::PriceDirective;

fn rec(fields: &[&str]) -> Vec<String> {
    fields.iter().map(|s| s.to_string()).collect()
}

/// The holdings of the positions export `2026-01-15_positions.csv`.
fn positions() -> Vec<Vec<String>> {
    vec![
        rec(&["Acme Corp", "ACME", "10", "5000,00", "450,00", "450,00", "SEK", "SE", "SE0000000001", "XSTO", "STOCK"]),
        rec(&["Beta Fund", "BETA", "50,5", "10100,00", "190,00", "190,00", "SEK", "SE", "SE0000000002", "", "FUND"]),
        rec(&["Gamma AB", "GAMMA", "0", "0,00", "0,00", "0,00", "SEK", "SE", "SE0000000003", "XSTO", "STOCK"]),
        rec(&["Delta International", "DELTA", "4", "3333,33", "800,00", "800,00", "SEK", "SE", "SE0000000004", "XSTO", "STOCK"]),
    ]
}

fn import_prices(filename: &str) -> Vec<PriceDirective> {
    let importer = AvanzaPricesImporter::new();
    let date = importer.file_date(filename).unwrap();
    importer
        .import_records(date, &positions())
        .unwrap()
        .into_iter()
        .map(|c| match c {
            ImportCandidate::Classified(p) | ImportCandidate::Unclassified(p) => p,
        })
        .collect()
}

#[test]
fn returns_correct_number_of_prices() {
    assert_eq!(import_prices("2026-01-15_positions.csv").len(), 3);
}

#[test]
fn parses_date_from_filename() {
    let expected = Date::from_ymd_opt(2026, 1, 15).unwrap();
    for price in import_prices("2026-01-15_positions.csv") {
        assert_eq!(price.date, expected);
    }
}

#[test]
fn first_entry_commodity_name() {
    assert_eq!(import_prices("2026-01-15_positions.csv")[0].commodity.name, "Acme Corp");
}

#[test]
fn first_entry_price_is_market_value_divided_by_volume() {
    assert_eq!(import_prices("2026-01-15_positions.csv")[0].value.to_string(), "500 SEK");
}

#[test]
fn fund_entry_with_fractional_volume() {
    let prices = import_prices("2026-01-15_positions.csv");
    assert_eq!(prices[1].commodity.name, "Beta Fund");
    assert_eq!(prices[1].value.to_string(), "200 SEK");
}

#[test]
fn skips_zero_volume_entry() {
    assert!(!import_prices("2026-01-15_positions.csv").iter().any(|p| p.commodity.name == "Gamma AB"));
}

#[test]
fn non_divisible_price_rounds_correctly() {
    let prices = import_prices("2026-01-15_positions.csv");
    assert_eq!(prices[2].commodity.name, "Delta International");
    assert_eq!(prices[2].value.to_string(), "833.3325 SEK");
}

#[test]
fn price_value_commodity_is_sek() {
    for price in import_prices("2026-01-15_positions.csv") {
        assert!(price.value.to_string().ends_with(" SEK"));
    }
}

#[test]
fn invalid_date_in_filename_returns_error() {
    match AvanzaPricesImporter::new().file_date("not-a-date_positions.csv") {
        Err(RsledgerError::ParseError(item, why)) => {
            assert_eq!(item, "Avanza CSV");
            assert_eq!(
                why,
                "Could not parse date from file name 'not-a-date_positions.csv'. Expected format: YYYY-MM-DD."
            );
        },
        _ => panic!("expected a parse error"),
    }
}

#[test]
fn bad_volume_and_market_value_are_reported() {
    let importer = AvanzaPricesImporter::new();
    let date = Date::from_ymd_opt(2026, 1, 15).unwrap();
    match importer.import_records(date, &vec![rec(&["X", "X", "ten", "1,00"])]) {
        Err(RsledgerError::ParseError(item, why)) => {
            assert_eq!(item, "Avanza CSV");
            assert_eq!(why, "Could not parse volume 'ten': Invalid decimal format: 'ten'.");
        },
        _ => panic!("expected a parse error"),
    }
    match importer.import_records(date, &vec![rec(&["X", "X", "2", "n/a"])]) {
        Err(RsledgerError::ParseError(_, why)) => {
            assert_eq!(why, "Could not parse market value 'n/a': Invalid decimal format: 'n/a'.");
        },
        _ => panic!("expected a parse error"),
    }
    // a zero volume skips the holding before its market value is read
    assert_eq!(importer.import_records(date, &vec![rec(&["X", "X", "0", "n/a"])]).unwrap().len(), 0);
}

#[test]
fn quotients_have_six_places_rounded_half_away_from_zero() {
    let q = |a: &str, b: &str| {
        FixedDecimal::from_str(a).unwrap().checked_div(&FixedDecimal::from_str(b).unwrap()).map(|x| x.to_string())
    };
    assert_eq!(q("1", "3"), Some("0.333333".to_string()));
    assert_eq!(q("2", "3"), Some("0.666667".to_string()));
    assert_eq!(q("-5", "3"), Some("-1.666667".to_string()));
    assert_eq!(q("0.0000005", "1"), Some("0.000001".to_string()));
    assert_eq!(q("1", "8"), Some("0.125".to_string()));
    assert_eq!(q("10", "0"), None);
    assert_eq!(q("9223372036854775807", "1"), None);
}

#[test]
fn import_csv_returns_correct_number_of_prices() {
    assert_eq!(import_prices("2026-01-15_positions.csv").len(), 3);
}

#[test]
fn import_csv_parses_date_from_filename() {
    let expected = Date::from_ymd_opt(2026, 1, 15).unwrap();
    for price in &import_prices("2026-01-15_positions.csv") {
        assert_eq!(price.date, expected);
    }
}

#[test]
fn import_csv_first_entry_commodity_name() {
    assert_eq!(import_prices("2026-01-15_positions.csv")[0].commodity.name, "Acme Corp");
}

#[test]
fn import_csv_first_entry_price_is_market_value_divided_by_volume() {
    assert_eq!(import_prices("2026-01-15_positions.csv")[0].value.to_string(), "500 SEK");
}

#[test]
fn import_csv_fund_entry_with_fractional_volume() {
    let result = import_prices("2026-01-15_positions.csv");
    assert_eq!(result[1].commodity.name, "Beta Fund");
    assert_eq!(result[1].value.to_string(), "200 SEK");
}

#[test]
fn import_csv_skips_zero_volume_entry() {
    assert!(!import_prices("2026-01-15_positions.csv").iter().any(|p| p.commodity.name == "Gamma AB"));
}

#[test]
fn import_csv_non_divisible_price_rounds_to_six_decimal_places() {
    let result = import_prices("2026-01-15_positions.csv");
    assert_eq!(result[2].commodity.name, "Delta International");
    assert_eq!(result[2].value.to_string(), "833.3325 SEK");
}

#[test]
fn import_csv_price_value_commodity_is_sek() {
    for price in &import_prices("2026-01-15_positions.csv") {
        assert!(price.value.to_string().ends_with(" SEK"));
    }
}

#[test]
fn import_csv_invalid_date_in_filename_returns_error() {
    assert!(AvanzaPricesImporter::new().file_date("not-a-date_positions.csv").is_err());
}
