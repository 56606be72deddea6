use rsledger::csv_importer::ImportCandidate;
use rsledger::csv_importer::avanza_transactions::AvanzaImporter;
use rsledger::date::Date;
use rsledger::transaction::Transaction;

fn rec(fields: &[&str]) -> Vec<String> {
    fields.iter().map(|s| s.to_string()).collect()
}

/// The records (after the header row) of the export `avanza_transactions.csv`:
/// Datum;Konto;Typ av transaktion;Värdepapper/beskrivning;Antal;Kurs;Belopp;
/// Transaktionsvaluta;Courtage;Valutakurs;Instrumentvaluta;ISIN;Resultat
fn avanza_transactions_csv() -> Vec<Vec<String>> {
    vec![
        rec(&["2026-03-21", "ISK", "Insättning", "Bankgiro", "", "", "1000", "SEK", "", "", "", "", ""]),
        rec(&["2026-03-20", "ISK", "Uttag", "Bankgiro", "", "", "-500", "SEK", "", "", "", "", ""]),
        rec(&["2026-03-19", "ISK", "Köp", "Ericsson B", "56", "96,33", "-5408,04", "SEK", "13,49", "1", "SEK", "SE0000108656", ""]),
        rec(&["2026-03-18", "ISK", "Sälj", "Ericsson B", "-20", "120,00", "2400,00", "SEK", "9,00", "1", "SEK", "SE0000108656", "500,00"]),
        rec(&["2026-03-17", "ISK", "Utdelning", "Apple", "10", "34,25", "342,50", "USD", "", "", "USD", "US0378331005", ""]),
        rec(&["2026-03-17", "ISK", "Utländsk källskatt", "Apple", "", "", "-51,38", "USD", "", "", "USD", "US0378331005", ""]),
        rec(&["2026-03-16", "ISK", "Utlåningsränta", "Ränta", "", "", "12,50", "SEK", "", "", "", "", ""]),
    ]
}

fn import_all() -> Vec<ImportCandidate<Transaction>> {
    AvanzaImporter::new().import_records(&avanza_transactions_csv(), "avanza_transactions.csv").unwrap()
}

fn amount(t: &Transaction, k: usize) -> String {
    t.get_postings()[k].get_amount().unwrap().to_string()
}

#[test]
fn imports_all_seven_transactions() {
    assert_eq!(import_all().len(), 7);
}

#[test]
fn all_transactions_are_classified() {
    for candidate in import_all() {
        assert!(matches!(candidate, ImportCandidate::Classified(_)), "every Avanza transaction should be classified");
    }
}

#[test]
fn deposit_has_correct_date_and_description() {
    if let ImportCandidate::Classified(t) = &import_all()[0] {
        assert_eq!(*t.get_date(), Date::from_ymd_opt(2026, 3, 21).unwrap());
        assert_eq!(t.get_description(), "Insättning Bankgiro");
    } else {
        panic!("expected a classified deposit");
    }
}

#[test]
fn deposit_has_two_postings() {
    if let ImportCandidate::Classified(t) = &import_all()[0] {
        assert_eq!(t.get_postings().len(), 2);
    }
}

#[test]
fn deposit_amount_and_accounts() {
    if let ImportCandidate::Classified(t) = &import_all()[0] {
        assert_eq!(t.get_postings()[0].get_account(), "assets:bank:avanza");
        assert_eq!(amount(t, 0), "1000 SEK");
        assert_eq!(t.get_postings()[1].get_account(), "expenses:bank:internal-transfers");
        assert!(t.get_postings()[1].get_amount().is_none());
    }
}

#[test]
fn withdrawal_amount_is_negative() {
    if let ImportCandidate::Classified(t) = &import_all()[1] {
        assert_eq!(amount(t, 0), "-500 SEK");
    }
}

#[test]
fn buy_has_three_postings() {
    if let ImportCandidate::Classified(t) = &import_all()[2] {
        assert_eq!(t.get_postings().len(), 3);
    }
}

#[test]
fn buy_commodity_amount_uses_security_name() {
    if let ImportCandidate::Classified(t) = &import_all()[2] {
        // the journal form of the amount quotes a name with a space
        assert_eq!(t.get_postings()[0].get_amount().unwrap().to_journal_string(), "56 \"Ericsson B\"");
    }
}

#[test]
fn buy_cash_amount_normalises_comma_decimal() {
    if let ImportCandidate::Classified(t) = &import_all()[2] {
        assert_eq!(amount(t, 1), "-5408.04 SEK");
    }
}

#[test]
fn buy_fee_normalises_comma_decimal() {
    if let ImportCandidate::Classified(t) = &import_all()[2] {
        assert_eq!(amount(t, 2), "13.49 SEK");
        assert_eq!(t.get_postings()[2].get_account(), "expenses:bank:avanza");
    }
}

#[test]
fn sell_has_four_postings() {
    if let ImportCandidate::Classified(t) = &import_all()[3] {
        assert_eq!(t.get_postings().len(), 4);
    }
}

#[test]
fn sell_capital_gains_posting_is_negated_profit() {
    if let ImportCandidate::Classified(t) = &import_all()[3] {
        assert_eq!(t.get_postings()[3].get_account(), "equity:capital-gains");
        assert_eq!(amount(t, 3), "-500 SEK");
    }
}

#[test]
fn dividend_has_two_postings_with_correct_accounts() {
    if let ImportCandidate::Classified(t) = &import_all()[4] {
        assert_eq!(t.get_postings().len(), 2);
        assert_eq!(amount(t, 0), "342.5 USD");
        assert_eq!(t.get_postings()[1].get_account(), "income:dividends");
    }
}

#[test]
fn withholding_tax_routes_to_correct_account() {
    if let ImportCandidate::Classified(t) = &import_all()[5] {
        assert_eq!(t.get_postings()[1].get_account(), "expenses:taxes:withholding");
        assert_eq!(amount(t, 0), "-51.38 USD");
    }
}

#[test]
fn lending_interest_routes_to_correct_account() {
    if let ImportCandidate::Classified(t) = &import_all()[6] {
        assert_eq!(t.get_postings()[1].get_account(), "expenses:bank:avanza:interest");
        assert_eq!(amount(t, 0), "12.5 SEK");
    }
}

#[test]
fn empty_fee_column_defaults_to_zero() {
    if let ImportCandidate::Classified(t) = &import_all()[2] {
        assert_ne!(amount(t, 2), "0 SEK");
    }
    let sell_without_fee = vec![rec(&[
        "2026-03-18", "ISK", "Sälj", "Ericsson B", "-20", "120,00", "2400,00", "SEK", "", "1", "SEK", "SE0000108656", "500,00",
    ])];
    let out = AvanzaImporter::new().import_records(&sell_without_fee, "avanza.csv").unwrap();
    if let ImportCandidate::Classified(t) = &out[0] {
        assert_eq!(amount(t, 2), "0 SEK");
    } else {
        panic!("expected a classified sell");
    }
}

#[test]
fn unknown_action_type_returns_error() {
    let records = vec![rec(&["2026-03-01", "ISK", "Okänd", "Test", "0", "0", "100", "SEK", "", "", "SEK", "", ""])];
    assert!(AvanzaImporter::new().import_records(&records, "avanza_unknown_action.csv").is_err());
}
