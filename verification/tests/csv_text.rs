use rsledger::csv_importer::ImportCandidate;
use rsledger::csv_importer::avanza_prices::AvanzaPricesImporter;
use rsledger::csv_importer::avanza_transactions::AvanzaImporter;
use rsledger::csv_importer::generic_importer::GenericImporter;
use rsledger::csv_importer::rules::{RegexRule, RuleAction};
use rsledger::date::Date;
use rsledger::error::RsledgerError;
use rsledger::journal::account::Account;
use rsledger::journalist::csv_parser::CSVImporter;
use rsledger::journalist::csv_parser::hsbc_parser::HSBCParser;
use rsledger::journalist::csv_parser::seb_parser::SebParser;
use rsledger::journalist::csv_parser::volksbank_parser::VolksbankParser;
use rsledger::journalist::transaction_importer::default_parser::DefaultParser;
use rsledger::transaction::Transaction;

fn shown(c: &ImportCandidate<Transaction>) -> (bool, String) {
    match c {
        ImportCandidate::Classified(t) => (true, t.to_string()),
        ImportCandidate::Unclassified(t) => (false, t.to_string()),
    }
}

fn food() -> Vec<RegexRule> {
    vec![RegexRule { pattern: "(?i)coop".to_string(), action: RuleAction::AssignAccount("expenses:food".to_string()) }]
}

#[test]
fn hsbc_text_is_split_on_commas_with_quoted_thousands() {
    let parser = HSBCParser::new("assets:bank:hsbc".to_string(), food());
    let text = b"05/02/2026,Coop Food,\"1,234.50\"\n07/02/2026,Pub,-12.30\n08/02/2026,Cafe\n";
    let out = parser.import_text(text);
    assert_eq!(out.len(), 2);
    assert_eq!(shown(&out[0]), (true, "2026-02-05 Coop Food\n\tassets:bank:hsbc  1234.5 GBP\n\texpenses:food".to_string()));
    assert_eq!(shown(&out[1]), (false, "2026-02-07 Pub\n\tassets:bank:hsbc  -12.3 GBP".to_string()));
}

#[test]
fn seb_and_volksbank_texts_skip_their_header_and_unreadable_records() {
    let seb = SebParser::new("assets:bank:seb".to_string(), food());
    let text = "Bokföringsdatum;Valutadatum;Verifikation;Text;Belopp;Saldo\n2026-01-03;2026-01-03;x;COOP;-250.50;10\n2026-01-04;short\n";
    let out = seb.import_text(text.as_bytes());
    assert_eq!(out.len(), 1);
    assert_eq!(shown(&out[0]), (true, "2026-01-03 COOP\n\tassets:bank:seb  -250.5 SEK\n\texpenses:food".to_string()));
    let vb = VolksbankParser::new("assets:bank:volksbank".to_string(), Vec::new());
    let text = "h0;h1;h2;h3;h4;h5;h6;h7;h8;h9;h10;h11;h12\n;;;;15.01.2026;;Miete;;;;Januar;-800,00;EUR\n";
    let out = vb.import_text(text.as_bytes());
    assert_eq!(out.len(), 1);
    assert_eq!(shown(&out[0]), (false, "2026-01-15 Miete Januar\n\tassets:bank:volksbank  -800 EUR".to_string()));
}

#[test]
fn default_parser_reads_its_text_with_its_settings() {
    let parser = DefaultParser::new(
        "assets:bank:seb".to_string(),
        "SEK".to_string(),
        food(),
        ';',
        true,
        0,
        "%Y-%m-%d".to_string(),
        vec![3],
        4,
        None,
        None,
        '.',
    );
    let text = "h;a;b;c;d\n2026-03-01;x;y;Coop;-5\n2026-03-02;x;y\n2026-03-03;x;y;Other;7\n";
    let out = parser.import_text(text.as_bytes());
    assert_eq!(out.len(), 2);
    assert_eq!(shown(&out[1]), (false, "2026-03-03 Other\n\tassets:bank:seb  7 SEK".to_string()));
}

fn seb_generic() -> GenericImporter {
    GenericImporter::new(
        Account::from_str("assets:bank:seb").unwrap(),
        "SEK".to_string(),
        food(),
        ';',
        true,
        0,
        "%Y-%m-%d".to_string(),
        vec![3],
        4,
        None,
        None,
        '.',
    )
}

#[test]
fn generic_text_stops_at_the_first_record_or_row_that_fails() {
    let ok = "h;a;b;c;d\n2026-03-01;x;y;Coop;-5\n2026-03-03;x;y;Other;7\n";
    let out = seb_generic().import_text(ok.as_bytes(), "seb.csv").unwrap();
    assert_eq!(out.len(), 2);
    // an unreadable record (a field count unlike the first record's) after a good row
    let unequal = "h;a;b;c;d\n2026-03-01;x;y;Coop;-5\n2026-03-02;x\n";
    match seb_generic().import_text(unequal.as_bytes(), "seb.csv") {
        Err(RsledgerError::ParseError(item, why)) => {
            assert_eq!(item, "seb.csv");
            assert!(why.starts_with("Failed to read CSV record: "), "{}", why);
        },
        _ => panic!("expected a parse error"),
    }
    // a row that fails before the unreadable record gives its own error
    let bad_first = "h;a;b;c;d\n2026-02-30;x;y;Coop;-5\n2026-03-02;x\n";
    match seb_generic().import_text(bad_first.as_bytes(), "seb.csv") {
        Err(RsledgerError::ParseError(_, why)) => {
            assert_eq!(why, "Could not parse date '2026-02-30' with format '%Y-%m-%d'.");
        },
        _ => panic!("expected a parse error"),
    }
}

#[test]
fn avanza_text_is_read_flexibly() {
    let text = "Datum;Konto;Typ av transaktion;Värdepapper/beskrivning;Antal;Kurs;Belopp;Transaktionsvaluta;Courtage;Valutakurs;Instrumentvaluta;ISIN;Resultat\n\
                2026-03-21;ISK;Insättning;Bankgiro;;;1000;SEK;;;;;;\n\
                2026-03-20;ISK;Uttag;Bankgiro;;;-500;SEK;;;;;\n";
    let importer = AvanzaImporter::new();
    assert!(importer.text_negatable(text.as_bytes()));
    let out = importer.import_text(text.as_bytes(), "avanza.csv").unwrap();
    assert_eq!(out.len(), 2);
    assert_eq!(shown(&out[1]), (true, "2026-03-20 Uttag Bankgiro\n\tassets:bank:avanza  -500 SEK\n\texpenses:bank:internal-transfers".to_string()));
}

#[test]
fn positions_text_gives_prices() {
    let text = "Namn;Kortnamn;Volym;Marknadsvärde;GAV (SEK);GAV;Valuta;Land;ISIN;Marknad;Typ\n\
                Acme Corp;ACME;10;5000,00;450;450;SEK;SE;X;XSTO;STOCK\n\
                Gamma AB;GAMMA;0;0,00;0;0;SEK;SE;X;XSTO;STOCK\n";
    let importer = AvanzaPricesImporter::new();
    let date = Date::from_ymd_opt(2026, 1, 15).unwrap();
    let out = importer.import_text(date, text.as_bytes(), "2026-01-15_positions.csv").unwrap();
    assert_eq!(out.len(), 1);
    match &out[0] {
        ImportCandidate::Classified(p) => assert_eq!(p.to_string(), "P 2026-01-15 \"Acme Corp\" 500 SEK"),
        _ => panic!("expected a classified price"),
    }
    let broken = "Namn;Kortnamn;Volym;Marknadsvärde\nAcme;A;10;5000\nShort;S\n";
    match importer.import_text(date, broken.as_bytes(), "pos.csv") {
        Err(RsledgerError::ParseError(item, why)) => {
            assert_eq!(item, "Avanza CSV");
            assert!(why.starts_with("Failed to read a record in CSV file 'pos.csv': "), "{}", why);
        },
        _ => panic!("expected a parse error"),
    }
}

#[test]
fn avanza_checked_import_refuses_only_an_overflowing_profit() {
    let header = "Datum;Konto;Typ av transaktion;Värdepapper/beskrivning;Antal;Kurs;Belopp;Transaktionsvaluta;Courtage;Valutakurs;Instrumentvaluta;ISIN;Resultat\n";
    let fine = format!("{header}2026-03-20;ISK;Uttag;Bankgiro;;;-500;SEK;;;;;\n");
    let importer = AvanzaImporter::new();
    assert_eq!(importer.import_text_checked(fine.as_bytes(), "a.csv").unwrap().unwrap().len(), 1);
    let overflow = format!("{header}2026-03-23;ISK;Sälj;X;-1;;10;SEK;;;;;-9223372036854775808\n");
    assert!(importer.import_text_checked(overflow.as_bytes(), "a.csv").is_none());
}
