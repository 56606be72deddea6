//! The `import` command: which importer reads each bank's export.

use vstd::prelude::*;
use crate::cli::args::ParserOptions;
use crate::csv_importer::avanza_transactions::AvanzaImporter;
use crate::csv_importer::generic_importer::{
    CsvLayoutView, GenericImporter, description_of, description_parts, lemma_columns_below_min, row_proto,
};
use crate::commodity_value::fixed_decimal::normalize;
use crate::date::chrono_parse_date;
use crate::text::{join, replace_char, trim, without_char};
use crate::transaction::commodity_value::commodity_value_parse;
use crate::csv_importer::rules::{RegexRule, RuleView, rule_views};
use crate::journal::account::{Account, AccountView, RootAccount, account_str};

verus! {

/// The importer of a CSV format.
pub enum ImporterChoice {
    Avanza(AvanzaImporter),
    Generic(GenericImporter),
}

/// The account, layout, delimiter and header flag of each bank's export.
pub open spec fn bank_settings(parser: ParserOptions, rules: Seq<RuleView>) -> (AccountView, CsvLayoutView, char, bool) {
    match parser {
        ParserOptions::HSBCDebit | ParserOptions::HSBCCredit => (
            if parser == ParserOptions::HSBCDebit {
                (RootAccount::Assets, seq!["bank"@, "hsbc"@])
            } else {
                (RootAccount::Liabilities, seq!["credit-card"@, "hsbc"@])
            },
            CsvLayoutView {
                currency: "GBP"@,
                rules,
                date_column: 0,
                date_format: "%d/%m/%Y"@,
                description_columns: seq![1usize],
                amount_column: 2,
                commodity_column: None,
                thousands_separator: Some(','),
                decimal_separator: '.',
            },
            ',',
            false,
        ),
        ParserOptions::SebDebit | ParserOptions::SebSavings => (
            (RootAccount::Assets, seq!["bank"@, if parser == ParserOptions::SebDebit { "seb-l\u{f6}nekonto"@ } else { "seb-sparkonto"@ }]),
            CsvLayoutView {
                currency: "SEK"@,
                rules,
                date_column: 0,
                date_format: "%Y-%m-%d"@,
                description_columns: seq![3usize],
                amount_column: 4,
                commodity_column: None,
                thousands_separator: None,
                decimal_separator: '.',
            },
            ';',
            true,
        ),
        _ => (
            (RootAccount::Assets, seq!["bank"@, "volksbank"@]),
            CsvLayoutView {
                currency: "EUR"@,
                rules,
                date_column: 4,
                date_format: "%d.%m.%Y"@,
                description_columns: seq![6usize, 10usize],
                amount_column: 11,
                commodity_column: Some(12usize),
                thousands_separator: Some('.'),
                decimal_separator: ',',
            },
            ';',
            true,
        ),
    }
}

/// Each bank's rows are read from that bank's columns. SEB: the date in
/// column 0 (`YYYY-MM-DD`), the description in column 3 and the amount in
/// column 4, in SEK. HSBC: the date in column 0 (`DD/MM/YYYY`), the
/// description in column 1 and the amount in column 2 (`,` groups thousands),
/// in GBP. Volksbank: the date in column 4 (`DD.MM.YYYY`), the description
/// from columns 6 and 10, the amount in column 11 (`.` groups thousands, `,`
/// is the decimal point) in the currency of column 12. Each text is trimmed.
pub proof fn law_bank_rows_read_their_columns(parser: ParserOptions, rules: Seq<RuleView>, rec: Seq<Seq<char>>)
    requires
        parser != ParserOptions::Avanza,
    ensures
        (parser == ParserOptions::SebDebit || parser == ParserOptions::SebSavings) ==> (row_proto(bank_settings(parser, rules).1, rec) matches Ok(p) ==> {
            &&& rec.len() > 4
            &&& chrono_parse_date(trim(rec[0]), "%Y-%m-%d"@) matches Ok(d) && p.0 == (d.0 as int, d.1 as int, d.2 as int)
            &&& p.1 == trim(rec[3])
            &&& commodity_value_parse(trim(rec[4]) + seq![' '] + "SEK"@) matches Some(q) && p.2 == (normalize(q.0.0, q.0.1), q.1)
        }),
        (parser == ParserOptions::HSBCDebit || parser == ParserOptions::HSBCCredit) ==> (row_proto(bank_settings(parser, rules).1, rec) matches Ok(p) ==> {
            &&& rec.len() > 2
            &&& chrono_parse_date(trim(rec[0]), "%d/%m/%Y"@) matches Ok(d) && p.0 == (d.0 as int, d.1 as int, d.2 as int)
            &&& p.1 == trim(rec[1])
            &&& commodity_value_parse(without_char(trim(rec[2]), ',') + seq![' '] + "GBP"@) matches Some(q) && p.2 == (normalize(q.0.0, q.0.1), q.1)
        }),
        parser == ParserOptions::Volksbank ==> (row_proto(bank_settings(parser, rules).1, rec) matches Ok(p) ==> {
            &&& rec.len() > 12
            &&& chrono_parse_date(trim(rec[4]), "%d.%m.%Y"@) matches Ok(d) && p.0 == (d.0 as int, d.1 as int, d.2 as int)
            &&& p.1 == description_of(rec, seq![6usize, 10usize])
            &&& commodity_value_parse(replace_char(without_char(trim(rec[11]), '.'), ',', '.') + seq![' '] + trim(rec[12])) matches Some(q)
                && p.2 == (normalize(q.0.0, q.0.1), q.1)
        }),
{
    let l = bank_settings(parser, rules).1;
    lemma_columns_below_min(l);
    if parser != ParserOptions::Volksbank {
        let c: usize = l.description_columns[0];
        let t = trim(rec[c as int]);
        assert(l.description_columns.len() == 1);
        if rec.len() >= l.amount_column + 1 && rec.len() > c {
            assert(description_parts(rec, l.description_columns, 0) == Seq::<Seq<char>>::empty());
            if t.len() == 0 {
                assert(description_parts(rec, l.description_columns, 1) == Seq::<Seq<char>>::empty());
                assert(join(Seq::<Seq<char>>::empty(), seq![' ']) =~= t);
            } else {
                assert(description_parts(rec, l.description_columns, 1) =~= seq![t]);
            }
        }
    }
    if parser == ParserOptions::Volksbank {
        assert(l.commodity_column == Some(12usize));
    }
}

fn two_strings(a: &str, b: &str) -> (r: Vec<String>)
    ensures
        crate::journal::account::string_views(r@) == seq![a@, b@],
{
    let v = vec![a.to_owned(), b.to_owned()];
    assert(crate::journal::account::string_views(v@) =~= seq![a@, b@]);
    v
}

/// The importer of each format: Avanza's own, or the configurable importer
/// set up for the bank's export (see `bank_settings`) with `rules`.
pub fn importer_for(parser: ParserOptions, rules: Vec<RegexRule>) -> (r: ImporterChoice)
    ensures
        parser == ParserOptions::Avanza <==> r is Avanza,
        r matches ImporterChoice::Generic(g) ==> g.account_view() == account_str(bank_settings(parser, rule_views(rules@)).0),
        r matches ImporterChoice::Generic(g) ==> g.layout() == bank_settings(parser, rule_views(rules@)).1,
        r matches ImporterChoice::Generic(g) ==> g.delimiter_view() == bank_settings(parser, rule_views(rules@)).2,
        r matches ImporterChoice::Generic(g) ==> g.has_headers_view() == bank_settings(parser, rule_views(rules@)).3,
{
    match parser {
        ParserOptions::Avanza => ImporterChoice::Avanza(AvanzaImporter::new()),
        ParserOptions::HSBCDebit => {
            let cols = vec![1usize];
            assert(cols@ =~= seq![1usize]);
            ImporterChoice::Generic(GenericImporter::new(
            Account::new(RootAccount::Assets, two_strings("bank", "hsbc")),
            "GBP".to_owned(), rules, ',', false, 0, "%d/%m/%Y".to_owned(), cols, 2, None, Some(','), '.',
        ))
        },
        ParserOptions::HSBCCredit => {
            let cols = vec![1usize];
            assert(cols@ =~= seq![1usize]);
            ImporterChoice::Generic(GenericImporter::new(
            Account::new(RootAccount::Liabilities, two_strings("credit-card", "hsbc")),
            "GBP".to_owned(), rules, ',', false, 0, "%d/%m/%Y".to_owned(), cols, 2, None, Some(','), '.',
        ))
        },
        ParserOptions::SebDebit => {
            let cols = vec![3usize];
            assert(cols@ =~= seq![3usize]);
            ImporterChoice::Generic(GenericImporter::new(
            Account::new(RootAccount::Assets, two_strings("bank", "seb-l\u{f6}nekonto")),
            "SEK".to_owned(), rules, ';', true, 0, "%Y-%m-%d".to_owned(), cols, 4, None, None, '.',
        ))
        },
        ParserOptions::SebSavings => {
            let cols = vec![3usize];
            assert(cols@ =~= seq![3usize]);
            ImporterChoice::Generic(GenericImporter::new(
            Account::new(RootAccount::Assets, two_strings("bank", "seb-sparkonto")),
            "SEK".to_owned(), rules, ';', true, 0, "%Y-%m-%d".to_owned(), cols, 4, None, None, '.',
        ))
        },
        ParserOptions::Volksbank => {
            let cols = vec![6usize, 10usize];
            assert(cols@ =~= seq![6usize, 10usize]);
            ImporterChoice::Generic(GenericImporter::new(
            Account::new(RootAccount::Assets, two_strings("bank", "volksbank")),
            "EUR".to_owned(), rules, ';', true, 4, "%d.%m.%Y".to_owned(), cols, 11, Some(12), Some('.'), ',',
        ))
        },
    }
}

} // verus!
