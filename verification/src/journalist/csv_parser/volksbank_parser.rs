//! The parser of Volksbank account exports: `;`-separated with one header
//! row; the date (`DD.MM.YYYY`) in column 4, the description in columns 6 and
//! 10, the amount (`.` between thousands, `,` as the decimal comma) in column
//! 11 and its commodity in column 12 (columns counted from 0).

use vstd::prelude::*;
use crate::csv_importer::ImportCandidate;
use crate::csv_importer::csv_text::{csv_parse, csv_records, readable_records, readable_records_of};
use crate::csv_importer::generic_importer::{
    amount_digits, amount_digits_text, candidate_views, description_of, description_text, record_views,
};
use crate::csv_importer::rules::{RegexRule, RuleView, rule_views};
use crate::journal::TransactionView;
use crate::journal::account::string_views;
use crate::text::{chars_of, push_chars, split_char, split_on, string_from, trim, trim_chars, views};
use crate::transaction::Transaction;
use super::{CSVImporter, bank_candidate, bank_candidate_of, rows_kept};
use crate::commodity_value::fixed_decimal::normalize;
use crate::date::chrono_parse_date;
use crate::transaction::commodity_value::commodity_value_parse;
use crate::text::{replace_char, without_char};

verus! {

/// The columns whose values, joined by a space, form the description.
pub open spec fn volksbank_description_columns() -> Seq<usize> {
    seq![6usize, 10usize]
}

/// A record of a Volksbank export: skipped when it has fewer than 13
/// columns, when its date is not three `.`-separated pieces, or when the
/// date (brought to `YYYY-MM-DD`) or the amount does not read; otherwise
/// classified by `rules` for `account`.
pub open spec fn volksbank_row(rules: Seq<RuleView>, account: Seq<char>, rec: Seq<Seq<char>>) -> Option<(bool, TransactionView)> {
    if rec.len() < 13 {
        None
    } else {
        let parts = split_on(trim(rec[4]), '.');
        if parts.len() != 3 {
            None
        } else {
            bank_candidate(
                rules,
                account,
                parts[2] + seq!['-'] + parts[1] + seq!['-'] + parts[0],
                description_of(rec, volksbank_description_columns()),
                amount_digits(trim(rec[11]), Some('.'), ',') + seq![' '] + trim(rec[12]),
            )
        }
    }
}

/// `volksbank_row` for these rules and account, as a function of the record.
pub open spec fn volksbank_rows(rules: Seq<RuleView>, account: Seq<char>) -> spec_fn(Seq<Seq<char>>) -> Option<(bool, TransactionView)> {
    |rec: Seq<Seq<char>>| volksbank_row(rules, account, rec)
}

/// A Volksbank row is read from its columns: the date from column 4
/// (`DD.MM.YYYY`, read as year, month, day), the description from columns 6
/// and 10, and the amount of the first posting, to `account`, from column 11
/// (`.` grouping thousands, `,` the decimal point) in the currency of column
/// 12; each text trimmed.
pub proof fn law_volksbank_row_columns(rules: Seq<RuleView>, account: Seq<char>, rec: Seq<Seq<char>>)
    ensures
        volksbank_row(rules, account, rec) matches Some(c) ==> {
            let parts = split_on(trim(rec[4]), '.');
            &&& rec.len() >= 13
            &&& parts.len() == 3
            &&& chrono_parse_date(parts[2] + seq!['-'] + parts[1] + seq!['-'] + parts[0], "%Y-%m-%d"@) matches Ok(d)
                && c.1.0 == (d.0 as int, d.1 as int, d.2 as int)
            &&& c.1.1 == description_of(rec, seq![6usize, 10usize])
            &&& commodity_value_parse(replace_char(without_char(trim(rec[11]), '.'), ',', '.') + seq![' '] + trim(rec[12])) matches Some(q)
                && c.1.2[0] == (account, Some((normalize(q.0.0, q.0.1), q.1)))
        },
{
}

/// Imports Volksbank exports into `account`, classifying the rows by `rules`.
#[derive(Debug)]
pub struct VolksbankParser {
    rules: Vec<RegexRule>,
    account: String,
}

impl View for VolksbankParser {
    /// The account and the rules.
    type V = (Seq<char>, Seq<RuleView>);

    closed spec fn view(&self) -> (Seq<char>, Seq<RuleView>) {
        (self.account@, rule_views(self.rules@))
    }
}

impl VolksbankParser {
    /// A parser posting to `account` and classifying with `rules` (empty:
    /// every row stays unclassified).
    pub fn new(account: String, rules: Vec<RegexRule>) -> (r: Self)
        ensures
            r@ == (account@, rule_views(rules@)),
    {
        VolksbankParser { rules, account }
    }

    /// One record read and classified (see `volksbank_row`).
    pub fn import_row(&self, rec: &Vec<String>) -> (r: Option<ImportCandidate<Transaction>>)
        ensures
            match volksbank_row(self@.1, self@.0, string_views(rec@)) {
                Some(c) => r matches Some(x) && x@ == c,
                None => r is None,
            },
    {
        let ghost rv = string_views(rec@);
        if rec.len() < 13 {
            return None;
        }
        assert(rv[4] == rec@[4]@ && rv[11] == rec@[11]@ && rv[12] == rec@[12]@);
        let parts = split_char(&trim_chars(&chars_of(rec[4].as_str())), '.');
        if parts.len() != 3 {
            return None;
        }
        assert(views(parts@)[0] == parts@[0]@ && views(parts@)[1] == parts@[1]@ && views(parts@)[2] == parts@[2]@);
        let mut date = string_from(&parts[2]);
        date.push('-');
        push_chars(&mut date, &parts[1]);
        date.push('-');
        push_chars(&mut date, &parts[0]);
        assert(date@ =~= parts@[2]@ + seq!['-'] + parts@[1]@ + seq!['-'] + parts@[0]@);
        let cols: Vec<usize> = vec![6, 10];
        assert(cols@ =~= volksbank_description_columns());
        let description = description_text(rec, &cols);
        let raw = trim_chars(&chars_of(rec[11].as_str()));
        let mut amount = string_from(&amount_digits_text(&raw, Some('.'), ','));
        amount.push(' ');
        push_chars(&mut amount, &trim_chars(&chars_of(rec[12].as_str())));
        assert(amount@ =~= amount_digits(trim(rv[11]), Some('.'), ',') + seq![' '] + trim(rv[12]));
        bank_candidate_of(&self.rules, self.account.as_str(), date.as_str(), description, amount.as_str())
    }
}

impl CSVImporter for VolksbankParser {
    /// Every record read and classified in order, skipped records left out.
    fn import_records(&self, records: &Vec<Vec<String>>) -> (r: Vec<ImportCandidate<Transaction>>)
        ensures
            candidate_views(r@) == rows_kept(volksbank_rows(self@.1, self@.0), record_views(records@), records@.len() as int),
    {
        let ghost recs = record_views(records@);
        let ghost f = volksbank_rows(self@.1, self@.0);
        let mut out: Vec<ImportCandidate<Transaction>> = Vec::new();
        let mut i: usize = 0;
        assert(candidate_views(out@) =~= Seq::<(bool, TransactionView)>::empty());
        while i < records.len()
            invariant
                i <= records.len(),
                recs == record_views(records@),
                f == volksbank_rows(self@.1, self@.0),
                candidate_views(out@) == rows_kept(f, recs, i as int),
            decreases records.len() - i,
        {
            assert(recs[i as int] == string_views(records@[i as int]@));
            let ghost old_out = out@;
            match self.import_row(&records[i]) {
                Some(c) => {
                    out.push(c);
                    assert(candidate_views(out@) =~= candidate_views(old_out).push(out@.last()@));
                },
                None => {},
            }
            i = i + 1;
        }
        out
    }

    /// The export's text read as `;`-separated with a header row (see `csv_parse`); records the CSV
    /// reader cannot read are skipped, the others are imported as
    /// `import_records` does.
    fn import_text(&self, text: &[u8]) -> (r: Vec<ImportCandidate<Transaction>>)
        ensures
            ({
                let results = csv_parse(text@, 59u8, true, false);
                let recs = readable_records(results, results.len() as int);
                candidate_views(r@) == rows_kept(volksbank_rows(self@.1, self@.0), recs, recs.len() as int)
            }),
    {
        let results = csv_records(text, 59u8, true, false);
        let records = readable_records_of(results);
        self.import_records(&records)
    }
}

} // verus!
