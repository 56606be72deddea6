//! The parser of SEB account exports: `;`-separated with one header row; the
//! date (`YYYY-MM-DD`) in the first column, the description in the fourth and
//! the amount in SEK (`.` as the decimal point) in the fifth.

use vstd::prelude::*;
use crate::csv_importer::ImportCandidate;
use crate::csv_importer::csv_text::{csv_parse, csv_records, readable_records, readable_records_of};
use crate::csv_importer::generic_importer::{candidate_views, record_views};
use crate::csv_importer::rules::{RegexRule, RuleView, rule_views};
use crate::journal::TransactionView;
use crate::journal::account::string_views;
use crate::text::{chars_of, string_from, trim, trim_chars};
use crate::transaction::Transaction;
use super::{CSVImporter, bank_candidate, bank_candidate_of, rows_kept};
use crate::commodity_value::fixed_decimal::normalize;
use crate::date::chrono_parse_date;
use crate::transaction::commodity_value::commodity_value_parse;

verus! {

/// A record of an SEB export: skipped when it has fewer than five columns or
/// its date or amount does not read; otherwise classified by `rules` for
/// `account`.
pub open spec fn seb_row(rules: Seq<RuleView>, account: Seq<char>, rec: Seq<Seq<char>>) -> Option<(bool, TransactionView)> {
    if rec.len() < 5 {
        None
    } else {
        bank_candidate(rules, account, trim(rec[0]), trim(rec[3]), trim(rec[4]) + " SEK"@)
    }
}

/// `seb_row` for these rules and account, as a function of the record.
pub open spec fn seb_rows(rules: Seq<RuleView>, account: Seq<char>) -> spec_fn(Seq<Seq<char>>) -> Option<(bool, TransactionView)> {
    |rec: Seq<Seq<char>>| seb_row(rules, account, rec)
}

/// An SEB row is read from its columns: the date from column 0
/// (`YYYY-MM-DD`), the description from column 3 and the amount of the first
/// posting, to `account`, from column 4 in SEK; each text trimmed.
pub proof fn law_seb_row_columns(rules: Seq<RuleView>, account: Seq<char>, rec: Seq<Seq<char>>)
    ensures
        seb_row(rules, account, rec) matches Some(c) ==> {
            &&& rec.len() >= 5
            &&& chrono_parse_date(trim(rec[0]), "%Y-%m-%d"@) matches Ok(d) && c.1.0 == (d.0 as int, d.1 as int, d.2 as int)
            &&& c.1.1 == trim(rec[3])
            &&& commodity_value_parse(trim(rec[4]) + " SEK"@) matches Some(q)
                && c.1.2[0] == (account, Some((normalize(q.0.0, q.0.1), q.1)))
        },
{
}

/// Imports SEB exports into `account`, classifying the rows by `rules`.
#[derive(Debug)]
pub struct SebParser {
    rules: Vec<RegexRule>,
    account: String,
}

impl View for SebParser {
    /// The account and the rules.
    type V = (Seq<char>, Seq<RuleView>);

    closed spec fn view(&self) -> (Seq<char>, Seq<RuleView>) {
        (self.account@, rule_views(self.rules@))
    }
}

impl SebParser {
    /// A parser posting to `account` and classifying with `rules` (empty:
    /// every row stays unclassified).
    pub fn new(account: String, rules: Vec<RegexRule>) -> (r: Self)
        ensures
            r@ == (account@, rule_views(rules@)),
    {
        SebParser { rules, account }
    }

    /// One record read and classified (see `seb_row`).
    pub fn import_row(&self, rec: &Vec<String>) -> (r: Option<ImportCandidate<Transaction>>)
        ensures
            match seb_row(self@.1, self@.0, string_views(rec@)) {
                Some(c) => r matches Some(x) && x@ == c,
                None => r is None,
            },
    {
        let ghost rv = string_views(rec@);
        if rec.len() < 5 {
            return None;
        }
        assert(rv[0] == rec@[0]@ && rv[3] == rec@[3]@ && rv[4] == rec@[4]@);
        let date = string_from(&trim_chars(&chars_of(rec[0].as_str())));
        let description = string_from(&trim_chars(&chars_of(rec[3].as_str())));
        let mut amount = string_from(&trim_chars(&chars_of(rec[4].as_str())));
        amount.append(" SEK");
        bank_candidate_of(&self.rules, self.account.as_str(), date.as_str(), description, amount.as_str())
    }
}

impl CSVImporter for SebParser {
    /// Every record read and classified in order, skipped records left out.
    fn import_records(&self, records: &Vec<Vec<String>>) -> (r: Vec<ImportCandidate<Transaction>>)
        ensures
            candidate_views(r@) == rows_kept(seb_rows(self@.1, self@.0), record_views(records@), records@.len() as int),
    {
        let ghost recs = record_views(records@);
        let ghost f = seb_rows(self@.1, self@.0);
        let mut out: Vec<ImportCandidate<Transaction>> = Vec::new();
        let mut i: usize = 0;
        assert(candidate_views(out@) =~= Seq::<(bool, TransactionView)>::empty());
        while i < records.len()
            invariant
                i <= records.len(),
                recs == record_views(records@),
                f == seb_rows(self@.1, self@.0),
                candidate_views(out@) == rows_kept(f, recs, i as int),
            decreases records.len() - i,
        {
            assert(recs[i as int] == string_views(records@[i as int]@));
            let ghost old_out = out@;
            match self.import_row(&records[i]) {
                Some(c) => {
                    out.push(c);
                    assert(candidate_views(out@) =~= candidate_views(old_out).push(out@.last()@));
                },
                None => {},
            }
            i = i + 1;
        }
        out
    }

    /// The export's text read as `;`-separated with a header row (see `csv_parse`); records the CSV
    /// reader cannot read are skipped, the others are imported as
    /// `import_records` does.
    fn import_text(&self, text: &[u8]) -> (r: Vec<ImportCandidate<Transaction>>)
        ensures
            ({
                let results = csv_parse(text@, 59u8, true, false);
                let recs = readable_records(results, results.len() as int);
                candidate_views(r@) == rows_kept(seb_rows(self@.1, self@.0), recs, recs.len() as int)
            }),
    {
        let results = csv_records(text, 59u8, true, false);
        let records = readable_records_of(results);
        self.import_records(&records)
    }
}

} // verus!
