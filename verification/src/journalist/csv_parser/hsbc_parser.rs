//! The parser of HSBC account exports: `,`-separated without a header row,
//! exactly three columns: the date (`DD/MM/YYYY`), the description and the
//! amount in GBP (`.` as the decimal point, possibly with `,` between
//! thousands).

use vstd::prelude::*;
use crate::csv_importer::ImportCandidate;
use crate::csv_importer::csv_text::{csv_parse, csv_records, readable_records, readable_records_of};
use crate::csv_importer::generic_importer::{candidate_views, record_views};
use crate::csv_importer::rules::{RegexRule, RuleView, regex_is_match, regex_match, rule_views};
use crate::journal::TransactionView;
use crate::journal::account::string_views;
use crate::text::{chars_of, push_chars, remove_char, split_char, split_on, string_from, trim, trim_chars, views, without_char};
use crate::transaction::Transaction;
use super::{CSVImporter, bank_candidate, bank_candidate_of, rows_kept};
use crate::commodity_value::fixed_decimal::normalize;
use crate::date::chrono_parse_date;
use crate::transaction::commodity_value::commodity_value_parse;

verus! {

/// The regular expression a date must match: `DD/MM/YYYY` in digits.
pub open spec fn hsbc_date_pattern() -> Seq<char> {
    "^\\d{2}/\\d{2}/\\d{4}$"@
}

/// A record of an HSBC export: skipped unless it has exactly three columns
/// and a date matching `hsbc_date_pattern` made of three `/`-separated pieces
/// (which such a date is); skipped too when the date (brought to
/// `YYYY-MM-DD`) or the amount does not read; otherwise classified by `rules`
/// for `account`.
pub open spec fn hsbc_row(rules: Seq<RuleView>, account: Seq<char>, rec: Seq<Seq<char>>) -> Option<(bool, TransactionView)> {
    if rec.len() != 3 {
        None
    } else {
        let d = trim(rec[0]);
        let parts = split_on(d, '/');
        if regex_match(hsbc_date_pattern(), d) != Some(true) || parts.len() != 3 {
            None
        } else {
            bank_candidate(
                rules,
                account,
                parts[2] + seq!['-'] + parts[1] + seq!['-'] + parts[0],
                trim(rec[1]),
                without_char(trim(rec[2]), ',') + " GBP"@,
            )
        }
    }
}

/// `hsbc_row` for these rules and account, as a function of the record.
pub open spec fn hsbc_rows(rules: Seq<RuleView>, account: Seq<char>) -> spec_fn(Seq<Seq<char>>) -> Option<(bool, TransactionView)> {
    |rec: Seq<Seq<char>>| hsbc_row(rules, account, rec)
}

/// An HSBC row is read from its columns: the date from column 0
/// (`DD/MM/YYYY`, read as year, month, day), the description from column 1
/// and the amount of the first posting, to `account`, from column 2 (`,`
/// grouping thousands) in GBP; each text trimmed.
pub proof fn law_hsbc_row_columns(rules: Seq<RuleView>, account: Seq<char>, rec: Seq<Seq<char>>)
    ensures
        hsbc_row(rules, account, rec) matches Some(c) ==> {
            let parts = split_on(trim(rec[0]), '/');
            &&& rec.len() == 3
            &&& parts.len() == 3
            &&& chrono_parse_date(parts[2] + seq!['-'] + parts[1] + seq!['-'] + parts[0], "%Y-%m-%d"@) matches Ok(d)
                && c.1.0 == (d.0 as int, d.1 as int, d.2 as int)
            &&& c.1.1 == trim(rec[1])
            &&& commodity_value_parse(without_char(trim(rec[2]), ',') + " GBP"@) matches Some(q)
                && c.1.2[0] == (account, Some((normalize(q.0.0, q.0.1), q.1)))
        },
{
}

/// Imports HSBC exports into `account`, classifying the rows by `rules`.
#[derive(Debug)]
pub struct HSBCParser {
    rules: Vec<RegexRule>,
    account: String,
}

impl View for HSBCParser {
    /// The account and the rules.
    type V = (Seq<char>, Seq<RuleView>);

    closed spec fn view(&self) -> (Seq<char>, Seq<RuleView>) {
        (self.account@, rule_views(self.rules@))
    }
}

impl HSBCParser {
    /// A parser posting to `account` and classifying with `rules` (empty:
    /// every row stays unclassified).
    pub fn new(account: String, rules: Vec<RegexRule>) -> (r: Self)
        ensures
            r@ == (account@, rule_views(rules@)),
    {
        HSBCParser { rules, account }
    }

    /// One record read and classified (see `hsbc_row`).
    pub fn import_row(&self, rec: &Vec<String>) -> (r: Option<ImportCandidate<Transaction>>)
        ensures
            match hsbc_row(self@.1, self@.0, string_views(rec@)) {
                Some(c) => r matches Some(x) && x@ == c,
                None => r is None,
            },
    {
        let ghost rv = string_views(rec@);
        if rec.len() != 3 {
            return None;
        }
        assert(rv[0] == rec@[0]@ && rv[1] == rec@[1]@ && rv[2] == rec@[2]@);
        let d = trim_chars(&chars_of(rec[0].as_str()));
        let d_text = string_from(&d);
        let pattern = "^\\d{2}/\\d{2}/\\d{4}$";
        assert(pattern@ == hsbc_date_pattern());
        match regex_is_match(pattern, d_text.as_str()) {
            Some(true) => {},
            _ => return None,
        }
        let parts = split_char(&d, '/');
        if parts.len() != 3 {
            return None;
        }
        assert(views(parts@)[0] == parts@[0]@ && views(parts@)[1] == parts@[1]@ && views(parts@)[2] == parts@[2]@);
        let mut date = string_from(&parts[2]);
        date.push('-');
        push_chars(&mut date, &parts[1]);
        date.push('-');
        push_chars(&mut date, &parts[0]);
        assert(date@ =~= parts@[2]@ + seq!['-'] + parts@[1]@ + seq!['-'] + parts@[0]@);
        let description = string_from(&trim_chars(&chars_of(rec[1].as_str())));
        let mut amount = string_from(&remove_char(&trim_chars(&chars_of(rec[2].as_str())), ','));
        amount.append(" GBP");
        assert(amount@ =~= without_char(trim(rv[2]), ',') + " GBP"@);
        bank_candidate_of(&self.rules, self.account.as_str(), date.as_str(), description, amount.as_str())
    }
}

impl CSVImporter for HSBCParser {
    /// Every record read and classified in order, skipped records left out.
    fn import_records(&self, records: &Vec<Vec<String>>) -> (r: Vec<ImportCandidate<Transaction>>)
        ensures
            candidate_views(r@) == rows_kept(hsbc_rows(self@.1, self@.0), record_views(records@), records@.len() as int),
    {
        let ghost recs = record_views(records@);
        let ghost f = hsbc_rows(self@.1, self@.0);
        let mut out: Vec<ImportCandidate<Transaction>> = Vec::new();
        let mut i: usize = 0;
        assert(candidate_views(out@) =~= Seq::<(bool, TransactionView)>::empty());
        while i < records.len()
            invariant
                i <= records.len(),
                recs == record_views(records@),
                f == hsbc_rows(self@.1, self@.0),
                candidate_views(out@) == rows_kept(f, recs, i as int),
            decreases records.len() - i,
        {
            assert(recs[i as int] == string_views(records@[i as int]@));
            let ghost old_out = out@;
            match self.import_row(&records[i]) {
                Some(c) => {
                    out.push(c);
                    assert(candidate_views(out@) =~= candidate_views(old_out).push(out@.last()@));
                },
                None => {},
            }
            i = i + 1;
        }
        out
    }

    /// The export's text read as `,`-separated without a header row (see `csv_parse`); records the CSV
    /// reader cannot read are skipped, the others are imported as
    /// `import_records` does.
    fn import_text(&self, text: &[u8]) -> (r: Vec<ImportCandidate<Transaction>>)
        ensures
            ({
                let results = csv_parse(text@, 44u8, false, false);
                let recs = readable_records(results, results.len() as int);
                candidate_views(r@) == rows_kept(hsbc_rows(self@.1, self@.0), recs, recs.len() as int)
            }),
    {
        let results = csv_records(text, 44u8, false, false);
        let records = readable_records_of(results);
        self.import_records(&records)
    }
}

} // verus!
