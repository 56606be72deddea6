//! The importer for bank CSV exports without dedicated logic: where the
//! fields are and how they are written is configured, and rows are classified
//! by rules. Rows that cannot be read are skipped.

use vstd::prelude::*;
use crate::csv_importer::ImportCandidate;
use crate::csv_importer::csv_text::{csv_parse, csv_records, readable_records, readable_records_of};
use crate::csv_importer::generic_importer::{
    CsvFields, CsvLayoutView, classify_proto, classify_with, max_column, parse_row, record_views,
    row_proto, candidate_views,
};
use crate::csv_importer::rules::{RegexRule, rule_views};
use crate::journal::TransactionView;
use crate::journal::account::string_views;
use crate::transaction::Transaction;

verus! {

/// What a row becomes: nothing when it cannot be read (too few columns, a
/// bad date or amount) or a skip rule matches it, else its classification.
pub open spec fn default_row(l: CsvLayoutView, account: Seq<char>, rec: Seq<Seq<char>>) -> Option<(bool, TransactionView)> {
    match row_proto(l, rec) {
        Ok(p) => classify_proto(l, account, p),
        Err(_) => None,
    }
}

/// The candidates of the first `n` records, in order.
pub open spec fn default_rows(l: CsvLayoutView, account: Seq<char>, recs: Seq<Seq<Seq<char>>>, n: int) -> Seq<(bool, TransactionView)>
    decreases n,
{
    if n <= 0 || n > recs.len() {
        Seq::empty()
    } else {
        let prev = default_rows(l, account, recs, n - 1);
        match default_row(l, account, recs[n - 1]) {
            Some(c) => prev.push(c),
            None => prev,
        }
    }
}

/// The candidates of the first `n` records depend on those records alone.
proof fn lemma_default_rows_prefix(
    l: CsvLayoutView,
    account: Seq<char>,
    s: Seq<Seq<Seq<char>>>,
    t: Seq<Seq<Seq<char>>>,
    n: int,
)
    requires
        0 <= n <= s.len(),
        n <= t.len(),
        forall|i: int| 0 <= i < n ==> s[i] == t[i],
    ensures
        default_rows(l, account, s, n) == default_rows(l, account, t, n),
    decreases n,
{
    if n > 0 {
        lemma_default_rows_prefix(l, account, s, t, n - 1);
        assert(s[n - 1] == t[n - 1]);
    }
}

/// Importing two runs of records one after the other gives the candidates of
/// the first run followed by those of the second: every row keeps its place,
/// and what a row becomes depends on that row alone.
pub proof fn law_default_rows_concat(
    l: CsvLayoutView,
    account: Seq<char>,
    r1: Seq<Seq<Seq<char>>>,
    r2: Seq<Seq<Seq<char>>>,
)
    ensures
        default_rows(l, account, r1 + r2, (r1 + r2).len() as int)
            == default_rows(l, account, r1, r1.len() as int) + default_rows(l, account, r2, r2.len() as int),
    decreases r2.len(),
{
    let all = r1 + r2;
    if r2.len() == 0 {
        assert(all =~= r1);
        assert(default_rows(l, account, r2, 0) =~= Seq::<(bool, TransactionView)>::empty());
        assert(default_rows(l, account, r1, r1.len() as int) + Seq::<(bool, TransactionView)>::empty()
            =~= default_rows(l, account, r1, r1.len() as int));
    } else {
        let r2p = r2.drop_last();
        let n = all.len() as int;
        law_default_rows_concat(l, account, r1, r2p);
        lemma_default_rows_prefix(l, account, all, r1 + r2p, n - 1);
        lemma_default_rows_prefix(l, account, r2, r2p, r2.len() - 1);
        assert(all[n - 1] == r2[r2.len() - 1]);
        let a = default_rows(l, account, r1, r1.len() as int);
        let b = default_rows(l, account, r2p, r2p.len() as int);
        match default_row(l, account, r2[r2.len() - 1]) {
            Some(c) => {
                assert((a + b).push(c) =~= a + b.push(c));
            },
            None => {},
        }
    }
}

/// A configurable CSV importer posting every row to one account.
pub struct DefaultParser {
    account: String,
    fields: CsvFields,
}

impl DefaultParser {
    /// A parser posting to `account`, reading the CSV as the other arguments
    /// describe and classifying rows with `rules`.
    pub fn new(
        account: String,
        currency: String,
        rules: Vec<RegexRule>,
        delimiter: char,
        has_headers: bool,
        date_column: usize,
        date_format: String,
        description_column: Vec<usize>,
        amount_column: usize,
        commodity_column: Option<usize>,
        thousands_separator: Option<char>,
        decimal_separator: char,
    ) -> (r: DefaultParser)
        ensures
            r.account_view() == account@,
            r.layout() == (CsvLayoutView {
                currency: currency@,
                rules: rule_views(rules@),
                date_column,
                date_format: date_format@,
                description_columns: description_column@,
                amount_column,
                commodity_column,
                thousands_separator,
                decimal_separator,
            }),
            r.delimiter_view() == delimiter,
            r.has_headers_view() == has_headers,
    {
        DefaultParser {
            account,
            fields: CsvFields {
                currency,
                rules,
                delimiter,
                has_headers,
                date_column,
                date_format,
                description_columns: description_column,
                amount_column,
                commodity_column,
                thousands_separator,
                decimal_separator,
            },
        }
    }

    pub closed spec fn account_view(&self) -> Seq<char> {
        self.account@
    }

    pub closed spec fn layout(&self) -> CsvLayoutView {
        self.fields.view_layout()
    }

    pub closed spec fn delimiter_view(&self) -> char {
        self.fields.delimiter
    }

    pub closed spec fn has_headers_view(&self) -> bool {
        self.fields.has_headers
    }

    /// The field delimiter the CSV reader must use.
    pub fn delimiter(&self) -> (r: char)
        ensures
            r == self.delimiter_view(),
    {
        self.fields.delimiter
    }

    /// Whether the CSV reader must skip a header row.
    pub fn has_headers(&self) -> (r: bool)
        ensures
            r == self.has_headers_view(),
    {
        self.fields.has_headers
    }

    /// Turns the records of a CSV into import candidates, one per readable
    /// row that no skip rule drops (see `default_row`).
    pub fn import_records(&self, records: &Vec<Vec<String>>) -> (r: Vec<ImportCandidate<Transaction>>)
        requires
            max_column(self.layout()) < usize::MAX,
        ensures
            candidate_views(r@) == default_rows(self.layout(), self.account_view(), record_views(records@), records@.len() as int),
    {
        let ghost l = self.layout();
        let ghost rv = record_views(records@);
        let mut out: Vec<ImportCandidate<Transaction>> = Vec::new();
        let mut i: usize = 0;
        assert(candidate_views(out@) =~= Seq::<(bool, TransactionView)>::empty());
        while i < records.len()
            invariant
                i <= records.len(),
                l == self.layout(),
                max_column(l) < usize::MAX,
                rv == record_views(records@),
                candidate_views(out@) == default_rows(l, self.account_view(), rv, i as int),
            decreases records.len() - i,
        {
            assert(rv[i as int] == string_views(records@[i as int]@));
            let ghost old_out = out@;
            match parse_row(&self.fields, &records[i]) {
                Ok(p) => {
                    match classify_with(&self.fields, self.account.as_str(), p) {
                        Some(c) => {
                            out.push(c);
                            assert(candidate_views(out@) =~= candidate_views(old_out).push(out@.last()@));
                        },
                        None => {},
                    }
                },
                Err(_) => {},
            }
            i = i + 1;
        }
        out
    }

    /// Imports the text of a CSV export, read with the parser's delimiter and
    /// header flag (see `csv_parse`): records the CSV reader cannot read are
    /// skipped, the others are imported as `import_records` does.
    pub fn import_text(&self, text: &[u8]) -> (r: Vec<ImportCandidate<Transaction>>)
        requires
            max_column(self.layout()) < usize::MAX,
        ensures
            ({
                let results = csv_parse(text@, self.delimiter_view() as u8, self.has_headers_view(), false);
                let recs = readable_records(results, results.len() as int);
                candidate_views(r@) == default_rows(self.layout(), self.account_view(), recs, recs.len() as int)
            }),
    {
        let results = csv_records(text, self.fields.delimiter as u8, self.fields.has_headers, false);
        let records = readable_records_of(results);
        self.import_records(&records)
    }
}

} // verus!
