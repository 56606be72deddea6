//! A configurable importer of bank CSV exports: where the date, description,
//! amount and (optionally) commodity are, how dates and numbers are written,
//! and the rules that classify each row.

use vstd::prelude::*;
use crate::commodity_value::fixed_decimal::normalize;
use crate::date::{Date, chrono_parse_date};
use crate::error::RsledgerError;
use crate::journal::TransactionView;
use crate::journal::account::{Account, account_str, string_views};
use crate::text::{
    chars_of, int_str, join, join_from, push_chars, remove_char, replace_char, replace_chars,
    string_from, trim, trim_chars, u64_digits, views, without_char, digits, lemma_digits,
};
use crate::transaction::{Transaction, posting_views};
use crate::transaction::commodity_value::{CommodityValue, commodity_value_parse};
use crate::transaction::posting::{Posting, PostingView};
use super::ImportCandidate;
use super::csv_text::{csv_parse, csv_records, first_csv_error, records_before_error, records_until_error};
use super::rules::{RegexRule, RuleAction, RuleView, find_first_match, first_match, rule_views};

verus! {

/// The layout and classification settings of a CSV import, as the contracts
/// see them.
pub struct CsvLayoutView {
    /// The commodity of the amounts when no commodity column is given.
    pub currency: Seq<char>,
    pub rules: Seq<RuleView>,
    pub date_column: usize,
    /// The `strftime`-style format of the dates.
    pub date_format: Seq<char>,
    /// The columns whose values, joined by spaces, form the description.
    pub description_columns: Seq<usize>,
    pub amount_column: usize,
    pub commodity_column: Option<usize>,
    pub thousands_separator: Option<char>,
    pub decimal_separator: char,
}

/// The largest of `base` and the columns in `cols`.
pub open spec fn max_of(base: int, cols: Seq<usize>) -> int
    decreases cols.len(),
{
    if cols.len() == 0 {
        base
    } else {
        let m = max_of(base, cols.drop_last());
        if cols.last() > m { cols.last() as int } else { m }
    }
}

/// The largest column index that the layout reads.
pub open spec fn max_column(l: CsvLayoutView) -> int {
    let base = if l.date_column >= l.amount_column { l.date_column as int } else { l.amount_column as int };
    let m = max_of(base, l.description_columns);
    match l.commodity_column {
        Some(c) => if c > m { c as int } else { m },
        None => m,
    }
}

/// How many columns a row must have.
pub open spec fn min_columns(l: CsvLayoutView) -> int {
    max_column(l) + 1
}

/// The trimmed values of the first `n` description columns, empty ones left out.
pub open spec fn description_parts(rec: Seq<Seq<char>>, cols: Seq<usize>, n: int) -> Seq<Seq<char>>
    decreases n,
{
    if n <= 0 || n > cols.len() {
        Seq::empty()
    } else {
        let prev = description_parts(rec, cols, n - 1);
        let t = trim(rec[cols[n - 1] as int]);
        if t.len() == 0 { prev } else { prev.push(t) }
    }
}

/// The description of a row: its description columns, trimmed, the empty
/// ones left out, joined by single spaces.
pub open spec fn description_of(rec: Seq<Seq<char>>, cols: Seq<usize>) -> Seq<char> {
    join(description_parts(rec, cols, cols.len() as int), seq![' '])
}

/// An amount as written, with the thousands separator removed and the
/// decimal separator turned into `.`.
pub open spec fn amount_digits(raw: Seq<char>, ts: Option<char>, dec: char) -> Seq<char> {
    let a = match ts {
        Some(c) => without_char(raw, c),
        None => raw,
    };
    if dec != '.' { replace_char(a, dec, '.') } else { a }
}

/// The commodity of a row: its commodity column, trimmed, or the layout's currency.
pub open spec fn commodity_of(l: CsvLayoutView, rec: Seq<Seq<char>>) -> Seq<char> {
    match l.commodity_column {
        Some(c) => trim(rec[c as int]),
        None => l.currency,
    }
}

/// The amount text of a row, `"<amount> <commodity>"`.
pub open spec fn amount_text(l: CsvLayoutView, rec: Seq<Seq<char>>) -> Seq<char> {
    amount_digits(trim(rec[l.amount_column as int]), l.thousands_separator, l.decimal_separator)
        + seq![' '] + commodity_of(l, rec)
}

/// A row before classification: date, description, amount (scaled value and commodity).
pub type ProtoView = ((int, int, int), Seq<char>, ((int, nat), Seq<char>));

pub open spec fn columns_msg(have: int, need: int) -> Seq<char> {
    "Row has "@ + int_str(have) + " column(s) but the column configuration requires at least "@
        + int_str(need) + "."@
}

pub open spec fn date_msg(d: Seq<char>, fmt: Seq<char>) -> Seq<char> {
    "Could not parse date '"@ + d + "' with format '"@ + fmt + "'."@
}

pub open spec fn amount_msg(a: Seq<char>) -> Seq<char> {
    "Could not parse amount '"@ + a + "'."@
}

/// A row read: too few columns, a date that does not parse in the layout's
/// format, or an amount that does not parse are errors.
pub open spec fn row_proto(l: CsvLayoutView, rec: Seq<Seq<char>>) -> Result<ProtoView, Seq<char>> {
    if rec.len() < min_columns(l) {
        Err(columns_msg(rec.len() as int, min_columns(l)))
    } else {
        let dt = trim(rec[l.date_column as int]);
        match chrono_parse_date(dt, l.date_format) {
            Err(_) => Err(date_msg(dt, l.date_format)),
            Ok(d) => {
                let at = amount_text(l, rec);
                match commodity_value_parse(at) {
                    None => Err(amount_msg(at)),
                    Some(p) => Ok((
                        (d.0 as int, d.1 as int, d.2 as int),
                        description_of(rec, l.description_columns),
                        (normalize(p.0.0, p.0.1), p.1),
                    )),
                }
            },
        }
    }
}

/// The first `n` rows read, or the error of the first row that fails.
pub open spec fn rows_protos(l: CsvLayoutView, recs: Seq<Seq<Seq<char>>>, n: int) -> Result<Seq<ProtoView>, Seq<char>>
    decreases n,
{
    if n <= 0 || n > recs.len() {
        Ok(Seq::empty())
    } else {
        match rows_protos(l, recs, n - 1) {
            Err(m) => Err(m),
            Ok(prev) => match row_proto(l, recs[n - 1]) {
                Err(m) => Err(m),
                Ok(p) => Ok(prev.push(p)),
            },
        }
    }
}

/// A row classified by `rules`: the first rule matching the description
/// decides. An account rule gives a two-posting transaction, `account` with
/// the amount and the rule's account auto-balancing; a skip rule drops the
/// row; without a match the row stays unclassified with the single amount
/// posting.
pub open spec fn classify_by_rules(rules: Seq<RuleView>, account: Seq<char>, p: ProtoView) -> Option<(bool, TransactionView)> {
    match first_match(rules, p.1) {
        Some(k) => match rules[k].1 {
            Some(against) => Some((true, (p.0, p.1, seq![(account, Some(p.2)), (against, None::<((int, nat), Seq<char>)>)]))),
            None => None,
        },
        None => Some((false, (p.0, p.1, seq![(account, Some(p.2))]))),
    }
}

/// A row classified by the layout's rules (see `classify_by_rules`).
pub open spec fn classify_proto(l: CsvLayoutView, account: Seq<char>, p: ProtoView) -> Option<(bool, TransactionView)> {
    classify_by_rules(l.rules, account, p)
}

/// The classification of each row in turn, dropped rows left out.
pub open spec fn classify_all(l: CsvLayoutView, account: Seq<char>, ps: Seq<ProtoView>, n: int) -> Seq<(bool, TransactionView)>
    decreases n,
{
    if n <= 0 || n > ps.len() {
        Seq::empty()
    } else {
        let prev = classify_all(l, account, ps, n - 1);
        match classify_proto(l, account, ps[n - 1]) {
            Some(c) => prev.push(c),
            None => prev,
        }
    }
}

pub open spec fn record_views(recs: Seq<Vec<String>>) -> Seq<Seq<Seq<char>>> {
    recs.map_values(|r: Vec<String>| string_views(r@))
}

pub open spec fn candidate_views(cs: Seq<ImportCandidate<Transaction>>) -> Seq<(bool, TransactionView)> {
    cs.map_values(|c: ImportCandidate<Transaction>| c@)
}

/// The largest of `base` and the columns in `cols`.
pub fn max_of_columns(base: usize, cols: &Vec<usize>) -> (r: usize)
    ensures
        r as int == max_of(base as int, cols@),
{
    let mut m = base;
    let mut i: usize = 0;
    while i < cols.len()
        invariant
            i <= cols.len(),
            m as int == max_of(base as int, cols@.take(i as int)),
        decreases cols.len() - i,
    {
        assert(cols@.take(i + 1).drop_last() =~= cols@.take(i as int));
        if cols[i] > m {
            m = cols[i];
        }
        i = i + 1;
    }
    assert(cols@.take(i as int) =~= cols@);
    m
}

proof fn lemma_max_of_bounds(base: int, cols: Seq<usize>, k: int)
    requires
        0 <= k < cols.len(),
    ensures
        cols[k] <= max_of(base, cols),
        base <= max_of(base, cols),
    decreases cols.len(),
{
    if k < cols.len() - 1 {
        lemma_max_of_bounds(base, cols.drop_last(), k);
    } else if cols.len() > 1 {
        lemma_max_of_base(base, cols.drop_last());
    }
}

proof fn lemma_max_of_base(base: int, cols: Seq<usize>)
    ensures
        base <= max_of(base, cols),
    decreases cols.len(),
{
    if cols.len() > 0 {
        lemma_max_of_base(base, cols.drop_last());
    }
}

/// Every column the layout reads is below `min_columns`.
pub proof fn lemma_columns_below_min(l: CsvLayoutView)
    ensures
        l.date_column < min_columns(l),
        l.amount_column < min_columns(l),
        forall|i: int| 0 <= i < l.description_columns.len() ==> (#[trigger] l.description_columns[i]) < min_columns(l),
        l.commodity_column matches Some(c) ==> c < min_columns(l),
{
    let base = if l.date_column >= l.amount_column { l.date_column as int } else { l.amount_column as int };
    lemma_max_of_base(base, l.description_columns);
    assert forall|i: int| 0 <= i < l.description_columns.len() implies (#[trigger] l.description_columns[i]) < min_columns(l) by {
        lemma_max_of_bounds(base, l.description_columns, i);
    }
}

/// The description of a row (see `description_of`).
pub fn description_text(rec: &Vec<String>, cols: &Vec<usize>) -> (r: String)
    requires
        forall|i: int| 0 <= i < cols@.len() ==> (#[trigger] cols@[i]) < rec@.len(),
    ensures
        r@ == description_of(string_views(rec@), cols@),
{
    let ghost rv = string_views(rec@);
    let mut parts: Vec<Vec<char>> = Vec::new();
    let mut i: usize = 0;
    while i < cols.len()
        invariant
            i <= cols.len(),
            rv == string_views(rec@),
            forall|k: int| 0 <= k < cols@.len() ==> (#[trigger] cols@[k]) < rec@.len(),
            views(parts@) == description_parts(rv, cols@, i as int),
        decreases cols.len() - i,
    {
        let c = cols[i];
        assert(rv[c as int] == rec@[c as int]@);
        let t = trim_chars(&chars_of(rec[c].as_str()));
        if t.len() > 0 {
            let ghost old_parts = parts@;
            parts.push(t);
            assert(views(parts@) =~= views(old_parts).push(parts@.last()@));
        }
        i = i + 1;
    }
    let mut sep: Vec<char> = Vec::new();
    sep.push(' ');
    assert(sep@ =~= seq![' ']);
    let joined = join_from(&parts, 0, &sep);
    assert(views(parts@).skip(0) =~= views(parts@));
    string_from(&joined)
}

/// The amount digits (see `amount_digits`).
pub fn amount_digits_text(raw: &[char], ts: Option<char>, dec: char) -> (r: Vec<char>)
    ensures
        r@ == amount_digits(raw@, ts, dec),
{
    let a = match ts {
        Some(c) => remove_char(raw, c),
        None => crate::text::subvec(raw, 0, raw.len()),
    };
    if dec != '.' { replace_chars(&a, dec, '.') } else { a }
}

fn usize_text(n: usize) -> (r: String)
    ensures
        r@ == int_str(n as int),
{
    let d = u64_digits(n as u64);
    proof {
        lemma_digits(n as nat);
    }
    string_from(&d)
}

/// Reads one record in `layout` (see `row_proto`); the error is the message.
pub fn parse_row(layout: &CsvFields, rec: &Vec<String>) -> (r: Result<ProtoTransaction, String>)
    requires
        max_column(layout.view_layout()) < usize::MAX,
    ensures
        match row_proto(layout.view_layout(), string_views(rec@)) {
            Ok(p) => r matches Ok(x) && x@ == p,
            Err(m) => r matches Err(e) && e@ == m,
        },
{
    let ghost l = layout.view_layout();
    let ghost recv = string_views(rec@);
    let base = if layout.date_column >= layout.amount_column { layout.date_column } else { layout.amount_column };
    let m1 = max_of_columns(base, &layout.description_columns);
    let maxc = match layout.commodity_column {
        Some(c) => if c > m1 { c } else { m1 },
        None => m1,
    };
    let min_cols = maxc + 1;
    proof {
        lemma_columns_below_min(l);
    }
    if rec.len() < min_cols {
        let mut msg = "Row has ".to_owned();
        let a = usize_text(rec.len());
        msg.append(a.as_str());
        msg.append(" column(s) but the column configuration requires at least ");
        let b = usize_text(min_cols);
        msg.append(b.as_str());
        msg.append(".");
        assert(msg@ =~= columns_msg(rec@.len() as int, min_columns(l)));
        return Err(msg);
    }
    assert(recv[layout.date_column as int] == rec@[layout.date_column as int]@);
    let dt = string_from(&trim_chars(&chars_of(rec[layout.date_column].as_str())));
    let date = match Date::parse_from_str(dt.as_str(), layout.date_format.as_str()) {
        Ok(d) => d,
        Err(_) => {
            let mut msg = "Could not parse date '".to_owned();
            msg.append(dt.as_str());
            msg.append("' with format '");
            msg.append(layout.date_format.as_str());
            msg.append("'.");
            assert(msg@ =~= date_msg(dt@, l.date_format));
            return Err(msg);
        },
    };
    let description = description_text(rec, &layout.description_columns);
    assert(recv[layout.amount_column as int] == rec@[layout.amount_column as int]@);
    let raw = trim_chars(&chars_of(rec[layout.amount_column].as_str()));
    let mut at = amount_digits_text(&raw, layout.thousands_separator, layout.decimal_separator);
    at.push(' ');
    let commodity: Vec<char> = match layout.commodity_column {
        Some(c) => {
            assert(recv[c as int] == rec@[c as int]@);
            trim_chars(&chars_of(rec[c].as_str()))
        },
        None => chars_of(layout.currency.as_str()),
    };
    let at_all = crate::text::concat(&at, &commodity);
    assert(at_all@ =~= amount_text(l, recv));
    let at_text = string_from(&at_all);
    match CommodityValue::from_str(at_text.as_str()) {
        Ok(v) => Ok(ProtoTransaction { date, description, amount: v }),
        Err(_) => {
            let mut msg = "Could not parse amount '".to_owned();
            msg.append(at_text.as_str());
            msg.append("'.");
            assert(msg@ =~= amount_msg(at_text@));
            Err(msg)
        },
    }
}

/// Reads the rows of a CSV (its records, each a list of fields) in `layout`;
/// the first row that fails gives the error, reported against `source`.
pub fn read_layout_rows(layout: &CsvFields, records: &Vec<Vec<String>>, source: &str) -> (r: Result<Vec<ProtoTransaction>, RsledgerError>)
    requires
        max_column(layout.view_layout()) < usize::MAX,
    ensures
        match rows_protos(layout.view_layout(), record_views(records@), records@.len() as int) {
            Ok(ps) => r matches Ok(v) && proto_views(v@) == ps,
            Err(m) => r matches Err(RsledgerError::ParseError(item, why)) && item@ == source@ && why@ == m,
        },
{
    let ghost l = layout.view_layout();
    let ghost rv = record_views(records@);
    let mut rows: Vec<ProtoTransaction> = Vec::new();
    let mut i: usize = 0;
    assert(proto_views(rows@) =~= Seq::<ProtoView>::empty());
    while i < records.len()
        invariant
            i <= records.len(),
            l == layout.view_layout(),
            max_column(l) < usize::MAX,
            rv == record_views(records@),
            rows_protos(l, rv, i as int) == Ok::<Seq<ProtoView>, Seq<char>>(proto_views(rows@)),
        decreases records.len() - i,
    {
        assert(rv[i as int] == string_views(records@[i as int]@));
        match parse_row(layout, &records[i]) {
            Ok(p) => {
                let ghost old_rows = rows@;
                rows.push(p);
                assert(proto_views(rows@) =~= proto_views(old_rows).push(rows@.last()@));
            },
            Err(msg) => {
                proof {
                    lemma_rows_protos_err_stays(l, rv, i as int + 1, records@.len() as int);
                }
                return Err(RsledgerError::ParseError(source.to_owned(), msg));
            },
        }
        i = i + 1;
    }
    Ok(rows)
}

/// Once reading fails at some row, reading more rows fails the same way.
pub proof fn lemma_rows_protos_err_stays(l: CsvLayoutView, recs: Seq<Seq<Seq<char>>>, n: int, m: int)
    requires
        0 < n <= m <= recs.len(),
        rows_protos(l, recs, n) is Err,
    ensures
        rows_protos(l, recs, m) == rows_protos(l, recs, n),
    decreases m - n,
{
    if m > n {
        lemma_rows_protos_err_stays(l, recs, n, m - 1);
    }
}

/// Reading rows is all or nothing: when every one of the first `n` records
/// reads, the rows come back one per record, in record order; otherwise the
/// error is that of the first record that does not read.
pub proof fn law_rows_protos_first_error(l: CsvLayoutView, recs: Seq<Seq<Seq<char>>>, n: int)
    requires
        0 <= n <= recs.len(),
    ensures
        rows_protos(l, recs, n) matches Ok(ps) ==> {
            &&& ps.len() == n
            &&& forall|i: int| 0 <= i < n ==> #[trigger] row_proto(l, recs[i]) == Ok::<ProtoView, Seq<char>>(ps[i])
        },
        rows_protos(l, recs, n) matches Err(m) ==> exists|i: int|
            0 <= i < n && #[trigger] row_proto(l, recs[i]) == Err::<ProtoView, Seq<char>>(m)
                && forall|j: int| 0 <= j < i ==> (#[trigger] row_proto(l, recs[j])) is Ok,
        rows_protos(l, recs, n) is Ok <==> forall|i: int| 0 <= i < n ==> (#[trigger] row_proto(l, recs[i])) is Ok,
    decreases n,
{
    if n > 0 {
        law_rows_protos_first_error(l, recs, n - 1);
        match rows_protos(l, recs, n - 1) {
            Ok(prev) => {
                match row_proto(l, recs[n - 1]) {
                    Ok(p) => {
                        let ps = prev.push(p);
                        assert forall|i: int| 0 <= i < n implies #[trigger] row_proto(l, recs[i]) == Ok::<ProtoView, Seq<char>>(ps[i]) by {
                            if i < n - 1 {
                                assert(ps[i] == prev[i]);
                            }
                        }
                    },
                    Err(m) => {
                        assert forall|j: int| 0 <= j < n - 1 implies (#[trigger] row_proto(l, recs[j])) is Ok by {
                            assert(row_proto(l, recs[j]) == Ok::<ProtoView, Seq<char>>(prev[j]));
                        }
                        assert(row_proto(l, recs[n - 1]) == Err::<ProtoView, Seq<char>>(m));
                    },
                }
            },
            Err(m) => {
                let i = choose|i: int|
                    0 <= i < n - 1 && #[trigger] row_proto(l, recs[i]) == Err::<ProtoView, Seq<char>>(m)
                        && forall|j: int| 0 <= j < i ==> (#[trigger] row_proto(l, recs[j])) is Ok;
                assert(row_proto(l, recs[i]) is Err);
            },
        }
    }
}

/// Classifies a row (see `classify_proto`) for the account named `account`.
pub fn classify_with(layout: &CsvFields, account: &str, proto: ProtoTransaction) -> (r: Option<ImportCandidate<Transaction>>)
    ensures
        match classify_proto(layout.view_layout(), account@, proto@) {
            Some(c) => r matches Some(x) && x@ == c,
            None => r is None,
        },
{
    classify_by(&layout.rules, account, proto)
}

/// Classifies a row by `rules` (see `classify_by_rules`) for the account named `account`.
pub fn classify_by(rules: &Vec<RegexRule>, account: &str, proto: ProtoTransaction) -> (r: Option<ImportCandidate<Transaction>>)
    ensures
        match classify_by_rules(rule_views(rules@), account@, proto@) {
            Some(c) => r matches Some(x) && x@ == c,
            None => r is None,
        },
{
    let ghost rv = rule_views(rules@);
    let ProtoTransaction { date, description, amount } = proto;
    match find_first_match(rules, description.as_str()) {
        Some(k) => {
            assert(rv[k as int] == rules@[k as int]@);
            match &rules[k].action {
                RuleAction::AssignAccount(against) => {
                    let ps = vec![Posting::new(account.to_owned(), Some(amount)), Posting::new(against.clone(), None)];
                    let t = Transaction::new(date, description, ps);
                    assert(posting_views(ps@) =~= seq![ps@[0]@, ps@[1]@]);
                    Some(ImportCandidate::Classified(t))
                },
                RuleAction::Skip => None,
            }
        },
        None => {
            let ps = vec![Posting::new(account.to_owned(), Some(amount))];
            let t = Transaction::new(date, description, ps);
            assert(posting_views(ps@) =~= seq![ps@[0]@]);
            Some(ImportCandidate::Unclassified(t))
        },
    }
}

/// A CSV row parsed, before classification.
#[derive(Debug)]
pub struct ProtoTransaction {
    pub date: Date,
    pub description: String,
    pub amount: CommodityValue,
}

impl View for ProtoTransaction {
    type V = ProtoView;

    open spec fn view(&self) -> ProtoView {
        (self.date@, self.description@, self.amount@)
    }
}

pub open spec fn proto_views(v: Seq<ProtoTransaction>) -> Seq<ProtoView> {
    v.map_values(|p: ProtoTransaction| p@)
}

/// The CSV layout and rules shared by the configurable importers.
#[derive(Debug)]
pub struct CsvFields {
    pub currency: String,
    pub rules: Vec<RegexRule>,
    pub delimiter: char,
    pub has_headers: bool,
    pub date_column: usize,
    pub date_format: String,
    pub description_columns: Vec<usize>,
    pub amount_column: usize,
    pub commodity_column: Option<usize>,
    pub thousands_separator: Option<char>,
    pub decimal_separator: char,
}

impl CsvFields {
    /// The layout as the contracts see it.
    pub open spec fn view_layout(&self) -> CsvLayoutView {
        CsvLayoutView {
            currency: self.currency@,
            rules: rule_views(self.rules@),
            date_column: self.date_column,
            date_format: self.date_format@,
            description_columns: self.description_columns@,
            amount_column: self.amount_column,
            commodity_column: self.commodity_column,
            thousands_separator: self.thousands_separator,
            decimal_separator: self.decimal_separator,
        }
    }
}

/// A configurable importer for bank CSV exports without dedicated logic.
pub struct GenericImporter {
    account: Account,
    fields: CsvFields,
}

impl GenericImporter {
    /// An importer posting to `account`, reading the CSV as the other
    /// arguments describe and classifying its rows with `rules` (empty: every
    /// row stays unclassified).
    pub fn new(
        account: Account,
        currency: String,
        rules: Vec<RegexRule>,
        delimiter: char,
        has_headers: bool,
        date_column: usize,
        date_format: String,
        description_columns: Vec<usize>,
        amount_column: usize,
        commodity_column: Option<usize>,
        thousands_separator: Option<char>,
        decimal_separator: char,
    ) -> (r: Self)
        ensures
            r.account_view() == account_str(account@),
            r.layout() == (CsvLayoutView {
                currency: currency@,
                rules: rule_views(rules@),
                date_column,
                date_format: date_format@,
                description_columns: description_columns@,
                amount_column,
                commodity_column,
                thousands_separator,
                decimal_separator,
            }),
            r.delimiter_view() == delimiter,
            r.has_headers_view() == has_headers,
    {
        GenericImporter {
            account,
            fields: CsvFields {
                currency,
                rules,
                delimiter,
                has_headers,
                date_column,
                date_format,
                description_columns,
                amount_column,
                commodity_column,
                thousands_separator,
                decimal_separator,
            },
        }
    }

    /// The text of the account the amounts are posted to.
    pub closed spec fn account_view(&self) -> Seq<char> {
        account_str(self.account@)
    }

    pub closed spec fn layout(&self) -> CsvLayoutView {
        self.fields.view_layout()
    }

    pub closed spec fn delimiter_view(&self) -> char {
        self.fields.delimiter
    }

    pub closed spec fn has_headers_view(&self) -> bool {
        self.fields.has_headers
    }

    /// The field delimiter the CSV reader must use.
    pub fn delimiter(&self) -> (r: char)
        ensures
            r == self.delimiter_view(),
    {
        self.fields.delimiter
    }

    /// Whether the CSV reader must skip a header row.
    pub fn has_headers(&self) -> (r: bool)
        ensures
            r == self.has_headers_view(),
    {
        self.fields.has_headers
    }

    /// Reads every record into a row before classification; the first record
    /// that fails gives the error, reported against `source`.
    pub fn read_rows(&self, records: &Vec<Vec<String>>, source: &str) -> (r: Result<Vec<ProtoTransaction>, RsledgerError>)
        requires
            max_column(self.layout()) < usize::MAX,
        ensures
            match rows_protos(self.layout(), record_views(records@), records@.len() as int) {
                Ok(ps) => r matches Ok(v) && proto_views(v@) == ps,
                Err(m) => r matches Err(RsledgerError::ParseError(item, why)) && item@ == source@ && why@ == m,
            },
    {
        read_layout_rows(&self.fields, records, source)
    }

    /// Classifies one row: the first matching rule decides (see `classify_proto`).
    pub fn classify_row(&self, proto: ProtoTransaction) -> (r: Option<ImportCandidate<Transaction>>)
        ensures
            match classify_proto(self.layout(), self.account_view(), proto@) {
                Some(c) => r matches Some(x) && x@ == c,
                None => r is None,
            },
    {
        let account = self.account.to_string();
        classify_with(&self.fields, account.as_str(), proto)
    }

    /// Imports the records of a CSV: all rows are read first (the first
    /// failure is the answer), then each is classified, skipped rows left out.
    pub fn import_records(&self, records: &Vec<Vec<String>>, source: &str) -> (r: Result<Vec<ImportCandidate<Transaction>>, RsledgerError>)
        requires
            max_column(self.layout()) < usize::MAX,
        ensures
            match rows_protos(self.layout(), record_views(records@), records@.len() as int) {
                Ok(ps) => r matches Ok(v) && candidate_views(v@) == classify_all(self.layout(), self.account_view(), ps, ps.len() as int),
                Err(m) => r matches Err(RsledgerError::ParseError(item, why)) && item@ == source@ && why@ == m,
            },
    {
        let rows = match self.read_rows(records, source) {
            Ok(v) => v,
            Err(e) => return Err(e),
        };
        let ghost ps = proto_views(rows@);
        let account = self.account.to_string();
        let mut out: Vec<ImportCandidate<Transaction>> = Vec::new();
        let mut rest = rows;
        let mut i: usize = 0;
        let n = rest.len();
        while i < n
            invariant
                i <= n,
                n == ps.len(),
                proto_views(rest@) == ps.skip(i as int),
                candidate_views(out@) == classify_all(self.layout(), account@, ps, i as int),
                account@ == self.account_view(),
            decreases n - i,
        {
            assert(proto_views(rest@).len() == rest@.len());
            assert(proto_views(rest@)[0] == rest@[0]@);
            let p = rest.remove(0);
            assert(p@ == ps[i as int]);
            assert(ps.skip(i + 1) =~= ps.skip(i as int).drop_first());
            let ghost old_out = out@;
            match classify_with(&self.fields, account.as_str(), p) {
                Some(c) => {
                    out.push(c);
                    assert(candidate_views(out@) =~= candidate_views(old_out).push(out@.last()@));
                },
                None => {},
            }
            i = i + 1;
        }
        Ok(out)
    }

    /// Imports the text of a CSV export: it is read with the importer's
    /// delimiter and header flag (see `csv_parse`); the records are read into
    /// rows in order and the first that fails, whether the CSV reader cannot
    /// read it or its row does not read, gives the error, reported against
    /// `source`; then each row is classified, skipped rows left out.
    pub fn import_text(&self, text: &[u8], source: &str) -> (r: Result<Vec<ImportCandidate<Transaction>>, RsledgerError>)
        requires
            max_column(self.layout()) < usize::MAX,
        ensures
            ({
                let results = csv_parse(text@, self.delimiter_view() as u8, self.has_headers_view(), false);
                let recs = records_before_error(results);
                match rows_protos(self.layout(), recs, recs.len() as int) {
                    Err(m) => r matches Err(RsledgerError::ParseError(item, why)) && item@ == source@ && why@ == m,
                    Ok(ps) => match first_csv_error(results) {
                        Some(e) => r matches Err(RsledgerError::ParseError(item, why)) && item@ == source@
                            && why@ == "Failed to read CSV record: "@ + e,
                        None => r matches Ok(v) && candidate_views(v@) == classify_all(self.layout(), self.account_view(), ps, ps.len() as int),
                    },
                }
            }),
    {
        let results = csv_records(text, self.fields.delimiter as u8, self.fields.has_headers, false);
        let (records, failure) = records_until_error(results);
        match self.read_rows(&records, source) {
            Ok(_) => {},
            Err(e) => return Err(e),
        }
        match failure {
            Some(e) => {
                let mut why = "Failed to read CSV record: ".to_owned();
                why.append(e.as_str());
                Err(RsledgerError::ParseError(source.to_owned(), why))
            },
            None => self.import_records(&records, source),
        }
    }
}

} // verus!
