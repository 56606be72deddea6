//! The importer of Avanza transaction exports. Every supported kind of
//! transaction maps to a fixed set of postings, so all rows come out
//! classified; an unknown kind is an error.

use vstd::prelude::*;
use super::csv_text::{csv_parse, csv_records, first_csv_error, records_before_error, records_until_error};
use crate::commodity_value::fixed_decimal::normalize;
use crate::date::{Date, chrono_parse_date};
use crate::error::RsledgerError;
use crate::journal::TransactionView;
use crate::journal::account::string_views;
use crate::journal::transaction::posting::amount_error;
use crate::text::{chars_of, concat, int_str, replace_char, replace_chars, str_eq, string_from, trim, trim_chars};
use crate::transaction::{Transaction, posting_views};
use crate::transaction::commodity_value::{CommodityValue, commodity_value_parse};
use crate::transaction::posting::{Posting, PostingView};
use super::ImportCandidate;
use super::generic_importer::{candidate_views, record_views};

verus! {

/// The scaled value and commodity of a commodity-value text, as
/// `CommodityValue::from_str` reads it.
pub open spec fn cv_view(t: Seq<char>) -> Option<((int, nat), Seq<char>)> {
    match commodity_value_parse(t) {
        Some(p) => Some((normalize(p.0.0, p.0.1), p.1)),
        None => None,
    }
}

/// The values of the first `n` texts, or the first text that does not parse.
pub open spec fn parse_amounts(texts: Seq<Seq<char>>, n: int) -> Result<Seq<((int, nat), Seq<char>)>, Seq<char>>
    decreases n,
{
    if n <= 0 || n > texts.len() {
        Ok(Seq::empty())
    } else {
        match parse_amounts(texts, n - 1) {
            Err(t) => Err(t),
            Ok(prev) => match cv_view(texts[n - 1]) {
                Some(v) => Ok(prev.push(v)),
                None => Err(texts[n - 1]),
            },
        }
    }
}

/// The kind of an Avanza transaction type: 0 deposit or withdrawal, 1 buy,
/// 2 sell, 3 dividend, 4 foreign withholding tax, 5 lending interest, -1 unknown.
pub open spec fn action_kind(a: Seq<char>) -> int {
    if a == "Insättning"@ || a == "Uttag"@ {
        0
    } else if a == "Köp"@ {
        1
    } else if a == "Sälj"@ {
        2
    } else if a == "Utdelning"@ {
        3
    } else if a == "Utländsk källskatt"@ {
        4
    } else if a == "Utlåningsränta"@ {
        5
    } else {
        -1
    }
}

/// The account that balances a two-posting kind.
pub open spec fn counter_account(kind: int) -> Seq<char> {
    if kind == 0 {
        "expenses:bank:internal-transfers"@
    } else if kind == 3 {
        "income:dividends"@
    } else if kind == 4 {
        "expenses:taxes:withholding"@
    } else {
        "expenses:bank:avanza:interest"@
    }
}

/// The fields of a row that the postings are made of (amounts already with
/// `.` as the decimal separator and a blank fee as `0.00`).
pub struct AvanzaFields {
    pub action: Seq<char>,
    pub name: Seq<char>,
    pub quantity: Seq<char>,
    pub cash_amount: Seq<char>,
    pub currency: Seq<char>,
    pub fee: Seq<char>,
    pub profit: Seq<char>,
}

/// The amount texts a kind needs, in the order they are read: the security
/// quantity (`"<quantity> <name>"`), the cash (`"<amount> <currency>"`), the
/// fee and the profit (both in SEK); the two-posting kinds need the cash alone.
pub open spec fn amount_texts(f: AvanzaFields) -> Seq<Seq<char>> {
    let cash = f.cash_amount + seq![' '] + f.currency;
    let kind = action_kind(f.action);
    if kind == 1 {
        seq![f.quantity + seq![' '] + f.name, cash, f.fee + seq![' '] + "SEK"@]
    } else if kind == 2 {
        seq![f.quantity + seq![' '] + f.name, cash, f.fee + seq![' '] + "SEK"@, f.profit + seq![' '] + "SEK"@]
    } else {
        seq![cash]
    }
}

/// The postings of a row of a known kind, given the parsed amounts. A sell
/// posts the negated profit to `equity:capital-gains`.
pub open spec fn avanza_postings(kind: int, v: Seq<((int, nat), Seq<char>)>) -> Seq<PostingView> {
    if kind == 1 {
        seq![
            ("assets:bank:avanza"@, Some(v[0])),
            ("assets:bank:avanza"@, Some(v[1])),
            ("expenses:bank:avanza"@, Some(v[2])),
        ]
    } else if kind == 2 {
        seq![
            ("assets:bank:avanza"@, Some(v[0])),
            ("assets:bank:avanza"@, Some(v[1])),
            ("expenses:bank:avanza"@, Some(v[2])),
            ("equity:capital-gains"@, Some(((-v[3].0.0, v[3].0.1), v[3].1))),
        ]
    } else {
        seq![("assets:bank:avanza"@, Some(v[0])), (counter_account(kind), None::<((int, nat), Seq<char>)>)]
    }
}

/// A sell whose amounts all parse has a profit other than `i64::MIN`, whose
/// negation would overflow.
pub open spec fn negation_ok(f: AvanzaFields) -> bool {
    action_kind(f.action) == 2 ==> match parse_amounts(amount_texts(f), 4) {
        Ok(v) => v[3].0.0 != i64::MIN as int,
        Err(_) => true,
    }
}

/// The columns of the Avanza export.
pub open spec fn avanza_min_columns() -> int {
    13
}

/// A decimal text with `,` as the separator turned into `.`.
pub open spec fn dotted(t: Seq<char>) -> Seq<char> {
    replace_char(t, ',', '.')
}

/// The fields of a record (each trimmed; a blank fee counts as `0.00`).
pub open spec fn record_fields(rec: Seq<Seq<char>>) -> AvanzaFields {
    let fee = dotted(trim(rec[8]));
    AvanzaFields {
        action: trim(rec[2]),
        name: trim(rec[3]),
        quantity: dotted(trim(rec[4])),
        cash_amount: dotted(trim(rec[6])),
        currency: trim(rec[7]),
        fee: if fee.len() == 0 { "0.00"@ } else { fee },
        profit: dotted(trim(rec[12])),
    }
}

/// A row of the export: its date and fields.
pub type AvanzaRowView = ((int, int, int), AvanzaFields);

pub open spec fn avanza_row(rec: Seq<Seq<char>>) -> Result<AvanzaRowView, Seq<char>> {
    if rec.len() < avanza_min_columns() {
        Err("Row has "@ + int_str(rec.len() as int) + " column(s) but 13 are required."@)
    } else {
        let dt = trim(rec[0]);
        match chrono_parse_date(dt, "%Y-%m-%d"@) {
            Err(_) => Err("Could not parse date '"@ + dt + "'. Expected format YYYY-MM-DD."@),
            Ok(d) => Ok(((d.0 as int, d.1 as int, d.2 as int), record_fields(rec))),
        }
    }
}

/// Amounts that all parse are the values of their texts, in order.
pub proof fn lemma_parsed_amounts(texts: Seq<Seq<char>>, n: int)
    requires
        0 <= n <= texts.len(),
    ensures
        parse_amounts(texts, n) matches Ok(v) ==> {
            &&& v.len() == n
            &&& forall|i: int| 0 <= i < n ==> cv_view(#[trigger] texts[i]) == Some(v[i])
        },
    decreases n,
{
    if n > 0 {
        lemma_parsed_amounts(texts, n - 1);
        if let Ok(v) = parse_amounts(texts, n) {
            let prev = parse_amounts(texts, n - 1)->Ok_0;
            assert forall|i: int| 0 <= i < n implies cv_view(#[trigger] texts[i]) == Some(v[i]) by {
                if i < n - 1 {
                    assert(v[i] == prev[i]);
                }
            }
        }
    }
}

/// What a record of the export becomes, column by column (each trimmed,
/// decimal commas read as points): the date is column 0, the description
/// column 2 (the kind) and column 3 (the security). A buy or a sell moves the
/// number of shares of column 4 (in the security named in column 3) and the
/// cash amount of column 6 (in the currency of column 7) through
/// `assets:bank:avanza`, and pays the fee of column 8 (`0.00` when blank, in
/// SEK) to `expenses:bank:avanza`; a sell books the negated profit of column
/// 12 to `equity:capital-gains`. Every other kind posts the cash amount of
/// column 6 and balances it against one account.
pub proof fn law_avanza_record_columns(rec: Seq<Seq<char>>)
    ensures
        avanza_row(rec) matches Ok(row) ==> (avanza_transaction(row) matches Ok(t) ==> {
            let fee = dotted(trim(rec[8]));
            let is_buy = trim(rec[2]) == "Köp"@;
            let is_sell = trim(rec[2]) == "Sälj"@;
            &&& rec.len() >= 13
            &&& chrono_parse_date(trim(rec[0]), "%Y-%m-%d"@) matches Ok(d) && t.0 == (d.0 as int, d.1 as int, d.2 as int)
            &&& t.1 == trim(rec[2]) + seq![' '] + trim(rec[3])
            &&& (is_buy || is_sell) ==> {
                &&& t.2.len() == (if is_buy { 3int } else { 4int })
                &&& t.2[0] == ("assets:bank:avanza"@, cv_view(dotted(trim(rec[4])) + seq![' '] + trim(rec[3])))
                &&& t.2[1] == ("assets:bank:avanza"@, cv_view(dotted(trim(rec[6])) + seq![' '] + trim(rec[7])))
                &&& t.2[2] == ("expenses:bank:avanza"@, cv_view((if fee.len() == 0 { "0.00"@ } else { fee }) + seq![' '] + "SEK"@))
                &&& is_sell ==> (cv_view(dotted(trim(rec[12])) + seq![' '] + "SEK"@) matches Some(pr)
                    && t.2[3] == ("equity:capital-gains"@, Some(((-pr.0.0, pr.0.1), pr.1))))
            }
            &&& !(is_buy || is_sell) ==> {
                &&& t.2.len() == 2
                &&& t.2[0] == ("assets:bank:avanza"@, cv_view(dotted(trim(rec[6])) + seq![' '] + trim(rec[7])))
                &&& t.2[1].1 is None
            }
        }),
{
    if let Ok(row) = avanza_row(rec) {
        if let Ok(t) = avanza_transaction(row) {
            let f = row.1;
            let texts = amount_texts(f);
            lemma_parsed_amounts(texts, texts.len() as int);
            let v = parse_amounts(texts, texts.len() as int)->Ok_0;
            let kind = action_kind(f.action);
            reveal_strlit("Insättning");
            reveal_strlit("Uttag");
            reveal_strlit("Köp");
            reveal_strlit("Sälj");
            reveal_strlit("Utdelning");
            reveal_strlit("Utländsk källskatt");
            reveal_strlit("Utlåningsränta");
            assert(f.action == "Köp"@ <==> kind == 1);
            assert(f.action == "Sälj"@ <==> kind == 2);
            assert(cv_view(texts[0]) == Some(v[0]));
            if kind == 1 || kind == 2 {
                assert(cv_view(texts[1]) == Some(v[1]));
                assert(cv_view(texts[2]) == Some(v[2]));
                if kind == 2 {
                    assert(cv_view(texts[3]) == Some(v[3]));
                }
            }
        }
    }
}

/// The first `n` rows, or the error of the first record that fails.
pub open spec fn avanza_rows(recs: Seq<Seq<Seq<char>>>, n: int) -> Result<Seq<AvanzaRowView>, Seq<char>>
    decreases n,
{
    if n <= 0 || n > recs.len() {
        Ok(Seq::empty())
    } else {
        match avanza_rows(recs, n - 1) {
            Err(m) => Err(m),
            Ok(prev) => match avanza_row(recs[n - 1]) {
                Err(m) => Err(m),
                Ok(r) => Ok(prev.push(r)),
            },
        }
    }
}

/// The transaction of a row, or the error: an unknown kind, or the first
/// amount that does not parse (the text and its message).
pub open spec fn avanza_transaction(row: AvanzaRowView) -> Result<TransactionView, (Seq<char>, Seq<char>)> {
    let f = row.1;
    let kind = action_kind(f.action);
    if kind < 0 {
        Err(("Avanza CSV"@, "Unknown transaction type '"@ + f.action + "'."@))
    } else {
        let texts = amount_texts(f);
        match parse_amounts(texts, texts.len() as int) {
            Err(t) => Err((t, amount_error(t))),
            Ok(v) => Ok((row.0, f.action + seq![' '] + f.name, avanza_postings(kind, v))),
        }
    }
}

/// The transactions of the first `n` rows, or the first error.
pub open spec fn avanza_transactions(rows: Seq<AvanzaRowView>, n: int) -> Result<Seq<TransactionView>, (Seq<char>, Seq<char>)>
    decreases n,
{
    if n <= 0 || n > rows.len() {
        Ok(Seq::empty())
    } else {
        match avanza_transactions(rows, n - 1) {
            Err(e) => Err(e),
            Ok(prev) => match avanza_transaction(rows[n - 1]) {
                Err(e) => Err(e),
                Ok(t) => Ok(prev.push(t)),
            },
        }
    }
}

/// What importing the text of an export (read as `;`-separated with a header
/// row and rows of varying length, see `csv_parse`) answers: the records are
/// read into rows in order and the first that fails, whether the CSV reader
/// cannot read it or its row does not read, gives the error, reported
/// against `source`; then each row becomes a classified transaction (the
/// first that cannot is the answer).
pub open spec fn avanza_text_result(text: Seq<u8>, source: Seq<char>, r: Result<Vec<ImportCandidate<Transaction>>, RsledgerError>) -> bool {
    let results = csv_parse(text, 59u8, true, true);
    let recs = records_before_error(results);
    match avanza_rows(recs, recs.len() as int) {
        Err(m) => r matches Err(RsledgerError::ParseError(item, why)) && item@ == source && why@ == m,
        Ok(rows) => match first_csv_error(results) {
            Some(e) => r matches Err(RsledgerError::ParseError(item, why)) && item@ == source
                && why@ == "Failed to read CSV record: "@ + e,
            None => match avanza_transactions(rows, rows.len() as int) {
                Ok(ts) => r matches Ok(v) && candidate_views(v@) == ts.map_values(|t: TransactionView| (true, t)),
                Err(e) => r matches Err(RsledgerError::ParseError(item, why)) && item@ == e.0 && why@ == e.1,
            },
        },
    }
}

/// Importing the text of an export never negates `i64::MIN`: when every
/// record can be read, the records are negatable (see
/// `avanza_records_negatable`).
pub open spec fn avanza_text_negatable(text: Seq<u8>) -> bool {
    let results = csv_parse(text, 59u8, true, true);
    first_csv_error(results) is None ==> avanza_records_negatable(records_before_error(results))
}

/// Building the transactions from row `i` on never negates `i64::MIN`: each
/// row reached passes `negation_ok`, and building stops at the first row
/// that fails.
pub open spec fn rows_negatable_from(rows: Seq<AvanzaRowView>, i: int) -> bool
    decreases rows.len() - i,
{
    if i < 0 || i >= rows.len() {
        true
    } else {
        negation_ok(rows[i].1) && (avanza_transaction(rows[i]) is Ok ==> rows_negatable_from(rows, i + 1))
    }
}

/// Importing the records never negates `i64::MIN`: when every record reads,
/// no sell reached before the first row that fails carries a profit of
/// exactly `i64::MIN`.
pub open spec fn avanza_records_negatable(recs: Seq<Seq<Seq<char>>>) -> bool {
    avanza_rows(recs, recs.len() as int) matches Ok(rows) ==> rows_negatable_from(rows, 0)
}

/// The fields of a row, executable.
#[derive(Debug)]
pub struct AvanzaRow {
    pub date: Date,
    pub action: String,
    pub name: String,
    pub quantity: String,
    pub cash_amount: String,
    pub currency: String,
    pub fee: String,
    pub profit: String,
}

impl View for AvanzaRow {
    type V = AvanzaRowView;

    open spec fn view(&self) -> AvanzaRowView {
        (self.date@, AvanzaFields {
            action: self.action@,
            name: self.name@,
            quantity: self.quantity@,
            cash_amount: self.cash_amount@,
            currency: self.currency@,
            fee: self.fee@,
            profit: self.profit@,
        })
    }
}

pub open spec fn avanza_row_views(v: Seq<AvanzaRow>) -> Seq<AvanzaRowView> {
    v.map_values(|r: AvanzaRow| r@)
}

pub fn cv_text(a: &str, b: &str) -> (r: String)
    ensures
        r@ == a@ + seq![' '] + b@,
{
    let mut s = a.to_owned();
    s.push(' ');
    s.append(b);
    s
}

/// The kind of a transaction type (see `action_kind`).
pub fn avanza_action_kind(a: &str) -> (r: i8)
    ensures
        r as int == action_kind(a@),
{
    if str_eq(a, "Insättning") || str_eq(a, "Uttag") {
        0
    } else if str_eq(a, "Köp") {
        1
    } else if str_eq(a, "Sälj") {
        2
    } else if str_eq(a, "Utdelning") {
        3
    } else if str_eq(a, "Utländsk källskatt") {
        4
    } else if str_eq(a, "Utlåningsränta") {
        5
    } else {
        -1
    }
}

/// Parses the amount texts in order; the first that fails is the error.
pub fn parse_amount_list(texts: &Vec<String>) -> (r: Result<Vec<CommodityValue>, String>)
    ensures
        match parse_amounts(string_views(texts@), texts@.len() as int) {
            Ok(v) => r matches Ok(x) && x@.len() == v.len()
                && forall|k: int| 0 <= k < v.len() ==> (#[trigger] x@[k])@ == v[k],
            Err(t) => r matches Err(e) && e@ == t,
        },
{
    let ghost tv = string_views(texts@);
    let mut out: Vec<CommodityValue> = Vec::new();
    let mut i: usize = 0;
    while i < texts.len()
        invariant
            i <= texts.len(),
            tv == string_views(texts@),
            parse_amounts(tv, i as int) matches Ok(v) && out@.len() == v.len()
                && forall|k: int| 0 <= k < v.len() ==> (#[trigger] out@[k])@ == v[k],
        decreases texts.len() - i,
    {
        assert(tv[i as int] == texts@[i as int]@);
        match CommodityValue::from_str(texts[i].as_str()) {
            Ok(v) => {
                out.push(v);
            },
            Err(_) => {
                proof {
                    lemma_parse_amounts_err_stays(tv, i as int + 1, texts@.len() as int);
                }
                return Err(texts[i].clone());
            },
        }
        i = i + 1;
    }
    Ok(out)
}

pub proof fn lemma_parse_amounts(texts: Seq<Seq<char>>, n: int)
    requires
        0 <= n <= texts.len(),
    ensures
        parse_amounts(texts, n) matches Ok(v) ==> v.len() == n,
        parse_amounts(texts, n) matches Err(t) ==> cv_view(t) is None,
    decreases n,
{
    if n > 0 {
        lemma_parse_amounts(texts, n - 1);
    }
}

pub proof fn lemma_parse_amounts_err_stays(texts: Seq<Seq<char>>, n: int, m: int)
    requires
        0 < n <= m <= texts.len(),
        parse_amounts(texts, n) is Err,
    ensures
        parse_amounts(texts, m) == parse_amounts(texts, n),
    decreases m - n,
{
    if m > n {
        lemma_parse_amounts_err_stays(texts, n, m - 1);
    }
}

/// The amount texts of a row, executable (see `amount_texts`).
fn row_amount_texts(row: &AvanzaRow, kind: i8) -> (r: Vec<String>)
    requires
        kind as int == action_kind(row@.1.action),
    ensures
        string_views(r@) == amount_texts(row@.1),
{
    let cash = cv_text(row.cash_amount.as_str(), row.currency.as_str());
    let mut texts: Vec<String> = Vec::new();
    if kind == 1 || kind == 2 {
        texts.push(cv_text(row.quantity.as_str(), row.name.as_str()));
        texts.push(cash);
        texts.push(cv_text(row.fee.as_str(), "SEK"));
        if kind == 2 {
            texts.push(cv_text(row.profit.as_str(), "SEK"));
        }
    } else {
        texts.push(cash);
    }
    assert(string_views(texts@) =~= amount_texts(row@.1));
    texts
}

/// Whether building the row's transaction can negate its profit (see `negation_ok`).
pub fn row_negation_ok(row: &AvanzaRow) -> (r: bool)
    ensures
        r == negation_ok(row@.1),
{
    let kind = avanza_action_kind(row.action.as_str());
    if kind != 2 {
        return true;
    }
    let texts = row_amount_texts(row, kind);
    proof {
        lemma_parse_amounts(string_views(texts@), texts@.len() as int);
    }
    match parse_amount_list(&texts) {
        Ok(v) => {
            assert(v@[3]@ == parse_amounts(amount_texts(row@.1), 4)->Ok_0[3]);
            v[3].amount().raw_amount() != i64::MIN
        },
        Err(_) => true,
    }
}

/// Builds the postings of a row of a known kind from its parsed amounts.
fn build_postings(kind: i8, vals: Vec<CommodityValue>) -> (r: Vec<Posting>)
    requires
        0 <= kind <= 5,
        vals@.len() == (if kind == 1 { 3int } else if kind == 2 { 4int } else { 1int }),
        kind == 2 ==> vals@[3]@.0.0 != i64::MIN as int,
    ensures
        posting_views(r@) == avanza_postings(kind as int, vals@.map_values(|c: CommodityValue| c@)),
{
    let ghost vv = vals@.map_values(|c: CommodityValue| c@);
    let mut vals = vals;
    let mut ps: Vec<Posting> = Vec::new();
    if kind == 1 || kind == 2 {
        let profit = if kind == 2 { Some(vals.pop().unwrap()) } else { None };
        let fee = vals.pop().unwrap();
        let cash = vals.pop().unwrap();
        let qty = vals.pop().unwrap();
        ps.push(Posting::new("assets:bank:avanza".to_owned(), Some(qty)));
        ps.push(Posting::new("assets:bank:avanza".to_owned(), Some(cash)));
        ps.push(Posting::new("expenses:bank:avanza".to_owned(), Some(fee)));
        match profit {
            Some(p) => {
                ps.push(Posting::new("equity:capital-gains".to_owned(), Some(p.neg())));
            },
            None => {},
        }
    } else {
        let cash = vals.pop().unwrap();
        let counter = if kind == 0 {
            "expenses:bank:internal-transfers".to_owned()
        } else if kind == 3 {
            "income:dividends".to_owned()
        } else if kind == 4 {
            "expenses:taxes:withholding".to_owned()
        } else {
            "expenses:bank:avanza:interest".to_owned()
        };
        ps.push(Posting::new("assets:bank:avanza".to_owned(), Some(cash)));
        ps.push(Posting::new(counter, None));
    }
    assert(posting_views(ps@) =~= avanza_postings(kind as int, vv));
    ps
}

/// Builds the transaction of a row (see `avanza_transaction`); the error
/// pairs the item (the failing amount text, or `Avanza CSV`) with the reason.
pub fn build_avanza_transaction(row: AvanzaRow) -> (r: Result<Transaction, RsledgerError>)
    requires
        negation_ok(row@.1),
    ensures
        match avanza_transaction(row@) {
            Ok(t) => r matches Ok(x) && x@ == t,
            Err(e) => r matches Err(RsledgerError::ParseError(item, why)) && item@ == e.0 && why@ == e.1,
        },
{
    let ghost rv = row@;
    let kind = avanza_action_kind(row.action.as_str());
    if kind < 0 {
        let mut m = "Unknown transaction type '".to_owned();
        m.append(row.action.as_str());
        m.append("'.");
        return Err(RsledgerError::ParseError("Avanza CSV".to_owned(), m));
    }
    let texts = row_amount_texts(&row, kind);
    proof {
        lemma_parse_amounts(string_views(texts@), texts@.len() as int);
    }
    let vals = match parse_amount_list(&texts) {
        Ok(v) => v,
        Err(t) => {
            let m = match CommodityValue::from_str(t.as_str()) {
                Ok(_) => t.clone(),
                Err(e) => e,
            };
            return Err(RsledgerError::ParseError(t, m));
        },
    };
    let ghost vv = parse_amounts(amount_texts(rv.1), amount_texts(rv.1).len() as int)->Ok_0;
    assert(vals@.map_values(|c: CommodityValue| c@) =~= vv);
    let description = cv_text(row.action.as_str(), row.name.as_str());
    let ps = build_postings(kind, vals);
    Ok(Transaction::new(row.date, description, ps))
}

fn dotted_text(t: &[char]) -> (r: Vec<char>)
    ensures
        r@ == dotted(t@),
{
    replace_chars(t, ',', '.')
}

/// Reads one record of the export (see `avanza_row`).
pub fn parse_avanza_record(rec: &Vec<String>) -> (r: Result<AvanzaRow, String>)
    ensures
        match avanza_row(string_views(rec@)) {
            Ok(v) => r matches Ok(x) && x@ == v,
            Err(m) => r matches Err(e) && e@ == m,
        },
{
    let ghost rv = string_views(rec@);
    if rec.len() < 13 {
        let mut m = "Row has ".to_owned();
        let d = crate::text::u64_digits(rec.len() as u64);
        proof {
            crate::text::lemma_digits(rec.len() as nat);
        }
        let ds = string_from(&d);
        m.append(ds.as_str());
        m.append(" column(s) but 13 are required.");
        return Err(m);
    }
    assert(rv[0] == rec@[0]@);
    let dt = string_from(&trim_chars(&chars_of(rec[0].as_str())));
    let fmt = "%Y-%m-%d";
    let date = match Date::parse_from_str(dt.as_str(), fmt) {
        Ok(d) => d,
        Err(_) => {
            let mut m = "Could not parse date '".to_owned();
            m.append(dt.as_str());
            m.append("'. Expected format YYYY-MM-DD.");
            return Err(m);
        },
    };
    assert(rv[2] == rec@[2]@);
    assert(rv[3] == rec@[3]@);
    assert(rv[4] == rec@[4]@);
    assert(rv[6] == rec@[6]@);
    assert(rv[7] == rec@[7]@);
    assert(rv[8] == rec@[8]@);
    assert(rv[12] == rec@[12]@);
    let fee_raw = dotted_text(&trim_chars(&chars_of(rec[8].as_str())));
    let fee = if fee_raw.len() == 0 { "0.00".to_owned() } else { string_from(&fee_raw) };
    let row = AvanzaRow {
        date,
        action: string_from(&trim_chars(&chars_of(rec[2].as_str()))),
        name: string_from(&trim_chars(&chars_of(rec[3].as_str()))),
        quantity: string_from(&dotted_text(&trim_chars(&chars_of(rec[4].as_str())))),
        cash_amount: string_from(&dotted_text(&trim_chars(&chars_of(rec[6].as_str())))),
        currency: string_from(&trim_chars(&chars_of(rec[7].as_str()))),
        fee,
        profit: string_from(&dotted_text(&trim_chars(&chars_of(rec[12].as_str())))),
    };
    assert(row@.1 == record_fields(rv));
    Ok(row)
}

/// Importer for Avanza transaction CSV exports.
pub struct AvanzaImporter;

impl AvanzaImporter {
    pub fn new() -> (r: Self) {
        AvanzaImporter
    }

    /// Reads every record into a row; the first that fails gives the error,
    /// reported against `source`.
    pub fn read_rows(&self, records: &Vec<Vec<String>>, source: &str) -> (r: Result<Vec<AvanzaRow>, RsledgerError>)
        ensures
            match avanza_rows(record_views(records@), records@.len() as int) {
                Ok(rows) => r matches Ok(v) && avanza_row_views(v@) == rows,
                Err(m) => r matches Err(RsledgerError::ParseError(item, why)) && item@ == source@ && why@ == m,
            },
    {
        let ghost rv = record_views(records@);
        let mut rows: Vec<AvanzaRow> = Vec::new();
        let mut i: usize = 0;
        assert(avanza_row_views(rows@) =~= Seq::<AvanzaRowView>::empty());
        while i < records.len()
            invariant
                i <= records.len(),
                rv == record_views(records@),
                avanza_rows(rv, i as int) == Ok::<Seq<AvanzaRowView>, Seq<char>>(avanza_row_views(rows@)),
            decreases records.len() - i,
        {
            assert(rv[i as int] == string_views(records@[i as int]@));
            match parse_avanza_record(&records[i]) {
                Ok(row) => {
                    let ghost old_rows = rows@;
                    rows.push(row);
                    assert(avanza_row_views(rows@) =~= avanza_row_views(old_rows).push(rows@.last()@));
                },
                Err(m) => {
                    proof {
                        lemma_avanza_rows_err_stays(rv, i as int + 1, records@.len() as int);
                    }
                    return Err(RsledgerError::ParseError(source.to_owned(), m));
                },
            }
            i = i + 1;
        }
        Ok(rows)
    }

    /// Imports the records of an Avanza export: all rows are read first (the
    /// first failure is the answer), then each becomes a classified
    /// transaction (the first that cannot is the answer).
    pub fn import_records(&self, records: &Vec<Vec<String>>, source: &str) -> (r: Result<Vec<ImportCandidate<Transaction>>, RsledgerError>)
        requires
            avanza_records_negatable(record_views(records@)),
        ensures
            match avanza_rows(record_views(records@), records@.len() as int) {
                Err(m) => r matches Err(RsledgerError::ParseError(item, why)) && item@ == source@ && why@ == m,
                Ok(rows) => match avanza_transactions(rows, rows.len() as int) {
                    Ok(ts) => r matches Ok(v) && candidate_views(v@) == ts.map_values(|t: TransactionView| (true, t)),
                    Err(e) => r matches Err(RsledgerError::ParseError(item, why)) && item@ == e.0 && why@ == e.1,
                },
            },
    {
        let rows = match self.read_rows(records, source) {
            Ok(v) => v,
            Err(e) => return Err(e),
        };
        let ghost rws = avanza_row_views(rows@);
        let mut out: Vec<ImportCandidate<Transaction>> = Vec::new();
        let mut rest = rows;
        let n = rest.len();
        let mut i: usize = 0;
        while i < n
            invariant
                i <= n,
                n == rws.len(),
                avanza_rows(record_views(records@), records@.len() as int) == Ok::<Seq<AvanzaRowView>, Seq<char>>(rws),
                avanza_row_views(rest@) == rws.skip(i as int),
                rows_negatable_from(rws, i as int),
                avanza_transactions(rws, i as int) matches Ok(ts)
                    && candidate_views(out@) == ts.map_values(|t: TransactionView| (true, t)),
            decreases n - i,
        {
            assert(avanza_row_views(rest@).len() == rest@.len());
            assert(avanza_row_views(rest@)[0] == rest@[0]@);
            let row = rest.remove(0);
            assert(row@ == rws[i as int]);
            assert(rws.skip(i + 1) =~= rws.skip(i as int).drop_first());
            let ghost old_out = out@;
            match build_avanza_transaction(row) {
                Ok(t) => {
                    out.push(ImportCandidate::Classified(t));
                    assert(candidate_views(out@) =~= candidate_views(old_out).push(out@.last()@));
                    proof {
                        let ts = avanza_transactions(rws, i as int)->Ok_0;
                        assert(candidate_views(out@) =~= ts.push(out@.last()@.1).map_values(|t: TransactionView| (true, t)));
                    }
                },
                Err(e) => {
                    assert(avanza_transaction(rws[i as int]) is Err);
                    assert(avanza_transactions(rws, i as int + 1) == Err::<Seq<TransactionView>, (Seq<char>, Seq<char>)>(avanza_transaction(rws[i as int])->Err_0));
                    proof {
                        lemma_avanza_transactions_err_stays(rws, i as int + 1, n as int);
                    }
                    return Err(e);
                },
            }
            i = i + 1;
        }
        Ok(out)
    }

    /// Imports the text of an Avanza export, read as `;`-separated with a
    /// header row and rows of varying length (see `csv_parse`): the records
    /// are read into rows in order and the first that fails, whether the CSV
    /// reader cannot read it or its row does not read, gives the error,
    /// reported against `source`; then each row becomes a classified
    /// transaction (the first that cannot is the answer).
    pub fn import_text(&self, text: &[u8], source: &str) -> (r: Result<Vec<ImportCandidate<Transaction>>, RsledgerError>)
        requires
            avanza_text_negatable(text@),
        ensures
            avanza_text_result(text@, source@, r),
    {
        let results = csv_records(text, 59u8, true, true);
        let (records, failure) = records_until_error(results);
        match self.read_rows(&records, source) {
            Ok(_) => {},
            Err(e) => return Err(e),
        }
        match failure {
            Some(e) => {
                let mut why = "Failed to read CSV record: ".to_owned();
                why.append(e.as_str());
                Err(RsledgerError::ParseError(source.to_owned(), why))
            },
            None => self.import_records(&records, source),
        }
    }

    /// `import_text` where it can import the text without negating
    /// `i64::MIN`, `None` where it would overflow.
    pub fn import_text_checked(&self, text: &[u8], source: &str) -> (r: Option<Result<Vec<ImportCandidate<Transaction>>, RsledgerError>>)
        ensures
            r is None <==> !avanza_text_negatable(text@),
            r matches Some(x) ==> avanza_text_result(text@, source@, x),
    {
        if self.text_negatable(text) {
            Some(self.import_text(text, source))
        } else {
            None
        }
    }

    /// Whether importing the text can be done without negating `i64::MIN`
    /// (see `avanza_text_negatable`).
    pub fn text_negatable(&self, text: &[u8]) -> (r: bool)
        ensures
            r == avanza_text_negatable(text@),
    {
        let results = csv_records(text, 59u8, true, true);
        let (records, failure) = records_until_error(results);
        match failure {
            Some(_) => true,
            None => self.records_negatable(&records),
        }
    }

    /// Whether importing the records can be done without negating
    /// `i64::MIN` (see `avanza_records_negatable`).
    pub fn records_negatable(&self, records: &Vec<Vec<String>>) -> (r: bool)
        ensures
            r == avanza_records_negatable(record_views(records@)),
    {
        let rows = match self.read_rows(records, "") {
            Ok(v) => v,
            Err(_) => return true,
        };
        let ghost rws = avanza_row_views(rows@);
        let mut rest = rows;
        let n = rest.len();
        let mut i: usize = 0;
        while i < n
            invariant
                i <= n,
                n == rws.len(),
                avanza_rows(record_views(records@), records@.len() as int) == Ok::<Seq<AvanzaRowView>, Seq<char>>(rws),
                avanza_row_views(rest@) == rws.skip(i as int),
                avanza_records_negatable(record_views(records@)) == rows_negatable_from(rws, i as int),
            decreases n - i,
        {
            assert(avanza_row_views(rest@).len() == rest@.len());
            assert(avanza_row_views(rest@)[0] == rest@[0]@);
            let row = rest.remove(0);
            assert(row@ == rws[i as int]);
            assert(rws.skip(i + 1) =~= rws.skip(i as int).drop_first());
            if !row_negation_ok(&row) {
                return false;
            }
            match build_avanza_transaction(row) {
                Ok(_) => {},
                Err(_) => return true,
            }
            i = i + 1;
        }
        true
    }
}

pub proof fn lemma_avanza_rows_err_stays(recs: Seq<Seq<Seq<char>>>, n: int, m: int)
    requires
        0 < n <= m <= recs.len(),
        avanza_rows(recs, n) is Err,
    ensures
        avanza_rows(recs, m) == avanza_rows(recs, n),
    decreases m - n,
{
    if m > n {
        lemma_avanza_rows_err_stays(recs, n, m - 1);
    }
}

pub proof fn lemma_avanza_transactions_err_stays(rows: Seq<AvanzaRowView>, n: int, m: int)
    requires
        0 < n <= m <= rows.len(),
        avanza_transactions(rows, n) is Err,
    ensures
        avanza_transactions(rows, m) == avanza_transactions(rows, n),
    decreases m - n,
{
    if m > n {
        lemma_avanza_transactions_err_stays(rows, n, m - 1);
    }
}

} // verus!
