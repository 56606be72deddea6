//! The parser of Avanza transaction exports read line by line: the columns
//! are `;`-separated, the first line is a header, and each supported kind of
//! transaction maps to a fixed set of postings.

use vstd::prelude::*;
use crate::csv_importer::ImportCandidate;
use crate::csv_importer::avanza_transactions::{
    AvanzaFields, action_kind, amount_texts, avanza_action_kind, cv_text, avanza_postings, cv_view, dotted,
    lemma_parse_amounts, lemma_parsed_amounts, parse_amount_list, parse_amounts,
};
use crate::csv_importer::generic_importer::candidate_views;
use crate::date::{Date, chrono_parse_date};
use crate::journal::TransactionView;
use crate::journal::account::string_views;
use crate::text::{chars_of, replace_chars, split_char, split_on, string_from, views};
use crate::transaction::{Transaction, posting_views};
use crate::transaction::commodity_value::CommodityValue;
use crate::transaction::posting::Posting;

verus! {

/// The fields of a line's columns, as they stand (not trimmed); a blank fee
/// counts as `0.00`.
pub open spec fn line_fields(cols: Seq<Seq<char>>) -> AvanzaFields {
    let fee = dotted(cols[8]);
    AvanzaFields {
        action: cols[2],
        name: cols[3],
        quantity: dotted(cols[4]),
        cash_amount: dotted(cols[6]),
        currency: cols[7],
        fee: if fee.len() == 0 { "0.00"@ } else { fee },
        profit: dotted(cols[12]),
    }
}

/// The line reaches the construction of its postings: at least 13 columns,
/// a `YYYY-MM-DD` date, a known kind, and for a sell a profit that parses.
pub open spec fn line_reaches_postings(line: Seq<char>) -> bool {
    let cols = split_on(line, ';');
    &&& cols.len() >= 13
    &&& chrono_parse_date(cols[0], "%Y-%m-%d"@) is Ok
    &&& action_kind(line_fields(cols).action) >= 0
    &&& (action_kind(line_fields(cols).action) == 2 ==> cv_view(line_fields(cols).profit + seq![' '] + "SEK"@) is Some)
}

/// The transaction of a line, or `None` when it is skipped (too few columns,
/// a bad date, an unknown kind, or a sell whose profit does not parse).
pub open spec fn avanza_line(line: Seq<char>) -> Option<TransactionView> {
    let cols = split_on(line, ';');
    if !line_reaches_postings(line) {
        None
    } else {
        let f = line_fields(cols);
        let d = chrono_parse_date(cols[0], "%Y-%m-%d"@)->Ok_0;
        let texts = amount_texts(f);
        match parse_amounts(texts, texts.len() as int) {
            Ok(v) => Some(((d.0 as int, d.1 as int, d.2 as int), f.action + seq![' '] + f.name, avanza_postings(action_kind(f.action), v))),
            Err(_) => None,
        }
    }
}

/// A line that reaches its postings has amounts that all parse, and a sell's
/// profit is not `i64::MIN` (its negation would overflow).
pub open spec fn avanza_line_ok(line: Seq<char>) -> bool {
    line_reaches_postings(line) ==> {
        let f = line_fields(split_on(line, ';'));
        let texts = amount_texts(f);
        match parse_amounts(texts, texts.len() as int) {
            Ok(v) => action_kind(f.action) == 2 ==> v[3].0.0 != i64::MIN as int,
            Err(_) => false,
        }
    }
}

/// The transactions of the lines `1..n` (line 0 is the header), skipped lines left out.
pub open spec fn avanza_lines(lines: Seq<Seq<char>>, n: int) -> Seq<TransactionView>
    decreases n,
{
    if n <= 1 || n > lines.len() {
        Seq::empty()
    } else {
        let prev = avanza_lines(lines, n - 1);
        match avanza_line(lines[n - 1]) {
            Some(t) => prev.push(t),
            None => prev,
        }
    }
}

/// Every line after the header can be read without panicking.
pub open spec fn avanza_lines_ok(lines: Seq<Seq<char>>) -> bool {
    forall|i: int| 1 <= i < lines.len() ==> avanza_line_ok(#[trigger] lines[i])
}

fn dotted_chars(t: &[char]) -> (r: Vec<char>)
    ensures
        r@ == dotted(t@),
{
    replace_chars(t, ',', '.')
}

/// The outcome of a line: `None` where reading it would panic, else the
/// transaction or `None` for a skipped line.
fn line_outcome(line: &str) -> (r: Option<Option<Transaction>>)
    ensures
        r is None <==> !avanza_line_ok(line@),
        r matches Some(o) ==> match avanza_line(line@) {
            Some(t) => o matches Some(x) && x@ == t,
            None => o is None,
        },
{
    let cs = chars_of(line);
    let cols = split_char(&cs, ';');
    let ghost cv = split_on(line@, ';');
    if cols.len() < 13 {
        return Some(None);
    }
    assert(views(cols@)[0] == cols@[0]@);
    assert(views(cols@)[2] == cols@[2]@);
    assert(views(cols@)[3] == cols@[3]@);
    assert(views(cols@)[4] == cols@[4]@);
    assert(views(cols@)[6] == cols@[6]@);
    assert(views(cols@)[7] == cols@[7]@);
    assert(views(cols@)[8] == cols@[8]@);
    assert(views(cols@)[12] == cols@[12]@);
    let date_text = string_from(&cols[0]);
    let date = match Date::parse_from_str(date_text.as_str(), "%Y-%m-%d") {
        Ok(d) => d,
        Err(_) => return Some(None),
    };
    let action = string_from(&cols[2]);
    let name = string_from(&cols[3]);
    let quantity = string_from(&dotted_chars(&cols[4]));
    let cash_amount = string_from(&dotted_chars(&cols[6]));
    let currency = string_from(&cols[7]);
    let fee_raw = dotted_chars(&cols[8]);
    let fee = if fee_raw.len() == 0 { "0.00".to_owned() } else { string_from(&fee_raw) };
    let profit = string_from(&dotted_chars(&cols[12]));
    let ghost f = line_fields(cv);
    assert(action@ == f.action && name@ == f.name && quantity@ == f.quantity && cash_amount@ == f.cash_amount);
    assert(currency@ == f.currency && fee@ == f.fee && profit@ == f.profit);
    let kind = avanza_action_kind(action.as_str());
    if kind < 0 {
        return Some(None);
    }
    let cash_text = cv_text(cash_amount.as_str(), currency.as_str());
    let mut texts: Vec<String> = Vec::new();
    if kind == 1 || kind == 2 {
        let q = cv_text(quantity.as_str(), name.as_str());
        let fe = cv_text(fee.as_str(), "SEK");
        texts.push(q);
        texts.push(cash_text);
        texts.push(fe);
        if kind == 2 {
            let pr = cv_text(profit.as_str(), "SEK");
            match CommodityValue::from_str(pr.as_str()) {
                Ok(_) => {},
                Err(_) => return Some(None),
            }
            texts.push(pr);
        }
    } else {
        texts.push(cash_text);
    }
    assert(string_views(texts@) =~= amount_texts(f));
    proof {
        lemma_parse_amounts(string_views(texts@), texts@.len() as int);
    }
    let vals = match parse_amount_list(&texts) {
        Ok(v) => v,
        Err(_) => return None,
    };
    let mut vals = vals;
    let mut ps: Vec<Posting> = Vec::new();
    let ghost vv = vals@.map_values(|c: CommodityValue| c@);
    if kind == 1 || kind == 2 {
        let profit_v = if kind == 2 {
            let p = vals.pop().unwrap();
            if p.amount().raw_amount() == i64::MIN {
                return None;
            }
            Some(p.neg())
        } else {
            None
        };
        let fee_v = vals.pop().unwrap();
        let cash_v = vals.pop().unwrap();
        let qty_v = vals.pop().unwrap();
        ps.push(Posting::new("assets:bank:avanza".to_owned(), Some(qty_v)));
        ps.push(Posting::new("assets:bank:avanza".to_owned(), Some(cash_v)));
        ps.push(Posting::new("expenses:bank:avanza".to_owned(), Some(fee_v)));
        match profit_v {
            Some(p) => {
                ps.push(Posting::new("equity:capital-gains".to_owned(), Some(p)));
            },
            None => {},
        }
    } else {
        let cash_v = vals.pop().unwrap();
        let counter = if kind == 0 {
            "expenses:bank:internal-transfers".to_owned()
        } else if kind == 3 {
            "income:dividends".to_owned()
        } else if kind == 4 {
            "expenses:taxes:withholding".to_owned()
        } else {
            "expenses:bank:avanza:interest".to_owned()
        };
        ps.push(Posting::new("assets:bank:avanza".to_owned(), Some(cash_v)));
        ps.push(Posting::new(counter, None));
    }
    assert(posting_views(ps@) =~= avanza_postings(kind as int, vv));
    let description = cv_text(action.as_str(), name.as_str());
    Some(Some(Transaction::new(date, description, ps)))
}

/// What an Avanza line becomes, column by column (`;`-separated, decimal
/// commas read as points): the date is column 0, the description column 2
/// (the kind) and column 3 (the security). A buy or a sell moves the number
/// of shares of column 4 (in the security named in column 3) and the cash
/// amount of column 6 (in the currency of column 7) through
/// `assets:bank:avanza`, and pays the fee of column 8 (`0.00` when blank, in
/// SEK) to `expenses:bank:avanza`; a sell books the negated profit of column
/// 12 to `equity:capital-gains`. Every other kind posts the cash amount of
/// column 6 and balances it against one account.
pub proof fn law_avanza_line_columns(line: Seq<char>)
    ensures
        avanza_line(line) matches Some(t) ==> {
            let cols = split_on(line, ';');
            let fee = dotted(cols[8]);
            let is_buy = cols[2] == "Köp"@;
            let is_sell = cols[2] == "Sälj"@;
            &&& cols.len() >= 13
            &&& chrono_parse_date(cols[0], "%Y-%m-%d"@) matches Ok(d) && t.0 == (d.0 as int, d.1 as int, d.2 as int)
            &&& t.1 == cols[2] + seq![' '] + cols[3]
            &&& (is_buy || is_sell) ==> {
                &&& t.2.len() == (if is_buy { 3int } else { 4int })
                &&& t.2[0] == ("assets:bank:avanza"@, cv_view(dotted(cols[4]) + seq![' '] + cols[3]))
                &&& t.2[1] == ("assets:bank:avanza"@, cv_view(dotted(cols[6]) + seq![' '] + cols[7]))
                &&& t.2[2] == ("expenses:bank:avanza"@, cv_view((if fee.len() == 0 { "0.00"@ } else { fee }) + seq![' '] + "SEK"@))
                &&& is_sell ==> (cv_view(dotted(cols[12]) + seq![' '] + "SEK"@) matches Some(pr)
                    && t.2[3] == ("equity:capital-gains"@, Some(((-pr.0.0, pr.0.1), pr.1))))
            }
            &&& !(is_buy || is_sell) ==> {
                &&& t.2.len() == 2
                &&& t.2[0] == ("assets:bank:avanza"@, cv_view(dotted(cols[6]) + seq![' '] + cols[7]))
                &&& t.2[1].1 is None
            }
        },
{
    if let Some(t) = avanza_line(line) {
        let cols = split_on(line, ';');
        let f = line_fields(cols);
        let texts = amount_texts(f);
        lemma_parsed_amounts(texts, texts.len() as int);
        let v = parse_amounts(texts, texts.len() as int)->Ok_0;
        let kind = action_kind(f.action);
        reveal_strlit("Insättning");
        reveal_strlit("Uttag");
        reveal_strlit("Köp");
        reveal_strlit("Sälj");
        reveal_strlit("Utdelning");
        reveal_strlit("Utländsk källskatt");
        reveal_strlit("Utlåningsränta");
        assert(cols[2] == "Köp"@ <==> kind == 1);
        assert(cols[2] == "Sälj"@ <==> kind == 2);
        assert(cv_view(texts[0]) == Some(v[0]));
        if kind == 1 || kind == 2 {
            assert(cv_view(texts[1]) == Some(v[1]));
            assert(cv_view(texts[2]) == Some(v[2]));
            if kind == 2 {
                assert(cv_view(texts[3]) == Some(v[3]));
            }
        }
    }
}

/// The parser of Avanza transaction exports. Deposits and withdrawals are
/// posted against `expenses:bank:internal-transfers`, dividends come from
/// `income:dividends`, fees go to `expenses:bank:avanza` and a sale's profit
/// to `equity:capital-gains`; everything flows through `assets:bank:avanza`.
pub struct AvanzaParser;

impl AvanzaParser {
    pub fn new() -> (r: Self) {
        AvanzaParser
    }

    /// The candidates of the export's lines (the first is the header): one
    /// classified transaction per line that is not skipped (see `avanza_line`).
    pub fn import_lines(&self, lines: &Vec<String>) -> (r: Vec<ImportCandidate<Transaction>>)
        requires
            avanza_lines_ok(string_views(lines@)),
        ensures
            candidate_views(r@) == avanza_lines(string_views(lines@), lines@.len() as int).map_values(|t: TransactionView| (true, t)),
    {
        match self.import_lines_checked(lines) {
            Some(v) => v,
            None => Vec::new(),
        }
    }

    /// Like `import_lines`, but `None` where a line would make it panic.
    pub fn import_lines_checked(&self, lines: &Vec<String>) -> (r: Option<Vec<ImportCandidate<Transaction>>>)
        ensures
            r is None <==> !avanza_lines_ok(string_views(lines@)),
            r matches Some(v) ==> candidate_views(v@) == avanza_lines(string_views(lines@), lines@.len() as int).map_values(|t: TransactionView| (true, t)),
    {
        let ghost lv = string_views(lines@);
        let mut out: Vec<ImportCandidate<Transaction>> = Vec::new();
        if lines.len() == 0 {
            assert(candidate_views(out@) =~= avanza_lines(lv, 0).map_values(|t: TransactionView| (true, t)));
            return Some(out);
        }
        let mut i: usize = 1;
        assert(candidate_views(out@) =~= avanza_lines(lv, 1).map_values(|t: TransactionView| (true, t)));
        while i < lines.len()
            invariant
                1 <= i <= lines.len(),
                lv == string_views(lines@),
                forall|k: int| 1 <= k < i ==> avanza_line_ok(#[trigger] lv[k]),
                candidate_views(out@) == avanza_lines(lv, i as int).map_values(|t: TransactionView| (true, t)),
            decreases lines.len() - i,
        {
            assert(lv[i as int] == lines@[i as int]@);
            let ghost old_out = out@;
            match line_outcome(lines[i].as_str()) {
                None => return None,
                Some(Some(t)) => {
                    out.push(ImportCandidate::Classified(t));
                    assert(avanza_lines(lv, i + 1) == avanza_lines(lv, i as int).push(out@.last()@.1));
                    assert(candidate_views(out@) =~= candidate_views(old_out).push(out@.last()@));
                    assert(candidate_views(out@) =~= avanza_lines(lv, i + 1).map_values(|t: TransactionView| (true, t)));
                },
                Some(None) => {},
            }
            i = i + 1;
        }
        Some(out)
    }
}

} // verus!
