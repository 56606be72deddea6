//! Two-posting entries whose amounts are whole hundredths of a currency.

use vstd::prelude::*;
use crate::commodity_value::fixed_decimal::{decimal_str, decimal_text};
use crate::text::{chars_of, parse_in_range, remove_char, without_char, parse_integer, split_whitespace, string_from, views, ws_tokens};

verus! {

pub open spec fn in_i32(v: int) -> bool {
    i32::MIN <= v <= i32::MAX
}

/// What `TransactionAmount::from_str` reads: exactly two whitespace-separated
/// tokens, an amount and a currency. An amount with a point has every point
/// removed and is read as hundredths as it stands (so `"1.50"` is 150 and
/// `"1.5"` is 15); one without is whole units, scaled by 100.
pub open spec fn transaction_amount_parse(s: Seq<char>) -> Option<(int, Seq<char>)> {
    let toks = ws_tokens(s);
    if toks.len() != 2 {
        None
    } else if toks[0].contains('.') {
        match parse_in_range(without_char(toks[0], '.'), i32::MIN as int, i32::MAX as int) {
            Some(v) => Some((v, toks[1])),
            None => None,
        }
    } else {
        match parse_in_range(toks[0], i32::MIN as int, i32::MAX as int) {
            Some(v) => Some((v * 100, toks[1])),
            None => None,
        }
    }
}

/// Scaling a whole amount by 100 stays within `i32` (the multiplication
/// would overflow otherwise).
pub open spec fn transaction_amount_fits(s: Seq<char>) -> bool {
    let toks = ws_tokens(s);
    toks.len() == 2 && !toks[0].contains('.') ==> match parse_in_range(toks[0], i32::MIN as int, i32::MAX as int) {
        Some(v) => in_i32(v * 100),
        None => true,
    }
}

/// `"<units>.<hundredths> <currency>"`.
pub open spec fn transaction_amount_str(v: (int, Seq<char>)) -> Seq<char> {
    decimal_str((v.0, 2)) + seq![' '] + v.1
}

/// An amount in hundredths of a currency unit.
#[derive(Debug)]
pub struct TransactionAmount {
    amount: i32,
    currency: String,
}

impl View for TransactionAmount {
    type V = (int, Seq<char>);

    closed spec fn view(&self) -> (int, Seq<char>) {
        (self.amount as int, self.currency@)
    }
}

impl Clone for TransactionAmount {
    fn clone(&self) -> (r: Self)
        ensures
            r@ == self@,
    {
        TransactionAmount { amount: self.amount, currency: self.currency.clone() }
    }
}

impl TransactionAmount {
    /// Parses `"<amount> <currency>"` (see `transaction_amount_parse`).
    pub fn from_str(amount_str: &str) -> (r: Option<Self>)
        requires
            transaction_amount_fits(amount_str@),
        ensures
            match r {
                Some(t) => transaction_amount_parse(amount_str@) == Some(t@),
                None => transaction_amount_parse(amount_str@) is None,
            },
    {
        let cs = chars_of(amount_str);
        let parts = split_whitespace(&cs);
        if parts.len() != 2 {
            return None;
        }
        assert(views(parts@)[0] == parts@[0]@);
        assert(views(parts@)[1] == parts@[1]@);
        let currency = string_from(&parts[1]);
        if crate::text::contains_char(&parts[0], '.') {
            let digits = remove_char(&parts[0], '.');
            match parse_integer(&digits, i32::MIN as i64, i32::MAX as i64) {
                Some(v) => Some(TransactionAmount { amount: v as i32, currency }),
                None => None,
            }
        } else {
            match parse_integer(&parts[0], i32::MIN as i64, i32::MAX as i64) {
                Some(v) => Some(TransactionAmount { amount: (v * 100) as i32, currency }),
                None => None,
            }
        }
    }

    /// Whether both amounts are in the same currency.
    pub fn same_currency(&self, other: &Self) -> (r: bool)
        ensures
            r == (self@.1 == other@.1),
    {
        self.currency == other.currency
    }

    /// Whether both amounts are the same number of hundredths.
    pub fn same_amount(&self, other: &Self) -> (r: bool)
        ensures
            r == (self@.0 == other@.0),
    {
        self.amount == other.amount
    }

    /// The negated amount, in the same currency.
    pub fn neg(&self) -> (r: Self)
        requires
            self@.0 != i32::MIN as int,
        ensures
            r@ == (-self@.0, self@.1),
    {
        TransactionAmount { amount: -self.amount, currency: self.currency.clone() }
    }

    /// The `Display` text, e.g. `"123.45 SEK"`.
    pub fn to_string(&self) -> (r: String)
        requires
            self@.0 != i32::MIN as int,
        ensures
            r@ == transaction_amount_str(self@),
    {
        let mut s = decimal_text(self.amount as i64, 2);
        s.push(' ');
        s.append(self.currency.as_str());
        s
    }
}

/// Equal when amount and currency are both equal.
impl PartialEq for TransactionAmount {
    fn eq(&self, other: &Self) -> (r: bool) {
        self.amount == other.amount && self.currency == other.currency
    }
}

impl vstd::std_specs::cmp::PartialEqSpecImpl for TransactionAmount {
    open spec fn obeys_eq_spec() -> bool {
        true
    }

    open spec fn eq_spec(&self, other: &Self) -> bool {
        self@ == other@
    }
}

/// The abstract entry: date, description, and each account with its amount.
pub type AmountEntryView = (Seq<char>, Seq<char>, Seq<char>, (int, Seq<char>), Seq<char>, (int, Seq<char>));

/// `"<date> <description>\n\t<account 1> <amount 1>\n\t<account 2> <amount 2>\n\n"`.
pub open spec fn amount_entry_str(e: AmountEntryView) -> Seq<char> {
    e.0 + seq![' '] + e.1 + seq!['\n', '\t'] + e.2 + seq![' '] + transaction_amount_str(e.3)
        + seq!['\n', '\t'] + e.4 + seq![' '] + transaction_amount_str(e.5) + seq!['\n', '\n']
}

/// A transaction between exactly two accounts.
pub struct DoubleEntry {
    date: String,
    description: String,
    account_1: String,
    amount_1: TransactionAmount,
    account_2: String,
    amount_2: TransactionAmount,
}

impl View for DoubleEntry {
    type V = AmountEntryView;

    closed spec fn view(&self) -> AmountEntryView {
        (self.date@, self.description@, self.account_1@, self.amount_1@, self.account_2@, self.amount_2@)
    }
}

impl DoubleEntry {
    pub fn new(
        date: String,
        description: String,
        account_1: String,
        amount_1: TransactionAmount,
        account_2: String,
        amount_2: TransactionAmount,
    ) -> (r: Self)
        ensures
            r@ == (date@, description@, account_1@, amount_1@, account_2@, amount_2@),
    {
        DoubleEntry { date, description, account_1, amount_1, account_2, amount_2 }
    }

    /// The journal text of the entry.
    pub fn to_string(&self) -> (r: String)
        requires
            self@.3.0 != i32::MIN as int,
            self@.5.0 != i32::MIN as int,
        ensures
            r@ == amount_entry_str(self@),
    {
        let mut s = self.date.clone();
        s.push(' ');
        s.append(self.description.as_str());
        s.push('\n');
        s.push('\t');
        s.append(self.account_1.as_str());
        s.push(' ');
        let a1 = self.amount_1.to_string();
        s.append(a1.as_str());
        s.push('\n');
        s.push('\t');
        s.append(self.account_2.as_str());
        s.push(' ');
        let a2 = self.amount_2.to_string();
        s.append(a2.as_str());
        s.push('\n');
        s.push('\n');
        assert(s@ =~= amount_entry_str(self@));
        s
    }
}

} // verus!
