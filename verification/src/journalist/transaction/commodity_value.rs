//! An amount of a commodity that keeps the scale it was written with:
//! `123.40 SEK` is stored as `12340` at precision `2` and printed back so.

use vstd::prelude::*;
use crate::commodity_value::fixed_decimal::{
    FixedDecimal, lemma_normalize, lemma_same_value_trans, add_fits, aligned, decimal_parse, decimal_str, decimal_text, difference_value, displayable,
    max_nat, parse_decimal_raw, same_value, sub_fits, sum_value,
};
use crate::text::{chars_of, join, join_from, split_whitespace, string_from, views, ws_tokens};
use crate::transaction::commodity_value::{bad_amount_msg, missing_commodity_msg};

verus! {

/// What `CommodityValue::from_str` reads: the scaled amount and precision as
/// written, and the commodity (the tokens after the first, joined by single
/// spaces).
pub open spec fn raw_commodity_value_parse(s: Seq<char>) -> Option<((int, nat), Seq<char>)> {
    let toks = ws_tokens(s);
    if toks.len() < 2 {
        None
    } else {
        match decimal_parse(toks[0]) {
            Some(v) => Some((v, join(toks.skip(1), seq![' ']))),
            None => None,
        }
    }
}

/// The `Display` text: the amount with its precision, a space, the commodity.
pub open spec fn raw_commodity_value_str(v: (int, nat), c: Seq<char>) -> Seq<char> {
    decimal_str(v) + seq![' '] + c
}

/// An amount of a named commodity, kept at the precision it was written with.
#[derive(Debug)]
pub struct CommodityValue {
    amount: i64,
    precision: u8,
    commodity: String,
}

impl View for CommodityValue {
    type V = ((int, nat), Seq<char>);

    closed spec fn view(&self) -> ((int, nat), Seq<char>) {
        ((self.amount as int, self.precision as nat), self.commodity@)
    }
}

impl Clone for CommodityValue {
    fn clone(&self) -> (r: Self)
        ensures
            r@ == self@,
    {
        CommodityValue { amount: self.amount, precision: self.precision, commodity: self.commodity.clone() }
    }
}

impl CommodityValue {
    /// The scaled amount and its precision.
    pub open spec fn value(&self) -> (int, nat) {
        self@.0
    }

    /// The commodity name.
    pub open spec fn name(&self) -> Seq<char> {
        self@.1
    }

    /// Parses `"<amount> <commodity>"`, keeping the amount's scale: `"123.40 SEK"`
    /// has amount `12340` and precision `2`.
    pub fn from_str(amount_str: &str) -> (r: Result<Self, String>)
        ensures
            match r {
                Ok(cv) => raw_commodity_value_parse(amount_str@) == Some(cv@),
                Err(e) => raw_commodity_value_parse(amount_str@) is None
                    && (ws_tokens(amount_str@).len() < 2 ==> e@ == missing_commodity_msg(amount_str@))
                    && (ws_tokens(amount_str@).len() >= 2 ==> e@ == bad_amount_msg(ws_tokens(amount_str@)[0])),
            },
    {
        let cs = chars_of(amount_str);
        let parts = split_whitespace(&cs);
        if parts.len() < 2 {
            let mut e = "Invalid amount format: '".to_owned();
            e.append(amount_str);
            e.append("'. Expected format: '<amount> <commodity>'.");
            return Err(e);
        }
        assert(views(parts@)[0] == parts@[0]@);
        let mut sep: Vec<char> = Vec::new();
        sep.push(' ');
        assert(sep@ =~= seq![' ']);
        let joined = join_from(&parts, 1, &sep);
        assert(views(parts@).skip(1) == ws_tokens(amount_str@).skip(1));
        match parse_decimal_raw(&parts[0]) {
            Some((a, p)) => Ok(CommodityValue { amount: a, precision: p, commodity: string_from(&joined) }),
            None => {
                let mut e = "Invalid amount format: '".to_owned();
                let t = string_from(&parts[0]);
                e.append(t.as_str());
                e.append("'.");
                Err(e)
            },
        }
    }

    /// The raw scaled amount.
    pub fn amount(&self) -> (r: i64)
        ensures
            r as int == self.value().0,
    {
        self.amount
    }

    /// The number of decimal places.
    pub fn precision(&self) -> (r: u8)
        ensures
            r as nat == self.value().1,
    {
        self.precision
    }

    /// The commodity name.
    pub fn commodity(&self) -> (r: &str)
        ensures
            r@ == self.name(),
    {
        self.commodity.as_str()
    }

    /// Both amounts scaled to the larger precision, and that precision.
    fn align_precision(&self, other: &Self) -> (r: (i64, i64, u8))
        requires
            crate::commodity_value::fixed_decimal::alignable(self.value(), other.value()),
        ensures
            r.0 as int == aligned(self.value(), max_nat(self.value().1, other.value().1)),
            r.1 as int == aligned(other.value(), max_nat(self.value().1, other.value().1)),
            r.2 as nat == max_nat(self.value().1, other.value().1),
    {
        let m: u8 = if self.precision >= other.precision { self.precision } else { other.precision };
        let f1 = crate::text::pow10_u64(m - self.precision);
        let f2 = crate::text::pow10_u64(m - other.precision);
        let a1 = self.amount * (f1 as i64);
        let a2 = other.amount * (f2 as i64);
        (a1, a2, m)
    }

    /// Whether both values name the same commodity.
    pub fn same_commodity(&self, other: &Self) -> (r: bool)
        ensures
            r == (self.name() == other.name()),
    {
        self.commodity == other.commodity
    }

    /// Whether both values have the same raw amount and precision (`1.0`
    /// differs from `1.00` here, unlike under equality).
    pub fn same_amount(&self, other: &Self) -> (r: bool)
        ensures
            r == (self.value() == other.value()),
    {
        self.amount == other.amount && self.precision == other.precision
    }

    /// The sum, at the larger of the two precisions.
    pub fn add(&self, other: &Self) -> (r: Self)
        requires
            self.name() == other.name(),
            add_fits(self.value(), other.value()),
        ensures
            r.name() == self.name(),
            r.value() == sum_value(self.value(), other.value()),
    {
        let (a1, a2, m) = self.align_precision(other);
        CommodityValue { amount: a1 + a2, precision: m, commodity: self.commodity.clone() }
    }

    /// The difference, at the larger of the two precisions.
    pub fn sub(&self, other: &Self) -> (r: Self)
        requires
            self.name() == other.name(),
            sub_fits(self.value(), other.value()),
        ensures
            r.name() == self.name(),
            r.value() == difference_value(self.value(), other.value()),
    {
        let (a1, a2, m) = self.align_precision(other);
        CommodityValue { amount: a1 - a2, precision: m, commodity: self.commodity.clone() }
    }

    /// The negation: the amount's sign flipped, precision and commodity kept.
    pub fn neg(&self) -> (r: Self)
        requires
            self.value().0 != i64::MIN as int,
        ensures
            r.name() == self.name(),
            r.value() == (-self.value().0, self.value().1),
    {
        CommodityValue { amount: -self.amount, precision: self.precision, commodity: self.commodity.clone() }
    }

    /// The `Display` text, e.g. `"123.40 SEK"`.
    pub fn to_string(&self) -> (r: String)
        requires
            displayable(self.value()),
        ensures
            r@ == raw_commodity_value_str(self.value(), self.name()),
    {
        let mut s = decimal_text(self.amount, self.precision);
        s.push(' ');
        s.append(self.commodity.as_str());
        s
    }
}

/// Equal when the commodities match and the amounts denote the same number
/// (`1.4 SEK` equals `1.40 SEK`).
impl PartialEq for CommodityValue {
    fn eq(&self, other: &Self) -> (r: bool) {
        let a = FixedDecimal::new(self.amount, self.precision);
        let b = FixedDecimal::new(other.amount, other.precision);
        proof {
            let x = (self.amount as int, self.precision as nat);
            let y = (other.amount as int, other.precision as nat);
            lemma_normalize(x.0, x.1);
            lemma_normalize(y.0, y.1);
            if same_value(a@, b@) {
                lemma_same_value_trans(x, a@, b@);
                lemma_same_value_trans(x, b@, y);
            }
            if same_value(x, y) {
                lemma_same_value_trans(a@, x, y);
                lemma_same_value_trans(a@, y, b@);
            }
        }
        self.commodity == other.commodity && a.same_value_as(&b)
    }
}

impl vstd::std_specs::cmp::PartialEqSpecImpl for CommodityValue {
    open spec fn obeys_eq_spec() -> bool {
        true
    }

    open spec fn eq_spec(&self, other: &Self) -> bool {
        self.name() == other.name() && same_value(self.value(), other.value())
    }
}

} // verus!
