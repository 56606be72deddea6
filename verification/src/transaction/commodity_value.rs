//! An amount of a named commodity, e.g. `123.45 SEK` or `2 "Gold Bar"`.

use vstd::prelude::*;
use crate::commodity_value::fixed_decimal::{
    abs_int,
    FixedDecimal, add_fits, decimal_parse, decimal_str, difference_value, displayable, normalize,
    same_value, sub_fits, sum_value,
};
use crate::text::{
    is_ws, lemma_join_tokens, lemma_ws_tokens_nonempty, lemma_ws_tokens_single, lemma_ws_tokens_split, pow10, single_spaced,
    chars_of, concat, contains_char, join, join_from, push_chars, split_whitespace, string_from,
    subvec, views, ws_tokens,
};

verus! {

/// The commodity text of `"<amount> <commodity...>"` once split on whitespace:
/// the tokens after the first, joined by single spaces, with one pair of
/// surrounding double quotes removed.
pub open spec fn unquote(c: Seq<char>) -> Seq<char> {
    if c.len() >= 2 && c[0] == '"' && c.last() == '"' {
        c.subrange(1, c.len() - 1)
    } else {
        c
    }
}

pub open spec fn commodity_part(s: Seq<char>) -> Seq<char> {
    unquote(join(ws_tokens(s).skip(1), seq![' ']))
}

/// What `CommodityValue::from_str` reads from `s`: the (unreduced) scaled
/// amount and the commodity name, or `None`.
pub open spec fn commodity_value_parse(s: Seq<char>) -> Option<((int, nat), Seq<char>)> {
    let toks = ws_tokens(s);
    if toks.len() < 2 {
        None
    } else {
        match decimal_parse(toks[0]) {
            Some(v) => Some((v, commodity_part(s))),
            None => None,
        }
    }
}

pub open spec fn missing_commodity_msg(s: Seq<char>) -> Seq<char> {
    "Invalid amount format: '"@ + s + "'. Expected format: '<amount> <commodity>'."@
}

pub open spec fn bad_amount_msg(a: Seq<char>) -> Seq<char> {
    "Invalid amount format: '"@ + a + "'."@
}

/// The `Display` text: the amount, one space, the commodity name as stored.
pub open spec fn commodity_value_str(v: (int, nat), c: Seq<char>) -> Seq<char> {
    decimal_str(v) + seq![' '] + c
}

/// The journal text: as `Display`, but a name containing a space is quoted,
/// as hledger requires.
pub open spec fn commodity_value_journal_str(v: (int, nat), c: Seq<char>) -> Seq<char> {
    if c.contains(' ') {
        decimal_str(v) + seq![' ', '"'] + c + seq!['"']
    } else {
        commodity_value_str(v, c)
    }
}

/// A monetary or commodity amount with a fixed-precision decimal value.
#[derive(Debug, Hash)]
pub struct CommodityValue {
    amount: FixedDecimal,
    commodity: String,
}

impl View for CommodityValue {
    type V = ((int, nat), Seq<char>);

    closed spec fn view(&self) -> ((int, nat), Seq<char>) {
        (self.amount@, self.commodity@)
    }
}

impl Clone for CommodityValue {
    fn clone(&self) -> (r: Self)
        ensures
            r@ == self@,
    {
        CommodityValue { amount: self.amount, commodity: self.commodity.clone() }
    }
}

impl CommodityValue {
    /// The scaled amount.
    pub open spec fn value(&self) -> (int, nat) {
        self@.0
    }

    /// The commodity name.
    pub open spec fn name(&self) -> Seq<char> {
        self@.1
    }

    /// A value of `amount` units of `commodity`.
    pub fn new(amount: FixedDecimal, commodity: String) -> (r: Self)
        ensures
            r.value() == amount@,
            r.name() == commodity@,
    {
        CommodityValue { amount, commodity }
    }

    /// Parses `"<amount> <commodity>"`. The commodity may contain spaces (its
    /// tokens are re-joined by single spaces) and may be wrapped in double quotes,
    /// which are removed. The amount is reduced to its canonical form.
    pub fn from_str(amount_str: &str) -> (r: Result<Self, String>)
        ensures
            match r {
                Ok(cv) => commodity_value_parse(amount_str@) matches Some(p)
                    && cv.value() == normalize(p.0.0, p.0.1) && cv.name() == p.1,
                Err(e) => commodity_value_parse(amount_str@) is None
                    && (ws_tokens(amount_str@).len() < 2 ==> e@ == missing_commodity_msg(amount_str@))
                    && (ws_tokens(amount_str@).len() >= 2 ==> e@ == bad_amount_msg(ws_tokens(amount_str@)[0])),
            },
    {
        let cs = chars_of(amount_str);
        let parts = split_whitespace(&cs);
        if parts.len() < 2 {
            let mut e = "Invalid amount format: '".to_owned();
            e.append(amount_str);
            e.append("'. Expected format: '<amount> <commodity>'.");
            return Err(e);
        }
        assert(views(parts@)[0] == parts@[0]@);
        let mut sep: Vec<char> = Vec::new();
        sep.push(' ');
        assert(sep@ =~= seq![' ']);
        let joined = join_from(&parts, 1, &sep);
        assert(views(parts@).skip(1) == ws_tokens(amount_str@).skip(1));
        let commodity_chars = if joined.len() >= 2 && joined[0] == '"' && joined[joined.len() - 1] == '"' {
            subvec(&joined, 1, joined.len() - 1)
        } else {
            joined
        };
        assert(commodity_chars@ == commodity_part(amount_str@));
        let amount_text = string_from(&parts[0]);
        assert(amount_text@ == ws_tokens(amount_str@)[0]);
        match FixedDecimal::from_str(amount_text.as_str()) {
            Ok(amount) => {
                let commodity = string_from(&commodity_chars);
                Ok(CommodityValue { amount, commodity })
            },
            Err(_) => {
                let mut e = "Invalid amount format: '".to_owned();
                e.append(amount_text.as_str());
                e.append("'.");
                Err(e)
            },
        }
    }

    /// Whether both values are of the same commodity.
    pub fn same_commodity(&self, other: &Self) -> (r: bool)
        ensures
            r == (self.name() == other.name()),
    {
        self.commodity == other.commodity
    }

    /// Whether both values have exactly the same raw amount and precision;
    /// unlike equality this does not compare numerically (`1.0` differs from `1.00`).
    pub fn same_amount(&self, other: &Self) -> (r: bool)
        ensures
            r == (self.value() == other.value()),
    {
        self.amount.raw_amount() == other.amount.raw_amount()
            && self.amount.precision() == other.amount.precision()
    }

    /// The decimal amount.
    pub fn amount(&self) -> (r: &FixedDecimal)
        ensures
            r@ == self.value(),
    {
        &self.amount
    }

    /// The commodity name (stored without quotes).
    pub fn commodity(&self) -> (r: &str)
        ensures
            r@ == self.name(),
    {
        self.commodity.as_str()
    }

    /// The sum of two values of the same commodity.
    pub fn add(&self, other: &Self) -> (r: Self)
        requires
            self.name() == other.name(),
            add_fits(self.value(), other.value()),
        ensures
            r.name() == self.name(),
            r.value() == sum_value(self.value(), other.value()),
    {
        CommodityValue { amount: self.amount.add(&other.amount), commodity: self.commodity.clone() }
    }

    /// The difference of two values of the same commodity.
    pub fn sub(&self, other: &Self) -> (r: Self)
        requires
            self.name() == other.name(),
            sub_fits(self.value(), other.value()),
        ensures
            r.name() == self.name(),
            r.value() == difference_value(self.value(), other.value()),
    {
        CommodityValue { amount: self.amount.sub(&other.amount), commodity: self.commodity.clone() }
    }

    /// `self += other` for values of the same commodity.
    pub fn add_assign(&mut self, other: &Self)
        requires
            old(self).name() == other.name(),
            add_fits(old(self).value(), other.value()),
        ensures
            final(self).name() == old(self).name(),
            final(self).value() == sum_value(old(self).value(), other.value()),
    {
        self.amount.add_assign(&other.amount);
    }

    /// The same commodity with the amount's sign flipped.
    pub fn neg(&self) -> (r: Self)
        requires
            self.value().0 != i64::MIN as int,
        ensures
            r.name() == self.name(),
            r.value() == (-self.value().0, self.value().1),
    {
        CommodityValue { amount: self.amount.neg(), commodity: self.commodity.clone() }
    }

    /// The `Display` text, `"<amount> <commodity>"`.
    pub fn to_string(&self) -> (r: String)
        requires
            displayable(self.value()),
        ensures
            r@ == commodity_value_str(self.value(), self.name()),
    {
        let mut s = self.amount.to_string();
        s.push(' ');
        s.append(self.commodity.as_str());
        s
    }

    /// The journal text: as `to_string`, with a name that contains a space quoted.
    pub fn to_journal_string(&self) -> (r: String)
        requires
            displayable(self.value()),
        ensures
            r@ == commodity_value_journal_str(self.value(), self.name()),
    {
        let name = chars_of(self.commodity.as_str());
        if contains_char(&name, ' ') {
            let mut s = self.amount.to_string();
            s.push(' ');
            s.push('"');
            s.append(self.commodity.as_str());
            s.push('"');
            s
        } else {
            self.to_string()
        }
    }
}

impl PartialEq for CommodityValue {
    fn eq(&self, other: &Self) -> (r: bool) {
        self.commodity == other.commodity && self.amount.same_value_as(&other.amount)
    }
}

impl vstd::std_specs::cmp::PartialEqSpecImpl for CommodityValue {
    open spec fn obeys_eq_spec() -> bool {
        true
    }

    open spec fn eq_spec(&self, other: &Self) -> bool {
        self.name() == other.name() && same_value(self.value(), other.value())
    }
}

/// Amounts written with redundant decimal digits are one amount: texts that
/// denote the same number in the same commodity (`"50.00 SEK"`, `"50 SEK"`)
/// parse to the same value.
pub proof fn law_parse_reduces_redundant_digits(s1: Seq<char>, s2: Seq<char>)
    requires
        commodity_value_parse(s1) is Some,
        commodity_value_parse(s2) is Some,
        same_value(commodity_value_parse(s1)->Some_0.0, commodity_value_parse(s2)->Some_0.0),
        commodity_value_parse(s1)->Some_0.1 == commodity_value_parse(s2)->Some_0.1,
    ensures
        ({
            let p1 = commodity_value_parse(s1)->Some_0;
            let p2 = commodity_value_parse(s2)->Some_0;
            (normalize(p1.0.0, p1.0.1), p1.1) == (normalize(p2.0.0, p2.0.1), p2.1)
        }),
{
    let p1 = commodity_value_parse(s1)->Some_0;
    let p2 = commodity_value_parse(s2)->Some_0;
    crate::commodity_value::fixed_decimal::lemma_same_value_iff_normal_forms(p1.0, p2.0);
}

/// A commodity name that prints and parses back unchanged: words separated
/// by single spaces, and a name without a space is not itself wrapped in
/// double quotes (the parser would take them off).
pub open spec fn well_formed_name(c: Seq<char>) -> bool {
    &&& single_spaced(c)
    &&& !c.contains(' ') ==> !(c.len() >= 2 && c[0] == '"' && c.last() == '"')
}

/// Printing a value in journal form and parsing the text gives the value
/// back, as long as the name is well formed and the amount prints with its
/// sign (a negative amount above -1 with a fraction loses it).
pub proof fn law_journal_display_then_parse(cv: CommodityValue)
    requires
        displayable(cv.value()),
        !(cv.value().1 > 0 && cv.value().0 < 0 && abs_int(cv.value().0) < pow10(cv.value().1)),
        well_formed_name(cv.name()),
    ensures
        commodity_value_parse(commodity_value_journal_str(cv.value(), cv.name())) == Some((cv.value(), cv.name())),
{
    crate::commodity_value::fixed_decimal::lemma_view_bounds(cv.amount);
    lemma_journal_str_parse(cv@);
}

/// `law_journal_display_then_parse` for any value a commodity value can hold.
pub proof fn lemma_journal_str_parse(cvv: ((int, nat), Seq<char>))
    requires
        displayable(cvv.0),
        crate::commodity_value::fixed_decimal::in_i64(cvv.0.0),
        cvv.0.1 < 256,
        !(cvv.0.1 > 0 && cvv.0.0 < 0 && abs_int(cvv.0.0) < pow10(cvv.0.1)),
        well_formed_name(cvv.1),
    ensures
        commodity_value_parse(commodity_value_journal_str(cvv.0, cvv.1)) == Some((cvv.0, cvv.1)),
{
    let v = cvv.0;
    let c = cvv.1;
    let d = decimal_str(v);
    crate::commodity_value::fixed_decimal::lemma_decimal_str_parse(v);
    crate::commodity_value::fixed_decimal::lemma_decimal_str_no_ws(v);
    lemma_ws_tokens_single(d);
    let rest = if c.contains(' ') { seq!['"'] + c + seq!['"'] } else { c };
    let s = commodity_value_journal_str(v, c);
    if c.contains(' ') {
        assert(s =~= d + seq![' '] + rest);
        assert(single_spaced(rest)) by {
            assert(rest[0] == '"');
            assert(rest.last() == '"');
            assert forall|j: int| 0 <= j < rest.len() && is_ws(#[trigger] rest[j]) implies rest[j] == ' ' by {
                if 0 < j < rest.len() - 1 {
                    assert(rest[j] == c[j - 1]);
                }
            }
            assert forall|j: int| 0 <= j < rest.len() - 1 implies !(#[trigger] rest[j] == ' ' && rest[j + 1] == ' ') by {
                if 0 < j < rest.len() - 2 {
                    assert(rest[j] == c[j - 1]);
                    assert(rest[j + 1] == c[j]);
                }
            }
        }
    } else {
        assert(s =~= d + seq![' '] + rest);
    }
    lemma_ws_tokens_split(d, ' ', rest);
    lemma_join_tokens(rest);
    lemma_ws_tokens_nonempty(rest, 0);
    let toks = ws_tokens(s);
    assert(toks == seq![d] + ws_tokens(rest));
    assert(toks[0] == d);
    assert(toks.skip(1) =~= ws_tokens(rest));
    if c.contains(' ') {
        assert(rest.subrange(1, rest.len() - 1) =~= c);
    }
}

} // verus!
