//! Price directives: `P YYYY-MM-DD COMMODITY_1 VALUE COMMODITY_2`, the value
//! of one unit of the first commodity on a date.

use vstd::prelude::*;
use crate::commodity_value::fixed_decimal::{
    abs_int, decimal_str, displayable, is_canonical, lemma_decimal_str_no_ws, normalize,
};
use crate::date::{Date, chrono_parse_date, date_str, lemma_date_str_no_ws};
use crate::journal::commodity_value::commodity::{Commodity, commodity_str};
use crate::journal::transaction::posting::amount_error;
use crate::text::{
    chars_of, first_ws_from, is_ws, join, join_from, join_range, lemma_first_ws, lemma_join_tokens,
    lemma_tokens_quote_last, lemma_ws_tokens_nonempty, lemma_ws_tokens_single, lemma_ws_tokens_split,
    no_ws, pow10, single_spaced, split_whitespace, string_from, subvec, views, ws_tokens,
};
use crate::transaction::commodity_value::{
    CommodityValue, commodity_value_journal_str, commodity_value_parse, law_journal_display_then_parse,
    well_formed_name,
};

verus! {

/// The date format of a price directive.
pub open spec fn price_date_format() -> Seq<char> {
    "%Y-%m-%d"@
}

/// The first token at or after `i` that ends with a double quote, or the
/// number of tokens when none does.
pub open spec fn closing_quote_from(toks: Seq<Seq<char>>, i: int) -> int
    decreases toks.len() - i,
{
    if i < 0 || i >= toks.len() {
        toks.len() as int
    } else if toks[i].len() > 0 && toks[i].last() == '"' {
        i
    } else {
        closing_quote_from(toks, i + 1)
    }
}

/// The first commodity is a lone `"`: the quote opens and closes on the same
/// character, and cutting the quotes off that one-character text fails.
pub open spec fn lone_quote_commodity(s: Seq<char>) -> bool {
    let toks = ws_tokens(s);
    toks.len() >= 5 && toks[2] == seq!['"']
}

/// Inputs that `PriceDirective::from_str` answers without panicking: a lone
/// quote as the first commodity is only reached once the date has parsed.
pub open spec fn price_parsable(s: Seq<char>) -> bool {
    !(lone_quote_commodity(s) && chrono_parse_date(ws_tokens(s)[1], price_date_format()) is Ok)
}

pub open spec fn too_few_tokens_msg(s: Seq<char>) -> Seq<char> {
    "Invalid price directive format: '"@ + s
        + "'. Expected format: 'P YYYY-MM-DD COMMODITY_1 VALUE COMMODITY_2'"@
}

pub open spec fn unclosed_quote_msg(s: Seq<char>) -> Seq<char> {
    "Unclosed quote in commodity name in price directive: '"@ + s + seq!['\'']
}

/// The abstract directive: the date, the first commodity's name and the value.
pub type PriceView = ((int, int, int), Seq<char>, ((int, nat), Seq<char>));

pub open spec fn price_with_value(d: (int, int, int), name: Seq<char>, vs: Seq<char>) -> Result<PriceView, Seq<char>> {
    match commodity_value_parse(vs) {
        Some(p) => Ok((d, name, (normalize(p.0.0, p.0.1), p.1))),
        None => Err(amount_error(vs)),
    }
}

/// What `PriceDirective::from_str` yields: the directive, or the error's text.
/// The tokens are split on whitespace; the second is the date. A first
/// commodity that opens with `"` runs to the first token that ends with one,
/// and the quotes are cut off; the tokens after it are the value.
pub open spec fn price_parse(s: Seq<char>) -> Result<PriceView, Seq<char>> {
    let toks = ws_tokens(s);
    if toks.len() < 5 {
        Err(too_few_tokens_msg(s))
    } else {
        match chrono_parse_date(toks[1], price_date_format()) {
            Err(m) => Err(m),
            Ok(t) => {
                let d = (t.0 as int, t.1 as int, t.2 as int);
                if toks[2].len() > 0 && toks[2][0] == '"' {
                    let end = closing_quote_from(toks, 2);
                    if end >= toks.len() {
                        Err(unclosed_quote_msg(s))
                    } else {
                        let joined = join(toks.subrange(2, end + 1), seq![' ']);
                        price_with_value(d, joined.subrange(1, joined.len() - 1), join(toks.skip(end + 1), seq![' ']))
                    }
                } else {
                    price_with_value(d, toks[2], join(toks.skip(3), seq![' ']))
                }
            },
        }
    }
}

/// `P <date> <commodity> <value>`, commodity names with a space quoted.
pub open spec fn price_str(p: PriceView) -> Seq<char> {
    "P "@ + date_str(p.0.0, p.0.1 as nat, p.0.2 as nat) + seq![' '] + commodity_str(p.1) + seq![' ']
        + commodity_value_journal_str(p.2.0, p.2.1)
}

/// A first commodity's name that a price line carries and gives back: words
/// parted by single spaces, where only the last word may be empty or end
/// with a double quote; a name of one word does not open with a double quote.
pub open spec fn price_name_ok(name: Seq<char>) -> bool {
    &&& name.len() > 0
    &&& forall|i: int| 0 <= i < name.len() && is_ws(#[trigger] name[i]) ==> name[i] == ' '
    &&& name[0] != ' '
    &&& forall|i: int| 0 < i < name.len() && #[trigger] name[i] == ' ' ==> name[i - 1] != ' ' && name[i - 1] != '"'
    &&& !name.contains(' ') ==> name[0] != '"'
}

proof fn lemma_closing_quote_from(toks: Seq<Seq<char>>, i: int, k: int)
    requires
        0 <= i <= k <= toks.len(),
        k < toks.len() ==> toks[k].len() > 0 && toks[k].last() == '"',
        forall|j: int| i <= j < k ==> !(toks[j].len() > 0 && toks[j].last() == '"'),
    ensures
        closing_quote_from(toks, i) == k,
    decreases k - i,
{
    if i < k {
        lemma_closing_quote_from(toks, i + 1, k);
    }
}

/// The exchange rate of a commodity on a date.
pub struct PriceDirective {
    pub date: Date,
    pub commodity: Commodity,
    pub value: CommodityValue,
}

impl View for PriceDirective {
    type V = PriceView;

    open spec fn view(&self) -> PriceView {
        (self.date@, self.commodity.name@, self.value@)
    }
}

impl PriceDirective {
    /// Parses `P YYYY-MM-DD COMMODITY_1 VALUE COMMODITY_2`; either commodity may
    /// be quoted when it contains spaces.
    pub fn from_str(s: &str) -> (r: Result<PriceDirective, String>)
        requires
            price_parsable(s@),
        ensures
            match r {
                Ok(p) => price_parse(s@) == Ok::<PriceView, Seq<char>>(p@),
                Err(e) => price_parse(s@) == Err::<PriceView, Seq<char>>(e@),
            },
    {
        let cs = chars_of(s);
        let toks = split_whitespace(&cs);
        let ghost tv = ws_tokens(s@);
        if toks.len() < 5 {
            let mut e = "Invalid price directive format: '".to_owned();
            e.append(s);
            e.append("'. Expected format: 'P YYYY-MM-DD COMMODITY_1 VALUE COMMODITY_2'");
            return Err(e);
        }
        assert(views(toks@)[1] == toks@[1]@);
        assert(views(toks@)[2] == toks@[2]@);
        let date_text = string_from(&toks[1]);
        let fmt = "%Y-%m-%d";
        assert(fmt@ == price_date_format());
        assert(date_text@ == tv[1]);
        let date = match Date::parse_from_str(date_text.as_str(), fmt) {
            Ok(d) => d,
            Err(e) => {
                return Err(e);
            },
        };
        let mut sep: Vec<char> = Vec::new();
        sep.push(' ');
        assert(sep@ =~= seq![' ']);
        let (name, value_text) = if toks[2].len() > 0 && toks[2][0] == '"' {
            let mut end: usize = 2;
            while end < toks.len() && !(toks[end].len() > 0 && toks[end][toks[end].len() - 1] == '"')
                invariant
                    2 <= end <= toks.len(),
                    views(toks@) == tv,
                    forall|j: int| 2 <= j < end ==> !(#[trigger] tv[j].len() > 0 && tv[j].last() == '"'),
                decreases toks.len() - end,
            {
                assert(views(toks@)[end as int] == toks@[end as int]@);
                end = end + 1;
            }
            if end < toks.len() {
                assert(views(toks@)[end as int] == toks@[end as int]@);
            }
            proof {
                lemma_closing_quote_from(tv, 2, end as int);
            }
            if end >= toks.len() {
                let mut e = "Unclosed quote in commodity name in price directive: '".to_owned();
                e.append(s);
                e.push('\'');
                assert(e@ =~= unclosed_quote_msg(s@));
                return Err(e);
            }
            let joined = join_range(&toks, 2, end + 1, &sep);
            proof {
                if joined@.len() < 2 {
                    assert(tv.subrange(2, 3).len() == 1);
                    assert(join(tv.subrange(2, 3), seq![' ']) == tv[2]);
                    assert(tv[2].len() == 1);
                    assert(tv[2] =~= seq!['"']);
                }
            }
            let name = subvec(&joined, 1, joined.len() - 1);
            (name, join_from(&toks, end + 1, &sep))
        } else {
            (subvec(&toks[2], 0, toks[2].len()), join_from(&toks, 3, &sep))
        };
        let vs = string_from(&value_text);
        match CommodityValue::from_str(vs.as_str()) {
            Ok(v) => {
                let p = PriceDirective { date, commodity: Commodity { name: string_from(&name) }, value: v };
                proof {
                    if !(toks@[2]@.len() > 0 && toks@[2]@[0] == '"') {
                        assert(name@ =~= tv[2]);
                    }
                }
                Ok(p)
            },
            Err(e) => Err(e),
        }
    }

    /// Like `from_str`, but answers `None` instead of panicking where
    /// `from_str` would (a lone quote as the first commodity after a valid date).
    pub fn from_str_checked(s: &str) -> (r: Option<Result<PriceDirective, String>>)
        ensures
            r is None <==> !price_parsable(s@),
            match r {
                Some(Ok(p)) => price_parse(s@) == Ok::<PriceView, Seq<char>>(p@),
                Some(Err(e)) => price_parse(s@) == Err::<PriceView, Seq<char>>(e@),
                None => true,
            },
    {
        let cs = chars_of(s);
        let toks = split_whitespace(&cs);
        if toks.len() >= 5 && toks[2].len() == 1 && toks[2][0] == '"' {
            assert(views(toks@)[1] == toks@[1]@);
            assert(views(toks@)[2] == toks@[2]@);
            assert(toks@[2]@ =~= seq!['"']);
            let date_text = string_from(&toks[1]);
            match Date::parse_from_str(date_text.as_str(), "%Y-%m-%d") {
                Ok(_) => return None,
                Err(_) => {},
            }
        } else {
            proof {
                if toks.len() >= 5 {
                    assert(views(toks@)[2] == toks@[2]@);
                }
            }
        }
        Some(PriceDirective::from_str(s))
    }

    /// The directive as a journal line, e.g. `P 2026-01-01 "Gold Bar" 1234.56 SEK`.
    pub fn to_string(&self) -> (r: String)
        requires
            displayable(self@.2.0),
        ensures
            r@ == price_str(self@),
    {
        let mut s = "P ".to_owned();
        let d = self.date.to_string();
        s.append(d.as_str());
        s.push(' ');
        let c = self.commodity.to_string();
        s.append(c.as_str());
        s.push(' ');
        let v = self.value.to_journal_string();
        s.append(v.as_str());
        proof {
            reveal_strlit("P ");
        }
        assert(s@ =~= price_str(self@));
        s
    }
}

/// The journal text of a value is single-spaced, has at least two tokens,
/// and is its tokens joined by single spaces.
pub proof fn lemma_value_text_tokens(v: ((int, nat), Seq<char>))
    requires
        well_formed_name(v.1),
    ensures
        single_spaced(commodity_value_journal_str(v.0, v.1)),
        ws_tokens(commodity_value_journal_str(v.0, v.1)).len() >= 2,
        join(ws_tokens(commodity_value_journal_str(v.0, v.1)), seq![' ']) == commodity_value_journal_str(v.0, v.1),
{
    let c = commodity_value_journal_str(v.0, v.1);
    lemma_decimal_str_no_ws(v.0);
    let d = decimal_str(v.0);
    lemma_ws_tokens_single(d);
    let rest = if v.1.contains(' ') { seq!['"'] + v.1 + seq!['"'] } else { v.1 };
    assert(c =~= d + seq![' '] + rest);
    assert(single_spaced(rest)) by {
        if v.1.contains(' ') {
            assert(rest[0] == '"');
            assert(rest.last() == '"');
            assert forall|j: int| 0 <= j < rest.len() && is_ws(#[trigger] rest[j]) implies rest[j] == ' ' by {
                if 0 < j < rest.len() - 1 {
                    assert(rest[j] == v.1[j - 1]);
                }
            }
            assert forall|j: int| 0 <= j < rest.len() - 1 implies !(#[trigger] rest[j] == ' ' && rest[j + 1] == ' ') by {
                if 0 < j < rest.len() - 2 {
                    assert(rest[j] == v.1[j - 1]);
                    assert(rest[j + 1] == v.1[j]);
                }
            }
        }
    }
    lemma_ws_tokens_split(d, ' ', rest);
    lemma_ws_tokens_nonempty(rest, 0);
    assert forall|j: int| 0 <= j < c.len() && is_ws(#[trigger] c[j]) implies c[j] == ' ' by {
        if j < d.len() {
            assert(c[j] == d[j]);
        } else if j > d.len() {
            assert(c[j] == rest[j - d.len() - 1]);
        }
    }
    assert forall|j: int| 0 <= j < c.len() - 1 implies !(#[trigger] c[j] == ' ' && c[j + 1] == ' ') by {
        if j < d.len() {
            assert(c[j] == d[j]);
        } else {
            assert(c[j + 1] == rest[j - d.len()]);
            if j > d.len() {
                assert(c[j] == rest[j - d.len() - 1]);
            }
        }
    }
    assert(c[0] == d[0]);
    assert(c.last() == rest.last());
    lemma_join_tokens(c);
}

/// The tokens of the printed first commodity: a name with a space is quoted
/// and only its last token ends with a quote; the first token starts with
/// the quote and is longer than it. A name without a space is one token.
proof fn lemma_name_tokens(name: Seq<char>)
    requires
        price_name_ok(name),
    ensures
        ws_tokens(commodity_str(name)).len() > 0,
        name.contains(' ') ==> {
            let tq = ws_tokens(commodity_str(name));
            &&& tq.last().len() > 0 && tq.last().last() == '"'
            &&& forall|i: int| 0 <= i < tq.len() - 1 ==> !((#[trigger] tq[i]).len() > 0 && tq[i].last() == '"')
            &&& tq[0].len() > 1 && tq[0][0] == '"'
            &&& join(tq, seq![' ']) == commodity_str(name)
            &&& commodity_str(name).subrange(1, commodity_str(name).len() - 1) == name
        },
        !name.contains(' ') ==> ws_tokens(commodity_str(name)) == seq![name] && name[0] != '"',
{
    let q = commodity_str(name);
    if name.contains(' ') {
        assert(q =~= seq!['"'] + name + seq!['"']);
        assert forall|j: int| 0 <= j < q.len() && is_ws(#[trigger] q[j]) implies q[j] == ' ' by {
            if 0 < j < q.len() - 1 {
                assert(q[j] == name[j - 1]);
            }
        }
        assert forall|j: int| 0 <= j < q.len() - 1 implies !(#[trigger] q[j] == ' ' && q[j + 1] == ' ') by {
            if 0 < j < q.len() - 2 {
                assert(q[j] == name[j - 1]);
                assert(q[j + 1] == name[j]);
            }
        }
        assert forall|j: int| 0 < j < q.len() && #[trigger] q[j] == ' ' implies q[j - 1] != '"' by {
            assert(j < q.len() - 1);
            assert(q[j] == name[j - 1]);
            if j > 1 {
                assert(q[j - 1] == name[j - 2]);
            }
        }
        assert(q[1] == name[0]);
        lemma_tokens_quote_last(q);
        lemma_join_tokens(q);
        let w = choose|i: int| 0 <= i < name.len() && name[i] == ' ';
        assert(q[w + 1] == ' ');
        let k = first_ws_from(q, 0);
        lemma_first_ws(q, 0);
        let x = q.take(k);
        let y = q.skip(k + 1);
        assert(q =~= x + seq![q[k]] + y);
        lemma_ws_tokens_split(x, q[k], y);
        assert(no_ws(x));
        assert(k >= 1);
        assert(q[1] == name[0]);
        assert(!is_ws(q[1]));
        assert(k >= 2);
        lemma_ws_tokens_single(x);
        assert(q.subrange(1, q.len() - 1) =~= name);
    } else {
        assert(no_ws(name)) by {
            assert forall|j: int| 0 <= j < name.len() implies !is_ws(#[trigger] name[j]) by {
                if is_ws(name[j]) {
                    assert(name[j] == ' ');
                    assert(name.contains(' '));
                }
            }
        }
        lemma_ws_tokens_single(name);
    }
}

/// The tokens of a printed price directive: `P`, the date, the first
/// commodity's tokens and the value's tokens.
proof fn lemma_price_tokens(pv: PriceView)
    requires
        well_formed_name(pv.2.1),
    ensures
        ws_tokens(price_str(pv)) == seq![seq!['P'], date_str(pv.0.0, pv.0.1 as nat, pv.0.2 as nat)]
            + ws_tokens(commodity_str(pv.1)) + ws_tokens(commodity_value_journal_str(pv.2.0, pv.2.1)),
{
    let ds = date_str(pv.0.0, pv.0.1 as nat, pv.0.2 as nat);
    let q = commodity_str(pv.1);
    let c = commodity_value_journal_str(pv.2.0, pv.2.1);
    let s = price_str(pv);
    reveal_strlit("P ");
    assert("P "@ =~= seq!['P', ' ']);
    lemma_date_str_no_ws(pv.0.0, pv.0.1 as nat, pv.0.2 as nat);
    lemma_ws_tokens_single(ds);
    lemma_ws_tokens_single(seq!['P']);
    let r3 = q + seq![' '] + c;
    let r2 = ds + seq![' '] + r3;
    assert(s =~= seq!['P'] + seq![' '] + r2);
    lemma_ws_tokens_split(q, ' ', c);
    lemma_ws_tokens_split(ds, ' ', r3);
    lemma_ws_tokens_split(seq!['P'], ' ', r2);
    assert(ws_tokens(s) =~= seq![seq!['P'], ds] + ws_tokens(q) + ws_tokens(c));
}

/// Printing a price directive and parsing the line gives the directive back,
/// given that `chrono` reads the printed date as that date. The first
/// commodity's name is one that a price line carries (`price_name_ok`); the
/// value must be in canonical form, print with its sign and have a
/// well-formed commodity name.
#[verifier::rlimit(40)]
pub proof fn law_price_display_then_parse(p: PriceDirective)
    requires
        chrono_parse_date(date_str(p@.0.0, p@.0.1 as nat, p@.0.2 as nat), price_date_format()) matches Ok(t)
            && (t.0 as int, t.1 as int, t.2 as int) == p@.0,
        price_name_ok(p@.1),
        displayable(p@.2.0),
        is_canonical(p@.2.0),
        !(p@.2.0.1 > 0 && p@.2.0.0 < 0 && abs_int(p@.2.0.0) < pow10(p@.2.0.1)),
        well_formed_name(p@.2.1),
    ensures
        price_parsable(price_str(p@)),
        price_parse(price_str(p@)) == Ok::<PriceView, Seq<char>>(p@),
{
    let pv = p@;
    let ds = date_str(pv.0.0, pv.0.1 as nat, pv.0.2 as nat);
    let name = pv.1;
    let v = pv.2;
    law_journal_display_then_parse(p.value);
    lemma_value_text_tokens(v);
    lemma_name_tokens(name);
    lemma_price_tokens(pv);
    let tc = ws_tokens(commodity_value_journal_str(v.0, v.1));
    let tq = ws_tokens(commodity_str(name));
    let toks = ws_tokens(price_str(pv));
    assert(toks[1] == ds);
    assert(toks[2] == tq[0]);
    if name.contains(' ') {
        let end = 2 + tq.len() - 1;
        assert forall|j: int| 2 <= j < end implies !(toks[j].len() > 0 && toks[j].last() == '"') by {
            assert(toks[j] == tq[j - 2]);
        }
        assert(toks[end] == tq.last());
        lemma_closing_quote_from(toks, 2, end);
        assert(toks.subrange(2, end + 1) =~= tq);
        assert(toks.skip(end + 1) =~= tc);
    } else {
        assert(toks.skip(3) =~= tc);
    }
    crate::commodity_value::fixed_decimal::lemma_normalize(v.0.0, v.0.1);
    crate::commodity_value::fixed_decimal::lemma_canonical_unique(normalize(v.0.0, v.0.1), v.0);
}

} // verus!
