//! Reads a journal from its lines: transactions (a dated header line and the
//! indented posting lines under it) and price directives; every other line is
//! skipped.

use vstd::prelude::*;
use crate::commodity_value::fixed_decimal::{
    abs_int, decimal_str, displayable, in_i64, is_canonical, lemma_decimal_str_no_ws, normalize,
};
use crate::date::{Date, chrono_parse_date, date_str};
use crate::journal::{Journal, TransactionView, price_views, transaction_views};
use crate::journal::account::string_views;
use crate::price::{PriceDirective, PriceView, lemma_value_text_tokens, price_parsable, price_parse};
use crate::text::{
    before_first, before_first_chars, char_utf8_width, chars_before_byte, chars_of, is_boundary,
    is_ws, join, join_from, skip_bytes, split_char, split_on, split_whitespace, string_from,
    take_bytes, trim, trim_chars, trim_end, trim_end_chars, utf8_len, views, ws_tokens,
    lemma_split_on_free, lemma_trim_start_skip, lemma_ws_tokens_single, lemma_ws_tokens_split, no_ws,
    pow10, single_spaced, trim_start,
};
use crate::transaction::{Transaction, transaction_str};
use crate::transaction::commodity_value::{
    CommodityValue, commodity_value_journal_str, commodity_value_parse, lemma_journal_str_parse, well_formed_name,
};
use crate::transaction::posting::{Posting, PostingView, posting_str};

verus! {

/// `YYYY-MM-DD` in shape only: ten bytes, three `-`-separated pieces of
/// four, two and two bytes. Whether the date exists is left to the parser.
pub open spec fn is_date_spec(s: Seq<char>) -> bool {
    let parts = split_on(s, '-');
    &&& utf8_len(s) == 10
    &&& parts.len() == 3
    &&& utf8_len(parts[0]) == 4
    &&& utf8_len(parts[1]) == 2
    &&& utf8_len(parts[2]) == 2
}

/// What a (comment-free) line holds.
#[derive(Debug, Clone, Copy, PartialEq, Eq, Structural)]
pub enum DirectiveType {
    Transaction,
    Price,
    Other,
}

/// Judged by the first whitespace-separated token: a date shape starts a
/// transaction, `P` a price directive.
pub open spec fn line_kind(t: Seq<char>) -> DirectiveType {
    let toks = ws_tokens(t);
    let first = if toks.len() > 0 { toks[0] } else { Seq::<char>::empty() };
    if is_date_spec(first) {
        DirectiveType::Transaction
    } else if first == seq!['P'] {
        DirectiveType::Price
    } else {
        DirectiveType::Other
    }
}

/// A line without its comment and trailing whitespace.
pub open spec fn strip_line(l: Seq<char>) -> Seq<char> {
    trim_end(before_first(l, ';'))
}

/// The date format of a transaction header.
pub open spec fn header_date_format() -> Seq<char> {
    "%Y-%m-%d"@
}

/// The header's first ten bytes (the date) and what follows the eleventh
/// byte (the description) can be cut out; the latter is only cut once the
/// date has parsed.
pub open spec fn header_ok(h: Seq<char>) -> bool {
    &&& is_boundary(h, 10)
    &&& chrono_parse_date(h.take(chars_before_byte(h, 10)), header_date_format()) is Ok
        ==> is_boundary(h, 11)
}

/// A stripped line continues a transaction: it holds text and is indented.
pub open spec fn is_posting_line(t: Seq<char>) -> bool {
    trim(t).len() > 0 && (t[0] == ' ' || t[0] == '\t')
}

/// The posting of an indented line: the first token is the account, the
/// remaining tokens (joined by single spaces) the amount. `None` when the
/// amount does not parse (the line is skipped).
pub open spec fn posting_of(t: Seq<char>) -> Option<PostingView> {
    let toks = ws_tokens(t);
    let amount = join(toks.skip(1), seq![' ']);
    if amount.len() == 0 {
        Some((toks[0], None))
    } else {
        match commodity_value_parse(amount) {
            Some(p) => Some((toks[0], Some((normalize(p.0.0, p.0.1), p.1)))),
            None => None,
        }
    }
}

/// The postings read from line `j` on.
pub open spec fn collect_postings(lines: Seq<Seq<char>>, j: int) -> Seq<PostingView>
    decreases lines.len() - j,
{
    if j < 0 || j >= lines.len() {
        Seq::empty()
    } else {
        let t = strip_line(lines[j]);
        if !is_posting_line(t) {
            Seq::empty()
        } else {
            match posting_of(t) {
                Some(p) => seq![p] + collect_postings(lines, j + 1),
                None => collect_postings(lines, j + 1),
            }
        }
    }
}

/// The line after the postings read from line `j` on; the line that ends
/// them (blank or not indented) is consumed too.
pub open spec fn postings_end(lines: Seq<Seq<char>>, j: int) -> int
    decreases lines.len() - j,
{
    if j < 0 || j >= lines.len() {
        lines.len() as int
    } else if !is_posting_line(strip_line(lines[j])) {
        j + 1
    } else {
        postings_end(lines, j + 1)
    }
}

pub proof fn lemma_postings_end(lines: Seq<Seq<char>>, j: int)
    requires
        0 <= j <= lines.len(),
    ensures
        j <= postings_end(lines, j) <= lines.len(),
        j < lines.len() ==> j < postings_end(lines, j),
    decreases lines.len() - j,
{
    if j < lines.len() && is_posting_line(strip_line(lines[j])) {
        lemma_postings_end(lines, j + 1);
    }
}

/// The transaction whose header is line `i`, and the line after it. A header
/// whose date does not parse yields nothing and consumes only itself.
pub open spec fn transaction_at(lines: Seq<Seq<char>>, i: int) -> (Option<TransactionView>, int) {
    let h = strip_line(lines[i]);
    match chrono_parse_date(h.take(chars_before_byte(h, 10)), header_date_format()) {
        Err(_) => (None, i + 1),
        Ok(d) => (
            Some(((d.0 as int, d.1 as int, d.2 as int), trim(h.skip(chars_before_byte(h, 11))), collect_postings(lines, i + 1))),
            postings_end(lines, i + 1),
        ),
    }
}

pub proof fn lemma_transaction_at_advances(lines: Seq<Seq<char>>, i: int)
    requires
        0 <= i < lines.len(),
    ensures
        i < transaction_at(lines, i).1 <= lines.len(),
{
    lemma_postings_end(lines, i + 1);
}

/// The transactions and prices read from line `i` on.
pub open spec fn journal_from(lines: Seq<Seq<char>>, i: int) -> (Seq<TransactionView>, Seq<PriceView>)
    decreases lines.len() - i,
{
    if i < 0 || i >= lines.len() {
        (Seq::empty(), Seq::empty())
    } else {
        let t = strip_line(lines[i]);
        if t.len() == 0 {
            journal_from(lines, i + 1)
        } else if line_kind(t) == DirectiveType::Transaction {
            let (tx, next) = transaction_at(lines, i);
            proof {
                lemma_transaction_at_advances(lines, i);
            }
            let rest = journal_from(lines, next);
            match tx {
                Some(v) => (seq![v] + rest.0, rest.1),
                None => rest,
            }
        } else if line_kind(t) == DirectiveType::Price {
            let rest = journal_from(lines, i + 1);
            match price_parse(t) {
                Ok(p) => (rest.0, seq![p] + rest.1),
                Err(_) => rest,
            }
        } else {
            journal_from(lines, i + 1)
        }
    }
}

/// Every header and price line met while reading from line `i` can be read
/// without panicking.
pub open spec fn journal_ok_from(lines: Seq<Seq<char>>, i: int) -> bool
    decreases lines.len() - i,
{
    if i < 0 || i >= lines.len() {
        true
    } else {
        let t = strip_line(lines[i]);
        if t.len() == 0 {
            journal_ok_from(lines, i + 1)
        } else if line_kind(t) == DirectiveType::Transaction {
            proof {
                lemma_transaction_at_advances(lines, i);
            }
            header_ok(t) && journal_ok_from(lines, transaction_at(lines, i).1)
        } else if line_kind(t) == DirectiveType::Price {
            price_parsable(t) && journal_ok_from(lines, i + 1)
        } else {
            journal_ok_from(lines, i + 1)
        }
    }
}

/// The whole journal can be read without panicking.
pub open spec fn journal_parsable(lines: Seq<Seq<char>>) -> bool {
    journal_ok_from(lines, 0)
}

/// Whether the UTF-8 encoding of `cs` is exactly `target` bytes long.
fn utf8_len_is(cs: &[char], target: usize) -> (r: bool)
    ensures
        r == (utf8_len(cs@) == target),
{
    let mut acc: usize = 0;
    let mut i: usize = 0;
    while i < cs.len()
        invariant
            i <= cs.len(),
            acc == utf8_len(cs@.take(i as int)),
            acc <= target,
        decreases cs.len() - i,
    {
        let w = char_utf8_width(cs[i]);
        assert(cs@.take(i + 1).drop_last() =~= cs@.take(i as int));
        if w > target - acc {
            proof {
                lemma_utf8_len_mono(cs@, i + 1);
            }
            return false;
        }
        acc = acc + w;
        i = i + 1;
    }
    assert(cs@.take(i as int) =~= cs@);
    acc == target
}

proof fn lemma_utf8_len_mono(s: Seq<char>, k: int)
    requires
        0 <= k <= s.len(),
    ensures
        utf8_len(s.take(k)) <= utf8_len(s),
    decreases s.len() - k,
{
    if k < s.len() {
        lemma_utf8_len_mono(s, k + 1);
        assert(s.take(k + 1).drop_last() =~= s.take(k));
    } else {
        assert(s.take(k) =~= s);
    }
}

/// Whether `s` has the shape `YYYY-MM-DD` (see `is_date_spec`).
fn is_date(s: &[char]) -> (r: bool)
    ensures
        r == is_date_spec(s@),
{
    if !utf8_len_is(s, 10) {
        return false;
    }
    let parts = split_char(s, '-');
    if parts.len() != 3 {
        return false;
    }
    assert(views(parts@)[0] == parts@[0]@);
    assert(views(parts@)[1] == parts@[1]@);
    assert(views(parts@)[2] == parts@[2]@);
    utf8_len_is(&parts[0], 4) && utf8_len_is(&parts[1], 2) && utf8_len_is(&parts[2], 2)
}

impl DirectiveType {
    /// The kind of a comment-free line, by its first token.
    fn scan_line(t: &[char]) -> (r: DirectiveType)
        ensures
            r == line_kind(t@),
    {
        let toks = split_whitespace(t);
        let first: Vec<char> = if toks.len() > 0 {
            assert(views(toks@)[0] == toks@[0]@);
            toks[0].clone()
        } else {
            Vec::new()
        };
        assert(first@ == (if ws_tokens(t@).len() > 0 { ws_tokens(t@)[0] } else { Seq::<char>::empty() }));
        if is_date(&first) {
            return DirectiveType::Transaction;
        }
        if first.len() == 1 && first[0] == 'P' {
            assert(first@ =~= seq!['P']);
            return DirectiveType::Price;
        }
        proof {
            if first@ == seq!['P'] {
                assert(first@.len() == 1);
            }
        }
        DirectiveType::Other
    }
}

fn strip_line_chars(l: &str) -> (r: Vec<char>)
    ensures
        r@ == strip_line(l@),
{
    let cs = chars_of(l);
    let before = before_first_chars(&cs, ';');
    trim_end_chars(&before)
}

/// Reads the postings from line `j` on; answers them and the line after them.
fn read_postings(lines: &Vec<String>, j: usize) -> (r: (Vec<Posting>, usize))
    requires
        j <= lines.len(),
    ensures
        crate::transaction::posting_views(r.0@) == collect_postings(string_views(lines@), j as int),
        r.1 as int == postings_end(string_views(lines@), j as int),
{
    let ghost lv = string_views(lines@);
    let mut ps: Vec<Posting> = Vec::new();
    let mut k: usize = j;
    let mut done = false;
    let mut end: usize = lines.len();
    while k < lines.len() && !done
        invariant
            j <= k <= lines.len(),
            lv == string_views(lines@),
            done ==> end as int == postings_end(lv, j as int) && crate::transaction::posting_views(ps@) == collect_postings(lv, j as int),
            !done ==> crate::transaction::posting_views(ps@) + collect_postings(lv, k as int) == collect_postings(lv, j as int),
            !done ==> postings_end(lv, k as int) == postings_end(lv, j as int),
        decreases lines.len() - k + (if done { 0int } else { 1int }),
    {
        let t = strip_line_chars(lines[k].as_str());
        assert(lv[k as int] == lines@[k as int]@);
        let (a, b) = crate::text::trim_bounds(&t);
        if a == b || !(t[0] == ' ' || t[0] == '\t') {
            proof {
                assert(!is_posting_line(t@));
                assert(collect_postings(lv, k as int) == Seq::<PostingView>::empty());
                assert(crate::transaction::posting_views(ps@) + Seq::<PostingView>::empty() =~= crate::transaction::posting_views(ps@));
            }
            end = k + 1;
            done = true;
        } else {
            assert(is_posting_line(t@));
            proof {
                crate::text::lemma_trim_start_first(t@);
                assert(t@.skip(a as int)[0] == t@[a as int]);
                crate::text::lemma_ws_tokens_nonempty(t@, a as int);
            }
            let toks = split_whitespace(&t);
            assert(views(toks@)[0] == toks@[0]@);
            let mut sep: Vec<char> = Vec::new();
            sep.push(' ');
            assert(sep@ =~= seq![' ']);
            let amount = join_from(&toks, 1, &sep);
            let account = string_from(&toks[0]);
            let ghost old_ps = ps@;
            if amount.len() == 0 {
                ps.push(Posting::new(account, None));
                proof {
                    assert(crate::transaction::posting_views(ps@) =~= crate::transaction::posting_views(old_ps).push(ps@.last()@));
                    assert(crate::transaction::posting_views(old_ps) + collect_postings(lv, k as int)
                        =~= crate::transaction::posting_views(ps@) + collect_postings(lv, k + 1));
                }
            } else {
                let amount_text = string_from(&amount);
                match CommodityValue::from_str(amount_text.as_str()) {
                    Ok(v) => {
                        ps.push(Posting::new(account, Some(v)));
                        proof {
                            assert(crate::transaction::posting_views(ps@) =~= crate::transaction::posting_views(old_ps).push(ps@.last()@));
                            assert(crate::transaction::posting_views(old_ps) + collect_postings(lv, k as int)
                                =~= crate::transaction::posting_views(ps@) + collect_postings(lv, k + 1));
                        }
                    },
                    Err(_) => {},
                }
            }
            k = k + 1;
        }
    }
    if !done {
        proof {
            assert(collect_postings(lv, k as int) == Seq::<PostingView>::empty());
            assert(crate::transaction::posting_views(ps@) + Seq::<PostingView>::empty() =~= crate::transaction::posting_views(ps@));
        }
        end = lines.len();
    }
    (ps, end)
}

/// Reads the transaction whose header is line `i`: the date from the first
/// ten bytes, the description from after the eleventh, then the postings.
fn parse_transaction(lines: &Vec<String>, i: usize) -> (r: (Option<Transaction>, usize))
    requires
        i < lines.len(),
        header_ok(strip_line(lines@[i as int]@)),
    ensures
        r.1 as int == transaction_at(string_views(lines@), i as int).1,
        match r.0 {
            Some(t) => transaction_at(string_views(lines@), i as int).0 == Some(t@),
            None => transaction_at(string_views(lines@), i as int).0 is None,
        },
{
    let ghost lv = string_views(lines@);
    assert(lv[i as int] == lines@[i as int]@);
    let h = strip_line_chars(lines[i].as_str());
    let head = match take_bytes(&h, 10) {
        Some(v) => v,
        None => return (None, i + 1),
    };
    let head_text = string_from(&head);
    let fmt = "%Y-%m-%d";
    assert(fmt@ == header_date_format());
    let date = match Date::parse_from_str(head_text.as_str(), fmt) {
        Ok(d) => d,
        Err(_) => return (None, i + 1),
    };
    let rest = match skip_bytes(&h, 11) {
        Some(v) => v,
        None => return (None, i + 1),
    };
    let description = string_from(&trim_chars(&rest));
    let (ps, end) = read_postings(lines, i + 1);
    let t = Transaction::new(date, description, ps);
    (Some(t), end)
}

/// Reads the journal from its lines. Transaction headers (a `YYYY-MM-DD`
/// first token) take the indented lines below them as postings, up to and
/// including the first blank or unindented line; `P` lines are price
/// directives; anything else, and what fails to parse, is skipped.
pub fn parse_journal(lines: &Vec<String>) -> (r: Journal)
    requires
        journal_parsable(string_views(lines@)),
    ensures
        r@ == journal_from(string_views(lines@), 0),
{
    let ghost lv = string_views(lines@);
    let mut transactions: Vec<Transaction> = Vec::new();
    let mut prices: Vec<PriceDirective> = Vec::new();
    let mut i: usize = 0;
    while i < lines.len()
        invariant
            i <= lines.len(),
            lv == string_views(lines@),
            journal_ok_from(lv, i as int),
            transaction_views(transactions@) + journal_from(lv, i as int).0 == journal_from(lv, 0).0,
            price_views(prices@) + journal_from(lv, i as int).1 == journal_from(lv, 0).1,
        decreases lines.len() - i,
    {
        assert(lv[i as int] == lines@[i as int]@);
        let t = strip_line_chars(lines[i].as_str());
        let ghost old_t = transactions@;
        let ghost old_p = prices@;
        if t.len() == 0 {
            i = i + 1;
        } else {
            let kind = DirectiveType::scan_line(&t);
            match kind {
                DirectiveType::Transaction => {
                    proof {
                        lemma_transaction_at_advances(lv, i as int);
                    }
                    let (tx, next) = parse_transaction(lines, i);
                    match tx {
                        Some(v) => {
                            transactions.push(v);
                            assert(transaction_views(transactions@) =~= transaction_views(old_t).push(transactions@.last()@));
                            assert(transaction_views(old_t) + journal_from(lv, i as int).0
                                =~= transaction_views(transactions@) + journal_from(lv, next as int).0);
                        },
                        None => {},
                    }
                    i = next;
                },
                DirectiveType::Price => {
                    let text = string_from(&t);
                    match PriceDirective::from_str(text.as_str()) {
                        Ok(p) => {
                            prices.push(p);
                            assert(price_views(prices@) =~= price_views(old_p).push(prices@.last()@));
                            assert(price_views(old_p) + journal_from(lv, i as int).1
                                =~= price_views(prices@) + journal_from(lv, i + 1).1);
                        },
                        Err(_) => {},
                    }
                    i = i + 1;
                },
                DirectiveType::Other => {
                    i = i + 1;
                },
            }
        }
    }
    proof {
        assert(transaction_views(transactions@) + Seq::<TransactionView>::empty() =~= transaction_views(transactions@));
        assert(price_views(prices@) + Seq::<PriceView>::empty() =~= price_views(prices@));
    }
    Journal { transactions, prices }
}

/// Whether `parse_journal` can read these lines without panicking (see
/// `journal_parsable`).
pub fn journal_parsable_check(lines: &Vec<String>) -> (r: bool)
    ensures
        r == journal_parsable(string_views(lines@)),
{
    let ghost lv = string_views(lines@);
    let mut i: usize = 0;
    while i < lines.len()
        invariant
            i <= lines.len(),
            lv == string_views(lines@),
            journal_ok_from(lv, 0) == journal_ok_from(lv, i as int),
        decreases lines.len() - i,
    {
        assert(lv[i as int] == lines@[i as int]@);
        let t = strip_line_chars(lines[i].as_str());
        if t.len() == 0 {
            i = i + 1;
        } else {
            let kind = DirectiveType::scan_line(&t);
            match kind {
                DirectiveType::Transaction => {
                    proof {
                        lemma_transaction_at_advances(lv, i as int);
                    }
                    let head = match take_bytes(&t, 10) {
                        Some(v) => v,
                        None => return false,
                    };
                    let head_text = string_from(&head);
                    let fmt = "%Y-%m-%d";
                    assert(fmt@ == header_date_format());
                    match Date::parse_from_str(head_text.as_str(), fmt) {
                        Ok(_) => {
                            match skip_bytes(&t, 11) {
                                Some(_) => {},
                                None => return false,
                            }
                            let (_, end) = read_postings(lines, i + 1);
                            i = end;
                        },
                        Err(_) => {
                            i = i + 1;
                        },
                    }
                },
                DirectiveType::Price => {
                    let text = string_from(&t);
                    match PriceDirective::from_str_checked(text.as_str()) {
                        Some(_) => {},
                        None => return false,
                    }
                    i = i + 1;
                },
                DirectiveType::Other => {
                    i = i + 1;
                },
            }
        }
    }
    true
}

/// `parse_journal` where it can read the lines, `None` where it would panic.
pub fn parse_journal_checked(lines: &Vec<String>) -> (r: Option<Journal>)
    ensures
        r is None <==> !journal_parsable(string_views(lines@)),
        r matches Some(j) ==> j@ == journal_from(string_views(lines@), 0),
{
    if journal_parsable_check(lines) {
        Some(parse_journal(lines))
    } else {
        None
    }
}

/// The lines the writer appends for a transaction: a blank line, the header
/// `YYYY-MM-DD description`, and each posting indented by a tab.
pub open spec fn entry_lines(t: TransactionView) -> Seq<Seq<char>> {
    seq![Seq::<char>::empty(), date_str(t.0.0, t.0.1 as nat, t.0.2 as nat) + seq![' '] + t.1]
        + t.2.map_values(|p: PostingView| seq!['\t'] + posting_str(p))
}

/// A posting the parser reads back as written: an account without whitespace
/// or `;`, and an amount in canonical form that prints with its sign, whose
/// commodity name is well formed and free of `;`.
pub open spec fn readable_posting(p: PostingView) -> bool {
    &&& p.0.len() > 0
    &&& no_ws(p.0)
    &&& !p.0.contains(';')
    &&& match p.1 {
        Some(v) => displayable(v.0) && is_canonical(v.0) && in_i64(v.0.0) && v.0.1 < 256
            && !(v.0.1 > 0 && v.0.0 < 0 && abs_int(v.0.0) < pow10(v.0.1))
            && well_formed_name(v.1) && !v.1.contains(';'),
        None => true,
    }
}

/// A transaction the parser reads back as written: a four-digit year, a
/// description without `;` and without surrounding whitespace, readable postings.
pub open spec fn readable_entry(t: TransactionView) -> bool {
    &&& 0 <= t.0.0 <= 9999 && 1 <= t.0.1 <= 12 && 1 <= t.0.2 <= 31
    &&& t.1.len() > 0 && !is_ws(t.1[0]) && !is_ws(t.1.last()) && !t.1.contains(';')
    &&& forall|k: int| 0 <= k < t.2.len() ==> readable_posting(#[trigger] t.2[k])
}

proof fn lemma_no_char_concat(a: Seq<char>, b: Seq<char>, c: char)
    requires
        !a.contains(c),
        !b.contains(c),
    ensures
        !(a + b).contains(c),
{
    if (a + b).contains(c) {
        let k = choose|k: int| 0 <= k < (a + b).len() && (a + b)[k] == c;
        if k < a.len() {
            assert(a[k] == c);
        } else {
            assert(b[k - a.len()] == c);
        }
    }
}

/// The journal text of a readable value holds no `;`.
proof fn lemma_value_text_no_semicolon(v: ((int, nat), Seq<char>))
    requires
        !v.1.contains(';'),
    ensures
        !commodity_value_journal_str(v.0, v.1).contains(';'),
{
    lemma_decimal_str_no_ws(v.0);
    let d = decimal_str(v.0);
    let c = commodity_value_journal_str(v.0, v.1);
    if c.contains(';') {
        let k = choose|k: int| 0 <= k < c.len() && c[k] == ';';
        if v.1.contains(' ') {
            assert(c =~= d + seq![' ', '"'] + v.1 + seq!['"']);
            if k < d.len() {
                assert(c[k] == d[k]);
            } else if d.len() + 1 < k < c.len() - 1 {
                assert(c[k] == v.1[k - d.len() - 2]);
            }
        } else {
            assert(c =~= d + seq![' '] + v.1);
            if k < d.len() {
                assert(c[k] == d[k]);
            } else if k > d.len() {
                assert(c[k] == v.1[k - d.len() - 1]);
            }
        }
    }
}

/// A posting line indented by a space or a tab strips to itself, continues
/// the transaction and reads back as the posting.
proof fn lemma_posting_line(p: PostingView, c: char)
    requires
        readable_posting(p),
        c == ' ' || c == '\t',
    ensures
        strip_line(seq![c] + posting_str(p)) == seq![c] + posting_str(p),
        is_posting_line(seq![c] + posting_str(p)),
        posting_of(seq![c] + posting_str(p)) == Some(p),
{
    let body = posting_str(p);
    let l = seq![c] + body;
    let acc = p.0;
    lemma_ws_tokens_single(acc);
    assert(!acc.contains(';'));
    match p.1 {
        None => {
            assert(body == acc);
        },
        Some(v) => {
            let cs = commodity_value_journal_str(v.0, v.1);
            lemma_value_text_tokens(v);
            lemma_journal_str_parse(v);
            lemma_value_text_no_semicolon(v);
            lemma_decimal_str_no_ws(v.0);
            assert(cs[0] == decimal_str(v.0)[0]) by {
                if v.1.contains(' ') {
                    assert(cs =~= decimal_str(v.0) + seq![' ', '"'] + v.1 + seq!['"']);
                } else {
                    assert(cs =~= decimal_str(v.0) + seq![' '] + v.1);
                }
            }
            assert(body =~= acc + seq![' '] + (Seq::<char>::empty() + seq![' '] + cs));
            lemma_ws_tokens_split(Seq::<char>::empty(), ' ', cs);
            lemma_ws_tokens_split(acc, ' ', Seq::<char>::empty() + seq![' '] + cs);
            assert(ws_tokens(Seq::<char>::empty()) =~= Seq::<Seq<char>>::empty());
            assert(Seq::<char>::empty() + seq![' '] + cs =~= seq![' '] + cs);
            lemma_no_char_concat(acc, seq![' ', ' '], ';');
            lemma_no_char_concat(acc + seq![' ', ' '], cs, ';');
            assert(!is_ws(cs.last())) by {
                let ss = single_spaced(cs);
                assert(cs.last() != ' ');
            }
            crate::commodity_value::fixed_decimal::lemma_normalize(v.0.0, v.0.1);
            crate::commodity_value::fixed_decimal::lemma_canonical_unique(normalize(v.0.0, v.0.1), v.0);
        },
    }
    // the whole line
    assert(!body.contains(';'));
    assert(!l.contains(';')) by {
        lemma_no_char_concat(seq![c], body, ';');
    }
    lemma_split_on_free(l, ';');
    assert(before_first(l, ';') == l);
    assert(body.len() > 0 && !is_ws(body.last()));
    assert(l.last() == body.last());
    assert(trim_end(l) == l);
    assert(l =~= Seq::<char>::empty() + seq![c] + body);
    lemma_ws_tokens_split(Seq::<char>::empty(), c, body);
    assert(ws_tokens(Seq::<char>::empty()) =~= Seq::<Seq<char>>::empty());
    assert(ws_tokens(l) =~= ws_tokens(body));
    // the line is not blank
    lemma_trim_start_skip(l, 1);
    assert(l.skip(1) =~= body);
    assert(body[0] == acc[0]);
    assert(trim_start(body) == body);
    assert(trim(l) == trim_end(body));
    assert(trim_end(body) == body);
    if p.1 is None {
        assert(ws_tokens(l).skip(1) =~= Seq::<Seq<char>>::empty());
    } else {
        let cs = commodity_value_journal_str(p.1->Some_0.0, p.1->Some_0.1);
        assert(ws_tokens(l) =~= seq![acc] + ws_tokens(cs));
        assert(ws_tokens(l).skip(1) =~= ws_tokens(cs));
    }
}


/// A posting line is read the same whether it is indented by a space or by a
/// tab: the line is read as its posting, and the postings of the transaction
/// go on with the next line.
pub proof fn law_indented_posting_line_reads(lines: Seq<Seq<char>>, j: int, p: PostingView, c: char)
    requires
        readable_posting(p),
        c == ' ' || c == '\t',
        0 <= j < lines.len(),
        lines[j] == seq![c] + posting_str(p),
    ensures
        collect_postings(lines, j) == seq![p] + collect_postings(lines, j + 1),
        postings_end(lines, j) == postings_end(lines, j + 1),
{
    lemma_posting_line(p, c);
}

/// The header line of a written transaction strips to itself, starts a
/// transaction, can be cut as the parser cuts it, and gives back the date
/// text and the description.
proof fn lemma_header_line(t: TransactionView)
    requires
        readable_entry(t),
    ensures
        ({
            let ds = date_str(t.0.0, t.0.1 as nat, t.0.2 as nat);
            let h = ds + seq![' '] + t.1;
            &&& strip_line(h) == h
            &&& h.len() > 0
            &&& line_kind(h) == DirectiveType::Transaction
            &&& is_boundary(h, 10)
            &&& is_boundary(h, 11)
            &&& h.take(chars_before_byte(h, 10)) == ds
            &&& trim(h.skip(chars_before_byte(h, 11))) == t.1
        }),
{
    let ds = date_str(t.0.0, t.0.1 as nat, t.0.2 as nat);
    let h = ds + seq![' '] + t.1;
    crate::date::lemma_date_str_shape(t.0.0, t.0.1 as nat, t.0.2 as nat);
    crate::date::lemma_date_str_no_ws(t.0.0, t.0.1 as nat, t.0.2 as nat);
    // no comment, no trailing whitespace
    lemma_no_char_concat(ds, seq![' '], ';');
    lemma_no_char_concat(ds + seq![' '], t.1, ';');
    lemma_split_on_free(h, ';');
    assert(before_first(h, ';') == h);
    assert(h.last() == t.1.last());
    assert(trim_end(h) == h);
    // the first token is the date
    lemma_ws_tokens_single(ds);
    lemma_ws_tokens_split(ds, ' ', t.1);
    assert(ws_tokens(h)[0] == ds);
    assert(is_date_spec(ds)) by {
        let parts = split_on(ds, '-');
        crate::text::lemma_utf8_len_ascii(ds);
        crate::text::lemma_utf8_len_ascii(parts[0]);
        crate::text::lemma_utf8_len_ascii(parts[1]);
        crate::text::lemma_utf8_len_ascii(parts[2]);
    }
    // the byte offsets
    assert(h.take(10) =~= ds);
    crate::text::lemma_utf8_len_ascii(h.take(10));
    crate::text::lemma_boundary_at(h, 10, 10);
    assert forall|i: int| 0 <= i < 11 implies (#[trigger] h.take(11)[i] as u32) < 0x80 by {
        if i < 10 {
            assert(h.take(11)[i] == ds[i]);
        } else {
            assert(h.take(11)[i] == ' ');
        }
    }
    crate::text::lemma_utf8_len_ascii(h.take(11));
    crate::text::lemma_boundary_at(h, 11, 11);
    assert(h.skip(11) =~= t.1);
    crate::text::lemma_trim_id(t.1);
    assert(strip_line(h) == h);
    assert(line_kind(h) == DirectiveType::Transaction);
    assert(h.take(chars_before_byte(h, 10)) == ds);
    assert(trim(h.skip(chars_before_byte(h, 11))) == t.1);
}

/// The lines from `j` on of a written transaction are its postings from
/// `j - 2` on, and they run to the end of the lines.
proof fn lemma_posting_lines(t: TransactionView, j: int)
    requires
        readable_entry(t),
        2 <= j <= entry_lines(t).len(),
    ensures
        collect_postings(entry_lines(t), j) == t.2.skip(j - 2),
        postings_end(entry_lines(t), j) == entry_lines(t).len(),
    decreases entry_lines(t).len() - j,
{
    let lines = entry_lines(t);
    if j < lines.len() {
        let p = t.2[j - 2];
        assert(readable_posting(p));
        assert(lines[j] == seq!['\t'] + posting_str(p));
        lemma_posting_line(p, '\t');
        lemma_posting_lines(t, j + 1);
        assert(t.2.skip(j - 2) =~= seq![p] + t.2.skip(j - 1));
    } else {
        assert(t.2.skip(j - 2) =~= Seq::<PostingView>::empty());
    }
}

/// A transaction appended by the writer reads back as that transaction, and
/// as nothing else, given that `chrono` reads the printed date as that date:
/// the lines read are those of the writer's text (for a transaction with
/// postings), and the journal they make holds just that transaction.
/// The year has four digits; the description is not blank, has no `;` and
/// no surrounding whitespace; each account is one token without `;`; each
/// amount is in canonical form, prints with its sign and has a well-formed
/// commodity name without `;`.
pub proof fn law_written_transaction_reads_back(t: Transaction)
    requires
        readable_entry(t@),
        chrono_parse_date(date_str(t@.0.0, t@.0.1 as nat, t@.0.2 as nat), header_date_format()) matches Ok(d)
            && (d.0 as int, d.1 as int, d.2 as int) == t@.0,
    ensures
        t@.2.len() > 0 ==> join(entry_lines(t@), seq!['\n']) + seq!['\n']
            == seq!['\n'] + transaction_str(t@.0, t@.1, t@.2) + seq!['\n'],
        journal_parsable(entry_lines(t@)),
        journal_from(entry_lines(t@), 0) == (seq![t@], Seq::<PriceView>::empty()),
{
    let tv = t@;
    let lines = entry_lines(tv);
    let ds = date_str(tv.0.0, tv.0.1 as nat, tv.0.2 as nat);
    let h = ds + seq![' '] + tv.1;
    assert(lines[1] == h);
    assert(lines.len() == tv.2.len() + 2);
    lemma_header_line(tv);
    lemma_posting_lines(tv, 2);
    assert(tv.2.skip(0) =~= tv.2);
    // the blank first line
    lemma_split_on_free(Seq::<char>::empty(), ';');
    assert(strip_line(lines[0]).len() == 0);
    // the header
    assert(strip_line(lines[1]) == h);
    assert(transaction_at(lines, 1) == (Some::<TransactionView>(tv), lines.len() as int));
    assert(journal_from(lines, lines.len() as int) == (Seq::<TransactionView>::empty(), Seq::<PriceView>::empty()));
    assert(journal_from(lines, 1) == (seq![tv] + Seq::<TransactionView>::empty(), Seq::<PriceView>::empty()));
    assert(seq![tv] + Seq::<TransactionView>::empty() =~= seq![tv]);
    assert(header_ok(h));
    assert(journal_ok_from(lines, lines.len() as int));
    assert(journal_ok_from(lines, 1));
    // the writer's text
    if tv.2.len() > 0 {
        let ps = tv.2.map_values(|p: PostingView| seq!['\t'] + posting_str(p));
        assert(lines =~= seq![Seq::<char>::empty()] + (seq![h] + ps));
        crate::text::lemma_join_prepend(h, ps, seq!['\n']);
        crate::text::lemma_join_prepend(Seq::<char>::empty(), seq![h] + ps, seq!['\n']);
        assert(join(lines, seq!['\n']) =~= seq!['\n'] + transaction_str(tv.0, tv.1, tv.2));
    }
}

} // verus!
