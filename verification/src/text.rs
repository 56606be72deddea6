//! Character-level text utilities shared by the parsers and formatters.
//!
//! Strings are reasoned about through their view, a `Seq<char>`. The spec
//! functions here give the meaning of the std operations the journal format
//! relies on: Unicode whitespace, trimming, splitting on whitespace or on a
//! separator, joining, and decimal digits.

use vstd::prelude::*;

verus! {

/// `String::push` appends `ch`: the string's characters afterwards are those
/// before, followed by `ch`.
pub assume_specification[ String::push ](s: &mut String, ch: char)
    ensures
        final(s)@ == old(s)@.push(ch),
;

// ---------------------------------------------------------------------------
// Conversions between `str`/`String` and character vectors
// ---------------------------------------------------------------------------

/// The characters of `s`, in order.
pub fn chars_of(s: &str) -> (v: Vec<char>)
    ensures
        v@ == s@,
{
    let mut v: Vec<char> = Vec::new();
    for c in it: s.chars()
        invariant
            v@ == it.seq().take(it.index() as int),
    {
        v.push(c);
    }
    v
}

/// A `String` holding exactly the characters of `v`.
pub fn string_from(v: &[char]) -> (s: String)
    ensures
        s@ == v@,
{
    let mut s = String::new();
    let mut i: usize = 0;
    while i < v.len()
        invariant
            i <= v.len(),
            s@ == v@.take(i as int),
        decreases v.len() - i,
    {
        s.push(v[i]);
        i = i + 1;
        assert(v@.take(i as int) =~= v@.take(i - 1).push(v@[i - 1]));
    }
    assert(v@.take(v.len() as int) =~= v@);
    s
}

/// Appends the characters of `v` to `s`.
pub fn push_chars(s: &mut String, v: &[char])
    ensures
        final(s)@ == old(s)@ + v@,
{
    let mut i: usize = 0;
    while i < v.len()
        invariant
            i <= v.len(),
            s@ == old(s)@ + v@.take(i as int),
        decreases v.len() - i,
    {
        s.push(v[i]);
        i = i + 1;
        assert(v@.take(i as int) =~= v@.take(i - 1).push(v@[i - 1]));
    }
    assert(v@.take(v.len() as int) =~= v@);
}

/// The views of a sequence of character vectors.
pub open spec fn views(v: Seq<Vec<char>>) -> Seq<Seq<char>> {
    v.map_values(|x: Vec<char>| x@)
}

// ---------------------------------------------------------------------------
// Whitespace
// ---------------------------------------------------------------------------

/// The Unicode `White_Space` property, which `char::is_whitespace`,
/// `str::trim` and `str::split_whitespace` use.
pub open spec fn is_ws(c: char) -> bool {
    ||| c == '\t' || c == '\n' || c == '\u{0B}' || c == '\u{0C}' || c == '\r' || c == ' '
    ||| c == '\u{85}' || c == '\u{A0}' || c == '\u{1680}'
    ||| ('\u{2000}' as u32 <= c as u32 && c as u32 <= '\u{200A}' as u32)
    ||| c == '\u{2028}' || c == '\u{2029}' || c == '\u{202F}' || c == '\u{205F}' || c == '\u{3000}'
}

pub fn is_whitespace(c: char) -> (b: bool)
    ensures
        b == is_ws(c),
{
    c == '\t' || c == '\n' || c == '\u{0B}' || c == '\u{0C}' || c == '\r' || c == ' '
        || c == '\u{85}' || c == '\u{A0}' || c == '\u{1680}'
        || ('\u{2000}' <= c && c <= '\u{200A}')
        || c == '\u{2028}' || c == '\u{2029}' || c == '\u{202F}' || c == '\u{205F}'
        || c == '\u{3000}'
}


// ---------------------------------------------------------------------------
// Sub-sequences
// ---------------------------------------------------------------------------

/// A copy of `v[a..b]`.
pub fn subvec(v: &[char], a: usize, b: usize) -> (r: Vec<char>)
    requires
        a <= b <= v.len(),
    ensures
        r@ == v@.subrange(a as int, b as int),
{
    let mut r: Vec<char> = Vec::new();
    let mut i: usize = a;
    while i < b
        invariant
            a <= i <= b <= v.len(),
            r@ == v@.subrange(a as int, i as int),
        decreases b - i,
    {
        r.push(v[i]);
        i = i + 1;
        assert(v@.subrange(a as int, i as int) =~= v@.subrange(a as int, i - 1).push(v@[i - 1]));
    }
    r
}

/// `a ++ b` as a new vector.
pub fn concat(a: &[char], b: &[char]) -> (r: Vec<char>)
    ensures
        r@ == a@ + b@,
{
    let mut r: Vec<char> = Vec::new();
    let mut i: usize = 0;
    while i < a.len()
        invariant
            i <= a.len(),
            r@ == a@.take(i as int),
        decreases a.len() - i,
    {
        r.push(a[i]);
        i = i + 1;
        assert(a@.take(i as int) =~= a@.take(i - 1).push(a@[i - 1]));
    }
    assert(a@.take(a.len() as int) =~= a@);
    let mut j: usize = 0;
    while j < b.len()
        invariant
            j <= b.len(),
            r@ == a@ + b@.take(j as int),
        decreases b.len() - j,
    {
        r.push(b[j]);
        j = j + 1;
        assert(b@.take(j as int) =~= b@.take(j - 1).push(b@[j - 1]));
    }
    assert(b@.take(b.len() as int) =~= b@);
    r
}

/// Whether `a` and `b` hold the same characters.
pub fn chars_eq(a: &[char], b: &[char]) -> (r: bool)
    ensures
        r == (a@ == b@),
{
    if a.len() != b.len() {
        return false;
    }
    let mut i: usize = 0;
    while i < a.len()
        invariant
            i <= a.len() == b.len(),
            a@.take(i as int) == b@.take(i as int),
        decreases a.len() - i,
    {
        if a[i] != b[i] {
            assert(a@[i as int] != b@[i as int]);
            return false;
        }
        i = i + 1;
        assert(a@.take(i as int) =~= a@.take(i - 1).push(a@[i - 1]));
        assert(b@.take(i as int) =~= b@.take(i - 1).push(b@[i - 1]));
    }
    assert(a@ =~= a@.take(a.len() as int));
    assert(b@ =~= b@.take(b.len() as int));
    true
}

/// Whether a string is empty.
pub fn str_is_empty(s: &str) -> (r: bool)
    ensures
        r == (s@.len() == 0),
{
    chars_of(s).len() == 0
}

/// Whether two strings are equal.
pub fn str_eq(a: &str, b: &str) -> (r: bool)
    ensures
        r == (a@ == b@),
{
    let x = chars_of(a);
    let y = chars_of(b);
    chars_eq(&x, &y)
}

/// The first index of `name` in `names`.
pub fn find_string(names: &Vec<String>, name: &str) -> (r: Option<usize>)
    ensures
        match r {
            Some(j) => j < names@.len() && names@[j as int]@ == name@
                && forall|k: int| 0 <= k < j ==> (#[trigger] names@[k])@ != name@,
            None => forall|k: int| 0 <= k < names@.len() ==> (#[trigger] names@[k])@ != name@,
        },
{
    let mut j: usize = 0;
    while j < names.len()
        invariant
            j <= names@.len(),
            forall|k: int| 0 <= k < j ==> (#[trigger] names@[k])@ != name@,
        decreases names.len() - j,
    {
        if str_eq(names[j].as_str(), name) {
            return Some(j);
        }
        j = j + 1;
    }
    None
}

/// Whether `p` is a prefix of `s`.
pub open spec fn starts_with(s: Seq<char>, p: Seq<char>) -> bool {
    p.len() <= s.len() && s.take(p.len() as int) == p
}

pub fn has_prefix(s: &[char], p: &[char]) -> (r: bool)
    ensures
        r == starts_with(s@, p@),
{
    if p.len() > s.len() {
        return false;
    }
    let head = subvec(s, 0, p.len());
    assert(head@ =~= s@.take(p@.len() as int));
    chars_eq(&head, p)
}

pub fn find_char(s: &[char], c: char) -> (r: Option<usize>)
    ensures
        match r {
            Some(i) => i < s.len() && s@[i as int] == c && forall|k: int| 0 <= k < i ==> s@[k] != c,
            None => forall|k: int| 0 <= k < s.len() ==> s@[k] != c,
        },
{
    let mut i: usize = 0;
    while i < s.len()
        invariant
            i <= s.len(),
            forall|k: int| 0 <= k < i ==> s@[k] != c,
        decreases s.len() - i,
    {
        if s[i] == c {
            return Some(i);
        }
        i = i + 1;
    }
    None
}

pub fn contains_char(s: &[char], c: char) -> (r: bool)
    ensures
        r == s@.contains(c),
{
    match find_char(s, c) {
        Some(i) => {
            assert(s@[i as int] == c);
            true
        },
        None => false,
    }
}

// ---------------------------------------------------------------------------
// Trimming
// ---------------------------------------------------------------------------

/// `str::trim_start`: drops leading whitespace.
pub open spec fn trim_start(s: Seq<char>) -> Seq<char>
    decreases s.len(),
{
    if s.len() > 0 && is_ws(s[0]) {
        trim_start(s.drop_first())
    } else {
        s
    }
}

/// `str::trim_end`: drops trailing whitespace.
pub open spec fn trim_end(s: Seq<char>) -> Seq<char>
    decreases s.len(),
{
    if s.len() > 0 && is_ws(s.last()) {
        trim_end(s.drop_last())
    } else {
        s
    }
}

/// `str::trim`: drops leading and trailing whitespace.
pub open spec fn trim(s: Seq<char>) -> Seq<char> {
    trim_end(trim_start(s))
}

pub proof fn lemma_trim_start_skip(s: Seq<char>, i: int)
    requires
        0 <= i <= s.len(),
        forall|k: int| 0 <= k < i ==> is_ws(#[trigger] s[k]),
    ensures
        trim_start(s) == trim_start(s.skip(i)),
    decreases i,
{
    if i > 0 {
        assert(is_ws(s[0]));
        lemma_trim_start_skip(s.drop_first(), i - 1);
        assert(s.drop_first().skip(i - 1) =~= s.skip(i));
    } else {
        assert(s.skip(0) =~= s);
    }
}

pub proof fn lemma_trim_end_take(s: Seq<char>, j: int)
    requires
        0 <= j <= s.len(),
        forall|k: int| j <= k < s.len() ==> is_ws(#[trigger] s[k]),
    ensures
        trim_end(s) == trim_end(s.take(j)),
    decreases s.len() - j,
{
    if j < s.len() {
        assert(is_ws(s.last()));
        lemma_trim_end_take(s.drop_last(), j);
        assert(s.drop_last().take(j) =~= s.take(j));
    } else {
        assert(s.take(j) =~= s);
    }
}

/// The bounds `(a, b)` with `trim(s) == s[a..b]`.
pub fn trim_bounds(s: &[char]) -> (r: (usize, usize))
    ensures
        r.0 <= r.1 <= s.len(),
        trim(s@) == s@.subrange(r.0 as int, r.1 as int),
        trim_start(s@) == s@.skip(r.0 as int),
{
    let mut a: usize = 0;
    while a < s.len() && is_whitespace(s[a])
        invariant
            a <= s.len(),
            forall|k: int| 0 <= k < a ==> is_ws(#[trigger] s@[k]),
        decreases s.len() - a,
    {
        a = a + 1;
    }
    proof {
        lemma_trim_start_skip(s@, a as int);
    }
    let mut b: usize = s.len();
    while b > a && is_whitespace(s[b - 1])
        invariant
            a <= b <= s.len(),
            forall|k: int| b <= k < s.len() ==> is_ws(#[trigger] s@[k]),
        decreases b,
    {
        b = b - 1;
    }
    proof {
        let t = s@.skip(a as int);
        lemma_trim_end_take(t, (b - a) as int);
        assert(t.take((b - a) as int) =~= s@.subrange(a as int, b as int));
    }
    (a, b)
}

/// `str::trim` on a character vector.
pub fn trim_chars(s: &[char]) -> (r: Vec<char>)
    ensures
        r@ == trim(s@),
{
    let (a, b) = trim_bounds(s);
    subvec(s, a, b)
}

/// `str::trim_end` on a character vector.
pub fn trim_end_chars(s: &[char]) -> (r: Vec<char>)
    ensures
        r@ == trim_end(s@),
{
    let mut b: usize = s.len();
    while b > 0 && is_whitespace(s[b - 1])
        invariant
            b <= s.len(),
            forall|k: int| b <= k < s.len() ==> is_ws(#[trigger] s@[k]),
        decreases b,
    {
        b = b - 1;
    }
    proof {
        lemma_trim_end_take(s@, b as int);
    }
    subvec(s, 0, b)
}


// ---------------------------------------------------------------------------
// Splitting and joining
// ---------------------------------------------------------------------------

/// `str::split_whitespace`: the maximal runs of non-whitespace characters.
pub open spec fn ws_tokens(s: Seq<char>) -> Seq<Seq<char>>
    decreases s.len(),
{
    if s.len() == 0 {
        Seq::empty()
    } else {
        let init = ws_tokens(s.drop_last());
        let c = s.last();
        if is_ws(c) {
            init
        } else if s.len() >= 2 && !is_ws(s[s.len() - 2]) && init.len() > 0 {
            init.update(init.len() - 1, init.last().push(c))
        } else {
            init.push(seq![c])
        }
    }
}

/// Text holding a non-whitespace character has at least one token.
pub proof fn lemma_ws_tokens_nonempty(s: Seq<char>, k: int)
    requires
        0 <= k < s.len(),
        !is_ws(s[k]),
    ensures
        ws_tokens(s).len() > 0,
    decreases s.len(),
{
    if k < s.len() - 1 {
        lemma_ws_tokens_nonempty(s.drop_last(), k);
    }
}

/// `trim_start` leaves nothing or starts with a non-whitespace character.
pub proof fn lemma_trim_start_first(s: Seq<char>)
    ensures
        trim_start(s).len() > 0 ==> !is_ws(trim_start(s)[0]),
    decreases s.len(),
{
    if s.len() > 0 && is_ws(s[0]) {
        lemma_trim_start_first(s.drop_first());
    }
}

pub fn split_whitespace(s: &[char]) -> (r: Vec<Vec<char>>)
    ensures
        views(r@) == ws_tokens(s@),
{
    let mut res: Vec<Vec<char>> = Vec::new();
    let mut cur: Vec<char> = Vec::new();
    let mut in_word = false;
    let mut i: usize = 0;
    while i < s.len()
        invariant
            i <= s.len(),
            in_word == (i > 0 && !is_ws(s@[i - 1])),
            in_word ==> ws_tokens(s@.take(i as int)) == views(res@).push(cur@),
            !in_word ==> ws_tokens(s@.take(i as int)) == views(res@) && cur@.len() == 0,
        decreases s.len() - i,
    {
        let c = s[i];
        let ghost prev = s@.take(i as int);
        assert(s@.take(i + 1).drop_last() =~= prev);
        assert(s@.take(i + 1).last() == c);
        if is_whitespace(c) {
            if in_word {
                let ghost old_res = res@;
                res.push(cur);
                cur = Vec::new();
                assert(views(res@) =~= views(old_res).push(res@.last()@));
            }
            in_word = false;
        } else {
            let ghost old_cur = cur@;
            let ghost was_in = in_word;
            cur.push(c);
            in_word = true;
            assert(cur@ == old_cur.push(c));
            proof {
                let t = s@.take(i + 1);
                if was_in {
                    assert(t[t.len() - 2] == s@[i - 1]);
                    let init = views(res@).push(old_cur);
                    assert(ws_tokens(t) == init.update(init.len() - 1, init.last().push(c)));
                    assert(init.update(init.len() - 1, init.last().push(c)) =~= views(res@).push(cur@));
                } else {
                    if i > 0 {
                        assert(t[t.len() - 2] == s@[i - 1]);
                    }
                    assert(ws_tokens(t) == views(res@).push(seq![c]));
                    assert(cur@ =~= seq![c]);
                }
            }
        }
        i = i + 1;
    }
    if in_word {
        let ghost old_res = res@;
        res.push(cur);
        assert(views(res@) =~= views(old_res).push(res@.last()@));
    }
    assert(s@.take(s.len() as int) =~= s@);
    res
}


/// `str::split(sep)`: the pieces between occurrences of `sep` (always at least one).
pub open spec fn split_on(s: Seq<char>, sep: char) -> Seq<Seq<char>>
    decreases s.len(),
{
    if s.len() == 0 {
        seq![Seq::empty()]
    } else {
        let init = split_on(s.drop_last(), sep);
        if s.last() == sep {
            init.push(Seq::empty())
        } else {
            init.update(init.len() - 1, init.last().push(s.last()))
        }
    }
}

pub proof fn lemma_split_on_len(s: Seq<char>, sep: char)
    ensures
        split_on(s, sep).len() >= 1,
    decreases s.len(),
{
    if s.len() > 0 {
        lemma_split_on_len(s.drop_last(), sep);
    }
}

/// A separator-free text splits into itself alone.
pub proof fn lemma_split_on_free(s: Seq<char>, sep: char)
    requires
        !s.contains(sep),
    ensures
        split_on(s, sep) == seq![s],
    decreases s.len(),
{
    if s.len() > 0 {
        assert(!s.drop_last().contains(sep)) by {
            if s.drop_last().contains(sep) {
                let k = choose|k: int| 0 <= k < s.drop_last().len() && s.drop_last()[k] == sep;
                assert(s[k] == sep);
            }
        }
        lemma_split_on_free(s.drop_last(), sep);
        assert(s.last() != sep) by {
            assert(s[s.len() - 1] == s.last());
        }
        assert(s.drop_last().push(s.last()) =~= s);
        assert(seq![s.drop_last()].update(0, s.drop_last().push(s.last())) =~= seq![s]);
    } else {
        assert(s =~= Seq::<char>::empty());
    }
}

/// `a ++ [sep] ++ b` with `a` free of the separator splits into `a` and the pieces of `b`.
pub proof fn lemma_split_on_concat(a: Seq<char>, b: Seq<char>, sep: char)
    requires
        !a.contains(sep),
    ensures
        split_on(a.push(sep) + b, sep) == seq![a] + split_on(b, sep),
    decreases b.len(),
{
    if b.len() == 0 {
        lemma_split_on_free(a, sep);
        assert(a.push(sep) + b =~= a.push(sep));
        assert(a.push(sep).drop_last() =~= a);
    } else {
        lemma_split_on_concat(a, b.drop_last(), sep);
        let s = a.push(sep) + b;
        assert(s.drop_last() =~= a.push(sep) + b.drop_last());
        assert(s.last() == b.last());
        lemma_split_on_len(b.drop_last(), sep);
        let init = split_on(b.drop_last(), sep);
        if b.last() == sep {
            assert((seq![a] + init).push(Seq::empty()) =~= seq![a] + init.push(Seq::empty()));
        } else {
            let whole = seq![a] + init;
            assert(whole.update(whole.len() - 1, whole.last().push(b.last())) =~= seq![a]
                + init.update(init.len() - 1, init.last().push(b.last())));
        }
    }
}

/// Splitting `a ++ [sep] ++ b`, with `b` free of the separator, adds `b` as a last piece.
pub proof fn lemma_split_on_append(a: Seq<char>, b: Seq<char>, sep: char)
    requires
        !b.contains(sep),
    ensures
        split_on(a.push(sep) + b, sep) == split_on(a, sep).push(b),
    decreases b.len(),
{
    if b.len() == 0 {
        assert(a.push(sep) + b =~= a.push(sep));
        assert(a.push(sep).drop_last() =~= a);
        assert(a.push(sep).last() == sep);
        assert(b =~= Seq::<char>::empty());
    } else {
        assert(!b.drop_last().contains(sep)) by {
            if b.drop_last().contains(sep) {
                let k = choose|k: int| 0 <= k < b.drop_last().len() && b.drop_last()[k] == sep;
                assert(b[k] == sep);
            }
        }
        lemma_split_on_append(a, b.drop_last(), sep);
        let s = a.push(sep) + b;
        assert(s.drop_last() =~= a.push(sep) + b.drop_last());
        assert(s.last() == b.last());
        assert(b.last() != sep) by {
            assert(b[b.len() - 1] == b.last());
        }
        let init = split_on(a, sep).push(b.drop_last());
        assert(b.drop_last().push(b.last()) =~= b);
        assert(init.update(init.len() - 1, init.last().push(b.last())) =~= split_on(a, sep).push(b));
    }
}

/// Joining separator-free pieces and splitting again gives the pieces back.
pub proof fn lemma_split_on_join(ps: Seq<Seq<char>>, sep: char)
    requires
        ps.len() >= 1,
        forall|i: int| 0 <= i < ps.len() ==> !(#[trigger] ps[i]).contains(sep),
    ensures
        split_on(join(ps, seq![sep]), sep) == ps,
    decreases ps.len(),
{
    if ps.len() == 1 {
        lemma_split_on_free(ps[0], sep);
        assert(seq![ps[0]] =~= ps);
    } else {
        let init = ps.drop_last();
        assert forall|i: int| 0 <= i < init.len() implies !(#[trigger] init[i]).contains(sep) by {
            assert(init[i] == ps[i]);
        }
        lemma_split_on_join(init, sep);
        assert(!ps.last().contains(sep)) by {
            assert(ps[ps.len() - 1] == ps.last());
        }
        assert(join(init, seq![sep]) + seq![sep] + ps.last() =~= join(init, seq![sep]).push(sep) + ps.last());
        lemma_split_on_append(join(init, seq![sep]), ps.last(), sep);
        assert(init.push(ps.last()) =~= ps);
    }
}

pub fn split_char(s: &[char], sep: char) -> (r: Vec<Vec<char>>)
    ensures
        views(r@) == split_on(s@, sep),
{
    let mut res: Vec<Vec<char>> = Vec::new();
    let mut cur: Vec<char> = Vec::new();
    let mut i: usize = 0;
    while i < s.len()
        invariant
            i <= s.len(),
            split_on(s@.take(i as int), sep) == views(res@).push(cur@),
        decreases s.len() - i,
    {
        let c = s[i];
        let ghost t = s@.take(i + 1);
        assert(t.drop_last() =~= s@.take(i as int));
        assert(t.last() == c);
        if c == sep {
            let ghost old_res = res@;
            res.push(cur);
            cur = Vec::new();
            assert(views(res@) =~= views(old_res).push(res@.last()@));
            assert(views(res@).push(cur@) =~= views(old_res).push(res@.last()@).push(Seq::empty()));
        } else {
            let ghost old_cur = cur@;
            cur.push(c);
            let ghost init = views(res@).push(old_cur);
            assert(init.update(init.len() - 1, init.last().push(c)) =~= views(res@).push(cur@));
        }
        i = i + 1;
    }
    let ghost old_res = res@;
    res.push(cur);
    assert(views(res@) =~= views(old_res).push(res@.last()@));
    assert(s@.take(s.len() as int) =~= s@);
    res
}

/// `[a, b, ...].join(sep)`.
pub open spec fn join(parts: Seq<Seq<char>>, sep: Seq<char>) -> Seq<char>
    decreases parts.len(),
{
    if parts.len() == 0 {
        Seq::empty()
    } else if parts.len() == 1 {
        parts[0]
    } else {
        join(parts.drop_last(), sep) + sep + parts.last()
    }
}

/// Joins `parts[from..to]` with `sep`.
pub fn join_range(parts: &Vec<Vec<char>>, from: usize, to: usize, sep: &[char]) -> (r: Vec<char>)
    requires
        from <= to <= parts.len(),
    ensures
        r@ == join(views(parts@).subrange(from as int, to as int), sep@),
{
    let mut r: Vec<char> = Vec::new();
    let mut i: usize = from;
    while i < to
        invariant
            from <= i <= to <= parts.len(),
            r@ == join(views(parts@).subrange(from as int, i as int), sep@),
        decreases to - i,
    {
        let ghost before = views(parts@).subrange(from as int, i as int);
        let ghost after = views(parts@).subrange(from as int, i + 1);
        assert(after.drop_last() =~= before);
        assert(after.last() == parts@[i as int]@);
        if i > from {
            r = concat(&r, sep);
            r = concat(&r, &parts[i]);
        } else {
            r = concat(&r, &parts[i]);
            assert(after.len() == 1);
            assert(r@ =~= after[0]);
        }
        i = i + 1;
    }
    r
}

/// Joins `parts[from..]` with `sep`.
pub fn join_from(parts: &Vec<Vec<char>>, from: usize, sep: &[char]) -> (r: Vec<char>)
    requires
        from <= parts.len(),
    ensures
        r@ == join(views(parts@).skip(from as int), sep@),
{
    let r = join_range(parts, from, parts.len(), sep);
    assert(views(parts@).subrange(from as int, parts.len() as int) =~= views(parts@).skip(from as int));
    r
}

// ---------------------------------------------------------------------------
// Decimal digits
// ---------------------------------------------------------------------------

pub open spec fn is_digit(c: char) -> bool {
    '0' as u32 <= c as u32 && c as u32 <= '9' as u32
}

pub open spec fn digit_val(c: char) -> nat {
    (c as u32 - '0' as u32) as nat
}

/// The ASCII digit for `d` in `0..10`.
pub open spec fn digit_char(d: nat) -> char {
    if d == 0 { '0' } else if d == 1 { '1' } else if d == 2 { '2' } else if d == 3 { '3' }
    else if d == 4 { '4' } else if d == 5 { '5' } else if d == 6 { '6' } else if d == 7 { '7' }
    else if d == 8 { '8' } else { '9' }
}

pub open spec fn all_digits(s: Seq<char>) -> bool {
    forall|i: int| 0 <= i < s.len() ==> is_digit(#[trigger] s[i])
}

/// The number a digit string denotes (leading zeros allowed).
pub open spec fn digits_val(s: Seq<char>) -> nat
    decreases s.len(),
{
    if s.len() == 0 {
        0
    } else {
        digits_val(s.drop_last()) * 10 + digit_val(s.last())
    }
}

/// The shortest decimal representation of `n`.
pub open spec fn digits(n: nat) -> Seq<char>
    decreases n,
{
    if n < 10 {
        seq![digit_char(n)]
    } else {
        digits(n / 10).push(digit_char(n % 10))
    }
}

/// The `Display` form of an integer.
pub open spec fn int_str(i: int) -> Seq<char> {
    if i < 0 {
        seq!['-'] + digits((-i) as nat)
    } else {
        digits(i as nat)
    }
}

/// `width` characters: `s` left-padded with `'0'` (or `s` itself when already as wide).
pub open spec fn zero_pad(s: Seq<char>, width: nat) -> Seq<char> {
    if s.len() >= width {
        s
    } else {
        Seq::new((width - s.len()) as nat, |i: int| '0') + s
    }
}

pub proof fn lemma_digit_char(d: nat)
    requires
        d < 10,
    ensures
        is_digit(digit_char(d)),
        digit_val(digit_char(d)) == d,
{
}

pub proof fn lemma_digits(n: nat)
    ensures
        all_digits(digits(n)),
        digits_val(digits(n)) == n,
        digits(n).len() >= 1,
        n < 10 <==> digits(n).len() == 1,
    decreases n,
{
    lemma_digit_char(n % 10);
    if n >= 10 {
        lemma_digits(n / 10);
        let d = digits(n / 10);
        assert(digits(n).drop_last() =~= d);
        assert(digits(n).last() == digit_char(n % 10));
        assert((n / 10) * 10 + n % 10 == n) by (nonlinear_arith);
        assert(digits_val(digits(n)) == digits_val(d) * 10 + digit_val(digit_char(n % 10)));
        assert forall|i: int| 0 <= i < digits(n).len() implies is_digit(#[trigger] digits(n)[i]) by {
            if i < d.len() {
                assert(digits(n)[i] == d[i]);
            }
        }
    } else {
        lemma_digit_char(n);
        assert(digits(n).drop_last() =~= Seq::<char>::empty());
        assert(digits_val(digits(n)) == digits_val(digits(n).drop_last()) * 10 + digit_val(digits(n).last()));
    }
}

pub fn digit_to_char(d: u64) -> (c: char)
    requires
        d < 10,
    ensures
        c == digit_char(d as nat),
{
    if d == 0 { '0' } else if d == 1 { '1' } else if d == 2 { '2' } else if d == 3 { '3' }
    else if d == 4 { '4' } else if d == 5 { '5' } else if d == 6 { '6' } else if d == 7 { '7' }
    else if d == 8 { '8' } else { '9' }
}

/// The decimal digits of `n`.
pub fn u64_digits(n: u64) -> (r: Vec<char>)
    ensures
        r@ == digits(n as nat),
{
    let mut rev: Vec<char> = Vec::new();
    let mut m: u64 = n;
    while m >= 10
        invariant
            digits(n as nat) == digits(m as nat) + rev@.reverse(),
        decreases m,
    {
        let ghost old_rev = rev@;
        let d = digit_to_char(m % 10);
        rev.push(d);
        proof {
            assert(rev@.reverse() =~= seq![d] + old_rev.reverse());
            assert(digits(m as nat) == digits((m / 10) as nat).push(d));
            assert(digits((m / 10) as nat).push(d) + old_rev.reverse()
                =~= digits((m / 10) as nat) + (seq![d] + old_rev.reverse()));
        }
        m = m / 10;
    }
    let mut r: Vec<char> = Vec::new();
    r.push(digit_to_char(m));
    let mut j: usize = rev.len();
    while j > 0
        invariant
            j <= rev.len(),
            r@ == digits(m as nat) + rev@.skip(j as int).reverse(),
        decreases j,
    {
        j = j - 1;
        let ghost before = rev@.skip(j + 1).reverse();
        r.push(rev[j]);
        assert(rev@.skip(j as int).reverse() =~= before.push(rev@[j as int]));
    }
    assert(rev@.skip(0) =~= rev@);
    r
}

/// The `Display` form of an `i64`.
pub fn i64_str(i: i64) -> (r: Vec<char>)
    ensures
        r@ == int_str(i as int),
{
    if i < 0 {
        let m: u64 = if i == i64::MIN { 9223372036854775808u64 } else { (-i) as u64 };
        let d = u64_digits(m);
        let mut r: Vec<char> = Vec::new();
        r.push('-');
        concat(&r, &d)
    } else {
        u64_digits(i as u64)
    }
}

/// `s` left-padded with zeros to `width` characters.
pub fn pad_zeros(s: &[char], width: usize) -> (r: Vec<char>)
    ensures
        r@ == zero_pad(s@, width as nat),
{
    if s.len() >= width {
        return subvec(s, 0, s.len());
    }
    let mut r: Vec<char> = Vec::new();
    let n = width - s.len();
    let mut i: usize = 0;
    while i < n
        invariant
            i <= n,
            r@ == Seq::new(i as nat, |k: int| '0'),
        decreases n - i,
    {
        r.push('0');
        i = i + 1;
        assert(r@ =~= Seq::new(i as nat, |k: int| '0'));
    }
    concat(&r, s)
}


// ---------------------------------------------------------------------------
// Integer parsing
// ---------------------------------------------------------------------------

/// `str::parse` of a signed integer, before the range check: an optional
/// `+` or `-` followed by one or more ASCII digits.
pub open spec fn parse_int(s: Seq<char>) -> Option<int> {
    if s.len() > 1 && s[0] == '-' && all_digits(s.drop_first()) {
        Some(-(digits_val(s.drop_first()) as int))
    } else if s.len() > 1 && s[0] == '+' && all_digits(s.drop_first()) {
        Some(digits_val(s.drop_first()) as int)
    } else if s.len() > 0 && all_digits(s) {
        Some(digits_val(s) as int)
    } else {
        None
    }
}

/// `parse_int` restricted to `lo..=hi`, as `str::parse::<iN>` is.
pub open spec fn parse_in_range(s: Seq<char>, lo: int, hi: int) -> Option<int> {
    match parse_int(s) {
        Some(v) => if lo <= v <= hi { Some(v) } else { None },
        None => None,
    }
}

proof fn lemma_digits_val_step(s: Seq<char>, i: int)
    requires
        0 <= i < s.len(),
    ensures
        digits_val(s.take(i + 1)) == digits_val(s.take(i)) * 10 + digit_val(s[i]),
{
    assert(s.take(i + 1).drop_last() =~= s.take(i));
}

proof fn lemma_digits_val_prefix(s: Seq<char>, i: int)
    requires
        0 <= i <= s.len(),
    ensures
        digits_val(s.take(i)) <= digits_val(s),
    decreases s.len() - i,
{
    if i < s.len() {
        lemma_digits_val_step(s, i);
        lemma_digits_val_prefix(s, i + 1);
    } else {
        assert(s.take(i) =~= s);
    }
}

/// The value of the digit string `s[from..]`, or `None` when it is empty,
/// holds a non-digit, or exceeds `2^63`.
fn digits_magnitude(s: &[char], from: usize) -> (r: Option<u64>)
    requires
        from <= s.len(),
    ensures
        ({
            let t = s@.skip(from as int);
            match r {
                Some(m) => t.len() > 0 && all_digits(t) && m == digits_val(t) && m <= 0x8000_0000_0000_0000u64,
                None => t.len() == 0 || !all_digits(t) || digits_val(t) > 0x8000_0000_0000_0000u64,
            }
        }),
{
    let ghost t = s@.skip(from as int);
    if from == s.len() {
        return None;
    }
    let mut m: u64 = 0;
    let mut i: usize = from;
    while i < s.len()
        invariant
            from <= i <= s.len(),
            t == s@.skip(from as int),
            all_digits(t.take(i - from)),
            m == digits_val(t.take(i - from)),
            m <= 0x8000_0000_0000_0000u64,
        decreases s.len() - i,
    {
        let c = s[i];
        let cu = c as u32;
        if cu < 48 || cu > 57 {
            assert(t[i - from] == c);
            assert(!is_digit(t[i - from]));
            return None;
        }
        let d = (cu - 48) as u64;
        proof {
            lemma_digits_val_step(t, i - from);
            assert(t[i - from] == c);
        }
        if m > 922337203685477580u64 || (m == 922337203685477580u64 && d > 8) {
            proof {
                assert(t.take(i - from + 1) =~= t.take(i - from).push(c));
                assert forall|k: int| 0 <= k < t.take(i - from + 1).len() implies is_digit(#[trigger] t.take(i - from + 1)[k]) by {
                    if k < i - from {
                        assert(t.take(i - from + 1)[k] == t.take(i - from)[k]);
                    }
                }
                if all_digits(t) {
                    lemma_digits_val_prefix(t, i - from + 1);
                }
            }
            return None;
        }
        m = m * 10 + d;
        i = i + 1;
        proof {
            assert(t.take(i - from) =~= t.take(i - from - 1).push(c));
        }
    }
    assert(t.take(i - from) =~= t);
    Some(m)
}

/// `str::parse` for a signed integer type whose range is `lo..=hi`.
pub fn parse_integer(s: &[char], lo: i64, hi: i64) -> (r: Option<i64>)
    requires
        lo <= 0 <= hi,
    ensures
        match r {
            Some(v) => parse_in_range(s@, lo as int, hi as int) == Some(v as int),
            None => parse_in_range(s@, lo as int, hi as int) is None,
        },
{
    if s.len() == 0 {
        return None;
    }
    if s.len() > 1 && (s[0] == '-' || s[0] == '+') {
        let neg = s[0] == '-';
        assert(s@.skip(1) =~= s@.drop_first());
        match digits_magnitude(s, 1) {
            Some(m) => {
                if neg {
                    if m as i128 <= -(lo as i128) {
                        let v: i64 = if m == 0x8000_0000_0000_0000u64 { i64::MIN } else { -(m as i64) };
                        Some(v)
                    } else {
                        None
                    }
                } else {
                    if m as i128 <= hi as i128 {
                        Some(m as i64)
                    } else {
                        None
                    }
                }
            },
            None => None,
        }
    } else {
        assert(s@.skip(0) =~= s@);
        match digits_magnitude(s, 0) {
            Some(m) => {
                if m as i128 <= hi as i128 {
                    Some(m as i64)
                } else {
                    None
                }
            },
            None => None,
        }
    }
}


// ---------------------------------------------------------------------------
// Powers of ten and digit-string arithmetic
// ---------------------------------------------------------------------------

pub open spec fn pow10(n: nat) -> nat
    decreases n,
{
    if n == 0 {
        1
    } else {
        10 * pow10((n - 1) as nat)
    }
}

pub proof fn lemma_pow10_pos(n: nat)
    ensures
        pow10(n) >= 1,
    decreases n,
{
    if n > 0 {
        lemma_pow10_pos((n - 1) as nat);
    }
}

pub proof fn lemma_pow10_add(a: nat, b: nat)
    ensures
        pow10(a + b) == pow10(a) * pow10(b),
    decreases a,
{
    if a > 0 {
        lemma_pow10_add((a - 1) as nat, b);
        assert(pow10(a + b) == 10 * pow10((a - 1 + b) as nat));
        assert(10 * (pow10((a - 1) as nat) * pow10(b)) == (10 * pow10((a - 1) as nat)) * pow10(b))
            by (nonlinear_arith);
        assert(pow10(a) == 10 * pow10((a - 1) as nat));
    } else {
        assert(pow10(0) == 1);
        assert(a + b == b);
    }
}

pub proof fn lemma_pow10_mono(a: nat, b: nat)
    requires
        a <= b,
    ensures
        pow10(a) <= pow10(b),
    decreases b,
{
    if a < b {
        lemma_pow10_mono(a, (b - 1) as nat);
        lemma_pow10_pos((b - 1) as nat);
    }
}

pub proof fn lemma_pow10_18()
    ensures
        pow10(18) == 1_000_000_000_000_000_000nat,
{
    reveal_with_fuel(pow10, 19);
}

/// `10^n` for `n <= 18`, the powers that fit an `i64`.
pub fn pow10_u64(n: u8) -> (r: u64)
    requires
        n <= 18,
    ensures
        r == pow10(n as nat),
        r <= 1_000_000_000_000_000_000u64,
{
    let mut r: u64 = 1;
    let mut i: u8 = 0;
    proof {
        lemma_pow10_mono(0, 18);
    }
    while i < n
        invariant
            i <= n <= 18,
            r == pow10(i as nat),
            r <= pow10(i as nat),
            pow10(i as nat) <= pow10(18),
        decreases n - i,
    {
        proof {
            lemma_pow10_mono((i + 1) as nat, 18);
            lemma_pow10_18();
        }
        r = r * 10;
        i = i + 1;
    }
    proof {
        lemma_pow10_mono(n as nat, 18);
        lemma_pow10_18();
    }
    r
}

pub proof fn lemma_digits_val_concat(x: Seq<char>, y: Seq<char>)
    ensures
        digits_val(x + y) == digits_val(x) * pow10(y.len()) + digits_val(y),
    decreases y.len(),
{
    if y.len() == 0 {
        assert(x + y =~= x);
        assert(pow10(0) == 1);
        assert(digits_val(y) == 0);
    } else {
        lemma_digits_val_concat(x, y.drop_last());
        assert(digits_val(x + y) == digits_val((x + y).drop_last()) * 10 + digit_val((x + y).last()));
        assert(digits_val(y) == digits_val(y.drop_last()) * 10 + digit_val(y.last()));
        assert((x + y).drop_last() =~= x + y.drop_last());
        assert((x + y).last() == y.last());
        let a = digits_val(x);
        let b = digits_val(y.drop_last());
        let p = pow10(y.drop_last().len());
        assert(pow10(y.len()) == 10 * p);
        assert((a * p + b) * 10 + digit_val(y.last()) == a * (10 * p) + (b * 10 + digit_val(y.last())))
            by (nonlinear_arith);
    }
}

pub proof fn lemma_zeros(k: nat)
    ensures
        all_digits(Seq::new(k, |i: int| '0')),
        digits_val(Seq::new(k, |i: int| '0')) == 0,
    decreases k,
{
    if k > 0 {
        lemma_zeros((k - 1) as nat);
        assert(Seq::new(k, |i: int| '0').drop_last() =~= Seq::new((k - 1) as nat, |i: int| '0'));
    } else {
        assert(Seq::new(k, |i: int| '0') =~= Seq::<char>::empty());
    }
}

pub proof fn lemma_zero_pad(s: Seq<char>, w: nat)
    requires
        all_digits(s),
    ensures
        all_digits(zero_pad(s, w)),
        digits_val(zero_pad(s, w)) == digits_val(s),
        zero_pad(s, w).len() == if s.len() >= w { s.len() } else { w },
{
    if s.len() < w {
        let z = Seq::new((w - s.len()) as nat, |i: int| '0');
        lemma_zeros((w - s.len()) as nat);
        lemma_digits_val_concat(z, s);
        assert(0 * pow10(s.len()) == 0);
        assert forall|i: int| 0 <= i < (z + s).len() implies is_digit(#[trigger] (z + s)[i]) by {
            if i < z.len() {
                assert((z + s)[i] == z[i]);
            } else {
                assert((z + s)[i] == s[i - z.len()]);
            }
        }
    }
}

/// A number below `10^k` (with `k >= 1`) has at most `k` digits.
pub proof fn lemma_digits_len(n: nat, k: nat)
    requires
        k >= 1,
        n < pow10(k),
    ensures
        digits(n).len() <= k,
    decreases k,
{
    if n >= 10 {
        assert(k >= 2) by {
            if k == 1 {
                assert(pow10(0) == 1);
                assert(pow10(1) == 10 * pow10(0));
            }
        }
        assert(n / 10 < pow10((k - 1) as nat)) by {
            assert(pow10(k) == 10 * pow10((k - 1) as nat));
            assert(n < 10 * pow10((k - 1) as nat));
            assert(n / 10 < pow10((k - 1) as nat)) by (nonlinear_arith)
                requires n < 10 * pow10((k - 1) as nat);
        }
        lemma_digits_len(n / 10, (k - 1) as nat);
    }
}

/// Digit characters are none of the separators the formats use.
pub proof fn lemma_digit_not_sep(c: char)
    requires
        is_digit(c),
    ensures
        c != '.' && c != '-' && c != '+' && c != ':' && c != ';' && !is_ws(c),
{
}

pub proof fn lemma_all_digits_no(s: Seq<char>, c: char)
    requires
        all_digits(s),
        !is_digit(c),
    ensures
        !s.contains(c),
{
    if s.contains(c) {
        let k = choose|k: int| 0 <= k < s.len() && s[k] == c;
        assert(is_digit(s[k]));
    }
}

pub proof fn lemma_all_digits_concat(x: Seq<char>, y: Seq<char>)
    requires
        all_digits(x),
        all_digits(y),
    ensures
        all_digits(x + y),
{
    assert forall|i: int| 0 <= i < (x + y).len() implies is_digit(#[trigger] (x + y)[i]) by {
        if i < x.len() {
            assert((x + y)[i] == x[i]);
        } else {
            assert((x + y)[i] == y[i - x.len()]);
        }
    }
}

/// `int_str(i)` parses back to `i`.
pub proof fn lemma_int_str_parse(i: int)
    ensures
        parse_int(int_str(i)) == Some(i),
        !int_str(i).contains('.'),
{
    if i < 0 {
        lemma_digits((-i) as nat);
        let d = digits((-i) as nat);
        assert((seq!['-'] + d).drop_first() =~= d);
        assert((seq!['-'] + d)[0] == '-');
        lemma_all_digits_no(d, '.');
        assert(!(seq!['-'] + d).contains('.')) by {
            if (seq!['-'] + d).contains('.') {
                let k = choose|k: int| 0 <= k < (seq!['-'] + d).len() && (seq!['-'] + d)[k] == '.';
                if k > 0 {
                    assert((seq!['-'] + d)[k] == d[k - 1]);
                }
            }
        }
    } else {
        lemma_digits(i as nat);
        let d = digits(i as nat);
        lemma_digit_not_sep(d[0]);
        lemma_all_digits_no(d, '.');
    }
}


// ---------------------------------------------------------------------------
// UTF-8 byte offsets
// ---------------------------------------------------------------------------

/// The number of bytes of the UTF-8 encoding of `c`.
pub open spec fn char_utf8_len(c: char) -> nat {
    if (c as u32) < 0x80 {
        1
    } else if (c as u32) < 0x800 {
        2
    } else if (c as u32) < 0x10000 {
        3
    } else {
        4
    }
}

/// The number of bytes of the UTF-8 encoding of `s`.
pub open spec fn utf8_len(s: Seq<char>) -> nat
    decreases s.len(),
{
    if s.len() == 0 {
        0
    } else {
        utf8_len(s.drop_last()) + char_utf8_len(s.last())
    }
}

/// Byte offset `b` lies on a character boundary of `s` (slicing there does not panic).
pub open spec fn is_boundary(s: Seq<char>, b: int) -> bool {
    exists|k: int| 0 <= k <= s.len() && utf8_len(s.take(k)) == b
}

/// The number of characters in the first `b` bytes of `s` (when `b` is a boundary).
pub open spec fn chars_before_byte(s: Seq<char>, b: int) -> int {
    choose|k: int| 0 <= k <= s.len() && utf8_len(s.take(k)) == b
}

pub proof fn lemma_utf8_len_strict(s: Seq<char>, j: int, k: int)
    requires
        0 <= j < k <= s.len(),
    ensures
        utf8_len(s.take(j)) < utf8_len(s.take(k)),
    decreases k - j,
{
    assert(s.take(k).drop_last() =~= s.take(k - 1));
    if j < k - 1 {
        lemma_utf8_len_strict(s, j, k - 1);
    }
}

pub fn char_utf8_width(c: char) -> (r: usize)
    ensures
        r == char_utf8_len(c),
{
    let u = c as u32;
    if u < 0x80 { 1 } else if u < 0x800 { 2 } else if u < 0x10000 { 3 } else { 4 }
}

/// The character index at byte offset `b` of `s`, or `None` when `b` is not a
/// character boundary (or lies past the end).
pub fn char_index_of_byte(s: &[char], b: usize) -> (r: Option<usize>)
    ensures
        match r {
            Some(k) => k <= s@.len() && utf8_len(s@.take(k as int)) == b
                && chars_before_byte(s@, b as int) == k && is_boundary(s@, b as int),
            None => !is_boundary(s@, b as int),
        },
{
    let mut k: usize = 0;
    let mut acc: u128 = 0;
    while k < s.len() && acc < b as u128
        invariant
            k <= s@.len(),
            acc == utf8_len(s@.take(k as int)),
            k > 0 ==> utf8_len(s@.take(k - 1)) < b,
        decreases s.len() - k,
    {
        let w = char_utf8_width(s[k]);
        proof {
            assert(s@.take(k + 1).drop_last() =~= s@.take(k as int));
        }
        acc = acc + w as u128;
        k = k + 1;
    }
    if acc == b as u128 {
        proof {
            assert forall|j: int| 0 <= j <= s@.len() && utf8_len(s@.take(j)) == b implies j == k by {
                if j < k {
                    lemma_utf8_len_strict(s@, j, k as int);
                } else if j > k {
                    lemma_utf8_len_strict(s@, k as int, j);
                }
            }
        }
        Some(k)
    } else {
        proof {
            assert forall|j: int| 0 <= j <= s@.len() implies utf8_len(s@.take(j)) != b by {
                if acc > b {
                    if j < k {
                        if j < k - 1 {
                            lemma_utf8_len_strict(s@, j, k - 1);
                        }
                    } else if j > k {
                        lemma_utf8_len_strict(s@, k as int, j);
                    }
                } else {
                    if j < k {
                        lemma_utf8_len_strict(s@, j, k as int);
                    }
                }
            }
        }
        None
    }
}


/// The text before the first `c` (all of `s` when there is none).
pub open spec fn before_first(s: Seq<char>, c: char) -> Seq<char> {
    split_on(s, c)[0]
}

pub fn before_first_chars(s: &[char], c: char) -> (r: Vec<char>)
    ensures
        r@ == before_first(s@, c),
{
    match find_char(s, c) {
        Some(i) => {
            proof {
                let a = s@.take(i as int);
                let b = s@.skip(i + 1);
                assert(!a.contains(c)) by {
                    if a.contains(c) {
                        let k = choose|k: int| 0 <= k < a.len() && a[k] == c;
                        assert(s@[k] == c);
                    }
                }
                assert(s@ =~= a.push(c) + b);
                lemma_split_on_concat(a, b, c);
            }
            subvec(s, 0, i)
        },
        None => {
            proof {
                assert(!s@.contains(c));
                lemma_split_on_free(s@, c);
            }
            subvec(s, 0, s.len())
        },
    }
}

/// The characters after the first `b` bytes of `s`.
pub fn skip_bytes(s: &[char], b: usize) -> (r: Option<Vec<char>>)
    ensures
        match r {
            Some(v) => is_boundary(s@, b as int) && v@ == s@.skip(chars_before_byte(s@, b as int)),
            None => !is_boundary(s@, b as int),
        },
{
    match char_index_of_byte(s, b) {
        Some(k) => {
            let v = subvec(s, k, s.len());
            assert(v@ =~= s@.skip(k as int));
            Some(v)
        },
        None => None,
    }
}

/// The characters in the first `b` bytes of `s`.
pub fn take_bytes(s: &[char], b: usize) -> (r: Option<Vec<char>>)
    ensures
        match r {
            Some(v) => is_boundary(s@, b as int) && v@ == s@.take(chars_before_byte(s@, b as int)),
            None => !is_boundary(s@, b as int),
        },
{
    match char_index_of_byte(s, b) {
        Some(k) => Some(subvec(s, 0, k)),
        None => None,
    }
}


// ---------------------------------------------------------------------------
// Removing and replacing characters
// ---------------------------------------------------------------------------

/// `s` with every `c` removed.
pub open spec fn without_char(s: Seq<char>, c: char) -> Seq<char>
    decreases s.len(),
{
    if s.len() == 0 {
        s
    } else if s.last() == c {
        without_char(s.drop_last(), c)
    } else {
        without_char(s.drop_last(), c).push(s.last())
    }
}

pub fn remove_char(s: &[char], c: char) -> (r: Vec<char>)
    ensures
        r@ == without_char(s@, c),
{
    let mut r: Vec<char> = Vec::new();
    let mut i: usize = 0;
    while i < s.len()
        invariant
            i <= s.len(),
            r@ == without_char(s@.take(i as int), c),
        decreases s.len() - i,
    {
        assert(s@.take(i + 1).drop_last() =~= s@.take(i as int));
        if s[i] != c {
            r.push(s[i]);
        }
        i = i + 1;
    }
    assert(s@.take(i as int) =~= s@);
    r
}

/// `s` with every `a` replaced by `b`.
pub open spec fn replace_char(s: Seq<char>, a: char, b: char) -> Seq<char> {
    s.map_values(|c: char| if c == a { b } else { c })
}

pub fn replace_chars(s: &[char], a: char, b: char) -> (r: Vec<char>)
    ensures
        r@ == replace_char(s@, a, b),
{
    let mut r: Vec<char> = Vec::new();
    let mut i: usize = 0;
    while i < s.len()
        invariant
            i <= s.len(),
            r@ == replace_char(s@.take(i as int), a, b),
        decreases s.len() - i,
    {
        let c = if s[i] == a { b } else { s[i] };
        r.push(c);
        i = i + 1;
        assert(r@ =~= replace_char(s@.take(i as int), a, b));
    }
    assert(s@.take(i as int) =~= s@);
    r
}


// ---------------------------------------------------------------------------
// Tokens of spaced text
// ---------------------------------------------------------------------------

/// `s` holds no whitespace.
pub open spec fn no_ws(s: Seq<char>) -> bool {
    forall|i: int| 0 <= i < s.len() ==> !is_ws(#[trigger] s[i])
}

/// Words separated by single spaces: not empty, no whitespace but `' '`, no
/// space at either end, and never two spaces in a row.
pub open spec fn single_spaced(s: Seq<char>) -> bool {
    &&& s.len() > 0
    &&& forall|i: int| 0 <= i < s.len() && is_ws(#[trigger] s[i]) ==> s[i] == ' '
    &&& s[0] != ' '
    &&& s.last() != ' '
    &&& forall|i: int| 0 <= i < s.len() - 1 ==> !(#[trigger] s[i] == ' ' && s[i + 1] == ' ')
}

/// Text without whitespace is a single token.
pub proof fn lemma_ws_tokens_single(t: Seq<char>)
    requires
        t.len() > 0,
        no_ws(t),
    ensures
        ws_tokens(t) == seq![t],
    decreases t.len(),
{
    if t.len() == 1 {
        assert(t.drop_last() =~= Seq::<char>::empty());
        assert(ws_tokens(t.drop_last()) == Seq::<Seq<char>>::empty());
        assert(!is_ws(t.last()));
        assert(seq![t.last()] =~= t);
        assert(ws_tokens(t) == Seq::<Seq<char>>::empty().push(seq![t.last()]));
        assert(Seq::<Seq<char>>::empty().push(seq![t.last()]) =~= seq![t]);
    } else {
        let init = t.drop_last();
        lemma_ws_tokens_single(init);
        assert(!is_ws(t[t.len() - 2]));
        assert(init.push(t.last()) =~= t);
        assert(seq![init].update(0, init.push(t.last())) =~= seq![t]);
    }
}

/// A whitespace character separates the tokens on its two sides.
pub proof fn lemma_ws_tokens_split(a: Seq<char>, w: char, b: Seq<char>)
    requires
        is_ws(w),
    ensures
        ws_tokens(a + seq![w] + b) == ws_tokens(a) + ws_tokens(b),
    decreases b.len(),
{
    let s = a + seq![w] + b;
    if b.len() == 0 {
        assert(s.drop_last() =~= a);
        assert(ws_tokens(b) =~= Seq::<Seq<char>>::empty());
        assert(ws_tokens(a) + ws_tokens(b) =~= ws_tokens(a));
    } else {
        let b1 = b.drop_last();
        let c = b.last();
        lemma_ws_tokens_split(a, w, b1);
        assert(s.drop_last() =~= a + seq![w] + b1);
        assert(s.last() == c);
        if is_ws(c) {
        } else {
            if b1.len() > 0 && !is_ws(b1.last()) {
                assert(s[s.len() - 2] == b1.last());
                lemma_ws_tokens_nonempty(b1, b1.len() - 1);
                let i1 = ws_tokens(a) + ws_tokens(b1);
                assert(b[b.len() - 2] == b1.last());
                assert(i1.update(i1.len() - 1, i1.last().push(c)) =~= ws_tokens(a) + ws_tokens(b1).update(ws_tokens(b1).len() - 1, ws_tokens(b1).last().push(c)));
            } else {
                if b1.len() > 0 {
                    assert(s[s.len() - 2] == b1.last());
                    assert(b[b.len() - 2] == b1.last());
                } else {
                    assert(s[s.len() - 2] == w);
                    assert(b1 =~= Seq::<char>::empty());
                }
                assert((ws_tokens(a) + ws_tokens(b1)).push(seq![c]) =~= ws_tokens(a) + ws_tokens(b1).push(seq![c]));
            }
        }
    }
}

/// Joining one more part in front.
pub proof fn lemma_join_prepend(x: Seq<char>, ts: Seq<Seq<char>>, sep: Seq<char>)
    requires
        ts.len() > 0,
    ensures
        join(seq![x] + ts, sep) == x + sep + join(ts, sep),
    decreases ts.len(),
{
    let all = seq![x] + ts;
    if ts.len() == 1 {
        assert(all.drop_last() =~= seq![x]);
        assert(all.last() == ts[0]);
        assert(join(seq![x], sep) == x);
        assert(join(ts, sep) == ts[0]);
        assert(join(all, sep) == join(all.drop_last(), sep) + sep + all.last());
    } else {
        lemma_join_prepend(x, ts.drop_last(), sep);
        assert(all.drop_last() =~= seq![x] + ts.drop_last());
        assert(all.last() == ts.last());
        assert(join(all, sep) == join(all.drop_last(), sep) + sep + all.last());
        assert(join(ts, sep) == join(ts.drop_last(), sep) + sep + ts.last());
        assert(join(all, sep) =~= x + sep + join(ts, sep));
    }
}

/// Single-spaced text is its tokens joined by single spaces.
pub proof fn lemma_join_tokens(s: Seq<char>)
    requires
        single_spaced(s),
    ensures
        join(ws_tokens(s), seq![' ']) == s,
    decreases s.len(),
{
    if no_ws(s) {
        lemma_ws_tokens_single(s);
    } else {
        let i = choose|i: int| 0 <= i < s.len() && is_ws(s[i]);
        let k = first_ws_from(s, 0);
        lemma_first_ws(s, 0);
        assert(s[k] == ' ');
        let x = s.take(k);
        let y = s.skip(k + 1);
        assert(s =~= x + seq![s[k]] + y);
        lemma_ws_tokens_split(x, s[k], y);
        assert(k > 0);
        assert(no_ws(x));
        lemma_ws_tokens_single(x);
        assert(k < s.len() - 1);
        assert(y.len() > 0);
        assert(y[0] != ' ') by {
            assert(y[0] == s[k + 1]);
        }
        assert forall|j: int| 0 <= j < y.len() && is_ws(#[trigger] y[j]) implies y[j] == ' ' by {
            assert(y[j] == s[k + 1 + j]);
        }
        assert forall|j: int| 0 <= j < y.len() - 1 implies !(#[trigger] y[j] == ' ' && y[j + 1] == ' ') by {
            assert(y[j] == s[k + 1 + j]);
            assert(y[j + 1] == s[k + 2 + j]);
        }
        assert(y.last() == s.last());
        lemma_join_tokens(y);
        lemma_ws_tokens_nonempty(y, 0);
        lemma_join_prepend(x, ws_tokens(y), seq![' ']);
        assert(seq![x] + ws_tokens(y) =~= ws_tokens(x) + ws_tokens(y));
    }
}

/// The first whitespace position at or after `i`, or `s.len()`.
pub open spec fn first_ws_from(s: Seq<char>, i: int) -> int
    decreases s.len() - i,
{
    if i < 0 || i >= s.len() {
        s.len() as int
    } else if is_ws(s[i]) {
        i
    } else {
        first_ws_from(s, i + 1)
    }
}

pub proof fn lemma_first_ws(s: Seq<char>, i: int)
    requires
        0 <= i <= s.len(),
    ensures
        i <= first_ws_from(s, i) <= s.len(),
        forall|j: int| i <= j < first_ws_from(s, i) ==> !is_ws(#[trigger] s[j]),
        first_ws_from(s, i) < s.len() ==> is_ws(s[first_ws_from(s, i)]),
        (exists|j: int| i <= j < s.len() && is_ws(s[j])) ==> first_ws_from(s, i) < s.len(),
    decreases s.len() - i,
{
    if i < s.len() && !is_ws(s[i]) {
        lemma_first_ws(s, i + 1);
        if exists|j: int| i <= j < s.len() && is_ws(s[j]) {
            let j = choose|j: int| i <= j < s.len() && is_ws(s[j]);
            assert(j != i);
        }
    }
}
/// Text that starts and ends with non-whitespace is its own trim.
pub proof fn lemma_trim_id(s: Seq<char>)
    requires
        s.len() > 0,
        !is_ws(s[0]),
        !is_ws(s.last()),
    ensures
        trim(s) == s,
{
    assert(trim_start(s) == s);
    assert(trim_end(s) == s);
}

/// Zero-padded digits hold no whitespace.
pub proof fn lemma_zero_pad_digits_no_ws(n: nat, w: nat)
    ensures
        no_ws(zero_pad(digits(n), w)),
        zero_pad(digits(n), w).len() > 0,
{
    lemma_digits(n);
    let z = zero_pad(digits(n), w);
    assert forall|k: int| 0 <= k < z.len() implies !is_ws(#[trigger] z[k]) by {
        if digits(n).len() < w {
            let pad = Seq::new((w - digits(n).len()) as nat, |i: int| '0');
            if k >= pad.len() {
                assert(z[k] == digits(n)[k - pad.len()]);
                assert(is_digit(digits(n)[k - pad.len()]));
            }
        } else {
            assert(is_digit(digits(n)[k]));
        }
    }
}

/// Two texts without whitespace joined by a character without whitespace.
pub proof fn lemma_no_ws_concat(a: Seq<char>, b: Seq<char>)
    requires
        no_ws(a),
        no_ws(b),
    ensures
        no_ws(a + b),
{
    assert forall|k: int| 0 <= k < (a + b).len() implies !is_ws(#[trigger] (a + b)[k]) by {
        if k < a.len() {
            assert((a + b)[k] == a[k]);
        } else {
            assert((a + b)[k] == b[k - a.len()]);
        }
    }
}

/// The tokens of single-spaced text that ends with `'"'` and in which no
/// space follows a `'"'`: only the last token ends with `'"'`.
pub proof fn lemma_tokens_quote_last(y: Seq<char>)
    requires
        single_spaced(y),
        y.last() == '"',
        forall|j: int| 0 < j < y.len() && #[trigger] y[j] == ' ' ==> y[j - 1] != '"',
    ensures
        ws_tokens(y).len() > 0,
        ws_tokens(y).last().len() > 0 && ws_tokens(y).last().last() == '"',
        forall|i: int| 0 <= i < ws_tokens(y).len() - 1 ==> !((#[trigger] ws_tokens(y)[i]).len() > 0 && ws_tokens(y)[i].last() == '"'),
    decreases y.len(),
{
    if no_ws(y) {
        lemma_ws_tokens_single(y);
    } else {
        let k = first_ws_from(y, 0);
        lemma_first_ws(y, 0);
        let x = y.take(k);
        let z = y.skip(k + 1);
        assert(y =~= x + seq![y[k]] + z);
        lemma_ws_tokens_split(x, y[k], z);
        assert(k > 0);
        assert(no_ws(x));
        lemma_ws_tokens_single(x);
        assert(k < y.len() - 1);
        assert(z[0] == y[k + 1]);
        assert forall|j: int| 0 <= j < z.len() && is_ws(#[trigger] z[j]) implies z[j] == ' ' by {
            assert(z[j] == y[k + 1 + j]);
        }
        assert forall|j: int| 0 <= j < z.len() - 1 implies !(#[trigger] z[j] == ' ' && z[j + 1] == ' ') by {
            assert(z[j] == y[k + 1 + j]);
            assert(z[j + 1] == y[k + 2 + j]);
        }
        assert forall|j: int| 0 < j < z.len() && #[trigger] z[j] == ' ' implies z[j - 1] != '"' by {
            assert(z[j] == y[k + 1 + j]);
            assert(z[j - 1] == y[k + j]);
        }
        assert(z.last() == y.last());
        lemma_tokens_quote_last(z);
        assert(x.last() == y[k - 1]);
        assert(y[k] == ' ');
        let ty = ws_tokens(y);
        assert(ty == seq![x] + ws_tokens(z));
        assert forall|i: int| 0 <= i < ty.len() - 1 implies !((#[trigger] ty[i]).len() > 0 && ty[i].last() == '"') by {
            if i > 0 {
                assert(ty[i] == ws_tokens(z)[i - 1]);
            }
        }
    }
}

/// ASCII text takes one byte per character.
pub proof fn lemma_utf8_len_ascii(s: Seq<char>)
    requires
        forall|i: int| 0 <= i < s.len() ==> (#[trigger] s[i] as u32) < 0x80,
    ensures
        utf8_len(s) == s.len(),
    decreases s.len(),
{
    if s.len() > 0 {
        lemma_utf8_len_ascii(s.drop_last());
    }
}

/// When the first `k` characters take `b` bytes, byte `b` is a boundary and
/// `k` characters lie before it.
pub proof fn lemma_boundary_at(s: Seq<char>, k: int, b: int)
    requires
        0 <= k <= s.len(),
        utf8_len(s.take(k)) == b,
    ensures
        is_boundary(s, b),
        chars_before_byte(s, b) == k,
{
    let j = chars_before_byte(s, b);
    assert(0 <= j <= s.len() && utf8_len(s.take(j)) == b);
    if j < k {
        lemma_utf8_len_strict(s, j, k);
    } else if j > k {
        lemma_utf8_len_strict(s, k, j);
    }
}

} // verus!
