//! Transactions: a date, a description and postings that balance.

pub mod balance;
pub mod commodity_value;
pub mod posting;

use vstd::prelude::*;
use crate::commodity_value::fixed_decimal::{FixedDecimal, add_fits, sum_value};
use crate::date::{Date, date_str, valid_ymd};
use crate::text::{find_string, join, push_chars};
use crate::hashing::{
    char_words, fnv, fnv_chars, fnv_offset, fnv_word, fnv_words, lemma_fnv_concat, lemma_fnv_injective_state,
    lemma_fnv_three_words,
    lemma_map_multiset, lemma_u64_leq_total, sorted_words, u64_leq,
};
use vstd::relations::sorted_by;
use self::posting::{Posting, PostingView, posting_displayable, posting_str};

verus! {

/// Per-commodity running totals: the commodity name and the scaled sum.
pub type TotalsView = Seq<(Seq<char>, (int, nat))>;

pub open spec fn posting_views(v: Seq<Posting>) -> Seq<PostingView> {
    v.map_values(|p: Posting| p@)
}

/// How many postings have no amount (auto-balancing postings).
pub open spec fn none_count(ps: Seq<PostingView>) -> nat
    decreases ps.len(),
{
    if ps.len() == 0 {
        0
    } else {
        none_count(ps.drop_last()) + if ps.last().1 is None { 1nat } else { 0nat }
    }
}

/// The first index in `t` holding commodity `c`, or -1.
pub open spec fn index_of_name(t: TotalsView, c: Seq<char>) -> int
    decreases t.len(),
{
    if t.len() == 0 {
        -1
    } else {
        let k = index_of_name(t.drop_last(), c);
        if k >= 0 {
            k
        } else if t.last().0 == c {
            t.len() - 1
        } else {
            -1
        }
    }
}

/// The exact sum of the amounts of each commodity, in order of first appearance.
pub open spec fn totals(ps: Seq<PostingView>) -> TotalsView
    decreases ps.len(),
{
    if ps.len() == 0 {
        Seq::empty()
    } else {
        let t = totals(ps.drop_last());
        match ps.last().1 {
            None => t,
            Some(v) => {
                let k = index_of_name(t, v.1);
                if k >= 0 {
                    t.update(k, (v.1, sum_value(t[k].1, v.0)))
                } else {
                    t.push((v.1, v.0))
                }
            },
        }
    }
}

/// Every running per-commodity sum stays within `i64` (as the fixed-point
/// additions require).
pub open spec fn totals_fit(ps: Seq<PostingView>) -> bool
    decreases ps.len(),
{
    if ps.len() == 0 {
        true
    } else {
        &&& totals_fit(ps.drop_last())
        &&& match ps.last().1 {
            None => true,
            Some(v) => {
                let t = totals(ps.drop_last());
                let k = index_of_name(t, v.1);
                k >= 0 ==> add_fits(t[k].1, v.0)
            },
        }
    }
}

/// The number of commodities whose total is not zero.
pub open spec fn unbalanced_count(t: TotalsView) -> nat
    decreases t.len(),
{
    if t.len() == 0 {
        0
    } else {
        unbalanced_count(t.drop_last()) + if t.last().1.0 != 0 { 1nat } else { 0nat }
    }
}

pub open spec fn has_positive(t: TotalsView) -> bool {
    exists|i: int| 0 <= i < t.len() && t[i].1.0 > 0
}

pub open spec fn has_negative(t: TotalsView) -> bool {
    exists|i: int| 0 <= i < t.len() && t[i].1.0 < 0
}

/// The balance rule: exactly one auto-balancing posting, or none and every
/// commodity sums to zero, or none and at least two commodities are off
/// balance with at least one positive and one negative (an exchange).
pub open spec fn is_balanced(ps: Seq<PostingView>) -> bool {
    let n = none_count(ps);
    if n > 1 {
        false
    } else if n == 1 {
        true
    } else {
        let t = totals(ps);
        let u = unbalanced_count(t);
        u == 0 || (u >= 2 && has_positive(t) && has_negative(t))
    }
}

/// The journal entry: `"<date> <description>\n"` and the postings, each on a
/// line of its own indented by a tab.
pub open spec fn transaction_str(d: (int, int, int), desc: Seq<char>, ps: Seq<PostingView>) -> Seq<char> {
    date_str(d.0, d.1 as nat, d.2 as nat) + seq![' '] + desc + seq!['\n']
        + join(ps.map_values(|p: PostingView| seq!['\t'] + posting_str(p)), seq!['\n'])
}

pub proof fn lemma_none_count_prefix(ps: Seq<PostingView>, i: int)
    requires
        0 <= i <= ps.len(),
    ensures
        none_count(ps.take(i)) <= none_count(ps),
    decreases ps.len() - i,
{
    if i < ps.len() {
        lemma_none_count_prefix(ps, i + 1);
        assert(ps.take(i + 1).drop_last() =~= ps.take(i));
    } else {
        assert(ps.take(i) =~= ps);
    }
}

pub proof fn lemma_totals_fit_prefix(ps: Seq<PostingView>, i: int)
    requires
        0 <= i <= ps.len(),
        totals_fit(ps),
    ensures
        totals_fit(ps.take(i)),
    decreases ps.len() - i,
{
    if i < ps.len() {
        assert(ps.take(i + 1).drop_last() =~= ps.take(i));
        lemma_totals_fit_prefix(ps, i + 1);
    } else {
        assert(ps.take(i) =~= ps);
    }
}

pub proof fn lemma_index_of_name(t: TotalsView, c: Seq<char>)
    ensures
        index_of_name(t, c) == -1 <==> forall|k: int| 0 <= k < t.len() ==> t[k].0 != c,
        index_of_name(t, c) >= 0 ==> {
            &&& index_of_name(t, c) < t.len()
            &&& t[index_of_name(t, c)].0 == c
            &&& forall|k: int| 0 <= k < index_of_name(t, c) ==> t[k].0 != c
        },
        index_of_name(t, c) >= -1,
    decreases t.len(),
{
    if t.len() > 0 {
        lemma_index_of_name(t.drop_last(), c);
        let k = index_of_name(t.drop_last(), c);
        if k >= 0 {
            assert(t[k] == t.drop_last()[k]);
            assert forall|j: int| 0 <= j < k implies t[j].0 != c by {
                assert(t[j] == t.drop_last()[j]);
            }
        } else {
            assert forall|j: int| 0 <= j < t.len() - 1 implies t[j].0 != c by {
                assert(t[j] == t.drop_last()[j]);
            }
            if t.last().0 != c {
                assert forall|j: int| 0 <= j < t.len() implies t[j].0 != c by {
                    if j < t.len() - 1 {
                        assert(t[j] == t.drop_last()[j]);
                    }
                }
            }
        }
    }
}

/// The words a posting contributes to a fingerprint: the account, a
/// separator, and the raw amount, precision and commodity when there is one.
pub open spec fn posting_words(p: PostingView) -> Seq<u64> {
    char_words(p.0) + seq![0xFFFF_FFFF_FFFF_FFFFu64] + match p.1 {
        None => seq![0u64],
        Some(v) => seq![1u64, v.0.0 as u64, v.0.1 as u64] + char_words(v.1),
    }
}

pub open spec fn posting_hash(p: PostingView) -> u64 {
    fnv(fnv_offset(), posting_words(p))
}

pub open spec fn date_words(d: (int, int, int)) -> Seq<u64> {
    seq![d.0 as u64, d.1 as u64, d.2 as u64]
}

/// The fingerprint of the date and the postings, the latter taken in sorted
/// order of their own fingerprints so that their order does not matter.
pub open spec fn functional_hash_of(t: ((int, int, int), Seq<char>, Seq<PostingView>)) -> u64 {
    fnv(
        fnv(fnv_offset(), date_words(t.0)),
        t.2.map_values(|p: PostingView| posting_hash(p)).sort_by(u64_leq()),
    )
}

/// The fingerprint of the date and the first posting only.
pub open spec fn partial_hash_of(t: ((int, int, int), Seq<char>, Seq<PostingView>)) -> u64 {
    let h = fnv(fnv_offset(), date_words(t.0));
    if t.2.len() > 0 {
        fnv(h, posting_words(t.2[0]))
    } else {
        h
    }
}

/// Mixes the words of posting `p` into `h`.
fn mix_posting(h: u64, p: &Posting) -> (r: u64)
    ensures
        r == fnv(h, posting_words(p@)),
{
    let ghost pv = p@;
    let ghost head = char_words(pv.0) + seq![0xFFFF_FFFF_FFFF_FFFFu64];
    let h1 = fnv_chars(h, p.get_account());
    let h2 = fnv_word(h1, 0xFFFF_FFFF_FFFF_FFFFu64);
    proof {
        lemma_fnv_concat(h, char_words(pv.0), seq![0xFFFF_FFFF_FFFF_FFFFu64]);
    }
    assert(h2 == fnv(h, head));
    match p.get_amount() {
        None => {
            let r = fnv_word(h2, 0);
            proof {
                lemma_fnv_concat(h, head, seq![0u64]);
            }
            r
        },
        Some(cv) => {
            let mut ws: Vec<u64> = Vec::new();
            ws.push(1);
            ws.push(cv.amount().raw_amount() as u64);
            ws.push(cv.amount().precision() as u64);
            let h3 = fnv_words(h2, &ws);
            let r = fnv_chars(h3, cv.commodity());
            proof {
                let tail = seq![1u64, cv@.0.0 as u64, cv@.0.1 as u64];
                assert(ws@ =~= tail);
                lemma_fnv_concat(h, head, tail);
                lemma_fnv_concat(h, head + tail, char_words(cv@.1));
                assert(head + (tail + char_words(cv@.1)) =~= head + tail + char_words(cv@.1));
            }
            r
        },
    }
}

/// A dated transaction with a description and its postings.
#[derive(Debug, Hash)]
pub struct Transaction {
    date: Date,
    description: String,
    postings: Vec<Posting>,
}

impl View for Transaction {
    type V = ((int, int, int), Seq<char>, Seq<PostingView>);

    closed spec fn view(&self) -> ((int, int, int), Seq<char>, Seq<PostingView>) {
        (self.date@, self.description@, posting_views(self.postings@))
    }
}

fn fnv_offset_value() -> (r: u64)
    ensures
        r == fnv_offset(),
{
    0xcbf2_9ce4_8422_2325u64
}

/// The functional fingerprint of two transaction views with the same date and
/// the same postings in any order is the same.
pub proof fn lemma_functional_hash_views(
    v1: ((int, int, int), Seq<char>, Seq<PostingView>),
    v2: ((int, int, int), Seq<char>, Seq<PostingView>),
)
    requires
        v1.0 == v2.0,
        v1.2.to_multiset() == v2.2.to_multiset(),
    ensures
        functional_hash_of(v1) == functional_hash_of(v2),
{
    let f = |p: PostingView| posting_hash(p);
    let h1 = v1.2.map_values(f);
    let h2 = v2.2.map_values(f);
    lemma_map_multiset(v1.2, v2.2, f);
    lemma_u64_leq_total();
    h1.lemma_sort_by_ensures(u64_leq());
    h2.lemma_sort_by_ensures(u64_leq());
    vstd::seq_lib::lemma_sorted_unique(h1.sort_by(u64_leq()), h2.sort_by(u64_leq()), u64_leq());
}

/// The functional fingerprint ignores the description and the order of the
/// postings: transactions on the same date with the same postings (in any
/// order) have the same functional hash.
pub proof fn law_functional_hash_ignores_order_and_description(t1: Transaction, t2: Transaction)
    requires
        t1@.0 == t2@.0,
        t1@.2.to_multiset() == t2@.2.to_multiset(),
    ensures
        functional_hash_of(t1@) == functional_hash_of(t2@),
{
    lemma_functional_hash_views(t1@, t2@);
}

/// Distinct years of the supported range are distinct words.
proof fn lemma_year_words_distinct(a: int, b: int)
    requires
        -0x8000_0000 <= a < 0x8000_0000,
        -0x8000_0000 <= b < 0x8000_0000,
        a != b,
    ensures
        a as u64 != b as u64,
{
    let x = a as i32;
    let y = b as i32;
    assert(x as int == a);
    assert(y as int == b);
    assert(x != y ==> (x as u64) != (y as u64)) by (bit_vector);
}

/// The functional fingerprint covers the whole date: two transactions with
/// the same postings whose dates differ in just the year, just the month or
/// just the day have different functional fingerprints (a payment repeated a
/// month later is not taken for the earlier one).
pub proof fn law_functional_hash_tells_dates_apart(t1: Transaction, t2: Transaction)
    requires
        valid_ymd(t1@.0.0, t1@.0.1, t1@.0.2),
        valid_ymd(t2@.0.0, t2@.0.1, t2@.0.2),
        t1@.2.to_multiset() == t2@.2.to_multiset(),
        (t1@.0.0 != t2@.0.0 && t1@.0.1 == t2@.0.1 && t1@.0.2 == t2@.0.2)
            || (t1@.0.0 == t2@.0.0 && t1@.0.1 != t2@.0.1 && t1@.0.2 == t2@.0.2)
            || (t1@.0.0 == t2@.0.0 && t1@.0.1 == t2@.0.1 && t1@.0.2 != t2@.0.2),
    ensures
        functional_hash_of(t1@) != functional_hash_of(t2@),
{
    let d1 = t1@.0;
    let d2 = t2@.0;
    let v = (d1, t2@.1, t2@.2);
    lemma_functional_hash_views(t1@, v);
    let hs = t2@.2.map_values(|p: PostingView| posting_hash(p)).sort_by(u64_leq());
    let w1 = date_words(d1);
    let w2 = date_words(d2);
    if d1.0 != d2.0 {
        lemma_year_words_distinct(d1.0, d2.0);
        assert(w1[0] != w2[0]);
    } else if d1.1 != d2.1 {
        assert(w1[1] != w2[1]);
    } else {
        assert(w1[2] != w2[2]);
    }
    assert(w1 != w2);
    lemma_fnv_three_words(fnv_offset(), w1, w2);
    if functional_hash_of(t1@) == functional_hash_of(t2@) {
        assert(functional_hash_of(v) == fnv(fnv(fnv_offset(), w1), hs));
        assert(functional_hash_of(t2@) == fnv(fnv(fnv_offset(), w2), hs));
        lemma_fnv_injective_state(fnv(fnv_offset(), w1), fnv(fnv_offset(), w2), hs);
    }
}

/// The partial fingerprint depends on the date and the first posting alone.
pub proof fn law_partial_hash_uses_date_and_first_posting(t1: Transaction, t2: Transaction)
    requires
        t1@.0 == t2@.0,
        t1@.2.len() > 0,
        t2@.2.len() > 0,
        t1@.2[0] == t2@.2[0],
    ensures
        partial_hash_of(t1@) == partial_hash_of(t2@),
{
}

impl Transaction {
    /// A transaction on `date` with this description and these postings.
    pub fn new(date: Date, description: String, postings: Vec<Posting>) -> (r: Self)
        ensures
            r@ == (date@, description@, posting_views(postings@)),
    {
        Transaction { date, description, postings }
    }

    /// A transaction equal to this one.
    pub fn duplicate(&self) -> (r: Self)
        ensures
            r@ == self@,
    {
        let mut postings: Vec<Posting> = Vec::new();
        let mut i: usize = 0;
        while i < self.postings.len()
            invariant
                i <= self.postings@.len(),
                posting_views(postings@) == posting_views(self.postings@).take(i as int),
            decreases self.postings.len() - i,
        {
            let ghost old_ps = postings@;
            postings.push(self.postings[i].clone());
            assert(posting_views(postings@) =~= posting_views(old_ps).push(postings@.last()@));
            assert(posting_views(self.postings@).take(i + 1) =~= posting_views(self.postings@).take(i as int).push(self.postings@[i as int]@));
            i = i + 1;
        }
        assert(posting_views(self.postings@).take(i as int) =~= posting_views(self.postings@));
        Transaction { date: self.date, description: self.description.clone(), postings }
    }

    pub fn get_date(&self) -> (r: &Date)
        ensures
            r@ == self@.0,
    {
        &self.date
    }

    pub fn get_description(&self) -> (r: &String)
        ensures
            r@ == self@.1,
    {
        &self.description
    }

    pub fn get_postings(&self) -> (r: &Vec<Posting>)
        ensures
            posting_views(r@) == self@.2,
    {
        &self.postings
    }

    /// A fingerprint of the date and the postings, independent of the
    /// description and of the order of the postings; used to recognize a
    /// transaction that is already in the journal.
    pub fn functional_hash(&self) -> (r: u64)
        ensures
            r == functional_hash_of(self@),
    {
        let ghost ps = self@.2;
        let h0 = fnv_words(fnv_offset_value(), &self.date_words_vec());
        let mut hashes: Vec<u64> = Vec::new();
        let mut i: usize = 0;
        while i < self.postings.len()
            invariant
                i <= self.postings@.len(),
                ps == posting_views(self.postings@),
                hashes@ == ps.take(i as int).map_values(|p: PostingView| posting_hash(p)),
            decreases self.postings.len() - i,
        {
            let h = mix_posting(fnv_offset_value(), &self.postings[i]);
            hashes.push(h);
            i = i + 1;
            assert(ps.take(i as int).map_values(|p: PostingView| posting_hash(p))
                =~= ps.take(i - 1).map_values(|p: PostingView| posting_hash(p)).push(h));
        }
        assert(ps.take(ps.len() as int) =~= ps);
        let sorted = sorted_words(&hashes);
        fnv_words(h0, &sorted)
    }

    /// A fingerprint of the date and the first posting only, for matching an
    /// entry whose other postings are not yet known.
    pub fn partial_hash(&self) -> (r: u64)
        ensures
            r == partial_hash_of(self@),
    {
        let h0 = fnv_words(fnv_offset_value(), &self.date_words_vec());
        if self.postings.len() > 0 {
            mix_posting(h0, &self.postings[0])
        } else {
            h0
        }
    }

    fn date_words_vec(&self) -> (r: Vec<u64>)
        ensures
            r@ == date_words(self@.0),
    {
        let mut v: Vec<u64> = Vec::new();
        v.push(self.date.year() as u64);
        v.push(self.date.month() as u64);
        v.push(self.date.day() as u64);
        assert(v@ =~= date_words(self@.0));
        v
    }

    /// The journal entry text, e.g.
    /// `"2024-01-01 Groceries\n\texpenses:food  50 SEK\n\tassets:bank"`.
    pub fn to_string(&self) -> (r: String)
        requires
            forall|k: int| 0 <= k < self@.2.len() ==> posting_displayable(#[trigger] self@.2[k]),
        ensures
            r@ == transaction_str(self@.0, self@.1, self@.2),
    {
        let ghost ps = self@.2;
        let ghost lines = ps.map_values(|p: PostingView| seq!['\t'] + posting_str(p));
        let mut s = self.date.to_string();
        s.push(' ');
        s.append(self.description.as_str());
        s.push('\n');
        let ghost head = s@;
        let mut i: usize = 0;
        while i < self.postings.len()
            invariant
                i <= self.postings@.len(),
                ps == posting_views(self.postings@),
                lines == ps.map_values(|p: PostingView| seq!['\t'] + posting_str(p)),
                forall|k: int| 0 <= k < ps.len() ==> posting_displayable(#[trigger] ps[k]),
                s@ == head + join(lines.take(i as int), seq!['\n']),
            decreases self.postings.len() - i,
        {
            let ghost before = s@;
            assert(posting_displayable(ps[i as int]));
            if i > 0 {
                s.push('\n');
            }
            s.push('\t');
            let line = self.postings[i].to_string();
            s.append(line.as_str());
            i = i + 1;
            proof {
                let lt = lines.take(i as int);
                assert(lt.drop_last() =~= lines.take(i - 1));
                assert(lt.last() == seq!['\t'] + posting_str(ps[i - 1]));
                if i - 1 == 0 {
                    assert(lt.len() == 1);
                    assert(join(lines.take(0), seq!['\n']) =~= Seq::<char>::empty());
                }
            }
        }
        assert(lines.take(ps.len() as int) =~= lines);
        s
    }

    /// The total of each commodity in order of first appearance (see
    /// `totals`), or `None` when a running total leaves what `add` computes
    /// (see `totals_fit`).
    fn commodity_totals(&self) -> (r: Option<(Vec<String>, Vec<FixedDecimal>)>)
        ensures
            r is Some <==> totals_fit(self@.2),
            r matches Some(v) ==> {
                &&& v.0@.len() == v.1@.len()
                &&& v.0@.len() == totals(self@.2).len()
                &&& forall|k: int| 0 <= k < v.0@.len() ==> (#[trigger] v.0@[k])@ == totals(self@.2)[k].0
                &&& forall|k: int| 0 <= k < v.1@.len() ==> (#[trigger] v.1@[k])@ == totals(self@.2)[k].1
            },
    {
        let ghost ps = self@.2;
        let n = self.postings.len();
        let mut names: Vec<String> = Vec::new();
        let mut sums: Vec<FixedDecimal> = Vec::new();
        let mut i: usize = 0;
        while i < n
            invariant
                n == self.postings@.len(),
                ps == posting_views(self.postings@),
                totals_fit(ps.take(i as int)),
                i <= n,
                names@.len() == sums@.len(),
                names@.len() == totals(ps.take(i as int)).len(),
                forall|k: int| 0 <= k < names@.len() ==>
                    (#[trigger] names@[k])@ == totals(ps.take(i as int))[k].0,
                forall|k: int| 0 <= k < sums@.len() ==>
                    (#[trigger] sums@[k])@ == totals(ps.take(i as int))[k].1,
            decreases n - i,
        {
            let ghost t = totals(ps.take(i as int));
            proof {
                assert(ps.take(i + 1).drop_last() =~= ps.take(i as int));
                assert(ps.take(i + 1).last() == self.postings@[i as int]@);
            }
            match self.postings[i].get_amount() {
                None => {},
                Some(cv) => {
                    let name = cv.commodity();
                    let pos = find_string(&names, name);
                    proof {
                        lemma_index_of_name(t, name@);
                        match pos {
                            Some(j) => {
                                assert(t[j as int].0 == name@);
                                let k = index_of_name(t, name@);
                                if k != j as int {
                                    if k >= 0 && k < j {
                                        assert(names@[k]@ == t[k].0);
                                    } else if k > j {
                                        assert(t[j as int].0 != name@);
                                    } else {
                                        assert(t[j as int].0 != name@);
                                    }
                                }
                            },
                            None => {
                                assert forall|k: int| 0 <= k < t.len() implies t[k].0 != name@ by {
                                    assert(names@[k]@ == t[k].0);
                                }
                            },
                        }
                    }
                    let found = pos.is_some();
                    let j: usize = match pos { Some(j) => j, None => 0 };
                    if found {
                        if !sums[j].add_fits_check(cv.amount()) {
                            proof {
                                assert(!totals_fit(ps.take(i + 1)));
                                if totals_fit(ps) {
                                    lemma_totals_fit_prefix(ps, i + 1);
                                }
                            }
                            return None;
                        }
                        let s = sums[j].add(cv.amount());
                        sums.set(j, s);
                    } else {
                        names.push(name.to_owned());
                        sums.push(*cv.amount());
                    }
                },
            }
            i = i + 1;
            proof {
                let t2 = totals(ps.take(i as int));
                assert(names@.len() == t2.len());
                assert forall|k: int| 0 <= k < names@.len() implies
                    (#[trigger] names@[k])@ == t2[k].0 by {
                }
                assert forall|k: int| 0 <= k < sums@.len() implies
                    (#[trigger] sums@[k])@ == t2[k].1 by {
                }
            }
        }
        assert(ps.take(n as int) =~= ps);
        Some((names, sums))
    }

    /// Whether the running total of every commodity stays within what `add`
    /// computes (see `totals_fit`); `validate` needs it when no posting is
    /// auto-balanced.
    pub fn totals_fit_check(&self) -> (r: bool)
        ensures
            r == totals_fit(self@.2),
    {
        self.commodity_totals().is_some()
    }

    /// Whether every amount can be displayed (see `posting_displayable`), as
    /// `to_string` needs.
    pub fn postings_displayable(&self) -> (r: bool)
        ensures
            r == forall|k: int| 0 <= k < self@.2.len() ==> posting_displayable(#[trigger] self@.2[k]),
    {
        let ghost ps = self@.2;
        let mut i: usize = 0;
        while i < self.postings.len()
            invariant
                i <= self.postings@.len(),
                ps == posting_views(self.postings@),
                ps == self@.2,
                forall|k: int| 0 <= k < i ==> posting_displayable(#[trigger] ps[k]),
            decreases self.postings.len() - i,
        {
            assert(ps[i as int] == self.postings@[i as int]@);
            match self.postings[i].get_amount() {
                Some(cv) => {
                    let a = cv.amount();
                    if !(a.precision() == 0 || (a.precision() <= 18 && a.raw_amount() != i64::MIN)) {
                        assert(ps[i as int].1 == Some(cv@) && a@ == cv@.0);
                        assert(!posting_displayable(ps[i as int]));
                        return false;
                    }
                },
                None => {},
            }
            i = i + 1;
        }
        true
    }

    /// Whether the transaction balances (see `is_balanced`): a single
    /// auto-balancing posting always does, two or more never do, and otherwise
    /// the per-commodity totals decide.
    pub fn validate(&self) -> (r: bool)
        requires
            none_count(self@.2) == 0 ==> totals_fit(self@.2),
        ensures
            r == is_balanced(self@.2),
    {
        let ghost ps = self@.2;
        let n = self.postings.len();
        let mut count: usize = 0;
        let mut i: usize = 0;
        while i < n
            invariant
                n == self.postings@.len(),
                ps == posting_views(self.postings@),
                i <= n,
                count as nat == none_count(ps.take(i as int)),
                count <= 1,
            decreases n - i,
        {
            proof {
                assert(ps.take(i + 1).drop_last() =~= ps.take(i as int));
                assert(ps.take(i + 1).last() == self.postings@[i as int]@);
            }
            if self.postings[i].get_amount().is_none() {
                count = count + 1;
                if count > 1 {
                    proof {
                        lemma_none_count_prefix(ps, i + 1);
                    }
                    return false;
                }
            }
            i = i + 1;
        }
        assert(ps.take(n as int) =~= ps);
        if count == 1 {
            return true;
        }
        let (names, sums) = match self.commodity_totals() {
            Some(v) => v,
            None => return false,
        };
        assert(ps.take(n as int) =~= ps);
        let mut unbalanced: usize = 0;
        let mut has_pos = false;
        let mut has_neg = false;
        let mut k: usize = 0;
        let ghost t = totals(ps);
        while k < sums.len()
            invariant
                k <= sums@.len(),
                sums@.len() == t.len(),
                forall|m: int| 0 <= m < sums@.len() ==> (#[trigger] sums@[m])@ == t[m].1,
                unbalanced as nat == unbalanced_count(t.take(k as int)),
                unbalanced <= k,
                has_pos == has_positive(t.take(k as int)),
                has_neg == has_negative(t.take(k as int)),
            decreases sums.len() - k,
        {
            let a = sums[k].raw_amount();
            proof {
                assert(t.take(k + 1).drop_last() =~= t.take(k as int));
                assert(t.take(k + 1).last() == t[k as int]);
            }
            if a != 0 {
                unbalanced = unbalanced + 1;
                if a > 0 {
                    has_pos = true;
                } else {
                    has_neg = true;
                }
            }
            k = k + 1;
            proof {
                let tk = t.take(k as int);
                let tp = t.take(k - 1);
                assert(forall|w: int| 0 <= w < tp.len() ==> tp[w] == tk[w]);
                assert(tk[k - 1] == tk.last());
                assert(has_positive(tk) == (has_positive(tp) || tk.last().1.0 > 0)) by {
                    if has_positive(tk) {
                        let w = choose|w: int| 0 <= w < tk.len() && #[trigger] tk[w].1.0 > 0;
                        if w < k - 1 {
                            assert(tp[w] == tk[w]);
                        }
                    }
                    if has_positive(tp) {
                        let w = choose|w: int| 0 <= w < tp.len() && #[trigger] tp[w].1.0 > 0;
                        assert(tp[w] == tk[w]);
                    }
                }
                assert(has_negative(tk) == (has_negative(tp) || tk.last().1.0 < 0)) by {
                    if has_negative(tk) {
                        let w = choose|w: int| 0 <= w < tk.len() && #[trigger] tk[w].1.0 < 0;
                        if w < k - 1 {
                            assert(tp[w] == tk[w]);
                        }
                    }
                    if has_negative(tp) {
                        let w = choose|w: int| 0 <= w < tp.len() && #[trigger] tp[w].1.0 < 0;
                        assert(tp[w] == tk[w]);
                    }
                }
            }
        }
        assert(t.take(t.len() as int) =~= t);
        unbalanced == 0 || (unbalanced >= 2 && has_pos && has_neg)
    }
}

} // verus!
