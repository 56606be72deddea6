//! Content fingerprints: a 64-bit FNV-1a style fold over words, and a verified
//! sort used to make fingerprints independent of the order of parts.

use vstd::prelude::*;
use vstd::relations::{sorted_by, total_ordering};

verus! {

pub open spec fn fnv_offset() -> u64 {
    0xcbf2_9ce4_8422_2325u64
}

pub open spec fn fnv_prime() -> int {
    0x0000_0100_0000_01b3
}

/// One step: mix in a word.
pub closed spec fn fnv_step(h: u64, w: u64) -> u64 {
    (((h ^ w) as int * fnv_prime()) % 0x1_0000_0000_0000_0000) as u64
}

/// Mixes the words of `ws`, in order, into `h`.
pub closed spec fn fnv(h: u64, ws: Seq<u64>) -> u64
    decreases ws.len(),
{
    if ws.len() == 0 {
        h
    } else {
        fnv_step(fnv(h, ws.drop_last()), ws.last())
    }
}

/// The words a text contributes: its code points.
pub open spec fn char_words(s: Seq<char>) -> Seq<u64> {
    s.map_values(|c: char| c as u64)
}

pub proof fn lemma_fnv_concat(h: u64, a: Seq<u64>, b: Seq<u64>)
    ensures
        fnv(h, a + b) == fnv(fnv(h, a), b),
    decreases b.len(),
{
    if b.len() == 0 {
        assert(a + b =~= a);
    } else {
        lemma_fnv_concat(h, a, b.drop_last());
        assert((a + b).drop_last() =~= a + b.drop_last());
        assert((a + b).last() == b.last());
    }
}

pub fn fnv_word(h: u64, w: u64) -> (r: u64)
    ensures
        r == fnv(h, seq![w]),
{
    let x: u64 = h ^ w;
    let m: u128 = (x as u128) * 0x0000_0100_0000_01b3u128;
    assert(seq![w].drop_last() =~= Seq::<u64>::empty());
    assert(fnv(h, seq![w]) == fnv_step(fnv(h, Seq::empty()), w));
    assert(fnv(h, Seq::<u64>::empty()) == h);
    let r = (m % 0x1_0000_0000_0000_0000u128) as u64;
    assert(m as int == x as int * fnv_prime());
    assert(r == fnv_step(h, w));
    r
}

/// Mixes the code points of `s` into `h`.
pub fn fnv_chars(h: u64, s: &str) -> (r: u64)
    ensures
        r == fnv(h, char_words(s@)),
{
    let cs = crate::text::chars_of(s);
    let mut acc = h;
    let mut i: usize = 0;
    while i < cs.len()
        invariant
            i <= cs.len(),
            cs@ == s@,
            acc == fnv(h, char_words(cs@.take(i as int))),
        decreases cs.len() - i,
    {
        let ghost before = char_words(cs@.take(i as int));
        let ghost prev = acc;
        acc = fnv_word(acc, cs[i] as u64);
        i = i + 1;
        proof {
            let after = char_words(cs@.take(i as int));
            assert(after =~= before + seq![cs@[i - 1] as u64]);
            lemma_fnv_concat(h, before, seq![cs@[i - 1] as u64]);
        }
    }
    assert(cs@.take(cs.len() as int) =~= cs@);
    acc
}

/// Mixes the words of `ws` into `h`.
pub fn fnv_words(h: u64, ws: &Vec<u64>) -> (r: u64)
    ensures
        r == fnv(h, ws@),
{
    let mut acc = h;
    let mut i: usize = 0;
    while i < ws.len()
        invariant
            i <= ws.len(),
            acc == fnv(h, ws@.take(i as int)),
        decreases ws.len() - i,
    {
        acc = fnv_word(acc, ws[i]);
        i = i + 1;
        assert(ws@.take(i as int) =~= ws@.take(i - 1) + seq![ws@[i - 1]]);
        proof {
            lemma_fnv_concat(h, ws@.take(i - 1), seq![ws@[i - 1]]);
        }
    }
    assert(ws@.take(ws.len() as int) =~= ws@);
    acc
}

/// Multiplying by the FNV prime modulo 2^64 loses nothing: the prime is odd,
/// and multiplying by its inverse modulo 2^64 gives the word back.
proof fn lemma_prime_product_undone(x: u64)
    ensures
        ((x as int * fnv_prime()) % 0x1_0000_0000_0000_0000) * 0xce96_5057_aff6_957b % 0x1_0000_0000_0000_0000 == x,
{
    let m: int = 0x1_0000_0000_0000_0000;
    let p: int = fnv_prime();
    let inv: int = 0xce96_5057_aff6_957b;
    let k: int = 887285111055;
    assert(p * inv == 1 + k * m);
    vstd::arithmetic::div_mod::lemma_mul_mod_noop_left(x as int * p, inv, m);
    assert((x as int * p) * inv == x as int + m * (x as int * k)) by (nonlinear_arith)
        requires
            p * inv == 1 + k * m,
    ;
    vstd::arithmetic::div_mod::lemma_mod_multiples_vanish(x as int * k, x as int, m);
    vstd::arithmetic::div_mod::lemma_small_mod(x as nat, m as nat);
}

/// One step tells apart two states mixed with the same word.
pub proof fn lemma_fnv_step_injective_state(h1: u64, h2: u64, w: u64)
    requires
        fnv_step(h1, w) == fnv_step(h2, w),
    ensures
        h1 == h2,
{
    let m: int = 0x1_0000_0000_0000_0000;
    let x1 = h1 ^ w;
    let x2 = h2 ^ w;
    assert(0 <= (x1 as int * fnv_prime()) % m < m);
    assert(0 <= (x2 as int * fnv_prime()) % m < m);
    assert((x1 as int * fnv_prime()) % m == (x2 as int * fnv_prime()) % m);
    lemma_prime_product_undone(x1);
    lemma_prime_product_undone(x2);
    assert(x1 == x2);
    assert((h1 ^ w) == (h2 ^ w) ==> h1 == h2) by (bit_vector);
}

/// One step tells apart two words mixed into the same state.
pub proof fn lemma_fnv_step_injective_word(h: u64, w1: u64, w2: u64)
    requires
        fnv_step(h, w1) == fnv_step(h, w2),
    ensures
        w1 == w2,
{
    let m: int = 0x1_0000_0000_0000_0000;
    let x1 = h ^ w1;
    let x2 = h ^ w2;
    assert(0 <= (x1 as int * fnv_prime()) % m < m);
    assert(0 <= (x2 as int * fnv_prime()) % m < m);
    assert((x1 as int * fnv_prime()) % m == (x2 as int * fnv_prime()) % m);
    lemma_prime_product_undone(x1);
    lemma_prime_product_undone(x2);
    assert(x1 == x2);
    assert((h ^ w1) == (h ^ w2) ==> w1 == w2) by (bit_vector);
}

/// Mixing the same words into two different states gives different results.
pub proof fn lemma_fnv_injective_state(h1: u64, h2: u64, ws: Seq<u64>)
    requires
        fnv(h1, ws) == fnv(h2, ws),
    ensures
        h1 == h2,
    decreases ws.len(),
{
    if ws.len() > 0 {
        lemma_fnv_step_injective_state(fnv(h1, ws.drop_last()), fnv(h2, ws.drop_last()), ws.last());
        lemma_fnv_injective_state(h1, h2, ws.drop_last());
    }
}

/// Three words mixed into one state: when two of the positions hold the same
/// words, different words at the third give different results.
pub proof fn lemma_fnv_three_words(h: u64, a: Seq<u64>, b: Seq<u64>)
    requires
        a.len() == 3,
        b.len() == 3,
        a != b,
        (a[0] == b[0] && a[1] == b[1]) || (a[0] == b[0] && a[2] == b[2]) || (a[1] == b[1] && a[2] == b[2]),
    ensures
        fnv(h, a) != fnv(h, b),
{
    if fnv(h, a) == fnv(h, b) {
        let a1 = a.drop_last();
        let b1 = b.drop_last();
        let a0 = a1.drop_last();
        let b0 = b1.drop_last();
        assert(a0 =~= seq![a[0]]);
        assert(b0 =~= seq![b[0]]);
        assert(a0.drop_last() =~= Seq::<u64>::empty());
        assert(b0.drop_last() =~= Seq::<u64>::empty());
        assert(fnv(h, Seq::<u64>::empty()) == h);
        assert(a0.last() == a[0]);
        assert(b0.last() == b[0]);
        assert(fnv(h, a0) == fnv_step(fnv(h, a0.drop_last()), a0.last()));
        assert(fnv(h, b0) == fnv_step(fnv(h, b0.drop_last()), b0.last()));
        assert(fnv(h, a0) == fnv_step(h, a[0]));
        assert(fnv(h, b0) == fnv_step(h, b[0]));
        assert(fnv(h, a1) == fnv_step(fnv(h, a0), a[1]));
        assert(fnv(h, b1) == fnv_step(fnv(h, b0), b[1]));
        assert(fnv(h, a) == fnv_step(fnv(h, a1), a[2]));
        assert(fnv(h, b) == fnv_step(fnv(h, b1), b[2]));
        if a[2] == b[2] {
            lemma_fnv_step_injective_state(fnv(h, a1), fnv(h, b1), a[2]);
            if a[1] == b[1] {
                lemma_fnv_step_injective_state(fnv(h, a0), fnv(h, b0), a[1]);
                lemma_fnv_step_injective_word(h, a[0], b[0]);
            } else {
                assert(a[0] == b[0]);
                lemma_fnv_step_injective_word(fnv(h, a0), a[1], b[1]);
            }
        } else {
            assert(a[0] == b[0] && a[1] == b[1]);
            assert(a1 =~= b1);
            lemma_fnv_step_injective_word(fnv(h, a1), a[2], b[2]);
        }
        assert(a =~= b);
    }
}

pub open spec fn u64_leq() -> spec_fn(u64, u64) -> bool {
    |a: u64, b: u64| a <= b
}

pub proof fn lemma_u64_leq_total()
    ensures
        total_ordering(u64_leq()),
{
}

/// The words of `v` in ascending order (an insertion sort).
pub fn sorted_words(v: &Vec<u64>) -> (r: Vec<u64>)
    ensures
        r@ == v@.sort_by(u64_leq()),
{
    broadcast use vstd::seq_lib::group_to_multiset_ensures;
    let mut out: Vec<u64> = Vec::new();
    let mut i: usize = 0;
    while i < v.len()
        invariant
            i <= v.len(),
            sorted_by(out@, u64_leq()),
            out@.to_multiset() == v@.take(i as int).to_multiset(),
        decreases v.len() - i,
    {
        let x = v[i];
        let mut p: usize = 0;
        while p < out.len() && out[p] <= x
            invariant
                p <= out@.len(),
                forall|k: int| 0 <= k < p ==> out@[k] <= x,
            decreases out.len() - p,
        {
            p = p + 1;
        }
        let ghost before = out@;
        out.insert(p, x);
        proof {
            assert(out@ == before.insert(p as int, x));
            assert forall|a: int, b: int| 0 <= a < b < out@.len() implies #[trigger] (u64_leq())(out@[a], out@[b]) by {
                if b < p {
                    assert(out@[a] == before[a] && out@[b] == before[b]);
                    assert((u64_leq())(before[a], before[b]));
                } else if b == p {
                    assert(out@[a] == before[a]);
                } else if a < p {
                    assert(out@[b] == before[b - 1]);
                    assert(out@[a] == before[a]);
                    assert((u64_leq())(before[a], before[b - 1]));
                } else if a == p {
                    assert(out@[b] == before[b - 1]);
                    assert(p < before.len() && !(before[p as int] <= x) || p == before.len());
                    if p < before.len() && b - 1 > p {
                        assert((u64_leq())(before[p as int], before[b - 1]));
                    }
                } else {
                    assert(out@[b] == before[b - 1]);
                    assert(out@[a] == before[a - 1]);
                    assert((u64_leq())(before[a - 1], before[b - 1]));
                }
            }
            assert(v@.take(i + 1) =~= v@.take(i as int).push(x));
            vstd::seq_lib::to_multiset_insert(before, p as int, x);
            vstd::seq_lib::to_multiset_build(v@.take(i as int), x);
        }
        i = i + 1;
    }
    proof {
        assert(v@.take(v.len() as int) =~= v@);
        lemma_u64_leq_total();
        v@.lemma_sort_by_ensures(u64_leq());
        vstd::seq_lib::lemma_sorted_unique(out@, v@.sort_by(u64_leq()), u64_leq());
    }
    out
}

/// Mapping preserves "same elements regardless of order".
pub proof fn lemma_map_multiset<A, B>(s1: Seq<A>, s2: Seq<A>, f: spec_fn(A) -> B)
    requires
        s1.to_multiset() == s2.to_multiset(),
    ensures
        s1.map_values(f).to_multiset() == s2.map_values(f).to_multiset(),
    decreases s1.len(),
{
    broadcast use vstd::seq_lib::group_to_multiset_ensures;
    broadcast use vstd::multiset::group_multiset_axioms;
    if s1.len() == 0 {
        assert(s1.to_multiset().len() == s1.len());
        assert(s2.to_multiset().len() == s2.len());
        assert(s2.len() == 0);
        assert(s1.map_values(f) =~= s2.map_values(f));
    } else {
        let x = s1.last();
        assert(s1.to_multiset().count(x) > 0) by {
            assert(s1.contains(x)) by {
                assert(s1[s1.len() - 1] == x);
            }
        }
        assert(s2.contains(x));
        let i = choose|i: int| 0 <= i < s2.len() && s2[i] == x;
        let s1r = s1.drop_last();
        let s2r = s2.remove(i);
        assert(s1 =~= s1r.push(x));
        assert(s1r.to_multiset() == s2r.to_multiset());
        lemma_map_multiset(s1r, s2r, f);
        assert(s1.map_values(f) =~= s1r.map_values(f).push(f(x)));
        assert(s2.map_values(f) =~= s2r.map_values(f).insert(i, f(x)));
    }
}

} // verus!
