//! The balance rule read per commodity: the totals `validate` keeps are the
//! sums of each commodity's amounts.

use vstd::prelude::*;
use crate::commodity_value::fixed_decimal::{max_nat, sum_value};
use crate::text::{lemma_pow10_add, lemma_pow10_pos, pow10};
use super::{TotalsView, has_negative, has_positive, index_of_name, is_balanced, lemma_index_of_name, none_count, totals, unbalanced_count};
use super::posting::PostingView;

verus! {

/// `v` scaled to `p` decimal places (for `p >= v.1`).
pub open spec fn scaled_to(v: (int, nat), p: nat) -> int {
    v.0 * pow10((p - v.1) as nat)
}

/// The sum of the amounts in commodity `c`, each scaled to `p` places.
pub open spec fn commodity_sum(ps: Seq<PostingView>, c: Seq<char>, p: nat) -> int
    decreases ps.len(),
{
    if ps.len() == 0 {
        0
    } else {
        commodity_sum(ps.drop_last(), c, p) + match ps.last().1 {
            Some(v) => if v.1 == c { scaled_to(v.0, p) } else { 0 },
            None => 0,
        }
    }
}

/// No amount has more than `p` decimal places.
pub open spec fn precisions_within(ps: Seq<PostingView>, p: nat) -> bool {
    forall|k: int| 0 <= k < ps.len() ==> ((#[trigger] ps[k]).1 matches Some(v) ==> v.0.1 <= p)
}

proof fn lemma_scaled_sum(x: (int, nat), y: (int, nat), p: nat)
    requires
        x.1 <= p,
        y.1 <= p,
    ensures
        sum_value(x, y).1 <= p,
        scaled_to(sum_value(x, y), p) == scaled_to(x, p) + scaled_to(y, p),
{
    let m = max_nat(x.1, y.1);
    let e = pow10((p - m) as nat);
    let a = pow10((m - x.1) as nat);
    let b = pow10((m - y.1) as nat);
    lemma_pow10_add((m - x.1) as nat, (p - m) as nat);
    lemma_pow10_add((m - y.1) as nat, (p - m) as nat);
    assert(((m - x.1) as nat + (p - m) as nat) as nat == (p - x.1) as nat);
    assert(((m - y.1) as nat + (p - m) as nat) as nat == (p - y.1) as nat);
    assert((x.0 * a + y.0 * b) * e == x.0 * (a * e) + y.0 * (b * e)) by (nonlinear_arith);
}

proof fn lemma_scaled_sign(v: (int, nat), p: nat)
    ensures
        (scaled_to(v, p) == 0) == (v.0 == 0),
        (scaled_to(v, p) > 0) == (v.0 > 0),
        (scaled_to(v, p) < 0) == (v.0 < 0),
{
    let e = pow10((p - v.1) as nat);
    lemma_pow10_pos((p - v.1) as nat);
    assert((v.0 * e == 0) == (v.0 == 0)) by (nonlinear_arith) requires e >= 1;
    assert((v.0 * e > 0) == (v.0 > 0)) by (nonlinear_arith) requires e >= 1;
    assert((v.0 * e < 0) == (v.0 < 0)) by (nonlinear_arith) requires e >= 1;
}

/// The totals name each commodity once, each holds its commodity's sum,
/// and a commodity they do not name sums to zero.
proof fn lemma_totals_sums(ps: Seq<PostingView>, p: nat)
    requires
        precisions_within(ps, p),
    ensures
        forall|j: int, k: int| 0 <= j < k < totals(ps).len() ==> totals(ps)[j].0 != totals(ps)[k].0,
        forall|k: int| 0 <= k < totals(ps).len() ==> (#[trigger] totals(ps)[k]).1.1 <= p
            && scaled_to(totals(ps)[k].1, p) == commodity_sum(ps, totals(ps)[k].0, p),
        forall|c: Seq<char>| (forall|k: int| 0 <= k < totals(ps).len() ==> totals(ps)[k].0 != c)
            ==> #[trigger] commodity_sum(ps, c, p) == 0,
    decreases ps.len(),
{
    if ps.len() > 0 {
        let init = ps.drop_last();
        assert(precisions_within(init, p)) by {
            assert forall|k: int| 0 <= k < init.len() implies ((#[trigger] init[k]).1 matches Some(v) ==> v.0.1 <= p) by {
                assert(init[k] == ps[k]);
            }
        }
        lemma_totals_sums(init, p);
        let t0 = totals(init);
        let t = totals(ps);
        match ps.last().1 {
            None => {
                assert forall|c: Seq<char>| #[trigger] commodity_sum(ps, c, p) == commodity_sum(init, c, p) by {}
            },
            Some(v) => {
                assert(v.0.1 <= p) by {
                    assert(ps[ps.len() - 1] == ps.last());
                }
                lemma_index_of_name(t0, v.1);
                let k = index_of_name(t0, v.1);
                assert forall|c: Seq<char>| c != v.1 implies #[trigger] commodity_sum(ps, c, p) == commodity_sum(init, c, p) by {}
                assert(commodity_sum(ps, v.1, p) == commodity_sum(init, v.1, p) + scaled_to(v.0, p));
                if k >= 0 {
                    lemma_scaled_sum(t0[k].1, v.0, p);
                    assert(t == t0.update(k, (v.1, sum_value(t0[k].1, v.0))));
                    assert forall|j: int| 0 <= j < t.len() implies (#[trigger] t[j]).1.1 <= p
                        && scaled_to(t[j].1, p) == commodity_sum(ps, t[j].0, p) by {
                        if j != k {
                            assert(t[j] == t0[j]);
                            assert(t0[j].0 != v.1);
                        }
                    }
                    assert forall|i: int, j: int| 0 <= i < j < t.len() implies t[i].0 != t[j].0 by {
                        assert(t[i].0 == t0[i].0);
                        assert(t[j].0 == t0[j].0);
                    }
                    assert forall|c: Seq<char>| (forall|j: int| 0 <= j < t.len() ==> t[j].0 != c)
                        implies #[trigger] commodity_sum(ps, c, p) == 0 by {
                        assert(t[k].0 == v.1);
                        assert forall|j: int| 0 <= j < t0.len() implies t0[j].0 != c by {
                            assert(t[j].0 == t0[j].0);
                        }
                    }
                } else {
                    assert(t == t0.push((v.1, v.0)));
                    assert(commodity_sum(init, v.1, p) == 0);
                    assert forall|j: int| 0 <= j < t.len() implies (#[trigger] t[j]).1.1 <= p
                        && scaled_to(t[j].1, p) == commodity_sum(ps, t[j].0, p) by {
                        if j < t0.len() {
                            assert(t[j] == t0[j]);
                            assert(t0[j].0 != v.1);
                        }
                    }
                    assert forall|i: int, j: int| 0 <= i < j < t.len() implies t[i].0 != t[j].0 by {
                        assert(t[i] == t0[i]);
                        if j < t0.len() {
                            assert(t[j] == t0[j]);
                        }
                    }
                    assert forall|c: Seq<char>| (forall|j: int| 0 <= j < t.len() ==> t[j].0 != c)
                        implies #[trigger] commodity_sum(ps, c, p) == 0 by {
                        assert(t[t0.len() as int].0 == v.1);
                        assert forall|j: int| 0 <= j < t0.len() implies t0[j].0 != c by {
                            assert(t[j] == t0[j]);
                        }
                    }
                }
            },
        }
    }
}

proof fn lemma_unbalanced_count(t: TotalsView)
    ensures
        (unbalanced_count(t) >= 1) == (exists|k: int| 0 <= k < t.len() && #[trigger] t[k].1.0 != 0),
        (unbalanced_count(t) >= 2) == (exists|j: int, k: int| 0 <= j < k < t.len() && #[trigger] t[j].1.0 != 0 && #[trigger] t[k].1.0 != 0),
    decreases t.len(),
{
    if t.len() > 0 {
        let init = t.drop_last();
        lemma_unbalanced_count(init);
        let n = t.len() - 1;
        assert(t.last() == t[n]);
        if exists|k: int| 0 <= k < init.len() && #[trigger] init[k].1.0 != 0 {
            let k = choose|k: int| 0 <= k < init.len() && #[trigger] init[k].1.0 != 0;
            assert(t[k] == init[k]);
        }
        if exists|k: int| 0 <= k < t.len() && #[trigger] t[k].1.0 != 0 {
            let k = choose|k: int| 0 <= k < t.len() && #[trigger] t[k].1.0 != 0;
            if k < n {
                assert(init[k] == t[k]);
            }
        }
        if exists|j: int, k: int| 0 <= j < k < init.len() && #[trigger] init[j].1.0 != 0 && #[trigger] init[k].1.0 != 0 {
            let (j, k) = choose|j: int, k: int| 0 <= j < k < init.len() && #[trigger] init[j].1.0 != 0 && #[trigger] init[k].1.0 != 0;
            assert(t[j] == init[j] && t[k] == init[k]);
        }
        if exists|j: int, k: int| 0 <= j < k < t.len() && #[trigger] t[j].1.0 != 0 && #[trigger] t[k].1.0 != 0 {
            let (j, k) = choose|j: int, k: int| 0 <= j < k < t.len() && #[trigger] t[j].1.0 != 0 && #[trigger] t[k].1.0 != 0;
            assert(init[j] == t[j]);
            if k < n {
                assert(init[k] == t[k]);
            }
        }
        if t[n].1.0 != 0 && unbalanced_count(init) >= 1 {
            let j = choose|k: int| 0 <= k < init.len() && #[trigger] init[k].1.0 != 0;
            assert(t[j] == init[j]);
            assert(t[j].1.0 != 0 && t[n].1.0 != 0);
        }
    }
}

/// The balance rule over the sums of each commodity: with more than one
/// auto-balancing posting a transaction is unbalanced; with exactly one it
/// is balanced; with none it is balanced when every commodity sums to zero,
/// or when at least two commodities do not and some sum is positive and some
/// negative. Sums are taken with the amounts scaled to `p` places, `p` at
/// least every amount's precision.
pub proof fn law_balanced_by_commodity_sums(ps: Seq<PostingView>, p: nat)
    requires
        precisions_within(ps, p),
    ensures
        is_balanced(ps) == (none_count(ps) == 1 || (none_count(ps) == 0 && (
            (forall|c: Seq<char>| #[trigger] commodity_sum(ps, c, p) == 0)
            || ((exists|c1: Seq<char>, c2: Seq<char>| c1 != c2 && #[trigger] commodity_sum(ps, c1, p) != 0
                    && #[trigger] commodity_sum(ps, c2, p) != 0)
                && (exists|c: Seq<char>| #[trigger] commodity_sum(ps, c, p) > 0)
                && (exists|c: Seq<char>| #[trigger] commodity_sum(ps, c, p) < 0))))),
{
    let t = totals(ps);
    lemma_totals_sums(ps, p);
    lemma_unbalanced_count(t);
    assert forall|k: int| 0 <= k < t.len() implies
        (#[trigger] t[k]).1.0 == 0 <==> commodity_sum(ps, t[k].0, p) == 0 by {
        lemma_scaled_sign(t[k].1, p);
    }
    assert forall|k: int| 0 <= k < t.len() implies
        ((#[trigger] t[k]).1.0 > 0 <==> commodity_sum(ps, t[k].0, p) > 0)
        && (t[k].1.0 < 0 <==> commodity_sum(ps, t[k].0, p) < 0) by {
        lemma_scaled_sign(t[k].1, p);
    }
    // every commodity with a non-zero sum is named by the totals
    assert forall|c: Seq<char>| #[trigger] commodity_sum(ps, c, p) != 0 implies
        exists|k: int| 0 <= k < t.len() && t[k].0 == c by {}
    // all zero
    let all_zero = forall|c: Seq<char>| #[trigger] commodity_sum(ps, c, p) == 0;
    if all_zero {
        assert forall|k: int| 0 <= k < t.len() implies #[trigger] t[k].1.0 == 0 by {
            assert(commodity_sum(ps, t[k].0, p) == 0);
        }
    }
    if unbalanced_count(t) == 0 {
        assert forall|c: Seq<char>| #[trigger] commodity_sum(ps, c, p) == 0 by {
            if commodity_sum(ps, c, p) != 0 {
                let k = choose|k: int| 0 <= k < t.len() && t[k].0 == c;
                assert(t[k].1.0 != 0);
            }
        }
    }
    // two off balance
    if unbalanced_count(t) >= 2 {
        let (j, k) = choose|j: int, k: int| 0 <= j < k < t.len() && #[trigger] t[j].1.0 != 0 && #[trigger] t[k].1.0 != 0;
        assert(commodity_sum(ps, t[j].0, p) != 0 && commodity_sum(ps, t[k].0, p) != 0 && t[j].0 != t[k].0);
    }
    if exists|c1: Seq<char>, c2: Seq<char>| c1 != c2 && #[trigger] commodity_sum(ps, c1, p) != 0
        && #[trigger] commodity_sum(ps, c2, p) != 0 {
        let (c1, c2) = choose|c1: Seq<char>, c2: Seq<char>| c1 != c2 && #[trigger] commodity_sum(ps, c1, p) != 0
            && #[trigger] commodity_sum(ps, c2, p) != 0;
        let j = choose|k: int| 0 <= k < t.len() && t[k].0 == c1;
        let k = choose|k: int| 0 <= k < t.len() && t[k].0 == c2;
        assert(t[j].1.0 != 0 && t[k].1.0 != 0);
        if j < k {
            assert(unbalanced_count(t) >= 2);
        } else {
            assert(k < j);
            assert(unbalanced_count(t) >= 2);
        }
    }
    // signs
    if has_positive(t) {
        let k = choose|i: int| 0 <= i < t.len() && t[i].1.0 > 0;
        assert(commodity_sum(ps, t[k].0, p) > 0);
    }
    if exists|c: Seq<char>| #[trigger] commodity_sum(ps, c, p) > 0 {
        let c = choose|c: Seq<char>| #[trigger] commodity_sum(ps, c, p) > 0;
        let k = choose|k: int| 0 <= k < t.len() && t[k].0 == c;
        assert(t[k].1.0 > 0);
    }
    if has_negative(t) {
        let k = choose|i: int| 0 <= i < t.len() && t[i].1.0 < 0;
        assert(commodity_sum(ps, t[k].0, p) < 0);
    }
    if exists|c: Seq<char>| #[trigger] commodity_sum(ps, c, p) < 0 {
        let c = choose|c: Seq<char>| #[trigger] commodity_sum(ps, c, p) < 0;
        let k = choose|k: int| 0 <= k < t.len() && t[k].0 == c;
        assert(t[k].1.0 < 0);
    }
}

} // verus!
