//! The mathematical model of the permutation enumeration.
//!
//! A permutation of a sequence of length `n` is decomposed into a chain of
//! `n - 1` transpositions: position `0` is swapped with one of the positions
//! `0 .. n`, then position `1` with one of `1 .. n`, and so on.  The choices
//! are recorded in a sequence of digits where digit `i` ranges over
//! `[0, i]`, so the digit sequences form a mixed-radix counter whose state
//! space has size `1 * 2 * ... * n == n!`.  This module defines the counter's
//! rank (its value in the factorial number system), the permutation a digit
//! sequence denotes, and proves the laws the generator relies on: the rank is
//! bounded by `n!`, a carry step increments the rank by one, the denoted
//! permutation keeps the multiset of elements, the all-zero counter denotes
//! the identity, and distinct counters denote distinct permutations when the
//! elements are distinct.

use vstd::prelude::*;
use vstd::arithmetic::mul::{
    lemma_mul_inequality, lemma_mul_is_distributive_add_other_way, lemma_mul_strictly_positive,
};
use vstd::seq_lib::to_multiset_update;
use vstd::seq_lib::group_to_multiset_ensures;

verus! {

/// `n!`, the number of permutations of a sequence of length `n`.
pub open spec fn fact(n: nat) -> nat
    decreases n,
{
    if n == 0 {
        1
    } else {
        n * fact((n - 1) as nat)
    }
}

/// The digit sequence is a well-formed mixed-radix counter state:
/// digit `k` ranges over `[0, k]`.
pub open spec fn wf_digits(d: Seq<usize>) -> bool {
    forall|k: int| 0 <= k < d.len() ==> #[trigger] d[k] <= k
}

/// Every digit is zero: the counter's initial state.
pub open spec fn all_zero(d: Seq<usize>) -> bool {
    forall|k: int| 0 <= k < d.len() ==> #[trigger] d[k] == 0
}

/// Every digit is at its maximum: the counter's final state.
pub open spec fn all_max(d: Seq<usize>) -> bool {
    forall|k: int| 0 <= k < d.len() ==> #[trigger] d[k] == k
}

/// No two positions of `s` hold equal elements.
pub open spec fn distinct_elems<T>(s: Seq<T>) -> bool {
    forall|p: int, q: int| 0 <= p < q < s.len() ==> s[p] != s[q]
}

/// The value of the counter in the factorial number system:
/// digit `k` has place value `k!`.
pub open spec fn rank_of(d: Seq<usize>) -> nat
    decreases d.len(),
{
    if d.len() == 0 {
        0
    } else {
        rank_of(d.drop_last()) + (d.last() as nat) * fact((d.len() - 1) as nat)
    }
}

/// `s` with the elements at positions `i` and `j` exchanged.
pub open spec fn swap_seq<T>(s: Seq<T>, i: int, j: int) -> Seq<T> {
    s.update(i, s[j]).update(j, s[i])
}

/// The permutation denoted by the digits `d`, applied to `s`, with the
/// transpositions at positions `0 .. i` already performed: for each step
/// `m` from `i` up to `s.len() - 2`, position `m` is swapped with position
/// `m + d[d.len() - 1 - m]` (the digit for step `m` is read from the high
/// end of the counter).
pub open spec fn apply_from<T>(s: Seq<T>, d: Seq<usize>, i: int) -> Seq<T>
    decreases d.len() - i,
{
    if i < 0 || i >= d.len() - 1 {
        s
    } else {
        apply_from(swap_seq(s, i, i + d[d.len() - 1 - i]), d, i + 1)
    }
}

/// The permutation denoted by the digits `d`, applied to `s`.
pub open spec fn apply_perm<T>(s: Seq<T>, d: Seq<usize>) -> Seq<T> {
    apply_from(s, d, 0)
}

/// `n!` is positive.
pub proof fn lemma_fact_pos(n: nat)
    ensures
        fact(n) >= 1,
    decreases n,
{
    if n > 0 {
        lemma_fact_pos((n - 1) as nat);
        lemma_mul_strictly_positive(n as int, fact((n - 1) as nat) as int);
    }
}

/// A well-formed counter's rank is below `n!`: the counter indexes the
/// permutation space exactly.
pub proof fn lemma_rank_bound(d: Seq<usize>)
    requires
        wf_digits(d),
    ensures
        rank_of(d) < fact(d.len()),
    decreases d.len(),
{
    if d.len() > 0 {
        let n = d.len() as int;
        let prefix = d.drop_last();
        assert forall|k: int| 0 <= k < prefix.len() implies #[trigger] prefix[k] <= k by {
            assert(prefix[k] == d[k]);
        }
        lemma_rank_bound(prefix);
        let f = fact((n - 1) as nat) as int;
        lemma_fact_pos((n - 1) as nat);
        assert(d.last() <= n - 1);
        lemma_mul_inequality(d.last() as int, n - 1, f);
        lemma_mul_is_distributive_add_other_way(f, n - 1, 1);
        assert(fact(n as nat) == n * fact((n - 1) as nat));
    }
}

/// The all-zero counter has rank `0`.
pub proof fn lemma_rank_all_zero(d: Seq<usize>)
    requires
        all_zero(d),
    ensures
        rank_of(d) == 0,
    decreases d.len(),
{
    if d.len() > 0 {
        let prefix = d.drop_last();
        assert forall|k: int| 0 <= k < prefix.len() implies #[trigger] prefix[k] == 0 by {
            assert(prefix[k] == d[k]);
        }
        lemma_rank_all_zero(prefix);
    }
}

/// The all-max counter has rank `n! - 1`: it denotes the last permutation.
pub proof fn lemma_rank_all_max(d: Seq<usize>)
    requires
        all_max(d),
    ensures
        rank_of(d) + 1 == fact(d.len()),
    decreases d.len(),
{
    if d.len() > 0 {
        let n = d.len() as int;
        let prefix = d.drop_last();
        assert forall|k: int| 0 <= k < prefix.len() implies #[trigger] prefix[k] == k by {
            assert(prefix[k] == d[k]);
        }
        lemma_rank_all_max(prefix);
        let f = fact((n - 1) as nat) as int;
        assert(d.last() == n - 1);
        lemma_mul_is_distributive_add_other_way(f, n - 1, 1);
        assert(fact(n as nat) == n * fact((n - 1) as nat));
    }
}

/// One odometer step of the counter increments the rank by one: the digits
/// below `j` carried (they were at their maxima and are reset to zero) and
/// digit `j` absorbed the carry.
pub proof fn lemma_rank_step(d1: Seq<usize>, d2: Seq<usize>, j: int)
    requires
        d1.len() == d2.len(),
        wf_digits(d1),
        0 <= j < d1.len(),
        forall|k: int| 0 <= k < j ==> #[trigger] d1[k] == k,
        forall|k: int| 0 <= k < j ==> #[trigger] d2[k] == 0,
        d1[j] < j,
        d2[j] == d1[j] + 1,
        forall|k: int| j < k < d1.len() ==> #[trigger] d2[k] == d1[k],
    ensures
        rank_of(d2) == rank_of(d1) + 1,
    decreases d1.len(),
{
    let n = d1.len() as int;
    let p1 = d1.drop_last();
    let p2 = d2.drop_last();
    assert forall|k: int| 0 <= k < p1.len() implies #[trigger] p1[k] <= k by {
        assert(p1[k] == d1[k]);
    }
    if j == n - 1 {
        assert forall|k: int| 0 <= k < p1.len() implies #[trigger] p1[k] == k by {
            assert(p1[k] == d1[k]);
        }
        assert forall|k: int| 0 <= k < p2.len() implies #[trigger] p2[k] == 0 by {
            assert(p2[k] == d2[k]);
        }
        lemma_rank_all_max(p1);
        lemma_rank_all_zero(p2);
        let f = fact((n - 1) as nat) as int;
        assert(d2.last() == d1.last() + 1);
        lemma_mul_is_distributive_add_other_way(f, d1.last() as int, 1);
    } else {
        assert forall|k: int| 0 <= k < j implies #[trigger] p1[k] == k by {
            assert(p1[k] == d1[k]);
        }
        assert forall|k: int| 0 <= k < j implies #[trigger] p2[k] == 0 by {
            assert(p2[k] == d2[k]);
        }
        assert(p1[j] == d1[j] && p2[j] == d2[j]);
        assert forall|k: int| j < k < p1.len() implies #[trigger] p2[k] == p1[k] by {
            assert(p1[k] == d1[k] && p2[k] == d2[k]);
        }
        lemma_rank_step(p1, p2, j);
        assert(d2.last() == d1.last());
    }
}

/// The transpositions at steps `i` and beyond leave the positions below `i`
/// untouched.
pub proof fn lemma_apply_from_prefix<T>(s: Seq<T>, d: Seq<usize>, i: int, p: int)
    requires
        wf_digits(d),
        s.len() == d.len(),
        0 <= p < i,
    ensures
        apply_from(s, d, i)[p] == s[p],
    decreases d.len() - i,
{
    if !(i < 0 || i >= d.len() - 1) {
        let j = i + d[d.len() - 1 - i];
        assert(d[d.len() - 1 - i] <= d.len() - 1 - i);
        lemma_apply_from_prefix(swap_seq(s, i, j), d, i + 1, p);
    }
}

/// A transposition keeps the multiset of elements.
pub proof fn lemma_swap_multiset<T>(s: Seq<T>, i: int, j: int)
    requires
        0 <= i < s.len(),
        0 <= j < s.len(),
    ensures
        swap_seq(s, i, j).to_multiset() == s.to_multiset(),
        swap_seq(s, i, j).len() == s.len(),
{
    broadcast use group_to_multiset_ensures;

    if i == j {
        assert(swap_seq(s, i, j) =~= s);
    } else {
        let s1 = s.update(i, s[j]);
        to_multiset_update(s, i, s[j]);
        to_multiset_update(s1, j, s[i]);
        assert(s1[j] == s[j]);
        assert(s.to_multiset().contains(s[i]));
        assert(s.to_multiset().contains(s[j]));
        assert(swap_seq(s, i, j).to_multiset() =~= s.to_multiset());
    }
}

/// A transposition keeps the elements pairwise distinct.
pub proof fn lemma_swap_distinct<T>(s: Seq<T>, i: int, j: int)
    requires
        0 <= i < s.len(),
        0 <= j < s.len(),
        distinct_elems(s),
    ensures
        distinct_elems(swap_seq(s, i, j)),
{
    let t = swap_seq(s, i, j);
    assert forall|p: int, q: int| 0 <= p < q < t.len() implies t[p] != t[q] by {
        let a: int = if p == j { i } else if p == i { j } else { p };
        let b: int = if q == j { i } else if q == i { j } else { q };
        assert(t[p] == s[a] && t[q] == s[b]);
        assert(a != b);
        if a < b {
            assert(s[a] != s[b]);
        } else {
            assert(s[b] != s[a]);
        }
    }
}

/// The multiset law: the permutation denoted by any well-formed counter is a
/// rearrangement of `s` — same length, same elements with the same
/// multiplicities.
pub proof fn lemma_apply_from_multiset<T>(s: Seq<T>, d: Seq<usize>, i: int)
    requires
        wf_digits(d),
        s.len() == d.len(),
    ensures
        apply_from(s, d, i).to_multiset() == s.to_multiset(),
        apply_from(s, d, i).len() == s.len(),
    decreases d.len() - i,
{
    if !(i < 0 || i >= d.len() - 1) {
        let j = i + d[d.len() - 1 - i];
        assert(d[d.len() - 1 - i] <= d.len() - 1 - i);
        lemma_swap_multiset(s, i, j);
        lemma_apply_from_multiset(swap_seq(s, i, j), d, i + 1);
    }
}

/// Every produced permutation holds exactly the elements of the source:
/// the multiset of elements (and hence the length) is preserved.
pub proof fn lemma_apply_perm_multiset<T>(s: Seq<T>, d: Seq<usize>)
    requires
        wf_digits(d),
        s.len() == d.len(),
    ensures
        apply_perm(s, d).to_multiset() == s.to_multiset(),
        apply_perm(s, d).len() == s.len(),
{
    lemma_apply_from_multiset(s, d, 0);
}

/// The all-zero counter denotes the identity permutation.
pub proof fn lemma_apply_from_all_zero<T>(s: Seq<T>, d: Seq<usize>, i: int)
    requires
        all_zero(d),
        s.len() == d.len(),
    ensures
        apply_from(s, d, i) == s,
    decreases d.len() - i,
{
    if !(i < 0 || i >= d.len() - 1) {
        assert(d[d.len() - 1 - i] == 0);
        assert(swap_seq(s, i, i) =~= s);
        lemma_apply_from_all_zero(s, d, i + 1);
    }
}

/// The identity law: the first counter state (all digits zero) denotes the
/// source sequence itself.
pub proof fn lemma_apply_perm_identity<T>(s: Seq<T>, d: Seq<usize>)
    requires
        all_zero(d),
        s.len() == d.len(),
    ensures
        apply_perm(s, d) == s,
{
    lemma_apply_from_all_zero(s, d, 0);
}

proof fn lemma_apply_from_injective<T>(s: Seq<T>, d1: Seq<usize>, d2: Seq<usize>, i: int)
    requires
        distinct_elems(s),
        wf_digits(d1),
        wf_digits(d2),
        d1.len() == s.len(),
        d2.len() == s.len(),
        0 <= i < s.len() - 1,
        exists|p: int| 1 <= p <= s.len() - 1 - i && d1[p] != d2[p],
    ensures
        apply_from(s, d1, i) != apply_from(s, d2, i),
    decreases s.len() - i,
{
    let n = s.len() as int;
    let delta1 = d1[n - 1 - i] as int;
    let delta2 = d2[n - 1 - i] as int;
    assert(delta1 <= n - 1 - i && delta2 <= n - 1 - i);
    if delta1 == delta2 {
        let p = choose|p: int| 1 <= p <= n - 1 - i && d1[p] != d2[p];
        assert(p != n - 1 - i);
        assert(1 <= p <= n - 1 - (i + 1) && d1[p] != d2[p]);
        let t = swap_seq(s, i, i + delta1);
        lemma_swap_distinct(s, i, i + delta1);
        lemma_apply_from_injective(t, d1, d2, i + 1);
    } else {
        let t1 = swap_seq(s, i, i + delta1);
        let t2 = swap_seq(s, i, i + delta2);
        lemma_apply_from_prefix(t1, d1, i + 1, i);
        lemma_apply_from_prefix(t2, d2, i + 1, i);
        assert(t1[i] == s[i + delta1]);
        assert(t2[i] == s[i + delta2]);
        if i + delta1 < i + delta2 {
            assert(s[i + delta1] != s[i + delta2]);
        } else {
            assert(s[i + delta2] != s[i + delta1]);
        }
        assert(apply_from(s, d1, i)[i] != apply_from(s, d2, i)[i]);
    }
}

/// The distinctness law: when the elements of `s` are pairwise distinct,
/// distinct well-formed counters denote distinct permutations, so the
/// enumeration never repeats a produced sequence.
pub proof fn lemma_apply_perm_injective<T>(s: Seq<T>, d1: Seq<usize>, d2: Seq<usize>)
    requires
        distinct_elems(s),
        wf_digits(d1),
        wf_digits(d2),
        d1.len() == s.len(),
        d2.len() == s.len(),
        d1 != d2,
    ensures
        apply_perm(s, d1) != apply_perm(s, d2),
{
    let n = s.len() as int;
    assert(exists|p: int| 0 <= p < n && d1[p] != d2[p]) by {
        if forall|p: int| 0 <= p < n ==> #[trigger] d1[p] == d2[p] {
            assert(d1 =~= d2);
        }
    }
    let p = choose|p: int| 0 <= p < n && d1[p] != d2[p];
    assert(d1[0] == 0 && d2[0] == 0) by {
        if n > 0 {
            assert(d1[0] <= 0 && d2[0] <= 0);
        }
    }
    assert(1 <= p <= n - 1);
    lemma_apply_from_injective(s, d1, d2, 0);
}

/// The distinctness law stated over ranks: two counter states with different
/// ranks denote different permutations of a duplicate-free source.  Across a
/// run of the generator the rank grows by one with every produced
/// permutation, so no two produced permutations are equal as sequences.
pub proof fn lemma_distinct_ranks_distinct_perms<T>(s: Seq<T>, d1: Seq<usize>, d2: Seq<usize>)
    requires
        distinct_elems(s),
        wf_digits(d1),
        wf_digits(d2),
        d1.len() == s.len(),
        d2.len() == s.len(),
        rank_of(d1) != rank_of(d2),
    ensures
        apply_perm(s, d1) != apply_perm(s, d2),
{
    assert(d1 != d2);
    lemma_apply_perm_injective(s, d1, d2);
}

} // verus!
