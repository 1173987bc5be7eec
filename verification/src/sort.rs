//! In-place descending sort of `(weight, index)` pairs.
//!
//! Every ranked listing the crate produces (hotspots, callee lists, hot
//! lines, suggestions) decorates its entries with their weight, sorts the
//! pairs by weight descending, and rebuilds the listing from the result.

use vstd::prelude::*;
use vstd::seq_lib::to_multiset_update;

verus! {

/// Sum of the weight components of a pair sequence.
pub open spec fn sum_keys(s: Seq<(i64, usize)>) -> int
    decreases s.len(),
{
    if s.len() == 0 {
        0
    } else {
        sum_keys(s.drop_last()) + s.last().0
    }
}

/// Removing one pair subtracts its weight from the sum.
pub proof fn lemma_sum_keys_remove(s: Seq<(i64, usize)>, i: int)
    requires
        0 <= i < s.len(),
    ensures
        sum_keys(s) == sum_keys(s.remove(i)) + s[i].0,
    decreases s.len(),
{
    if s.len() > 0 {
        if i == s.len() - 1 {
            assert(s.remove(i) =~= s.drop_last());
        } else {
            lemma_sum_keys_remove(s.drop_last(), i);
            assert(s.remove(i).drop_last() =~= s.drop_last().remove(i));
            assert(s.remove(i).last() == s.last());
        }
    }
}

/// Pair sequences with equal multisets have equal weight sums.
pub proof fn lemma_sum_keys_permutation(s1: Seq<(i64, usize)>, s2: Seq<(i64, usize)>)
    requires
        s1.to_multiset() == s2.to_multiset(),
    ensures
        sum_keys(s1) == sum_keys(s2),
    decreases s1.len(),
{
    broadcast use vstd::seq_lib::group_to_multiset_ensures;

    if s1.len() == 0 {
        assert(s1.to_multiset().len() == s1.len());
        assert(s2.to_multiset().len() == s2.len());
        assert(s2.len() == 0);
        assert(s2 =~= Seq::<(i64, usize)>::empty());
    } else {
        let x = s1.last();
        assert(s1.contains(x));
        assert(s1.to_multiset().count(x) > 0);
        assert(s2.to_multiset().count(x) > 0);
        assert(s2.contains(x));
        let i = choose|i: int| 0 <= i < s2.len() && s2[i] == x;
        lemma_sum_keys_remove(s2, i);
        assert(s1 =~= s1.drop_last().push(x));
        assert(s1.drop_last().to_multiset() =~= s1.to_multiset().remove(x));
        assert(s2.remove(i).to_multiset() =~= s2.to_multiset().remove(x));
        lemma_sum_keys_permutation(s1.drop_last(), s2.remove(i));
    }
}

/// With nonnegative weights a prefix sums to at most the whole.
pub proof fn lemma_sum_keys_take(s: Seq<(i64, usize)>, k: int)
    requires
        0 <= k <= s.len(),
        forall|i: int| 0 <= i < s.len() ==> (#[trigger] s[i]).0 >= 0,
    ensures
        sum_keys(s.take(k)) <= sum_keys(s),
        sum_keys(s.take(k)) >= 0,
    decreases s.len() - k, k,
{
    if k == s.len() {
        assert(s.take(k) =~= s);
        lemma_sum_keys_nonneg(s);
    } else {
        lemma_sum_keys_take(s, k + 1);
        assert(s.take(k + 1).drop_last() =~= s.take(k));
        assert(s.take(k + 1).last() == s[k]);
        lemma_sum_keys_nonneg(s.take(k));
    }
}

/// A sum of nonnegative weights is nonnegative.
pub proof fn lemma_sum_keys_nonneg(s: Seq<(i64, usize)>)
    requires
        forall|i: int| 0 <= i < s.len() ==> (#[trigger] s[i]).0 >= 0,
    ensures
        sum_keys(s) >= 0,
    decreases s.len(),
{
    if s.len() > 0 {
        lemma_sum_keys_nonneg(s.drop_last());
        assert(s.drop_last()[s.len() - 2] == s[s.len() - 2] || s.len() == 1);
        assert(forall|i: int| 0 <= i < s.drop_last().len() ==> (#[trigger] s.drop_last()[i]).0 >= 0);
    }
}

/// Weights are nonincreasing along the sequence.
pub open spec fn sorted_desc(s: Seq<(i64, usize)>) -> bool {
    forall|i: int, j: int| 0 <= i < j < s.len() ==> (#[trigger] s[i]).0 >= (#[trigger] s[j]).0
}

/// Swapping two elements keeps the multiset of elements.
proof fn lemma_swap_multiset(s: Seq<(i64, usize)>, i: int, j: int)
    requires
        0 <= i < s.len(),
        0 <= j < s.len(),
        i != j,
    ensures
        s.update(i, s[j]).update(j, s[i]).to_multiset() == s.to_multiset(),
{
    broadcast use to_multiset_update;

    let s1 = s.update(i, s[j]);
    assert(s1[j] == s[j]);
    assert(s1.update(j, s[i]).to_multiset() == s1.to_multiset().insert(s[i]).remove(s1[j]));
    assert(s1.to_multiset() == s.to_multiset().insert(s[j]).remove(s[i]));
    assert(s.to_multiset().contains(s[i])) by {
        broadcast use vstd::seq_lib::group_to_multiset_ensures;

        assert(s.contains(s[i]));
    }
    assert(s.update(i, s[j]).update(j, s[i]).to_multiset() =~= s.to_multiset());
}

/// Sorts the pairs in place, largest weight first; the elements are a
/// permutation of the input.
pub fn sort_pairs_desc(v: &mut Vec<(i64, usize)>)
    ensures
        sorted_desc(final(v)@),
        final(v)@.to_multiset() == old(v)@.to_multiset(),
        final(v)@.len() == old(v)@.len(),
        sum_keys(final(v)@) == sum_keys(old(v)@),
{
    proof {
        broadcast use vstd::seq_lib::to_multiset_len;

    }
    let ghost m0 = v@.to_multiset();
    let ghost v0 = v@;
    let mut i: usize = 1;
    while i < v.len()
        invariant
            1 <= i <= v@.len() || v@.len() == 0,
            v@.to_multiset() == m0,
            v@.to_multiset().len() == v@.len(),
            forall|a: int, b: int| 0 <= a < b < i ==> (#[trigger] v@[a]).0 >= (#[trigger] v@[b]).0,
        decreases v@.len() - i,
    {
        let mut j: usize = i;
        while j > 0 && v[j - 1].0 < v[j].0
            invariant
                0 <= j <= i < v@.len(),
                v@.to_multiset() == m0,
                v@.to_multiset().len() == v@.len(),
                forall|a: int, b: int|
                    0 <= a < b <= i && b != j ==> (#[trigger] v@[a]).0 >= (#[trigger] v@[b]).0,
            decreases j,
        {
            let x = v[j - 1];
            let y = v[j];
            proof {
                lemma_swap_multiset(v@, j - 1, j as int);
            }
            v[j - 1] = y;
            v[j] = x;
            j = j - 1;
        }
        i = i + 1;
    }
    proof {
        lemma_sum_keys_permutation(v0, v@);
    }
}

} // verus!
