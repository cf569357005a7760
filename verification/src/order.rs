//! Latencies from largest to smallest.

use vstd::prelude::*;
use vstd::relations::{sorted_by, total_ordering};
use vstd::seq_lib::{lemma_sorted_unique, to_multiset_insert};

verus! {

/// The order in which latencies are listed: larger values first.
pub open spec fn larger_first() -> spec_fn(u64, u64) -> bool {
    |a: u64, b: u64| a >= b
}

/// No value of `s` is followed by a larger one.
pub open spec fn is_descending(s: Seq<u64>) -> bool {
    forall|i: int, j: int| 0 <= i < j < s.len() ==> s[i] >= s[j]
}

/// The values of `s`, each as often as it occurs there, from largest to smallest.
pub open spec fn descending(s: Seq<u64>) -> Seq<u64> {
    s.sort_by(larger_first())
}

/// `descending(s)` is descending and holds exactly the values of `s`.
pub proof fn descending_is_sorted_permutation(s: Seq<u64>)
    ensures
        is_descending(descending(s)),
        descending(s).to_multiset() == s.to_multiset(),
        descending(s).len() == s.len(),
{
    assert(total_ordering(larger_first()));
    s.lemma_sort_by_ensures(larger_first());
    let d = descending(s);
    assert(is_descending(d)) by {
        assert forall|i: int, j: int| 0 <= i < j < d.len() implies d[i] >= d[j] by {
            assert(larger_first()(d[i], d[j]));
        }
    }
    s.to_multiset_ensures();
    d.to_multiset_ensures();
}

/// A descending sequence with the values of `s` is `descending(s)`: the
/// arrangement is unique.
pub proof fn descending_is_unique(s: Seq<u64>, d: Seq<u64>)
    requires
        is_descending(d),
        d.to_multiset() == s.to_multiset(),
    ensures
        d == descending(s),
{
    assert(total_ordering(larger_first()));
    s.lemma_sort_by_ensures(larger_first());
    assert(sorted_by(d, larger_first()));
    lemma_sorted_unique(d, descending(s), larger_first());
}

/// Sorts `values` from largest to smallest into a new vector.
pub fn sort_descending(values: &Vec<u64>) -> (out: Vec<u64>)
    ensures
        out@ == descending(values@),
{
    let mut out: Vec<u64> = Vec::new();
    let mut i: usize = 0;
    assert(values@.subrange(0, 0) =~= Seq::<u64>::empty());
    while i < values.len()
        invariant
            i <= values.len(),
            is_descending(out@),
            out@.to_multiset() == values@.subrange(0, i as int).to_multiset(),
        decreases values.len() - i,
    {
        let x = values[i];
        let mut p: usize = 0;
        while p < out.len() && out[p] >= x
            invariant
                p <= out.len(),
                forall|k: int| 0 <= k < p ==> out@[k] >= x,
            decreases out.len() - p,
        {
            p = p + 1;
        }
        proof {
            to_multiset_insert(out@, p as int, x);
            assert(values@.subrange(0, i + 1) =~= values@.subrange(0, i as int).push(x));
            values@.subrange(0, i as int).to_multiset_ensures();
        }
        out.insert(p, x);
        i = i + 1;
    }
    proof {
        assert(values@.subrange(0, i as int) =~= values@);
        descending_is_unique(values@, out@);
    }
    out
}

} // verus!
