//! Median selection for a sample of keys.
//!
//! The median never mutates the caller's sample: it sorts a private copy and
//! reads the middle of it. Indexing follows the corrected zero-based
//! convention: a sample of odd length `n` has its single middle element at
//! index `(n - 1) / 2` of the sorted copy, and a sample of even length has
//! its two middle elements at indices `n / 2 - 1` and `n / 2`, which the
//! caller averages. Both selected positions are reported; for odd length
//! they coincide. The off-by-one variant of this policy — `(n + 1) / 2` for
//! odd length and `n / 2` with `n / 2 + 1` for even — reads past the end of
//! the sorted copy for small samples and is deliberately not used; the
//! tests pin the corrected convention down.

use crate::sort::quick_sort;
use crate::sort::sorted;
use vstd::prelude::*;
use vstd::relations::sorted_by;
use vstd::relations::total_ordering;
use vstd::seq_lib::lemma_sorted_unique;

verus! {

/// The non-decreasing total order on keys.
pub open spec fn le_order() -> spec_fn(u64, u64) -> bool {
    |x: u64, y: u64| x <= y
}

/// `le_order` is a total ordering, so a sequence can be sorted by it.
pub proof fn lemma_le_order_total()
    ensures
        total_ordering(le_order()),
{
    let r = le_order();
    assert forall|x: u64, y: u64| #[trigger] r(x, y) || #[trigger] r(y, x) by {
        assert(r(x, y) == (x <= y));
        assert(r(y, x) == (y <= x));
    }
    assert forall|x: u64, y: u64| #[trigger] r(x, y) && #[trigger] r(y, x) implies x == y by {
        assert(r(x, y) == (x <= y));
        assert(r(y, x) == (y <= x));
    }
    assert forall|x: u64, y: u64, z: u64| #[trigger] r(x, y) && #[trigger] r(y, z) implies r(
        x,
        z,
    ) by {
        assert(r(x, y) == (x <= y));
        assert(r(y, z) == (y <= z));
        assert(r(x, z) == (x <= z));
    }
}

/// The sorted rearrangement of a sequence of keys.
pub open spec fn sort_seq(s: Seq<u64>) -> Seq<u64> {
    s.sort_by(le_order())
}

/// The sorted rearrangement is non-decreasing, has the same multiset of
/// values as the input, and keeps its length.
pub proof fn lemma_sort_seq_ensures(s: Seq<u64>)
    ensures
        sorted(sort_seq(s)),
        sort_seq(s).to_multiset() == s.to_multiset(),
        sort_seq(s).len() == s.len(),
{
    broadcast use vstd::seq_lib::group_to_multiset_ensures;

    lemma_le_order_total();
    s.lemma_sort_by_ensures(le_order());
    let t = sort_seq(s);
    assert(t.to_multiset() == s.to_multiset());
    assert(t.to_multiset().len() == t.len());
    assert(s.to_multiset().len() == s.len());
    let r = le_order();
    assert forall|i: int, j: int| 0 <= i <= j < t.len() implies t[i] <= t[j] by {
        if i < j {
            assert(r(t[i], t[j]));
        }
    }
}

/// There is only one way to arrange given values in non-decreasing order:
/// any sorted sequence with the same multiset of values as `s` is exactly
/// `sort_seq(s)`. In particular, sorting is deterministic and sorting an
/// already sorted sequence returns it unchanged.
pub proof fn lemma_sorted_rearrangement_unique(s: Seq<u64>, t: Seq<u64>)
    requires
        sorted(t),
        t.to_multiset() == s.to_multiset(),
    ensures
        t == sort_seq(s),
{
    lemma_le_order_total();
    lemma_sort_seq_ensures(s);
    let r = le_order();
    assert forall|i: int, j: int| 0 <= i < j < t.len() implies #[trigger] r(t[i], t[j]) by {
        assert(t[i] <= t[j]);
    }
    assert(sorted_by(t, r));
    let u = sort_seq(s);
    assert forall|i: int, j: int| 0 <= i < j < u.len() implies #[trigger] r(u[i], u[j]) by {
        assert(u[i] <= u[j]);
    }
    assert(sorted_by(u, r));
    lemma_sorted_unique(t, u, r);
    assert(t =~= u);
}

/// Sorting is idempotent: the sorted rearrangement of a sorted
/// rearrangement is that rearrangement itself. Together with the exact
/// contracts of [`median`] and the search decisions this gives the
/// estimation its promise that running it twice on one sample yields
/// identical results: nothing here keeps hidden mutable state.
pub proof fn lemma_sort_seq_idempotent(s: Seq<u64>)
    ensures
        sort_seq(sort_seq(s)) == sort_seq(s),
{
    lemma_sort_seq_ensures(s);
    lemma_sorted_rearrangement_unique(sort_seq(s), sort_seq(s));
}

/// Position of the lower middle element in a sorted sequence of length `n`.
pub open spec fn lower_median_index(n: int) -> int {
    (n - 1) / 2
}

/// Position of the upper middle element; for odd `n` it is the same as the
/// lower one.
pub open spec fn upper_median_index(n: int) -> int {
    n / 2
}

/// The two middle values of the sorted rearrangement of `s`.
pub open spec fn median_pair(s: Seq<u64>) -> (u64, u64)
    recommends
        s.len() > 0,
{
    (
        sort_seq(s)[lower_median_index(s.len() as int)],
        sort_seq(s)[upper_median_index(s.len() as int)],
    )
}

/// Returns the middle value(s) of the sample, leaving the sample itself
/// untouched, or `None` exactly when the sample is empty. For a sample of
/// odd length both components are the single middle value of the sorted
/// rearrangement; for even length they are its two middle values in
/// non-decreasing order, whose mean is the median.
pub fn median(v: &Vec<u64>) -> (r: Option<(u64, u64)>)
    ensures
        r == if v@.len() == 0 {
            None::<(u64, u64)>
        } else {
            Some(median_pair(v@))
        },
{
    if v.len() == 0 {
        return None;
    }
    let mut xs: Vec<u64> = Vec::new();
    let mut i: usize = 0;
    while i < v.len()
        invariant
            i <= v@.len(),
            xs@ == v@.subrange(0, i as int),
        decreases v@.len() - i,
    {
        xs.push(v[i]);
        proof {
            assert(xs@ =~= v@.subrange(0, i + 1));
        }
        i = i + 1;
    }
    proof {
        assert(xs@ =~= v@);
    }
    quick_sort(&mut xs);
    let n = xs.len();
    let a = xs[(n - 1) / 2];
    let b = xs[n / 2];
    proof {
        lemma_sorted_rearrangement_unique(v@, xs@);
    }
    Some((a, b))
}

} // verus!
