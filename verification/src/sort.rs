//! In-place comparison sort for sample keys.
//!
//! The estimator never mutates a caller's sample: the median takes a private
//! copy and sorts it here. The sort is a single-pivot partitioning scheme;
//! the pivot is taken from the middle of each range so that recursion stays
//! shallow on already-ordered and reverse-ordered inputs, which are the
//! common shapes for measurement series.

use vstd::pervasive::VecAdditionalExecFns;
use vstd::prelude::*;
use vstd::seq_lib::lemma_multiset_commutative;

verus! {

/// The segment `[lo, hi)` of `s` is non-decreasing.
pub open spec fn sorted_between(s: Seq<u64>, lo: int, hi: int) -> bool {
    forall|i: int, j: int| lo <= i <= j < hi ==> s[i] <= s[j]
}

/// The whole sequence is non-decreasing.
pub open spec fn sorted(s: Seq<u64>) -> bool {
    sorted_between(s, 0, s.len() as int)
}

/// Exchanging two elements of a sequence leaves its multiset of values
/// unchanged.
proof fn lemma_swap_preserves_multiset(s: Seq<u64>, a: int, b: int)
    requires
        0 <= a < s.len(),
        0 <= b < s.len(),
    ensures
        s.update(a, s[b]).update(b, s[a]).to_multiset() == s.to_multiset(),
{
    broadcast use vstd::seq_lib::group_to_multiset_ensures;
    broadcast use vstd::multiset::group_multiset_axioms;

    if a == b {
        assert(s.update(a, s[b]).update(b, s[a]) =~= s);
    } else {
        let s1 = s.update(a, s[b]);
        assert(s1.to_multiset() == s.to_multiset().remove(s[a]).insert(s[b]));
        assert(s1.update(b, s[a]).to_multiset() == s1.to_multiset().remove(s1[b]).insert(s[a]));
        assert(s.to_multiset().contains(s[a]));
        assert(s1.update(b, s[a]).to_multiset() =~= s.to_multiset());
    }
}

/// Exchanging two elements inside the window `[lo, hi)` leaves the multiset
/// of the window unchanged.
proof fn lemma_swap_in_window_multiset(s: Seq<u64>, lo: int, hi: int, a: int, b: int)
    requires
        0 <= lo <= a < hi <= s.len(),
        lo <= b < hi,
    ensures
        s.update(a, s[b]).update(b, s[a]).subrange(lo, hi).to_multiset() == s.subrange(
            lo,
            hi,
        ).to_multiset(),
{
    let t = s.subrange(lo, hi);
    let s2 = s.update(a, s[b]).update(b, s[a]);
    assert(s2.subrange(lo, hi) =~= t.update(a - lo, t[b - lo]).update(b - lo, t[a - lo]));
    lemma_swap_preserves_multiset(t, a - lo, b - lo);
}

/// Exchanges the elements at positions `a` and `b`.
fn swap_items(v: &mut Vec<u64>, a: usize, b: usize)
    requires
        a < old(v).len(),
        b < old(v).len(),
    ensures
        final(v)@ == old(v)@.update(a as int, old(v)@[b as int]).update(
            b as int,
            old(v)@[a as int],
        ),
{
    let x = v[a];
    let y = v[b];
    v.set(a, y);
    v.set(b, x);
}

/// Partitions the window `[lo, hi)` around a pivot drawn from its middle:
/// afterwards every element left of the returned position is strictly below
/// the pivot value standing there, and every element right of it inside the
/// window is at least that value. The rest of the vector is untouched.
fn partition(v: &mut Vec<u64>, lo: usize, hi: usize) -> (p: usize)
    requires
        lo < hi,
        hi <= old(v).len(),
    ensures
        final(v)@.len() == old(v)@.len(),
        lo <= p < hi,
        forall|m: int| 0 <= m < lo ==> final(v)@[m] == old(v)@[m],
        forall|m: int| hi <= m < final(v)@.len() ==> final(v)@[m] == old(v)@[m],
        final(v)@.subrange(lo as int, hi as int).to_multiset() == old(v)@.subrange(
            lo as int,
            hi as int,
        ).to_multiset(),
        forall|m: int| lo <= m < p ==> #[trigger] final(v)@[m] < final(v)@[p as int],
        forall|m: int| p < m < hi ==> final(v)@[p as int] <= #[trigger] final(v)@[m],
{
    let ghost vorig = v@;
    let mid = lo + (hi - lo) / 2;
    swap_items(v, mid, hi - 1);
    proof {
        lemma_swap_in_window_multiset(vorig, lo as int, hi as int, mid as int, hi - 1);
    }
    let ghost v0 = v@;
    let mut i = lo;
    let mut j = lo;
    while i < hi - 1
        invariant
            lo <= j <= i <= hi - 1,
            hi <= v@.len(),
            v@.len() == v0.len(),
            forall|m: int| 0 <= m < lo ==> v@[m] == v0[m],
            forall|m: int| hi <= m < v@.len() ==> v@[m] == v0[m],
            v@.subrange(lo as int, hi as int).to_multiset() == v0.subrange(
                lo as int,
                hi as int,
            ).to_multiset(),
            v@[hi - 1] == v0[hi - 1],
            forall|m: int| lo <= m < j ==> #[trigger] v@[m] < v@[hi - 1],
            forall|m: int| j <= m < i ==> v@[hi - 1] <= #[trigger] v@[m],
        decreases hi - 1 - i,
    {
        if v[i] < v[hi - 1] {
            let ghost vpre = v@;
            swap_items(v, i, j);
            proof {
                lemma_swap_in_window_multiset(vpre, lo as int, hi as int, i as int, j as int);
            }
            j = j + 1;
        }
        i = i + 1;
    }
    let ghost vpre = v@;
    swap_items(v, j, hi - 1);
    proof {
        lemma_swap_in_window_multiset(vpre, lo as int, hi as int, j as int, hi - 1);
        assert forall|m: int| 0 <= m < lo implies v@[m] == vorig[m] by {
            assert(v@[m] == vpre[m]);
            assert(vpre[m] == v0[m]);
            assert(v0[m] == vorig[m]);
        }
        assert forall|m: int| hi <= m < v@.len() implies v@[m] == vorig[m] by {
            assert(v@[m] == vpre[m]);
            assert(vpre[m] == v0[m]);
            assert(v0[m] == vorig[m]);
        }
        assert forall|m: int| lo <= m < j implies #[trigger] v@[m] < v@[j as int] by {
            assert(v@[m] == vpre[m]);
            assert(vpre[m] < vpre[hi - 1]);
        }
        assert forall|m: int| j < m < hi implies v@[j as int] <= #[trigger] v@[m] by {
            if m < hi - 1 {
                assert(v@[m] == vpre[m]);
                assert(vpre[hi - 1] <= vpre[m]);
            } else {
                assert(v@[m] == vpre[j as int]);
                assert(vpre[hi - 1] <= vpre[j as int]);
            }
        }
    }
    j
}

/// Sorts the window `[lo, hi)`; everything outside it is untouched and the
/// window keeps its multiset of values.
fn quick_sort_range(v: &mut Vec<u64>, lo: usize, hi: usize)
    requires
        lo <= hi,
        hi <= old(v).len(),
    ensures
        final(v)@.len() == old(v)@.len(),
        forall|m: int| 0 <= m < lo ==> final(v)@[m] == old(v)@[m],
        forall|m: int| hi <= m < final(v)@.len() ==> final(v)@[m] == old(v)@[m],
        final(v)@.subrange(lo as int, hi as int).to_multiset() == old(v)@.subrange(
            lo as int,
            hi as int,
        ).to_multiset(),
        sorted_between(final(v)@, lo as int, hi as int),
    decreases hi - lo,
{
    if hi - lo > 1 {
        let ghost vorig = v@;
        let p = partition(v, lo, hi);
        let ghost v1 = v@;
        quick_sort_range(v, lo, p);
        let ghost v2 = v@;
        quick_sort_range(v, p + 1, hi);
        let ghost v3 = v@;
        proof {
            broadcast use vstd::seq_lib::group_to_multiset_ensures;
            broadcast use vstd::multiset::group_multiset_axioms;

            let lo = lo as int;
            let hi = hi as int;
            let p = p as int;
            // The pivot position and everything right of the left window are
            // unchanged by the first recursive call.
            assert(v2[p] == v1[p]);
            assert(v3[p] == v1[p]);
            // Left window: still below the pivot after being sorted.
            assert(v2.subrange(lo, p).to_multiset() == v1.subrange(lo, p).to_multiset());
            assert forall|m: int| lo <= m < p implies v3[m] < v3[p] by {
                let t2 = v2.subrange(lo, p);
                let t1 = v1.subrange(lo, p);
                assert(t2[m - lo] == v2[m]);
                assert(t2.contains(v2[m]));
                assert(t1.to_multiset().count(v2[m]) > 0);
                assert(t1.contains(v2[m]));
                let idx = choose|idx: int| 0 <= idx < t1.len() && t1[idx] == v2[m];
                assert(v1[lo + idx] == v2[m]);
                assert(v3[m] == v2[m]);
            }
            // Right window: pointwise unchanged by the first call, then
            // rearranged by the second, so still at or above the pivot.
            assert(v2.subrange(p + 1, hi) =~= v1.subrange(p + 1, hi));
            assert(v3.subrange(p + 1, hi).to_multiset() == v1.subrange(p + 1, hi).to_multiset());
            assert forall|m: int| p < m < hi implies v3[p] <= v3[m] by {
                let t3 = v3.subrange(p + 1, hi);
                let t1 = v1.subrange(p + 1, hi);
                assert(t3[m - (p + 1)] == v3[m]);
                assert(t3.contains(v3[m]));
                assert(t1.to_multiset().count(v3[m]) > 0);
                assert(t1.contains(v3[m]));
                let idx = choose|idx: int| 0 <= idx < t1.len() && t1[idx] == v3[m];
                assert(v1[p + 1 + idx] == v3[m]);
            }
            // The left window is pointwise unchanged by the second call, so
            // it is still sorted.
            assert forall|m: int| lo <= m < p + 1 implies v3[m] == v2[m] by {}
            assert(sorted_between(v3, lo, p));
            // The whole window is sorted: both halves are, and the pivot
            // separates them.
            assert forall|a: int, b: int| lo <= a <= b < hi implies v3[a] <= v3[b] by {
                if a < p && b == p {
                } else if a < p && b > p {
                    assert(v3[a] < v3[p]);
                    assert(v3[p] <= v3[b]);
                } else {
                }
            }
            // The window keeps its multiset: split it at the pivot for the
            // first call, and just past the pivot for the second.
            assert(v1.subrange(lo, hi) =~= v1.subrange(lo, p) + v1.subrange(p, hi));
            assert(v2.subrange(lo, hi) =~= v2.subrange(lo, p) + v2.subrange(p, hi));
            lemma_multiset_commutative(v1.subrange(lo, p), v1.subrange(p, hi));
            lemma_multiset_commutative(v2.subrange(lo, p), v2.subrange(p, hi));
            assert(v2.subrange(p, hi) =~= v1.subrange(p, hi));
            assert(v2.subrange(lo, hi).to_multiset() == v1.subrange(lo, hi).to_multiset());
            assert(v2.subrange(lo, hi) =~= v2.subrange(lo, p + 1) + v2.subrange(p + 1, hi));
            assert(v3.subrange(lo, hi) =~= v3.subrange(lo, p + 1) + v3.subrange(p + 1, hi));
            lemma_multiset_commutative(v2.subrange(lo, p + 1), v2.subrange(p + 1, hi));
            lemma_multiset_commutative(v3.subrange(lo, p + 1), v3.subrange(p + 1, hi));
            assert(v3.subrange(lo, p + 1) =~= v2.subrange(lo, p + 1));
            assert(v3.subrange(lo, hi).to_multiset() == v2.subrange(lo, hi).to_multiset());
        }
    }
}

/// Sorts the vector in place. Afterwards it is non-decreasing and holds
/// exactly the values it held before: the result is a permutation of the
/// input, as the unchanged multiset states.
pub fn quick_sort(v: &mut Vec<u64>)
    ensures
        sorted(final(v)@),
        final(v)@.to_multiset() == old(v)@.to_multiset(),
        final(v)@.len() == old(v)@.len(),
{
    let n = v.len();
    quick_sort_range(v, 0, n);
    proof {
        assert(v@.subrange(0, v@.len() as int) =~= v@);
        assert(old(v)@.subrange(0, old(v)@.len() as int) =~= old(v)@);
    }
}

} // verus!
