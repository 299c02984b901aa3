//! Ordered index sequences: what it means for a sequence of indices to be
//! strictly ascending, where an index belongs in such a sequence, and a
//! logarithmic search that finds that place.

use vstd::prelude::*;

verus! {

/// Every element is smaller than each element after it; in particular no
/// element occurs twice.
pub open spec fn strictly_ascending(s: Seq<usize>) -> bool {
    forall|i: int, j: int| 0 <= i < j < s.len() ==> s[i] < s[j]
}

/// The number of elements of `s` that are smaller than `index`.
///
/// In a strictly ascending sequence this is the position at which `index`
/// stands if it is present, and the position at which it has to be inserted
/// to keep the sequence ascending if it is not.
pub open spec fn insertion_point(s: Seq<usize>, index: usize) -> int
    decreases s.len(),
{
    if s.len() == 0 {
        0
    } else {
        insertion_point(s.drop_last(), index) + if s.last() < index {
            1int
        } else {
            0int
        }
    }
}

/// The position carried by a search result, found or not.
pub open spec fn position(r: Result<usize, usize>) -> int {
    match r {
        Ok(p) => p as int,
        Err(p) => p as int,
    }
}

/// In a strictly ascending sequence, a position that has only smaller
/// elements before it and no smaller element from it on is the insertion
/// point.
pub proof fn lemma_insertion_point_is(s: Seq<usize>, index: usize, p: int)
    requires
        strictly_ascending(s),
        0 <= p <= s.len(),
        forall|i: int| 0 <= i < p ==> s[i] < index,
        forall|i: int| p <= i < s.len() ==> s[i] >= index,
    ensures
        insertion_point(s, index) == p,
    decreases s.len(),
{
    if s.len() > 0 {
        let t = s.drop_last();
        if p == s.len() {
            lemma_insertion_point_is(t, index, p - 1);
        } else {
            lemma_insertion_point_is(t, index, p);
        }
    }
}

/// The insertion point splits a strictly ascending sequence into the
/// elements below `index` and those not below it.
pub proof fn lemma_insertion_point_splits(s: Seq<usize>, index: usize)
    requires
        strictly_ascending(s),
    ensures
        0 <= insertion_point(s, index) <= s.len(),
        forall|i: int| 0 <= i < insertion_point(s, index) ==> s[i] < index,
        forall|i: int| insertion_point(s, index) <= i < s.len() ==> s[i] >= index,
    decreases s.len(),
{
    if s.len() > 0 {
        let t = s.drop_last();
        lemma_insertion_point_splits(t, index);
        let q = insertion_point(t, index);
        if s.last() < index {
            if q < t.len() {
                assert(t[q] >= index);
                assert(s[q] < s[s.len() - 1]);
            }
            assert forall|i: int| 0 <= i < s.len() implies s[i] < index by {
                if i < s.len() - 1 {
                    assert(s[i] < s[s.len() - 1]);
                }
            }
        } else {
            assert forall|i: int| 0 <= i < q implies s[i] < index by {
                assert(t[i] < index);
            }
            assert forall|i: int| q <= i < s.len() implies s[i] >= index by {
                if i < s.len() - 1 {
                    assert(t[i] >= index);
                }
            }
        }
    }
}

/// An index occurs in a strictly ascending sequence exactly when it stands at
/// its insertion point.
pub proof fn lemma_contains_at_insertion_point(s: Seq<usize>, index: usize)
    requires
        strictly_ascending(s),
    ensures
        s.contains(index) <==> (insertion_point(s, index) < s.len() && s[insertion_point(
            s,
            index,
        )] == index),
        s.contains(index) ==> s.index_of(index) == insertion_point(s, index),
{
    lemma_insertion_point_splits(s, index);
    let p = insertion_point(s, index);
    if s.contains(index) {
        let k = s.index_of(index);
        assert(0 <= k < s.len() && s[k] == index);
        if k < p {
            assert(s[k] < index);
        }
        if k > p {
            assert(s[p] < s[k]);
        }
    }
}

/// An element of one strictly ascending sequence stands in another that holds
/// all of the first one's elements no earlier than in the first.
proof fn lemma_position_not_earlier(a: Seq<usize>, b: Seq<usize>, i: int)
    requires
        strictly_ascending(a),
        strictly_ascending(b),
        forall|k: usize| a.contains(k) ==> b.contains(k),
        0 <= i < a.len(),
    ensures
        b.contains(a[i]),
        i <= b.index_of(a[i]) < b.len(),
    decreases i,
{
    assert(a.contains(a[i]));
    let j = b.index_of(a[i]);
    assert(0 <= j < b.len() && b[j] == a[i]);
    if i > 0 {
        lemma_position_not_earlier(a, b, i - 1);
        let h = b.index_of(a[i - 1]);
        assert(0 <= h < b.len() && b[h] == a[i - 1]);
        assert(a[i - 1] < a[i]);
        if j < h {
            assert(b[j] < b[h]);
        }
    }
}

/// Two strictly ascending sequences with the same elements are the same
/// sequence.
pub proof fn lemma_ascending_sequence_is_unique(a: Seq<usize>, b: Seq<usize>)
    requires
        strictly_ascending(a),
        strictly_ascending(b),
        forall|k: usize| a.contains(k) <==> b.contains(k),
    ensures
        a == b,
{
    if a.len() > 0 {
        lemma_position_not_earlier(a, b, a.len() - 1);
    }
    if b.len() > 0 {
        lemma_position_not_earlier(b, a, b.len() - 1);
    }
    assert(a.len() == b.len());
    assert forall|i: int| 0 <= i < a.len() implies a[i] == b[i] by {
        lemma_position_not_earlier(a, b, i);
        let j = b.index_of(a[i]);
        assert(0 <= j < b.len() && b[j] == a[i]);
        lemma_position_not_earlier(b, a, j);
        let h = a.index_of(b[j]);
        assert(0 <= h < a.len() && a[h] == b[j]);
        if h < i {
            assert(a[h] < a[i]);
        }
        if i < h {
            assert(a[i] < a[h]);
        }
    }
    assert(a =~= b);
}

/// Tests whether `indices` is strictly ascending.
pub fn is_strictly_ascending(indices: &[usize]) -> (r: bool)
    ensures
        r == strictly_ascending(indices@),
{
    let n: usize = indices.len();
    if n < 2 {
        return true;
    }
    let mut i: usize = 1;
    while i < n
        invariant
            n == indices@.len(),
            1 <= i <= n,
            forall|a: int, b: int| 0 <= a < b < i ==> indices@[a] < indices@[b],
        decreases n - i,
    {
        if indices[i - 1] >= indices[i] {
            assert(!(indices@[i - 1] < indices@[i as int]));
            return false;
        }
        assert forall|a: int, b: int| 0 <= a < b < i + 1 implies indices@[a] < indices@[b] by {
            if b == i && a < i - 1 {
                assert(indices@[a] < indices@[i - 1]);
            }
        }
        i += 1;
    }
    true
}

/// Looks `index` up in a strictly ascending slice by halving the range that
/// can still hold it.
///
/// `Ok(p)` says that `index` stands at position `p`; `Err(p)` says that it is
/// absent and that `p` is where it has to be inserted. Either way `p` is the
/// number of elements smaller than `index`.
pub fn search(indices: &[usize], index: usize) -> (r: Result<usize, usize>)
    requires
        strictly_ascending(indices@),
    ensures
        r is Ok <==> indices@.contains(index),
        position(r) == insertion_point(indices@, index),
        0 <= position(r) <= indices@.len(),
        r is Ok ==> position(r) < indices@.len() && indices@[position(r)] == index,
{
    let mut low: usize = 0;
    let mut high: usize = indices.len();
    while low < high
        invariant
            strictly_ascending(indices@),
            0 <= low <= high <= indices@.len(),
            forall|i: int| 0 <= i < low ==> indices@[i] < index,
            forall|i: int| high <= i < indices@.len() ==> indices@[i] > index,
        decreases high - low,
    {
        let mid: usize = low + (high - low) / 2;
        let found: usize = indices[mid];
        if found == index {
            proof {
                assert forall|i: int| 0 <= i < mid implies indices@[i] < index by {
                    assert(indices@[i] < indices@[mid as int]);
                }
                assert forall|i: int| mid <= i < indices@.len() implies indices@[i] >= index by {
                    if i > mid {
                        assert(indices@[mid as int] < indices@[i]);
                    }
                }
                lemma_insertion_point_is(indices@, index, mid as int);
            }
            return Ok(mid);
        } else if found < index {
            proof {
                assert forall|i: int| 0 <= i < mid + 1 implies indices@[i] < index by {
                    if i < mid {
                        assert(indices@[i] < indices@[mid as int]);
                    }
                }
            }
            low = mid + 1;
        } else {
            proof {
                assert forall|i: int| mid <= i < indices@.len() implies indices@[i] > index by {
                    if i > mid {
                        assert(indices@[mid as int] < indices@[i]);
                    }
                }
            }
            high = mid;
        }
    }
    proof {
        lemma_insertion_point_is(indices@, index, low as int);
        if indices@.contains(index) {
            let k = indices@.index_of(index);
            assert(0 <= k < indices@.len() && indices@[k] == index);
        }
    }
    Err(low)
}

} // verus!
