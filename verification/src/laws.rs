//! What holds of the sparse vector across its operations, stated over the
//! contracts of the operations themselves and proved from them.

use vstd::prelude::*;
use vstd::std_specs::cmp::PartialEqSpec;
use crate::order::{lemma_ascending_sequence_is_unique, strictly_ascending};
use crate::sparse_vecs::{lemma_domain_is_indices, lemma_entry_in_view, SparseVec};

verus! {

/// A well-formed container is determined by its map: two of them with the
/// same map store the same indices and the same values in the same order.
pub proof fn lemma_view_determines_contents<T, Alloc1, Alloc2>(
    a: SparseVec<T, Alloc1>,
    b: SparseVec<T, Alloc2>,
)
    requires
        a.wf(),
        b.wf(),
        a@ == b@,
    ensures
        a.indices() == b.indices(),
        a.values() == b.values(),
        a.entries() == b.entries(),
{
    assert forall|k: usize| a.indices().contains(k) <==> b.indices().contains(k) by {
        assert(a@.dom().contains(k) <==> a.indices().contains(k));
        assert(b@.dom().contains(k) <==> b.indices().contains(k));
    }
    lemma_ascending_sequence_is_unique(a.indices(), b.indices());
    assert forall|i: int| 0 <= i < a.values().len() implies a.values()[i] == b.values()[i] by {
        lemma_entry_in_view(a, i);
        lemma_entry_in_view(b, i);
    }
    assert(a.values() =~= b.values());
}

/// After `set` has stored `value` at `index`, `is_set` answers `true` for
/// `index` and `get` finds `value` there, whatever the container held
/// before; and the stored indices still ascend strictly.
///
/// `list` is the container that `set` is called on: `old(list)` before the
/// call, `final(list)` after it.
pub proof fn lemma_set_then_query<T, Alloc>(
    list: &mut SparseVec<T, Alloc>,
    index: usize,
    value: T,
    previous: Option<T>,
    answer: bool,
    found: Option<&T>,
)
    requires
        old(list).wf(),
        call_ensures(SparseVec::<T, Alloc>::set, (list, index, value), previous),
        call_ensures(SparseVec::<T, Alloc>::is_set, (&*final(list), index), answer),
        call_ensures(SparseVec::<T, Alloc>::get, (&*final(list), index), found),
    ensures
        call_requires(SparseVec::<T, Alloc>::is_set, (&*final(list), index)),
        call_requires(SparseVec::<T, Alloc>::get, (&*final(list), index)),
        answer,
        found == Some(&value),
        strictly_ascending(final(list).indices()),
{
}

/// `set` on a set index returns the value that `get` found there before and
/// leaves `count` as it was; `set` on an unset index returns `None` and
/// raises `count` by one.
///
/// `list` is the container that `set` is called on: `old(list)` before the
/// call, `final(list)` after it.
pub proof fn lemma_set_previous_and_count<T, Alloc>(
    list: &mut SparseVec<T, Alloc>,
    index: usize,
    value: T,
    previous: Option<T>,
    was_set: bool,
    held: Option<&T>,
    count_before: usize,
    count_after: usize,
)
    requires
        old(list).wf(),
        call_ensures(SparseVec::<T, Alloc>::is_set, (&*old(list), index), was_set),
        call_ensures(SparseVec::<T, Alloc>::get, (&*old(list), index), held),
        call_ensures(SparseVec::<T, Alloc>::count, (&*old(list),), count_before),
        call_ensures(SparseVec::<T, Alloc>::set, (list, index, value), previous),
        call_ensures(SparseVec::<T, Alloc>::count, (&*final(list),), count_after),
    ensures
        was_set ==> held is Some && previous == Some(*held.unwrap()) && count_after
            == count_before,
        !was_set ==> held is None && previous is None && count_after == count_before + 1,
{
}

/// Storing a value at one index leaves every other index as it was: set or
/// unset, and with the value it had.
///
/// `list` is the container that `set` is called on: `old(list)` before the
/// call, `final(list)` after it.
pub proof fn lemma_set_keeps_other_indices<T, Alloc>(
    list: &mut SparseVec<T, Alloc>,
    index: usize,
    value: T,
    previous: Option<T>,
    other: usize,
    found_before: Option<&T>,
    found_after: Option<&T>,
)
    requires
        old(list).wf(),
        other != index,
        call_ensures(SparseVec::<T, Alloc>::get, (&*old(list), other), found_before),
        call_ensures(SparseVec::<T, Alloc>::set, (list, index, value), previous),
        call_ensures(SparseVec::<T, Alloc>::get, (&*final(list), other), found_after),
    ensures
        found_after == found_before,
{
}

/// `count` returns the number of entries that `iter` lists, and `iter` lists
/// them by strictly ascending index.
pub proof fn lemma_count_is_iteration_length<T, Alloc>(
    s: SparseVec<T, Alloc>,
    n: usize,
    listed: Vec<(usize, &T)>,
)
    requires
        s.wf(),
        call_ensures(SparseVec::<T, Alloc>::count, (&s,), n),
        call_ensures(SparseVec::<T, Alloc>::iter, (&s,), listed),
    ensures
        n == listed@.len(),
        n == s@.dom().len(),
        forall|i: int, j: int| 0 <= i < j < listed@.len() ==> listed@[i].0 < listed@[j].0,
        forall|i: int|
            0 <= i < listed@.len() ==> s@.contains_key((#[trigger] listed@[i]).0) && s@[listed@[i].0]
                == *listed@[i].1,
{
    lemma_domain_is_indices(s);
    assert forall|i: int| 0 <= i < listed@.len() implies s@.contains_key(
        (#[trigger] listed@[i]).0,
    ) && s@[listed@[i].0] == *listed@[i].1 by {
        lemma_entry_in_view(s, i);
    }
}

/// `iter_mut` lists as many entries as `count` returned before it, by
/// strictly ascending index, and changes neither the count nor the indices.
///
/// `list` is the container that `iter_mut` is called on: `old(list)` before
/// the call, `final(list)` once the listed references are given up.
pub proof fn lemma_count_is_mutable_iteration_length<T, Alloc>(
    list: &mut SparseVec<T, Alloc>,
    n: usize,
    listed: Vec<(usize, &mut T)>,
    count_after: usize,
)
    requires
        old(list).wf(),
        call_ensures(SparseVec::<T, Alloc>::count, (&*old(list),), n),
        call_ensures(SparseVec::<T, Alloc>::iter_mut, (list,), listed),
        call_ensures(SparseVec::<T, Alloc>::count, (&*final(list),), count_after),
    ensures
        n == listed@.len(),
        count_after == n,
        final(list).indices() == old(list).indices(),
        forall|i: int, j: int| 0 <= i < j < listed@.len() ==> listed@[i].0 < listed@[j].0,
{
}

/// What `into_parts` hands out, `from_parts` accepts, and it puts together a
/// container with the same indices, the same values in the same order and
/// the same allocator handle.
pub proof fn lemma_parts_round_trip<T, Alloc>(
    s: SparseVec<T, Alloc>,
    parts: (Vec<usize>, Vec<T>, Alloc),
    t: SparseVec<T, Alloc>,
)
    requires
        s.wf(),
        call_ensures(SparseVec::<T, Alloc>::into_parts, (s,), parts),
        call_ensures(SparseVec::<T, Alloc>::from_parts, (parts.0, parts.1, parts.2), t),
    ensures
        call_requires(SparseVec::<T, Alloc>::from_parts, (parts.0, parts.1, parts.2)),
        t.wf(),
        t.indices() == s.indices(),
        t.values() == s.values(),
        t.allocator() == s.allocator(),
        t.entries() == s.entries(),
        t@ == s@,
{
}

/// What `into_parts` hands out, `from_parts_checked` never refuses: it puts
/// together a container with the same indices, values and allocator handle.
pub proof fn lemma_parts_round_trip_checked<T, Alloc>(
    s: SparseVec<T, Alloc>,
    parts: (Vec<usize>, Vec<T>, Alloc),
    r: Result<SparseVec<T, Alloc>, (Vec<usize>, Vec<T>, Alloc)>,
)
    requires
        s.wf(),
        call_ensures(SparseVec::<T, Alloc>::into_parts, (s,), parts),
        call_ensures(SparseVec::<T, Alloc>::from_parts_checked, (parts.0, parts.1, parts.2), r),
    ensures
        r is Ok,
        r->Ok_0.wf(),
        r->Ok_0.indices() == s.indices(),
        r->Ok_0.values() == s.values(),
        r->Ok_0.allocator() == s.allocator(),
        r->Ok_0@ == s@,
{
}

/// Equality looks at the stored indices and values only: containers with the
/// same contents compare alike against any third one, whatever allocator
/// handles they own.
pub proof fn lemma_eq_ignores_allocator<T1: PartialEq<T2>, Alloc1, Alloc1b, T2, Alloc2>(
    a: SparseVec<T1, Alloc1>,
    b: SparseVec<T1, Alloc1b>,
    c: SparseVec<T2, Alloc2>,
)
    requires
        a.indices() == b.indices(),
        a.values() == b.values(),
    ensures
        a.eq_spec(&c) == b.eq_spec(&c),
{
}

/// Where equal values are the same value, two containers are equal exactly
/// when they store the same indices and the same values in the same order;
/// for well-formed ones, exactly when they are the same map.
pub proof fn lemma_eq_is_same_contents<T: PartialEq, Alloc1, Alloc2>(
    a: SparseVec<T, Alloc1>,
    b: SparseVec<T, Alloc2>,
)
    requires
        forall|x: T, y: T| #[trigger] x.eq_spec(&y) <==> x == y,
    ensures
        a.eq_spec(&b) <==> (a.indices() == b.indices() && a.values() == b.values()),
        a.wf() && b.wf() ==> (a.eq_spec(&b) <==> a@ == b@),
{
    if a.eq_spec(&b) {
        assert forall|i: int| 0 <= i < a.values().len() implies a.values()[i] == b.values()[i] by {
            assert(a.values()[i].eq_spec(&b.values()[i]));
        }
        assert(a.values() =~= b.values());
    }
    if a.indices() == b.indices() && a.values() == b.values() {
        assert forall|i: int| 0 <= i < a.values().len() implies #[trigger] a.values()[i].eq_spec(
            &b.values()[i],
        ) by {
            assert(a.values()[i] == b.values()[i]);
        }
    }
    if a.wf() && b.wf() && a@ == b@ {
        lemma_view_determines_contents(a, b);
    }
}

/// Equality of containers is reflexive where equality of values is.
pub proof fn lemma_eq_reflexive<T: PartialEq, Alloc>(a: SparseVec<T, Alloc>)
    requires
        forall|x: T| #[trigger] x.eq_spec(&x),
    ensures
        a.eq_spec(&a),
{
}

/// Equality of containers is symmetric where equality of values is.
pub proof fn lemma_eq_symmetric<T: PartialEq, Alloc1, Alloc2>(
    a: SparseVec<T, Alloc1>,
    b: SparseVec<T, Alloc2>,
)
    requires
        forall|x: T, y: T| #[trigger] x.eq_spec(&y) ==> y.eq_spec(&x),
    ensures
        a.eq_spec(&b) == b.eq_spec(&a),
{
    if a.eq_spec(&b) {
        assert forall|i: int| 0 <= i < b.values().len() implies #[trigger] b.values()[i].eq_spec(
            &a.values()[i],
        ) by {
            assert(a.values()[i].eq_spec(&b.values()[i]));
        }
    }
    if b.eq_spec(&a) {
        assert forall|i: int| 0 <= i < a.values().len() implies #[trigger] a.values()[i].eq_spec(
            &b.values()[i],
        ) by {
            assert(b.values()[i].eq_spec(&a.values()[i]));
        }
    }
}

} // verus!
