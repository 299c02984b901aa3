//! The sparse vector itself.

use vstd::prelude::*;
use vstd::std_specs::cmp::{PartialEqSpec, PartialEqSpecImpl};
use crate::order::{
    insertion_point, is_strictly_ascending, lemma_contains_at_insertion_point,
    lemma_insertion_point_splits, search, strictly_ascending,
};

verus! {

/// A sparse list of values.
///
/// The container keeps two parallel arrays, one of indices and one of values,
/// ordered by index, and owns the one allocator handle that it was made with.
/// The handle is never looked into: it travels with the container and comes
/// back out of [`SparseVec::into_parts`].
pub struct SparseVec<T, Alloc> {
    indices: Vec<usize>,
    values: Vec<T>,
    allocator: Alloc,
}

impl<T, Alloc> View for SparseVec<T, Alloc> {
    type V = Map<usize, T>;

    /// The container as a finite map from the set indices to their values.
    open spec fn view(&self) -> Map<usize, T> {
        Map::new(
            |k: usize| self.indices().contains(k),
            |k: usize| self.values()[self.indices().index_of(k)],
        )
    }
}

impl<T, Alloc> SparseVec<T, Alloc> {
    /// The set indices, in the order in which they are stored.
    pub closed spec fn indices(&self) -> Seq<usize> {
        self.indices@
    }

    /// The stored values; the value at a position belongs to the index at
    /// that position.
    pub closed spec fn values(&self) -> Seq<T> {
        self.values@
    }

    /// The allocator handle that the container owns.
    pub closed spec fn allocator(&self) -> Alloc {
        self.allocator
    }

    /// The invariant of the container: the two arrays are parallel, and the
    /// indices ascend strictly, so that none occurs twice.
    pub open spec fn wf(&self) -> bool {
        &&& self.indices().len() == self.values().len()
        &&& strictly_ascending(self.indices())
    }

    /// The (index, value) pairs in storage order.
    pub open spec fn entries(&self) -> Seq<(usize, T)> {
        Seq::new(self.indices().len(), |i: int| (self.indices()[i], self.values()[i]))
    }

    /// Constructs an empty container that owns `allocator`.
    pub fn new_in(allocator: Alloc) -> (s: Self)
        ensures
            s.wf(),
            s.indices() == Seq::<usize>::empty(),
            s.values() == Seq::<T>::empty(),
            s.allocator() == allocator,
            s@ == Map::<usize, T>::empty(),
    {
        let s = SparseVec { indices: Vec::new(), values: Vec::new(), allocator };
        assert(s@ =~= Map::<usize, T>::empty());
        s
    }

    /// Constructs an empty container with room for `capacity` values that
    /// owns `allocator`.
    pub fn with_capacity_in(capacity: usize, allocator: Alloc) -> (s: Self)
        ensures
            s.wf(),
            s.indices() == Seq::<usize>::empty(),
            s.values() == Seq::<T>::empty(),
            s.allocator() == allocator,
            s@ == Map::<usize, T>::empty(),
    {
        let s = SparseVec {
            indices: Vec::with_capacity(capacity),
            values: Vec::with_capacity(capacity),
            allocator,
        };
        assert(s@ =~= Map::<usize, T>::empty());
        s
    }

    /// Constructs an empty container that owns a default allocator handle.
    pub fn new() -> (s: Self) where Alloc: Default
        ensures
            s.wf(),
            s.indices() == Seq::<usize>::empty(),
            s.values() == Seq::<T>::empty(),
            s@ == Map::<usize, T>::empty(),
            call_ensures(Alloc::default, (), s.allocator()),
    {
        Self::new_in(Alloc::default())
    }

    /// Constructs an empty container with room for `capacity` values that
    /// owns a default allocator handle.
    pub fn with_capacity(capacity: usize) -> (s: Self) where Alloc: Default
        ensures
            s.wf(),
            s.indices() == Seq::<usize>::empty(),
            s.values() == Seq::<T>::empty(),
            s@ == Map::<usize, T>::empty(),
            call_ensures(Alloc::default, (), s.allocator()),
    {
        Self::with_capacity_in(capacity, Alloc::default())
    }

    /// Takes the container apart into its array of indices, its array of
    /// values and its allocator handle.
    pub fn into_parts(self) -> (parts: (Vec<usize>, Vec<T>, Alloc))
        requires
            self.wf(),
        ensures
            parts.0@ == self.indices(),
            parts.1@ == self.values(),
            parts.2 == self.allocator(),
            parts.0@.len() == parts.1@.len(),
            strictly_ascending(parts.0@),
    {
        (self.indices, self.values, self.allocator)
    }

    /// Puts a container together from an array of indices, the array of
    /// their values and an allocator handle.
    ///
    /// The arrays have to be parallel and the indices strictly ascending;
    /// nothing is checked at run time.
    pub fn from_parts(indices: Vec<usize>, values: Vec<T>, allocator: Alloc) -> (s: Self)
        requires
            indices@.len() == values@.len(),
            strictly_ascending(indices@),
        ensures
            s.wf(),
            s.indices() == indices@,
            s.values() == values@,
            s.allocator() == allocator,
    {
        SparseVec { indices, values, allocator }
    }

    /// Puts a container together as [`SparseVec::from_parts`] does, after
    /// testing what that function takes on trust. Parts that do not form a
    /// container are handed back unchanged.
    pub fn from_parts_checked(indices: Vec<usize>, values: Vec<T>, allocator: Alloc) -> (r: Result<
        Self,
        (Vec<usize>, Vec<T>, Alloc),
    >)
        ensures
            r is Ok <==> indices@.len() == values@.len() && strictly_ascending(indices@),
            match r {
                Ok(s) => {
                    &&& s.wf()
                    &&& s.indices() == indices@
                    &&& s.values() == values@
                    &&& s.allocator() == allocator
                },
                Err(parts) => parts == (indices, values, allocator),
            },
    {
        if indices.len() == values.len() && is_strictly_ascending(indices.as_slice()) {
            Ok(Self::from_parts(indices, values, allocator))
        } else {
            Err((indices, values, allocator))
        }
    }

    /// Returns the number of stored values.
    pub fn count(&self) -> (n: usize)
        requires
            self.wf(),
        ensures
            n == self.indices().len(),
            n == self@.dom().len(),
    {
        proof {
            lemma_domain_is_indices(*self);
        }
        self.indices.len()
    }

    /// Tests whether no index is set.
    pub fn is_empty(&self) -> (b: bool)
        requires
            self.wf(),
        ensures
            b <==> self.indices().len() == 0,
            b <==> self@ == Map::<usize, T>::empty(),
    {
        proof {
            if self.indices().len() == 0 {
                assert(self@ =~= Map::<usize, T>::empty());
            } else {
                lemma_entry_in_view(*self, 0);
            }
        }
        self.indices.is_empty()
    }

    /// Tests whether `index` holds a value.
    pub fn is_set(&self, index: usize) -> (b: bool)
        requires
            self.wf(),
        ensures
            b <==> self.indices().contains(index),
            b <==> self@.contains_key(index),
    {
        search(self.indices.as_slice(), index).is_ok()
    }

    /// Gets the value at `index`, or `None` if `index` is unset.
    pub fn get(&self, index: usize) -> (r: Option<&T>)
        requires
            self.wf(),
        ensures
            r == (if self@.contains_key(index) {
                Some(&self@[index])
            } else {
                None
            }),
    {
        match search(self.indices.as_slice(), index) {
            Ok(p) => {
                proof {
                    lemma_contains_at_insertion_point(self.indices(), index);
                }
                Some(&self.values[p])
            },
            Err(_) => None,
        }
    }

    /// Gets the value at `index` for writing, or `None` if `index` is unset.
    ///
    /// What the caller leaves behind the reference becomes the value at
    /// `index`; nothing else changes.
    pub fn get_mut(&mut self, index: usize) -> (r: Option<&mut T>)
        requires
            old(self).wf(),
        ensures
            final(self).wf(),
            final(self).indices() == old(self).indices(),
            final(self).allocator() == old(self).allocator(),
            r is Some <==> old(self)@.contains_key(index),
            match r {
                Some(v) => {
                    &&& *v == old(self)@[index]
                    &&& final(self).values() == old(self).values().update(
                        insertion_point(old(self).indices(), index),
                        *final(v),
                    )
                    &&& final(self)@ == old(self)@.insert(index, *final(v))
                },
                None => final(self).values() == old(self).values(),
            },
    {
        match search(self.indices.as_slice(), index) {
            Ok(p) => {
                proof {
                    lemma_contains_at_insertion_point(self.indices(), index);
                    lemma_update_is_insert(*old(self), index);
                }
                Some(&mut self.values[p])
            },
            Err(_) => None,
        }
    }

    /// Reserves room for `space` more values in both arrays. The contents
    /// stay as they are.
    pub fn reserve(&mut self, space: usize)
        requires
            old(self).wf(),
        ensures
            final(self).wf(),
            final(self).indices() == old(self).indices(),
            final(self).values() == old(self).values(),
            final(self).allocator() == old(self).allocator(),
            final(self)@ == old(self)@,
    {
        self.indices.reserve(space);
        self.values.reserve(space);
    }

    /// Stores `value` at `index` and returns the value that was stored there
    /// before, if there was one.
    ///
    /// A set index keeps its position and only its value is replaced. An
    /// unset index is inserted, with its value, at the position that keeps
    /// the indices ascending; the entries from there on move up by one.
    pub fn set(&mut self, index: usize, value: T) -> (previous: Option<T>)
        requires
            old(self).wf(),
        ensures
            final(self).wf(),
            final(self).allocator() == old(self).allocator(),
            final(self)@ == old(self)@.insert(index, value),
            previous == (if old(self)@.contains_key(index) {
                Some(old(self)@[index])
            } else {
                None
            }),
            old(self)@.contains_key(index) ==> {
                &&& final(self).indices() == old(self).indices()
                &&& final(self).values() == old(self).values().update(
                    insertion_point(old(self).indices(), index),
                    value,
                )
            },
            !old(self)@.contains_key(index) ==> {
                &&& final(self).indices() == old(self).indices().insert(
                    insertion_point(old(self).indices(), index),
                    index,
                )
                &&& final(self).values() == old(self).values().insert(
                    insertion_point(old(self).indices(), index),
                    value,
                )
            },
            old(self)@.contains_key(index) ==> final(self).indices().len() == old(
                self,
            ).indices().len(),
            !old(self)@.contains_key(index) ==> final(self).indices().len() == old(
                self,
            ).indices().len() + 1,
    {
        match search(self.indices.as_slice(), index) {
            Ok(p) => {
                proof {
                    lemma_contains_at_insertion_point(self.indices(), index);
                    lemma_update_is_insert(*old(self), index);
                }
                let mut held = value;
                std::mem::swap(&mut self.values[p], &mut held);
                Some(held)
            },
            Err(p) => {
                proof {
                    lemma_insert_is_insert(*old(self), index);
                }
                self.reserve(1);
                self.indices.insert(p, index);
                self.values.insert(p, value);
                None
            },
        }
    }

    /// Lists all set indices with their values, in ascending order of index.
    pub fn iter(&self) -> (r: Vec<(usize, &T)>)
        requires
            self.wf(),
        ensures
            r@.len() == self.entries().len(),
            forall|i: int|
                0 <= i < r@.len() ==> ((#[trigger] r@[i]).0, *r@[i].1) == self.entries()[i],
            forall|i: int, j: int| 0 <= i < j < r@.len() ==> r@[i].0 < r@[j].0,
    {
        let n: usize = self.indices.len();
        let mut out: Vec<(usize, &T)> = Vec::with_capacity(n);
        let mut i: usize = 0;
        while i < n
            invariant
                self.wf(),
                n == self.indices().len(),
                0 <= i <= n,
                out@.len() == i,
                forall|k: int|
                    0 <= k < i ==> (#[trigger] out@[k]).0 == self.indices()[k] && *out@[k].1
                        == self.values()[k],
            decreases n - i,
        {
            out.push((self.indices[i], &self.values[i]));
            i += 1;
        }
        out
    }

    /// Lists all set indices, in ascending order, each with its value for
    /// writing.
    pub fn iter_mut(&mut self) -> (r: Vec<(usize, &mut T)>)
        requires
            old(self).wf(),
        ensures
            final(self).wf(),
            final(self).indices() == old(self).indices(),
            final(self).allocator() == old(self).allocator(),
            final(self).values().len() == old(self).values().len(),
            r@.len() == old(self).entries().len(),
            forall|i: int|
                0 <= i < r@.len() ==> ((#[trigger] r@[i]).0, *r@[i].1) == old(self).entries()[i],
            forall|i: int| 0 <= i < r@.len() ==> final(self).values()[i] == *final(r@[i].1),
            forall|i: int, j: int| 0 <= i < j < r@.len() ==> r@[i].0 < r@[j].0,
    {
        let n: usize = self.indices.len();
        let mut out: Vec<(usize, &mut T)> = Vec::with_capacity(n);
        let indices: &Vec<usize> = &self.indices;
        let mut rest: &mut [T] = self.values.as_mut_slice();
        let ghost whole = rest;
        let mut i: usize = 0;
        while i < n
            invariant
                n == whole@.len(),
                n == indices@.len(),
                0 <= i <= n,
                out@.len() == i,
                rest@ == whole@.subrange(i as int, n as int),
                forall|k: int|
                    0 <= k < i ==> (#[trigger] out@[k]).0 == indices@[k] && *out@[k].1
                        == whole@[k],
                final(whole)@ == Seq::new(i as nat, |k: int| *final(out@[k].1)) + final(rest)@,
            decreases n - i,
        {
            let ghost before = out@;
            let ghost rest_before = rest;
            let (head, tail) = rest.split_at_mut(1);
            let ghost head_before = head;
            let ghost tail_before = tail;
            let slot: &mut T = &mut head[0];
            let ghost slot_before = slot;
            out.push((indices[i], slot));
            rest = tail;
            i += 1;
            proof {
                assert(final(head_before)@ =~= seq![*final(slot_before)]);
                assert(final(rest_before)@ =~= seq![*final(slot_before)] + final(tail_before)@);
                assert(Seq::new(i as nat, |k: int| *final(out@[k].1)) =~= Seq::new(
                    (i - 1) as nat,
                    |k: int| *final(before[k].1),
                ).push(*final(slot_before)));
                assert(rest@ =~= whole@.subrange(i as int, n as int));
            }
        }
        proof {
            assert(final(rest)@ =~= Seq::<T>::empty());
        }
        out
    }
}

impl<T, Alloc: Default> Default for SparseVec<T, Alloc> {
    /// The empty container, with a default allocator handle.
    fn default() -> (s: Self)
        ensures
            s.wf(),
            s.indices() == Seq::<usize>::empty(),
            s.values() == Seq::<T>::empty(),
            s@ == Map::<usize, T>::empty(),
            call_ensures(Alloc::default, (), s.allocator()),
    {
        Self::new()
    }
}

impl<T, Alloc> vstd::std_specs::core::IndexSpecImpl<usize> for SparseVec<T, Alloc> {
    /// Only a set index of a well-formed container can be accessed directly.
    open spec fn index_req(&self, index: &usize) -> bool {
        self.wf() && self@.contains_key(*index)
    }
}

impl<T, Alloc> std::ops::Index<usize> for SparseVec<T, Alloc> {
    type Output = T;

    /// The value at `index`, which has to be set.
    fn index(&self, index: usize) -> (r: &T)
        ensures
            *r == self@[index],
    {
        match search(self.indices.as_slice(), index) {
            Ok(p) => {
                proof {
                    lemma_contains_at_insertion_point(self.indices(), index);
                }
                &self.values[p]
            },
            Err(_) => vstd::pervasive::unreached(),
        }
    }
}

impl<T, Alloc> std::ops::IndexMut<usize> for SparseVec<T, Alloc> {
    /// The value at `index`, which has to be set, for writing.
    fn index_mut(&mut self, index: usize) -> (r: &mut T)
        requires
            old(self).wf(),
            old(self)@.contains_key(index),
        ensures
            *r == old(self)@[index],
            final(self).wf(),
            final(self).indices() == old(self).indices(),
            final(self).allocator() == old(self).allocator(),
            final(self).values() == old(self).values().update(
                insertion_point(old(self).indices(), index),
                *final(r),
            ),
            final(self)@ == old(self)@.insert(index, *final(r)),
    {
        match search(self.indices.as_slice(), index) {
            Ok(p) => {
                proof {
                    lemma_contains_at_insertion_point(self.indices(), index);
                    lemma_update_is_insert(*old(self), index);
                }
                &mut self.values[p]
            },
            Err(_) => vstd::pervasive::unreached(),
        }
    }
}

impl<T1: PartialEq<T2>, Alloc1, T2, Alloc2> PartialEq<SparseVec<T2, Alloc2>> for SparseVec<T1, Alloc1> {
    /// Compares the set indices and their values, in order. The allocator
    /// handles take no part.
    fn eq(&self, rhs: &SparseVec<T2, Alloc2>) -> (r: bool) {
        let n: usize = self.indices.len();
        if n != rhs.indices.len() || self.values.len() != rhs.values.len() {
            return false;
        }
        let mut i: usize = 0;
        while i < n
            invariant
                n == self.indices@.len(),
                n == rhs.indices@.len(),
                0 <= i <= n,
                forall|k: int| 0 <= k < i ==> self.indices@[k] == rhs.indices@[k],
            decreases n - i,
        {
            if self.indices[i] != rhs.indices[i] {
                return false;
            }
            i += 1;
        }
        assert(self.indices@ =~= rhs.indices@);
        let m: usize = self.values.len();
        let mut j: usize = 0;
        while j < m
            invariant
                self.indices@ == rhs.indices@,
                m == self.values@.len(),
                m == rhs.values@.len(),
                0 <= j <= m,
                T1::obeys_eq_spec() ==> forall|k: int|
                    0 <= k < j ==> #[trigger] self.values@[k].eq_spec(&rhs.values@[k]),
            decreases m - j,
        {
            if !(self.values[j] == rhs.values[j]) {
                return false;
            }
            j += 1;
        }
        true
    }
}

impl<T1: PartialEq<T2>, Alloc1, T2, Alloc2> PartialEqSpecImpl<SparseVec<T2, Alloc2>> for SparseVec<T1, Alloc1> {
    open spec fn obeys_eq_spec() -> bool {
        T1::obeys_eq_spec()
    }

    /// Two containers are equal when they hold the same indices in the same
    /// order and, position by position, equal values.
    open spec fn eq_spec(&self, other: &SparseVec<T2, Alloc2>) -> bool {
        &&& self.indices() == other.indices()
        &&& self.values().len() == other.values().len()
        &&& forall|i: int|
            0 <= i < self.values().len() ==> #[trigger] self.values()[i].eq_spec(
                &other.values()[i],
            )
    }
}

impl<T: Eq, Alloc> Eq for SparseVec<T, Alloc> {

}

impl<T: Clone, Alloc: Clone> Clone for SparseVec<T, Alloc> {
    /// A container with the same indices, a clone of each value and a clone
    /// of the allocator handle.
    fn clone(&self) -> (r: Self)
        ensures
            r.indices() == self.indices(),
            r.values().len() == self.values().len(),
            forall|i: int|
                0 <= i < self.values().len() ==> cloned::<T>(
                    #[trigger] self.values()[i],
                    r.values()[i],
                ),
            cloned::<Alloc>(self.allocator(), r.allocator()),
            self.wf() ==> r.wf(),
    {
        let indices = self.indices.clone();
        assert(indices@ =~= self.indices@);
        SparseVec { indices, values: self.values.clone(), allocator: self.allocator.clone() }
    }
}

/// The entry at a position of a well-formed container is an entry of its
/// map: the index there is set, and its value is the value there.
pub proof fn lemma_entry_in_view<T, Alloc>(s: SparseVec<T, Alloc>, i: int)
    requires
        s.wf(),
        0 <= i < s.indices().len(),
    ensures
        s@.contains_key(s.indices()[i]),
        s@[s.indices()[i]] == s.values()[i],
        s.indices().index_of(s.indices()[i]) == i,
{
    let k = s.indices()[i];
    assert(s.indices().contains(k));
    let q = s.indices().index_of(k);
    assert(0 <= q < s.indices().len() && s.indices()[q] == k);
    if q < i {
        assert(s.indices()[q] < s.indices()[i]);
    }
    if i < q {
        assert(s.indices()[i] < s.indices()[q]);
    }
}

/// The map of a well-formed container has the stored indices as its domain,
/// which is finite and as large as the container's count.
pub proof fn lemma_domain_is_indices<T, Alloc>(s: SparseVec<T, Alloc>)
    requires
        s.wf(),
    ensures
        s@.dom() == s.indices().to_set(),
        s@.dom().finite(),
        s@.dom().len() == s.indices().len(),
{
    assert(s@.dom() =~= s.indices().to_set());
    vstd::seq_lib::seq_to_set_is_finite(s.indices());
    assert(s.indices().no_duplicates()) by {
        assert forall|i: int, j: int|
            0 <= i < s.indices().len() && 0 <= j < s.indices().len() && i != j implies s.indices()[i]
            != s.indices()[j] by {
            if i < j {
                assert(s.indices()[i] < s.indices()[j]);
            } else {
                assert(s.indices()[j] < s.indices()[i]);
            }
        }
    }
    s.indices().unique_seq_to_set();
}

/// Replacing the value at a set index is the map's `insert` at that index.
proof fn lemma_update_is_insert<T, Alloc>(s: SparseVec<T, Alloc>, index: usize)
    requires
        s.wf(),
        s.indices().contains(index),
    ensures
        forall|t: SparseVec<T, Alloc>, value: T|
            t.indices() == s.indices() && #[trigger] t.values() == s.values().update(
                insertion_point(s.indices(), index),
                value,
            ) ==> t@ == #[trigger] s@.insert(index, value),
{
    lemma_contains_at_insertion_point(s.indices(), index);
    let p = insertion_point(s.indices(), index);
    assert forall|t: SparseVec<T, Alloc>, value: T|
        t.indices() == s.indices() && #[trigger] t.values() == s.values().update(
            p,
            value,
        ) implies t@ == #[trigger] s@.insert(index, value) by {
        assert forall|k: usize| t@.contains_key(k) implies t@[k] == s@.insert(index, value)[k] by {
            let q = s.indices().index_of(k);
            assert(0 <= q < s.indices().len() && s.indices()[q] == k);
            if q != p {
                if q < p {
                    assert(s.indices()[q] < s.indices()[p]);
                } else {
                    assert(s.indices()[p] < s.indices()[q]);
                }
            }
        }
        assert(t@ =~= s@.insert(index, value));
    }
}

/// Inserting an unset index with its value at the insertion point keeps the
/// container well formed and is the map's `insert` at that index.
proof fn lemma_insert_is_insert<T, Alloc>(s: SparseVec<T, Alloc>, index: usize)
    requires
        s.wf(),
        !s.indices().contains(index),
    ensures
        strictly_ascending(s.indices().insert(insertion_point(s.indices(), index), index)),
        forall|t: SparseVec<T, Alloc>, value: T|
            t.indices() == s.indices().insert(insertion_point(s.indices(), index), index)
                && #[trigger] t.values() == s.values().insert(
                insertion_point(s.indices(), index),
                value,
            ) ==> t@ == #[trigger] s@.insert(index, value),
{
    lemma_insertion_point_splits(s.indices(), index);
    let p = insertion_point(s.indices(), index);
    let ind = s.indices().insert(p, index);
    assert forall|i: int| p <= i < s.indices().len() implies s.indices()[i] > index by {
        assert(s.indices().contains(s.indices()[i]));
    }
    assert forall|i: int, j: int| 0 <= i < j < ind.len() implies ind[i] < ind[j] by {
        if j < p {
            assert(ind[i] == s.indices()[i] && ind[j] == s.indices()[j]);
        } else if j == p {
            assert(ind[i] == s.indices()[i]);
        } else if i < p {
            assert(ind[i] == s.indices()[i] && ind[j] == s.indices()[j - 1]);
            assert(s.indices()[i] < index);
            assert(s.indices()[j - 1] > index);
        } else if i == p {
            assert(ind[j] == s.indices()[j - 1]);
            assert(s.indices()[j - 1] > index);
        } else {
            assert(ind[i] == s.indices()[i - 1] && ind[j] == s.indices()[j - 1]);
        }
    }
    assert forall|t: SparseVec<T, Alloc>, value: T|
        t.indices() == ind && #[trigger] t.values() == s.values().insert(
            p,
            value,
        ) implies t@ == #[trigger] s@.insert(index, value) by {
        let m = s@.insert(index, value);
        assert(ind[p] == index);
        assert forall|k: usize| t@.contains_key(k) <==> m.contains_key(k) by {
            if ind.contains(k) {
                let q = ind.index_of(k);
                assert(0 <= q < ind.len() && ind[q] == k);
                if q < p {
                    assert(s.indices()[q] == k);
                } else if q > p {
                    assert(s.indices()[q - 1] == k);
                }
            }
            if s.indices().contains(k) {
                let q = s.indices().index_of(k);
                assert(0 <= q < s.indices().len() && s.indices()[q] == k);
                if q < p {
                    assert(ind[q] == k);
                } else {
                    assert(ind[q + 1] == k);
                }
            }
        }
        assert forall|k: usize| t@.contains_key(k) implies t@[k] == m[k] by {
            let q = ind.index_of(k);
            assert(0 <= q < ind.len() && ind[q] == k);
            if k != index {
                let w = s.indices().index_of(k);
                assert(0 <= w < s.indices().len() && s.indices()[w] == k);
                let e: int = if w < p { w } else { w + 1 };
                assert(ind[e] == k);
                if e < q {
                    assert(ind[e] < ind[q]);
                }
                if q < e {
                    assert(ind[q] < ind[e]);
                }
            } else {
                if q < p {
                    assert(ind[q] < ind[p]);
                }
                if p < q {
                    assert(ind[p] < ind[q]);
                }
            }
        }
        assert(t@ =~= m);
    }
}

} // verus!
