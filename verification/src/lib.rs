//! A sequence: a finite, indexable, ordered collection of comparable elements.
//!
//! [`Sequence`] is the interface, with the contract of every operation stated over the
//! view of a sequence, a `Seq` of its elements. [`array_sequence::ArraySequence`] keeps
//! the elements in one contiguous buffer and is proved to meet that contract.
//!
//! The operations come in four groups. Creators build a sequence. Observers look at one
//! and leave it as it is. Modifiers change one in place, or take part of it out. Consumers
//! take a sequence apart.
//!
//! Closures are described by their own contracts (see [`closures`]); what a sequence says
//! of order holds for element types whose comparisons form a total order (see [`order`]).

use std::ops::Range;
use vstd::prelude::*;

pub mod array_sequence;
pub mod closures;
pub mod model;
pub mod order;

use crate::closures::{accumulates, can_accumulate, can_iterate, filters, iterates, running};
use crate::model::{enumerated, injected, swapped, without, writes_within};
use crate::order::{merged, sorted, total_order};

verus! {

/// A finite sequence of elements of `T`, each at a place from 0 up to its length. Its view
/// is the `Seq` of its elements in the order of their places; every contract below is
/// stated over that view, so that any representation can be held to it.
pub trait Sequence<T: Copy + Ord>: View<V = Seq<T>> + Sized {
    /// The sequence of pairs that [`Sequence::enumerate`] returns: the same kind of
    /// sequence, of another element type.
    type Enumerated: View<V = Seq<(usize, T)>>;

    // Creators
    /// The sequence of the one element `x`.
    fn singleton(x: T) -> (s: Self)
        ensures
            s@ == seq![x],
    ;

    /// The sequence of `len` elements whose element at each place `i` is what `f` returns
    /// for `i`.
    fn tabulate<Tabulator>(len: usize, f: Tabulator) -> (s: Self) where
        Tabulator: Fn(usize) -> T,

        requires
            forall|i: usize| i < len ==> f.requires((i,)),
        ensures
            s@.len() == len,
            forall|i: usize| i < len ==> f.ensures((i,), #[trigger] s@[i as int]),
    ;

    // Observers
    /// The element at place `index`.
    fn nth(&self, index: usize) -> (x: &T)
        requires
            index < self@.len(),
        ensures
            *x == self@[index as int],
    ;

    /// The number of elements.
    fn length(&self) -> (n: usize)
        ensures
            n == self@.len(),
    ;

    /// Whether every element is at most the one after it.
    fn is_sorted(&self) -> (b: bool)
        ensures
            total_order::<T>() ==> b == sorted(self@),
    ;

    /// Folds the elements from left to right into `base`:
    /// `f(...f(f(base, e0), e1)..., en)`.
    fn iterate<Accumulator, U>(&self, base: U, f: Accumulator) -> (out: U) where
        Accumulator: Fn(U, &T) -> U,

        requires
            can_iterate(f, base, self@),
        ensures
            iterates(f, base, self@, out),
    ;

    /// Folds the elements after the first from left to right into the first one. `base` is
    /// what an empty sequence gives, and takes no part in the result of any other.
    fn reduce<Reducer>(&self, base: T, f: Reducer) -> (out: T) where Reducer: Fn(T, T) -> T
        requires
            self@.len() > 0 ==> can_accumulate(f, self@[0], self@.skip(1)),
        ensures
            self@.len() == 0 ==> out == base,
            self@.len() > 0 ==> accumulates(f, self@[0], self@.skip(1), out),
    ;

    /// Each element paired with its place, in the same order.
    fn enumerate(&self) -> (pairs: Self::Enumerated)
        ensures
            pairs@ == enumerated(self@),
    ;

    // Modifiers
    /// Exchanges the elements at `i` and `j`.
    fn swap(&mut self, i: usize, j: usize)
        requires
            i < old(self)@.len(),
            j < old(self)@.len(),
        ensures
            final(self)@ == swapped(old(self)@, i as int, j as int),
    ;

    /// Puts the elements in the opposite order.
    fn reverse(&mut self)
        ensures
            final(self)@ == old(self)@.reverse(),
    ;

    /// Puts the elements of `other` after those of `self`.
    fn append(&mut self, other: Self)
        ensures
            final(self)@ == old(self)@ + other@,
    ;

    /// Merges the sorted `other` into the sorted `self`. Of elements that compare equal,
    /// those of `other` come before those of `self`. Whatever the comparisons of `T` do,
    /// every element of the two is kept, as often as it occurred.
    fn merge(&mut self, other: Self)
        requires
            sorted(old(self)@),
            sorted(other@),
        ensures
            final(self)@.len() == old(self)@.len() + other@.len(),
            final(self)@.to_multiset() == old(self)@.to_multiset().add(other@.to_multiset()),
            total_order::<T>() ==> final(self)@ == merged(old(self)@, other@),
            total_order::<T>() ==> sorted(final(self)@),
    ;

    /// Keeps the elements that `p` accepts, in their order, and no other.
    fn filter<Predicate>(&mut self, p: Predicate) where Predicate: Fn(&T) -> bool
        requires
            forall|i: int|
                #![trigger old(self)@[i]]
                0 <= i < old(self)@.len() ==> p.requires((&old(self)@[i],)),
        ensures
            filters(p, old(self)@, final(self)@),
            final(self)@.len() <= old(self)@.len(),
            forall|j: int|
                #![trigger final(self)@[j]]
                0 <= j < final(self)@.len() ==> p.ensures((&final(self)@[j],), true),
    ;

    /// Puts in the place of each element what `f` returns for it.
    fn map<F>(&mut self, f: F) where F: Fn(T) -> T
        requires
            forall|i: int| 0 <= i < old(self)@.len() ==> f.requires((#[trigger] old(self)@[i],)),
        ensures
            final(self)@.len() == old(self)@.len(),
            forall|i: int|
                0 <= i < old(self)@.len() ==> f.ensures(
                    (old(self)@[i],),
                    #[trigger] final(self)@[i],
                ),
    ;

    /// Puts the value `update.1` at the place `update.0`.
    fn update(&mut self, update: (usize, T))
        requires
            update.0 < old(self)@.len(),
        ensures
            final(self)@ == old(self)@.update(update.0 as int, update.1),
    ;

    /// Applies the writes of `updates` one after the other, in the order given; of two
    /// writes to one place the later one stays.
    fn inject(&mut self, updates: &[(usize, T)])
        requires
            writes_within(updates@, old(self)@.len()),
        ensures
            final(self)@ == injected(old(self)@, updates@),
            final(self)@.len() == old(self)@.len(),
    ;

    /// Takes the run of elements from `range.start` up to, not including, `range.end` out
    /// of `self` and returns it. `self` keeps the elements before and after the run, in
    /// their order.
    fn subseq(&mut self, range: Range<usize>) -> (run: Self)
        requires
            range.start <= range.end <= old(self)@.len(),
        ensures
            run@ == old(self)@.subrange(range.start as int, range.end as int),
            final(self)@ == without(old(self)@, range.start as int, range.end as int),
    ;

    /// Takes the first `until` elements out of `self` and returns them; `self` keeps the
    /// rest. The same as `subseq(0..until)`.
    fn take(&mut self, until: usize) -> (run: Self)
        requires
            until <= old(self)@.len(),
        ensures
            run@ == old(self)@.take(until as int),
            final(self)@ == old(self)@.skip(until as int),
    ;

    /// Takes the elements from place `from` on out of `self` and returns them; `self`
    /// keeps the first `from` elements. The same as `subseq(from..length)`.
    fn drop(&mut self, from: usize) -> (run: Self)
        requires
            from <= old(self)@.len(),
        ensures
            run@ == old(self)@.skip(from as int),
            final(self)@ == old(self)@.take(from as int),
    ;

    /// Puts in the place of each element the fold of `f` over `base` and the elements
    /// before it, and returns the fold over all elements. One pass from left to right: the
    /// accumulator starts as `base` and each element is read before its place is written.
    fn scan<Reducer>(&mut self, base: T, f: Reducer) -> (total: T) where Reducer: Fn(T, T) -> T
        requires
            can_accumulate(f, base, old(self)@),
        ensures
            final(self)@.len() == old(self)@.len(),
            running(f, base, old(self)@, final(self)@.push(total)),
            accumulates(f, base, old(self)@, total),
            forall|i: int|
                0 <= i < old(self)@.len() ==> accumulates(
                    f,
                    base,
                    old(self)@.take(i),
                    #[trigger] final(self)@[i],
                ),
    ;

    /// Puts in the place of each element the fold of `f` over `base`, the elements before
    /// it and the element itself.
    fn scan_incl<Reducer>(&mut self, base: T, f: Reducer) where Reducer: Fn(T, T) -> T
        requires
            can_accumulate(f, base, old(self)@),
        ensures
            final(self)@.len() == old(self)@.len(),
            running(f, base, old(self)@, seq![base] + final(self)@),
            forall|i: int|
                0 <= i < old(self)@.len() ==> accumulates(
                    f,
                    base,
                    old(self)@.take(i + 1),
                    #[trigger] final(self)@[i],
                ),
    ;

    // Consumers
    /// Parts the sequence into its first `mid` elements and the rest.
    fn split_at(self, mid: usize) -> (parts: (Self, Self))
        requires
            mid <= self@.len(),
        ensures
            parts.0@ == self@.take(mid as int),
            parts.1@ == self@.skip(mid as int),
            parts.0@.len() == mid,
            parts.1@.len() == self@.len() - mid,
            parts.0@ + parts.1@ == self@,
    ;
}

} // verus!
