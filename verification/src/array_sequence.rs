//! The sequence that keeps its elements in one contiguous buffer.

use std::ops::Range;
use vstd::prelude::*;
use vstd::seq_lib::{lemma_multiset_commutative, to_multiset_build};
use vstd::std_specs::convert::FromSpecImpl;

use crate::closures::{
    accumulates, can_accumulate, can_iterate, filters, iterates, lemma_running_by_ref_push,
    lemma_running_prefix, lemma_running_push, running, running_by_ref,
};
use crate::model::{
    enumerated, injected, lemma_push_joins_elements, swapped, without, writes_within,
};
use crate::order::{
    at_most, before, le, lemma_merged_head, lemma_merged_sorted, merged, sorted, total_order,
};
use crate::Sequence;

verus! {

/// A sequence in one buffer that it alone owns. Its view is the `Seq` of the elements in
/// the order of their places. The buffer is in no standing order: whether it is sorted is
/// a question to ask of it, not something the type keeps.
#[non_exhaustive]
#[derive(Debug, Eq, PartialEq, Ord, PartialOrd)]
pub struct ArraySequence<T> {
    vec: Vec<T>,
}

impl<T> View for ArraySequence<T> {
    type V = Seq<T>;

    closed spec fn view(&self) -> Seq<T> {
        self.vec@
    }
}

impl<T: Copy + Ord> Sequence<T> for ArraySequence<T> {
    type Enumerated = ArraySequence<(usize, T)>;

    // Creators
    fn singleton(x: T) -> (s: Self)
        ensures
            s@ == seq![x],
    {
        Self { vec: vec![x] }
    }

    fn tabulate<Tabulator>(len: usize, f: Tabulator) -> (s: Self) where
        Tabulator: Fn(usize) -> T,

        ensures
            s@.len() == len,
            forall|i: usize| i < len ==> f.ensures((i,), #[trigger] s@[i as int]),
    {
        let mut vec: Vec<T> = Vec::with_capacity(len);
        let mut i: usize = 0;
        while i < len
            invariant
                i <= len,
                vec@.len() == i,
                forall|k: usize| k < len ==> f.requires((k,)),
                forall|k: usize| k < i ==> f.ensures((k,), #[trigger] vec@[k as int]),
            decreases len - i,
        {
            vec.push(f(i));
            i += 1;
        }
        Self { vec }
    }

    // Observers
    fn nth(&self, index: usize) -> (x: &T)
        ensures
            *x == self@[index as int],
    {
        &self.vec[index]
    }

    fn length(&self) -> (n: usize)
        ensures
            n == self@.len(),
    {
        self.vec.len()
    }

    fn is_sorted(&self) -> (b: bool)
        ensures
            total_order::<T>() ==> b == sorted(self@),
    {
        let n = self.vec.len();
        if n < 2 {
            return true;
        }
        let mut i: usize = 1;
        while i < n
            invariant
                1 <= i <= n,
                n == self.vec@.len(),
                total_order::<T>() ==> forall|k: int, l: int|
                    0 <= k && l == k + 1 && l < i ==> le(
                        #[trigger] self.vec@[k],
                        #[trigger] self.vec@[l],
                    ),
            decreases n - i,
        {
            if !at_most(&self.vec[i - 1], &self.vec[i]) {
                assert(total_order::<T>() ==> !le(self.vec@[i - 1], self.vec@[i as int]));
                return false;
            }
            i += 1;
        }
        true
    }

    fn iterate<Accumulator, U>(&self, base: U, f: Accumulator) -> (out: U) where
        Accumulator: Fn(U, &T) -> U,

        ensures
            iterates(f, base, self@, out),
    {
        let ghost start = base;
        let ghost mut accs: Seq<U> = seq![base];
        let n = self.vec.len();
        let mut acc = base;
        let mut i: usize = 0;
        while i < n
            invariant
                i <= n,
                n == self.vec@.len(),
                can_iterate(f, start, self.vec@),
                running_by_ref(f, start, self.vec@.take(i as int), accs),
                accs[i as int] == acc,
            decreases n - i,
        {
            acc = f(acc, &self.vec[i]);
            proof {
                lemma_running_by_ref_push(
                    f,
                    start,
                    self.vec@.take(i as int),
                    accs,
                    self.vec@[i as int],
                    acc,
                );
                assert(self.vec@.take(i as int).push(self.vec@[i as int]) =~= self.vec@.take(
                    i + 1,
                ));
                accs = accs.push(acc);
            }
            i += 1;
        }
        assert(self.vec@.take(n as int) =~= self.vec@);
        acc
    }

    fn reduce<Reducer>(&self, base: T, f: Reducer) -> (out: T) where Reducer: Fn(T, T) -> T
        ensures
            self@.len() == 0 ==> out == base,
            self@.len() > 0 ==> accumulates(f, self@[0], self@.skip(1), out),
    {
        let n = self.vec.len();
        if n == 0 {
            return base;
        }
        let first = self.vec[0];
        let ghost rest = self.vec@.skip(1);
        let ghost mut accs: Seq<T> = seq![first];
        let mut acc = first;
        let mut i: usize = 1;
        while i < n
            invariant
                1 <= i <= n,
                n == self.vec@.len(),
                rest == self.vec@.skip(1),
                first == self.vec@[0],
                can_accumulate(f, first, rest),
                running(f, first, rest.take(i - 1), accs),
                accs[i - 1] == acc,
            decreases n - i,
        {
            assert(rest[i - 1] == self.vec@[i as int]);
            let next = f(acc, self.vec[i]);
            proof {
                lemma_running_push(f, first, rest.take(i - 1), accs, self.vec@[i as int], next);
                assert(rest.take(i - 1).push(self.vec@[i as int]) =~= rest.take(i as int));
                accs = accs.push(next);
            }
            acc = next;
            i += 1;
        }
        assert(rest.take(n - 1) =~= rest);
        acc
    }

    fn enumerate(&self) -> (pairs: ArraySequence<(usize, T)>)
        ensures
            pairs@ == enumerated(self@),
    {
        let n = self.vec.len();
        let mut vec: Vec<(usize, T)> = Vec::with_capacity(n);
        let mut i: usize = 0;
        while i < n
            invariant
                i <= n,
                n == self.vec@.len(),
                vec@.len() == i,
                forall|k: int| 0 <= k < i ==> vec@[k] == (k as usize, self.vec@[k]),
            decreases n - i,
        {
            vec.push((i, self.vec[i]));
            i += 1;
        }
        assert(vec@ =~= enumerated(self.vec@));
        ArraySequence { vec }
    }

    // Modifiers
    fn swap(&mut self, i: usize, j: usize)
        ensures
            final(self)@ == swapped(old(self)@, i as int, j as int),
    {
        let a = self.vec[i];
        let b = self.vec[j];
        self.vec[i] = b;
        self.vec[j] = a;
    }

    fn reverse(&mut self)
        ensures
            final(self)@ == old(self)@.reverse(),
    {
        let ghost before = self.vec@;
        let n = self.vec.len();
        let mut i: usize = 0;
        while i < n / 2
            invariant
                i <= n / 2,
                n == before.len(),
                self.vec@.len() == n,
                forall|k: int| 0 <= k < i ==> self.vec@[k] == before[n - 1 - k],
                forall|k: int| n - i <= k < n ==> self.vec@[k] == before[n - 1 - k],
                forall|k: int| i <= k < n - i ==> self.vec@[k] == before[k],
            decreases n / 2 - i,
        {
            self.swap(i, n - 1 - i);
            i += 1;
        }
        assert(self.vec@ =~= before.reverse());
    }

    fn append(&mut self, other: Self)
        ensures
            final(self)@ == old(self)@ + other@,
    {
        let mut other = other;
        self.vec.reserve(other.vec.len());
        self.vec.append(&mut other.vec);
    }

    fn merge(&mut self, other: Self)
        ensures
            final(self)@.len() == old(self)@.len() + other@.len(),
            final(self)@.to_multiset() == old(self)@.to_multiset().add(other@.to_multiset()),
            total_order::<T>() ==> final(self)@ == merged(old(self)@, other@),
            total_order::<T>() ==> sorted(final(self)@),
    {
        let ghost left = self.vec@;
        let ghost right = other.vec@;
        let n = self.vec.len();
        let m = other.vec.len();
        let mut out: Vec<T> = match n.checked_add(m) {
            Some(both) => Vec::with_capacity(both),
            None => Vec::new(),
        };
        let mut i: usize = 0;
        let mut j: usize = 0;
        proof {
            assert(out@ =~= left.take(0) + right.take(0));
            assert(left.skip(0) =~= left);
            assert(right.skip(0) =~= right);
            assert(out@ + merged(left, right) =~= merged(left, right));
        }
        while i < n || j < m
            invariant
                i <= n,
                j <= m,
                self.vec@ == left,
                other.vec@ == right,
                n == left.len(),
                m == right.len(),
                out@.len() == i + j,
                out@.to_multiset() == (left.take(i as int) + right.take(j as int)).to_multiset(),
                total_order::<T>() ==> merged(left, right) == out@ + merged(
                    left.skip(i as int),
                    right.skip(j as int),
                ),
            decreases (n - i) + (m - j),
        {
            let ghost merged_so_far = out@;
            proof {
                lemma_merged_head(left.skip(i as int), right.skip(j as int));
            }
            if j >= m || (i < n && before(&self.vec[i], &other.vec[j])) {
                let x = self.vec[i];
                out.push(x);
                proof {
                    to_multiset_build(merged_so_far, x);
                    lemma_push_joins_elements(left.take(i as int), right.take(j as int), x);
                    assert(left.take(i as int).push(x) =~= left.take(i + 1));
                    assert(left.skip(i as int).drop_first() =~= left.skip(i + 1));
                    assert(out@ =~= merged_so_far + seq![x]);
                }
                i += 1;
            } else {
                let x = other.vec[j];
                out.push(x);
                proof {
                    to_multiset_build(merged_so_far, x);
                    lemma_push_joins_elements(left.take(i as int), right.take(j as int), x);
                    assert(right.take(j as int).push(x) =~= right.take(j + 1));
                    assert(right.skip(j as int).drop_first() =~= right.skip(j + 1));
                    assert(out@ =~= merged_so_far + seq![x]);
                }
                j += 1;
            }
        }
        proof {
            assert(left.take(n as int) =~= left);
            assert(right.take(m as int) =~= right);
            lemma_multiset_commutative(left, right);
            if total_order::<T>() {
                assert(out@ + merged(left.skip(n as int), right.skip(m as int)) =~= out@);
                lemma_merged_sorted(left, right);
            }
        }
        self.vec = out;
    }

    fn filter<Predicate>(&mut self, p: Predicate) where Predicate: Fn(&T) -> bool
        ensures
            filters(p, old(self)@, final(self)@),
            final(self)@.len() <= old(self)@.len(),
            forall|j: int|
                #![trigger final(self)@[j]]
                0 <= j < final(self)@.len() ==> p.ensures((&final(self)@[j],), true),
    {
        let ghost before = self.vec@;
        let n = self.vec.len();
        let mut kept: Vec<T> = Vec::new();
        let mut i: usize = 0;
        assert forall|k: int| #![trigger before[k]] 0 <= k < n implies p.requires((&before[k],)) by {
            assert(before[k] == old(self)@[k]);
        }
        while i < n
            invariant
                i <= n,
                n == before.len(),
                self.vec@ == before,
                forall|k: int| #![trigger before[k]] 0 <= k < n ==> p.requires((&before[k],)),
                filters(p, before.take(i as int), kept@),
                kept@.len() <= i,
                forall|k: int| #![trigger kept@[k]] 0 <= k < kept@.len() ==> p.ensures((&kept@[k],), true),
            decreases n - i,
        {
            let x = self.vec[i];
            let ghost earlier = kept@;
            assert(x == before[i as int]);
            let accepted = p(&x);
            if accepted {
                kept.push(x);
            }
            proof {
                let s = before.take(i + 1);
                assert(s.drop_last() =~= before.take(i as int));
                assert(s.last() == x);
                if accepted {
                    assert(kept@.drop_last() =~= earlier);
                    assert(kept@.last() == x);
                }
            }
            i += 1;
        }
        assert(before.take(n as int) =~= before);
        self.vec = kept;
    }

    fn map<F>(&mut self, f: F) where F: Fn(T) -> T
        ensures
            final(self)@.len() == old(self)@.len(),
            forall|i: int|
                0 <= i < old(self)@.len() ==> f.ensures(
                    (old(self)@[i],),
                    #[trigger] final(self)@[i],
                ),
    {
        let ghost before = self.vec@;
        let n = self.vec.len();
        let mut i: usize = 0;
        assert forall|k: int| 0 <= k < n implies f.requires((#[trigger] before[k],)) by {
            assert(before[k] == old(self)@[k]);
        }
        while i < n
            invariant
                i <= n,
                n == before.len(),
                self.vec@.len() == n,
                forall|k: int| 0 <= k < n ==> f.requires((#[trigger] before[k],)),
                forall|k: int| 0 <= k < i ==> f.ensures((before[k],), #[trigger] self.vec@[k]),
                forall|k: int| i <= k < n ==> self.vec@[k] == before[k],
            decreases n - i,
        {
            assert(self.vec@[i as int] == before[i as int]);
            let x = f(self.vec[i]);
            self.vec[i] = x;
            i += 1;
        }
    }

    fn update(&mut self, update: (usize, T))
        ensures
            final(self)@ == old(self)@.update(update.0 as int, update.1),
    {
        self.vec[update.0] = update.1;
    }

    fn inject(&mut self, updates: &[(usize, T)])
        ensures
            final(self)@ == injected(old(self)@, updates@),
            final(self)@.len() == old(self)@.len(),
    {
        let ghost before = self.vec@;
        let n = updates.len();
        let mut k: usize = 0;
        while k < n
            invariant
                k <= n,
                n == updates@.len(),
                writes_within(updates@, before.len()),
                self.vec@.len() == before.len(),
                self.vec@ == injected(before, updates@.take(k as int)),
            decreases n - k,
        {
            let (i, x) = updates[k];
            assert(updates@[k as int].0 < before.len());
            self.vec[i] = x;
            proof {
                let done = updates@.take(k + 1);
                assert(done.drop_last() =~= updates@.take(k as int));
                assert(done.last() == updates@[k as int]);
            }
            k += 1;
        }
        assert(updates@.take(n as int) =~= updates@);
    }

    fn subseq(&mut self, range: Range<usize>) -> (run: Self)
        ensures
            run@ == old(self)@.subrange(range.start as int, range.end as int),
            final(self)@ == without(old(self)@, range.start as int, range.end as int),
    {
        let ghost before = self.vec@;
        let mut run = self.vec.split_off(range.start);
        let mut rest = run.split_off(range.end - range.start);
        self.vec.append(&mut rest);
        assert(run@ =~= before.subrange(range.start as int, range.end as int));
        assert(self.vec@ =~= without(before, range.start as int, range.end as int));
        Self { vec: run }
    }

    fn take(&mut self, until: usize) -> (run: Self)
        ensures
            run@ == old(self)@.take(until as int),
            final(self)@ == old(self)@.skip(until as int),
    {
        let ghost before = self.vec@;
        let run = self.subseq(0..until);
        assert(self.vec@ =~= before.skip(until as int));
        run
    }

    fn drop(&mut self, from: usize) -> (run: Self)
        ensures
            run@ == old(self)@.skip(from as int),
            final(self)@ == old(self)@.take(from as int),
    {
        let ghost before = self.vec@;
        let end = self.vec.len();
        let run = self.subseq(from..end);
        assert(self.vec@ =~= before.take(from as int));
        run
    }

    fn scan<Reducer>(&mut self, base: T, f: Reducer) -> (total: T) where Reducer: Fn(T, T) -> T
        ensures
            final(self)@.len() == old(self)@.len(),
            running(f, base, old(self)@, final(self)@.push(total)),
            accumulates(f, base, old(self)@, total),
            forall|i: int|
                0 <= i < old(self)@.len() ==> accumulates(
                    f,
                    base,
                    old(self)@.take(i),
                    #[trigger] final(self)@[i],
                ),
    {
        let ghost before = self.vec@;
        let ghost mut accs: Seq<T> = seq![base];
        let n = self.vec.len();
        let mut acc = base;
        let mut i: usize = 0;
        while i < n
            invariant
                i <= n,
                n == before.len(),
                self.vec@.len() == n,
                can_accumulate(f, base, before),
                running(f, base, before.take(i as int), accs),
                accs[i as int] == acc,
                forall|k: int| 0 <= k < i ==> self.vec@[k] == accs[k],
                forall|k: int| i <= k < n ==> self.vec@[k] == before[k],
            decreases n - i,
        {
            let x = self.vec[i];
            self.vec[i] = acc;
            let next = f(acc, x);
            proof {
                lemma_running_push(f, base, before.take(i as int), accs, x, next);
                assert(before.take(i as int).push(x) =~= before.take(i + 1));
                accs = accs.push(next);
            }
            acc = next;
            i += 1;
        }
        proof {
            assert(before.take(n as int) =~= before);
            assert(self.vec@.push(acc) =~= accs);
            assert forall|k: int| 0 <= k < n implies accumulates(
                f,
                base,
                before.take(k),
                #[trigger] self.vec@[k],
            ) by {
                lemma_running_prefix(f, base, before, accs, k);
            }
        }
        acc
    }

    fn scan_incl<Reducer>(&mut self, base: T, f: Reducer) where Reducer: Fn(T, T) -> T
        ensures
            final(self)@.len() == old(self)@.len(),
            running(f, base, old(self)@, seq![base] + final(self)@),
            forall|i: int|
                0 <= i < old(self)@.len() ==> accumulates(
                    f,
                    base,
                    old(self)@.take(i + 1),
                    #[trigger] final(self)@[i],
                ),
    {
        let ghost before = self.vec@;
        let ghost mut accs: Seq<T> = seq![base];
        let n = self.vec.len();
        let mut acc = base;
        let mut i: usize = 0;
        while i < n
            invariant
                i <= n,
                n == before.len(),
                self.vec@.len() == n,
                can_accumulate(f, base, before),
                running(f, base, before.take(i as int), accs),
                accs[i as int] == acc,
                forall|k: int| 0 <= k < i ==> self.vec@[k] == accs[k + 1],
                forall|k: int| i <= k < n ==> self.vec@[k] == before[k],
            decreases n - i,
        {
            let x = self.vec[i];
            let next = f(acc, x);
            self.vec[i] = next;
            proof {
                lemma_running_push(f, base, before.take(i as int), accs, x, next);
                assert(before.take(i as int).push(x) =~= before.take(i + 1));
                accs = accs.push(next);
            }
            acc = next;
            i += 1;
        }
        proof {
            assert(before.take(n as int) =~= before);
            assert(seq![base] + self.vec@ =~= accs);
            assert forall|k: int| 0 <= k < n implies accumulates(
                f,
                base,
                before.take(k + 1),
                #[trigger] self.vec@[k],
            ) by {
                lemma_running_prefix(f, base, before, accs, k + 1);
            }
        }
    }

    // Consumers
    fn split_at(self, mid: usize) -> (parts: (Self, Self))
        ensures
            parts.0@ == self@.take(mid as int),
            parts.1@ == self@.skip(mid as int),
            parts.0@.len() == mid,
            parts.1@.len() == self@.len() - mid,
            parts.0@ + parts.1@ == self@,
    {
        let mut first = self.vec;
        let rest = first.split_off(mid);
        assert(first@ + rest@ =~= self.vec@);
        (Self { vec: first }, Self { vec: rest })
    }
}

impl<T> Default for ArraySequence<T> {
    /// The sequence of no element.
    fn default() -> (s: Self)
        ensures
            s@ == Seq::<T>::empty(),
    {
        ArraySequence { vec: Vec::new() }
    }
}

impl<T: Clone> Clone for ArraySequence<T> {
    /// A sequence of the same length whose element at each place is a clone of the one at
    /// that place.
    fn clone(&self) -> (s: Self)
        ensures
            s@.len() == self@.len(),
            forall|i: int| 0 <= i < self@.len() ==> cloned::<T>(#[trigger] self@[i], s@[i]),
    {
        ArraySequence { vec: self.vec.clone() }
    }
}

impl<T> FromSpecImpl<Vec<T>> for ArraySequence<T> {
    open spec fn obeys_from_spec() -> bool {
        true
    }

    closed spec fn from_spec(item: Vec<T>) -> Self {
        ArraySequence { vec: item }
    }
}

impl<T> From<Vec<T>> for ArraySequence<T> {
    /// The sequence of the elements of `item`, in their order.
    fn from(item: Vec<T>) -> (s: Self)
        ensures
            s@ == item@,
    {
        ArraySequence { vec: item }
    }
}

impl<T> FromSpecImpl<ArraySequence<T>> for Vec<T> {
    open spec fn obeys_from_spec() -> bool {
        true
    }

    closed spec fn from_spec(item: ArraySequence<T>) -> Self {
        item.vec
    }
}

impl<T> From<ArraySequence<T>> for Vec<T> {
    /// The elements of `item`, in their order.
    fn from(item: ArraySequence<T>) -> (v: Self)
        ensures
            v@ == item@,
    {
        item.vec
    }
}

impl<T> AsRef<[T]> for ArraySequence<T> {
    /// The elements as a slice.
    fn as_ref(&self) -> (slice: &[T])
        ensures
            slice@ == self@,
    {
        self.vec.as_slice()
    }
}

} // verus!
