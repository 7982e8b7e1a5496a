//! The mathematical model of the operations that rearrange or overwrite a sequence, over
//! `Seq`, and the laws that hold of them.

use vstd::prelude::*;

verus! {

/// Every write of the batch is to a place below `len`.
pub open spec fn writes_within<T>(updates: Seq<(usize, T)>, len: nat) -> bool {
    forall|k: int| 0 <= k < updates.len() ==> (#[trigger] updates[k]).0 < len
}

/// `s` after the writes of `updates`, each a place and the value to put there, were
/// applied one after the other in the order given.
pub open spec fn injected<T>(s: Seq<T>, updates: Seq<(usize, T)>) -> Seq<T>
    decreases updates.len(),
{
    if updates.len() == 0 {
        s
    } else {
        injected(s, updates.drop_last()).update(updates.last().0 as int, updates.last().1)
    }
}

/// The value of the last write in `updates` to place `k`, if any write is to that place.
pub open spec fn last_write<T>(updates: Seq<(usize, T)>, k: int) -> Option<T>
    decreases updates.len(),
{
    if updates.len() == 0 {
        None
    } else if updates.last().0 == k {
        Some(updates.last().1)
    } else {
        last_write(updates.drop_last(), k)
    }
}

/// Each element paired with its place.
pub open spec fn enumerated<T>(s: Seq<T>) -> Seq<(usize, T)> {
    Seq::new(s.len(), |i: int| (i as usize, s[i]))
}

/// `s` with the elements at `i` and `j` exchanged.
pub open spec fn swapped<T>(s: Seq<T>, i: int, j: int) -> Seq<T> {
    s.update(i, s[j]).update(j, s[i])
}

/// `s` without the run of elements from `start` up to, not including, `end`.
pub open spec fn without<T>(s: Seq<T>, start: int, end: int) -> Seq<T> {
    s.subrange(0, start) + s.subrange(end, s.len() as int)
}

/// A batch of writes changes no length.
pub proof fn lemma_injected_len<T>(s: Seq<T>, updates: Seq<(usize, T)>)
    requires
        writes_within(updates, s.len()),
    ensures
        injected(s, updates).len() == s.len(),
    decreases updates.len(),
{
    if updates.len() > 0 {
        assert(writes_within(updates.drop_last(), s.len())) by {
            assert forall|k: int| 0 <= k < updates.drop_last().len() implies (
            #[trigger] updates.drop_last()[k]).0 < s.len() by {
                assert(updates.drop_last()[k] == updates[k]);
            }
        }
        lemma_injected_len(s, updates.drop_last());
    }
}

/// The last write wins: after a batch of writes, a place holds the value of the last write
/// to it, and what it held before where the batch has no write to it.
pub proof fn lemma_injected_last_write_wins<T>(s: Seq<T>, updates: Seq<(usize, T)>, k: int)
    requires
        writes_within(updates, s.len()),
        0 <= k < s.len(),
    ensures
        injected(s, updates)[k] == match last_write(updates, k) {
            Some(v) => v,
            None => s[k],
        },
    decreases updates.len(),
{
    if updates.len() > 0 {
        assert(writes_within(updates.drop_last(), s.len())) by {
            assert forall|j: int| 0 <= j < updates.drop_last().len() implies (
            #[trigger] updates.drop_last()[j]).0 < s.len() by {
                assert(updates.drop_last()[j] == updates[j]);
            }
        }
        lemma_injected_len(s, updates.drop_last());
        lemma_injected_last_write_wins(s, updates.drop_last(), k);
        assert(updates.last().0 < s.len());
    }
}

/// The first `n` elements and the rest part a sequence: neither shares a place with the
/// other, each keeps its order, and the first followed by the second is the sequence.
pub proof fn lemma_take_skip_partition<T>(s: Seq<T>, n: int)
    requires
        0 <= n <= s.len(),
    ensures
        s.take(n).len() == n,
        s.skip(n).len() == s.len() - n,
        s.take(n) + s.skip(n) == s,
        forall|i: int| 0 <= i < n ==> s.take(n)[i] == s[i],
        forall|i: int| 0 <= i < s.len() - n ==> s.skip(n)[i] == s[n + i],
{
    assert(s.take(n) + s.skip(n) =~= s);
}

/// A run taken out of a sequence and what is left of it part the sequence: the run put
/// back at `start` gives the sequence.
pub proof fn lemma_without_partition<T>(s: Seq<T>, start: int, end: int)
    requires
        0 <= start <= end <= s.len(),
    ensures
        s.subrange(start, end).len() == end - start,
        without(s, start, end).len() == s.len() - (end - start),
        without(s, start, end).take(start) + s.subrange(start, end) + without(s, start, end).skip(
            start,
        ) == s,
        without(s, 0, end) == s.skip(end),
        without(s, start, s.len() as int) == s.take(start),
{
    let rest = without(s, start, end);
    assert(rest.take(start) + s.subrange(start, end) + rest.skip(start) =~= s);
    assert(without(s, 0, end) =~= s.skip(end));
    assert(without(s, start, s.len() as int) =~= s.take(start));
}

/// Exchanging two elements twice gives the sequence back, and exchanging keeps the
/// elements: each occurs as often as before.
pub proof fn lemma_swapped<T>(s: Seq<T>, i: int, j: int)
    requires
        0 <= i < s.len(),
        0 <= j < s.len(),
    ensures
        swapped(swapped(s, i, j), i, j) == s,
        swapped(s, i, j).to_multiset() == s.to_multiset(),
{
    assert(swapped(swapped(s, i, j), i, j) =~= s);
    vstd::seq_lib::to_multiset_update(s, i, s[j]);
    vstd::seq_lib::to_multiset_update(s.update(i, s[j]), j, s[i]);
    s.to_multiset_ensures();
    assert(s.to_multiset().count(s[j]) > 0) by {
        assert(s.contains(s[j]));
    }
    assert(swapped(s, i, j).to_multiset() =~= s.to_multiset());
}

/// One more element at the end of either of two sequences is one more element in what
/// the two hold together.
pub proof fn lemma_push_joins_elements<T>(a: Seq<T>, b: Seq<T>, x: T)
    ensures
        (a.push(x) + b).to_multiset() == (a + b).to_multiset().insert(x),
        (a + b.push(x)).to_multiset() == (a + b).to_multiset().insert(x),
{
    broadcast use vstd::multiset::group_multiset_axioms;

    vstd::seq_lib::lemma_multiset_commutative(a.push(x), b);
    vstd::seq_lib::lemma_multiset_commutative(a, b);
    vstd::seq_lib::to_multiset_build(a, x);
    vstd::seq_lib::to_multiset_build(a + b, x);
    assert(a + b.push(x) =~= (a + b).push(x));
    assert((a.push(x) + b).to_multiset() =~= (a + b).to_multiset().insert(x));
}

} // verus!
