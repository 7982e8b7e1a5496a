//! The order of the elements, and what sorting and merging mean under it.
//!
//! A sequence compares its elements with the `Ord` of their type. What `Ord::cmp` returns
//! is, to the verifier, the spec function `cmp_spec`; [`total_order`] says that this
//! function is what the run-time comparison computes and that it obeys the laws of a total
//! order. Everything a sequence promises about order is stated over [`lt`] and [`le`], and
//! holds for the types for which [`total_order`] holds (among them the integers, and the
//! tuples, references and options built from them).

use std::cmp::Ordering;
use vstd::laws_cmp::obeys_cmp;
use vstd::prelude::*;
use vstd::std_specs::cmp::OrdSpec;

verus! {

/// The comparisons of `T` agree with their specification and form a total order.
pub open spec fn total_order<T: Ord>() -> bool {
    obeys_cmp::<T>()
}

/// `a` is strictly before `b`.
pub open spec fn lt<T: Ord>(a: T, b: T) -> bool {
    a.cmp_spec(&b) == Ordering::Less
}

/// `a` is before `b` or equal to it in the order.
pub open spec fn le<T: Ord>(a: T, b: T) -> bool {
    a.cmp_spec(&b) != Ordering::Greater
}

/// Every element is at most the one after it. A sequence of fewer than two elements has no
/// two neighbours and is sorted.
pub open spec fn sorted<T: Ord>(s: Seq<T>) -> bool {
    forall|i: int, j: int| 0 <= i && j == i + 1 && j < s.len() ==> le(#[trigger] s[i], #[trigger] s[j])
}

/// The merge of `a` and `b`: the smaller of the two first elements comes first, and where
/// the first of `a` is not strictly before the first of `b`, that of `b` is taken. So of
/// two elements that compare equal, the one from `b` stands before the one from `a`.
pub open spec fn merged<T: Ord>(a: Seq<T>, b: Seq<T>) -> Seq<T>
    decreases a.len() + b.len(),
{
    if a.len() == 0 {
        b
    } else if b.len() == 0 {
        a
    } else if lt(a[0], b[0]) {
        seq![a[0]] + merged(a.drop_first(), b)
    } else {
        seq![b[0]] + merged(a, b.drop_first())
    }
}

/// Whether `a` is at most `b`.
pub(crate) fn at_most<T: Ord>(a: &T, b: &T) -> (r: bool)
    ensures
        total_order::<T>() ==> r == le(*a, *b),
{
    proof {
        reveal(vstd::laws_cmp::obeys_cmp_ord);
        reveal(vstd::laws_cmp::obeys_cmp_partial_ord);
    }
    *a <= *b
}

/// Whether `a` is strictly before `b`.
pub(crate) fn before<T: Ord>(a: &T, b: &T) -> (r: bool)
    ensures
        total_order::<T>() ==> r == lt(*a, *b),
{
    proof {
        reveal(vstd::laws_cmp::obeys_cmp_ord);
    }
    match a.cmp(b) {
        Ordering::Less => true,
        _ => false,
    }
}

/// Every element is at most itself.
pub proof fn lemma_le_reflexive<T: Ord>(a: T)
    requires
        total_order::<T>(),
    ensures
        le(a, a),
{
    reveal(vstd::laws_cmp::obeys_cmp_ord);
    reveal(vstd::laws_cmp::obeys_partial_cmp_spec_properties);
}

/// Of any two elements one is strictly before the other, or the other is at most the one.
pub proof fn lemma_le_connex<T: Ord>(a: T, b: T)
    requires
        total_order::<T>(),
    ensures
        lt(a, b) ==> le(a, b),
        !lt(a, b) ==> le(b, a),
{
    reveal(vstd::laws_cmp::obeys_cmp_ord);
    reveal(vstd::laws_cmp::obeys_cmp_partial_ord);
    reveal(vstd::laws_cmp::obeys_partial_cmp_spec_properties);
    reveal(vstd::laws_eq::obeys_eq_spec_properties);
}

/// `le` is transitive.
pub proof fn lemma_le_transitive<T: Ord>(a: T, b: T, c: T)
    requires
        total_order::<T>(),
        le(a, b),
        le(b, c),
    ensures
        le(a, c),
{
    reveal(vstd::laws_cmp::obeys_cmp_ord);
    reveal(vstd::laws_cmp::obeys_cmp_partial_ord);
    reveal(vstd::laws_cmp::obeys_partial_cmp_spec_properties);
    reveal(vstd::laws_eq::obeys_eq_spec_properties);
}

/// A sequence of no element or of one is sorted.
pub proof fn lemma_short_is_sorted<T: Ord>(s: Seq<T>)
    requires
        s.len() <= 1,
    ensures
        sorted(s),
{
}

/// In a sorted sequence every element is at most every later one.
pub proof fn lemma_sorted_any_two<T: Ord>(s: Seq<T>, i: int, j: int)
    requires
        total_order::<T>(),
        sorted(s),
        0 <= i <= j < s.len(),
    ensures
        le(s[i], s[j]),
    decreases j - i,
{
    if i == j {
        lemma_le_reflexive(s[i]);
    } else {
        lemma_sorted_any_two(s, i, j - 1);
        assert(le(s[j - 1], s[j]));
        lemma_le_transitive(s[i], s[j - 1], s[j]);
    }
}

/// What stands first in a merge, and what follows it. The first element of `a` is taken
/// where `b` is empty or that element is strictly before the first of `b`; in every other
/// case, a tie among them, the first element of `b` is taken.
pub proof fn lemma_merged_head<T: Ord>(a: Seq<T>, b: Seq<T>)
    ensures
        a.len() > 0 && (b.len() == 0 || lt(a[0], b[0])) ==> merged(a, b) == seq![a[0]] + merged(
            a.drop_first(),
            b,
        ),
        b.len() > 0 && (a.len() == 0 || !lt(a[0], b[0])) ==> merged(a, b) == seq![b[0]] + merged(
            a,
            b.drop_first(),
        ),
{
    if a.len() > 0 && b.len() == 0 {
        assert(merged(a.drop_first(), b) == a.drop_first());
        assert(a =~= seq![a[0]] + a.drop_first());
    }
    if b.len() > 0 && a.len() == 0 {
        assert(merged(a, b.drop_first()) == b.drop_first());
        assert(b =~= seq![b[0]] + b.drop_first());
    }
}

/// A merge holds as many elements as its two operands together.
pub proof fn lemma_merged_len<T: Ord>(a: Seq<T>, b: Seq<T>)
    ensures
        merged(a, b).len() == a.len() + b.len(),
    decreases a.len() + b.len(),
{
    if a.len() > 0 && b.len() > 0 {
        if lt(a[0], b[0]) {
            lemma_merged_len(a.drop_first(), b);
        } else {
            lemma_merged_len(a, b.drop_first());
        }
    }
}

/// A merge holds the elements of its two operands, each as often as they hold it.
pub proof fn lemma_merged_multiset<T: Ord>(a: Seq<T>, b: Seq<T>)
    ensures
        merged(a, b).to_multiset() == a.to_multiset().add(b.to_multiset()),
    decreases a.len() + b.len(),
{
    broadcast use vstd::seq_lib::lemma_multiset_commutative;

    if a.len() == 0 {
        assert(a + b =~= b);
    } else if b.len() == 0 {
        assert(a + b =~= a);
    } else if lt(a[0], b[0]) {
        lemma_merged_multiset(a.drop_first(), b);
        assert(a =~= seq![a[0]] + a.drop_first());
        assert(merged(a, b).to_multiset() =~= a.to_multiset().add(b.to_multiset()));
    } else {
        lemma_merged_multiset(a, b.drop_first());
        assert(b =~= seq![b[0]] + b.drop_first());
        assert(merged(a, b).to_multiset() =~= a.to_multiset().add(b.to_multiset()));
    }
}

/// The merge of two sorted sequences is sorted.
pub proof fn lemma_merged_sorted<T: Ord>(a: Seq<T>, b: Seq<T>)
    requires
        total_order::<T>(),
        sorted(a),
        sorted(b),
    ensures
        sorted(merged(a, b)),
    decreases a.len() + b.len(),
{
    if a.len() > 0 && b.len() > 0 {
        lemma_le_connex(a[0], b[0]);
        if lt(a[0], b[0]) {
            let rest = merged(a.drop_first(), b);
            lemma_drop_first_sorted(a);
            lemma_merged_sorted(a.drop_first(), b);
            lemma_merged_head(a.drop_first(), b);
            if a.len() > 1 {
                assert(le(a[0], a[1]));
                assert(a.drop_first()[0] == a[1]);
            }
            lemma_cons_sorted(a[0], rest);
        } else {
            let rest = merged(a, b.drop_first());
            lemma_drop_first_sorted(b);
            lemma_merged_sorted(a, b.drop_first());
            lemma_merged_head(a, b.drop_first());
            if b.len() > 1 {
                assert(le(b[0], b[1]));
                assert(b.drop_first()[0] == b[1]);
            }
            lemma_cons_sorted(b[0], rest);
        }
    }
}

/// Where no element of `a` is strictly before an element of `b`, the merge is `b` followed
/// by `a`: on ties the elements of the second operand come first.
pub proof fn lemma_merged_ties<T: Ord>(a: Seq<T>, b: Seq<T>)
    requires
        forall|i: int, j: int| 0 <= i < a.len() && 0 <= j < b.len() ==> !lt(a[i], b[j]),
    ensures
        merged(a, b) == b + a,
    decreases b.len(),
{
    if a.len() == 0 {
        assert(b + a =~= b);
    } else if b.len() == 0 {
        assert(b + a =~= a);
    } else {
        assert(!lt(a[0], b[0]));
        assert forall|i: int, j: int| 0 <= i < a.len() && 0 <= j < b.drop_first().len() implies !lt(
            a[i],
            b.drop_first()[j],
        ) by {
            assert(b.drop_first()[j] == b[j + 1]);
        }
        lemma_merged_ties(a, b.drop_first());
        assert(seq![b[0]] + (b.drop_first() + a) =~= b + a);
    }
}

/// What is left of a sorted sequence without its first element is sorted.
proof fn lemma_drop_first_sorted<T: Ord>(s: Seq<T>)
    requires
        sorted(s),
        s.len() > 0,
    ensures
        sorted(s.drop_first()),
{
    let t = s.drop_first();
    assert forall|i: int, j: int| 0 <= i && j == i + 1 && j < t.len() implies le(
        #[trigger] t[i],
        #[trigger] t[j],
    ) by {
        assert(le(s[i + 1], s[j + 1]));
    }
}

/// A sorted sequence stays sorted with an element in front that is at most its first.
proof fn lemma_cons_sorted<T: Ord>(x: T, s: Seq<T>)
    requires
        sorted(s),
        s.len() > 0 ==> le(x, s[0]),
    ensures
        sorted(seq![x] + s),
{
    let t = seq![x] + s;
    assert forall|i: int, j: int| 0 <= i && j == i + 1 && j < t.len() implies le(
        #[trigger] t[i],
        #[trigger] t[j],
    ) by {
        if i > 0 {
            assert(le(s[i - 1], s[j - 1]));
        }
    }
}

} // verus!
