//! What the closures handed to a sequence can compute.
//!
//! A closure is known to the verifier only through its contract: `f.requires(args)` says
//! that `f` may be called on `args`, and `f.ensures(args, r)` says that `r` is a value the
//! call can return. The relations below lift these two predicates from a single call to a
//! whole pass over a sequence. For a closure whose contract fixes its result, the lemmas at
//! the end turn each relation into an equation over `Seq::fold_left` and `Seq::filter`.

use vstd::prelude::*;

verus! {

/// `accs` is the list of accumulators of one left-to-right pass of `f` over `s`:
/// it starts with `base`, and each next entry is what `f` returned for the entry before it
/// and the element of `s` at that place. Its last entry is the result of the whole fold.
pub open spec fn running<T, F: Fn(T, T) -> T>(f: F, base: T, s: Seq<T>, accs: Seq<T>) -> bool {
    &&& accs.len() == s.len() + 1
    &&& accs[0] == base
    &&& forall|i: int, j: int|
        0 <= i < s.len() && j == i + 1 ==> f.ensures((#[trigger] accs[i], s[i]), #[trigger] accs[j])
}

/// Folding `f` over `s` from left to right, starting with `base`, can return `out`:
/// `out` is a possible value of `f(...f(f(base, s[0]), s[1])..., s[n - 1])`.
pub open spec fn accumulates<T, F: Fn(T, T) -> T>(f: F, base: T, s: Seq<T>, out: T) -> bool {
    exists|accs: Seq<T>| #[trigger] running(f, base, s, accs) && accs[s.len() as int] == out
}

/// `f` may be called at every step of a left-to-right fold over `s` that starts with `base`,
/// whatever the earlier calls returned.
pub open spec fn can_accumulate<T, F: Fn(T, T) -> T>(f: F, base: T, s: Seq<T>) -> bool {
    forall|i: int, accs: Seq<T>|
        0 <= i < s.len() && #[trigger] running(f, base, s.take(i), accs) ==> f.requires(
            (accs[i], s[i]),
        )
}

/// The same as [`running`], for a closure that takes the element by reference and may
/// accumulate into another type.
pub open spec fn running_by_ref<T, U, F: Fn(U, &T) -> U>(
    f: F,
    base: U,
    s: Seq<T>,
    accs: Seq<U>,
) -> bool {
    &&& accs.len() == s.len() + 1
    &&& accs[0] == base
    &&& forall|i: int, j: int|
        0 <= i < s.len() && j == i + 1 ==> f.ensures((#[trigger] accs[i], &s[i]), #[trigger] accs[j])
}

/// The same as [`accumulates`], for a closure that takes the element by reference.
pub open spec fn iterates<T, U, F: Fn(U, &T) -> U>(f: F, base: U, s: Seq<T>, out: U) -> bool {
    exists|accs: Seq<U>| #[trigger] running_by_ref(f, base, s, accs) && accs[s.len() as int] == out
}

/// The same as [`can_accumulate`], for a closure that takes the element by reference.
pub open spec fn can_iterate<T, U, F: Fn(U, &T) -> U>(f: F, base: U, s: Seq<T>) -> bool {
    forall|i: int, accs: Seq<U>|
        0 <= i < s.len() && #[trigger] running_by_ref(f, base, s.take(i), accs) ==> f.requires(
            (accs[i], &s[i]),
        )
}

/// `out` can be what is left of `s` when exactly the elements that `p` accepted are kept,
/// in their order.
pub open spec fn filters<T, P: Fn(&T) -> bool>(p: P, s: Seq<T>, out: Seq<T>) -> bool
    decreases s.len(),
{
    if s.len() == 0 {
        out.len() == 0
    } else {
        ||| {
            &&& p.ensures((&s.last(),), true)
            &&& out.len() > 0
            &&& out.last() == s.last()
            &&& filters(p, s.drop_last(), out.drop_last())
        }
        ||| {
            &&& p.ensures((&s.last(),), false)
            &&& filters(p, s.drop_last(), out)
        }
    }
}

/// The contract of `f` leaves one result for each pair of arguments: that of `g`.
pub open spec fn computes<T, F: Fn(T, T) -> T>(f: F, g: spec_fn(T, T) -> T) -> bool {
    forall|a: T, e: T, r: T| f.ensures((a, e), r) ==> r == g(a, e)
}

/// The same as [`computes`], for a closure that takes the element by reference.
pub open spec fn computes_by_ref<T, U, F: Fn(U, &T) -> U>(f: F, g: spec_fn(U, T) -> U) -> bool {
    forall|a: U, e: T, r: U| f.ensures((a, &e), r) ==> r == g(a, e)
}

/// The contract of `p` leaves one answer for each element: that of `g`.
pub open spec fn decides<T, P: Fn(&T) -> bool>(p: P, g: spec_fn(T) -> bool) -> bool {
    forall|e: T, r: bool| p.ensures((&e,), r) ==> r == g(e)
}

/// One more step of a pass: if `f` can return `out` for the last accumulator of a pass over
/// `s` and the element `e`, then `accs` followed by `out` is a pass over `s` followed by `e`.
pub proof fn lemma_running_push<T, F: Fn(T, T) -> T>(
    f: F,
    base: T,
    s: Seq<T>,
    accs: Seq<T>,
    e: T,
    out: T,
)
    requires
        running(f, base, s, accs),
        f.ensures((accs.last(), e), out),
    ensures
        running(f, base, s.push(e), accs.push(out)),
{
    let s2 = s.push(e);
    let accs2 = accs.push(out);
    assert forall|i: int, j: int| 0 <= i < s2.len() && j == i + 1 implies f.ensures(
        (#[trigger] accs2[i], s2[i]),
        #[trigger] accs2[j],
    ) by {
        if i < s.len() {
            assert(f.ensures((accs[i], s[i]), accs[j]));
        }
    }
}

/// One more step of a pass by reference.
pub proof fn lemma_running_by_ref_push<T, U, F: Fn(U, &T) -> U>(
    f: F,
    base: U,
    s: Seq<T>,
    accs: Seq<U>,
    e: T,
    out: U,
)
    requires
        running_by_ref(f, base, s, accs),
        f.ensures((accs.last(), &e), out),
    ensures
        running_by_ref(f, base, s.push(e), accs.push(out)),
{
    let s2 = s.push(e);
    let accs2 = accs.push(out);
    assert forall|i: int, j: int| 0 <= i < s2.len() && j == i + 1 implies f.ensures(
        (#[trigger] accs2[i], &s2[i]),
        #[trigger] accs2[j],
    ) by {
        if i < s.len() {
            assert(f.ensures((accs[i], &s[i]), accs[j]));
        }
    }
}

/// The start of a pass is a pass: the first `k + 1` accumulators of a pass over `s` are a
/// pass over the first `k` elements. So entry `k` is a fold of `f` over `base` and the
/// elements before place `k`.
pub proof fn lemma_running_prefix<T, F: Fn(T, T) -> T>(
    f: F,
    base: T,
    s: Seq<T>,
    accs: Seq<T>,
    k: int,
)
    requires
        running(f, base, s, accs),
        0 <= k <= s.len(),
    ensures
        running(f, base, s.take(k), accs.take(k + 1)),
        accumulates(f, base, s.take(k), accs[k]),
{
    let s2 = s.take(k);
    let accs2 = accs.take(k + 1);
    assert forall|i: int, j: int| 0 <= i < s2.len() && j == i + 1 implies f.ensures(
        (#[trigger] accs2[i], s2[i]),
        #[trigger] accs2[j],
    ) by {
        assert(f.ensures((accs[i], s[i]), accs[j]));
    }
    assert(accs2[s2.len() as int] == accs[k]);
}

/// For a closure that computes `g`, entry `k` of a pass is `g` folded over the first `k`
/// elements.
pub proof fn lemma_running_fold_left<T, F: Fn(T, T) -> T>(
    f: F,
    g: spec_fn(T, T) -> T,
    base: T,
    s: Seq<T>,
    accs: Seq<T>,
    k: int,
)
    requires
        computes(f, g),
        running(f, base, s, accs),
        0 <= k <= s.len(),
    ensures
        accs[k] == s.take(k).fold_left(base, g),
    decreases k,
{
    if k > 0 {
        lemma_running_fold_left(f, g, base, s, accs, k - 1);
        assert(f.ensures((accs[k - 1], s[k - 1]), accs[k]));
        assert(s.take(k).drop_last() =~= s.take(k - 1));
    }
}

/// For a closure that computes `g`, the only result of a fold is `s.fold_left(base, g)`.
pub proof fn lemma_accumulates_fold_left<T, F: Fn(T, T) -> T>(
    f: F,
    g: spec_fn(T, T) -> T,
    base: T,
    s: Seq<T>,
    out: T,
)
    requires
        computes(f, g),
        accumulates(f, base, s, out),
    ensures
        out == s.fold_left(base, g),
{
    let accs = choose|accs: Seq<T>| #[trigger]
        running(f, base, s, accs) && accs[s.len() as int] == out;
    lemma_running_fold_left(f, g, base, s, accs, s.len() as int);
    assert(s.take(s.len() as int) =~= s);
}

/// For a closure that computes `g`, entry `k` of a pass by reference is `g` folded over the
/// first `k` elements.
pub proof fn lemma_running_by_ref_fold_left<T, U, F: Fn(U, &T) -> U>(
    f: F,
    g: spec_fn(U, T) -> U,
    base: U,
    s: Seq<T>,
    accs: Seq<U>,
    k: int,
)
    requires
        computes_by_ref(f, g),
        running_by_ref(f, base, s, accs),
        0 <= k <= s.len(),
    ensures
        accs[k] == s.take(k).fold_left(base, g),
    decreases k,
{
    if k > 0 {
        lemma_running_by_ref_fold_left(f, g, base, s, accs, k - 1);
        assert(f.ensures((accs[k - 1], &s[k - 1]), accs[k]));
        assert(s.take(k).drop_last() =~= s.take(k - 1));
    }
}

/// For a closure that computes `g`, the only result of a fold by reference is
/// `s.fold_left(base, g)`.
pub proof fn lemma_iterates_fold_left<T, U, F: Fn(U, &T) -> U>(
    f: F,
    g: spec_fn(U, T) -> U,
    base: U,
    s: Seq<T>,
    out: U,
)
    requires
        computes_by_ref(f, g),
        iterates(f, base, s, out),
    ensures
        out == s.fold_left(base, g),
{
    let accs = choose|accs: Seq<U>| #[trigger]
        running_by_ref(f, base, s, accs) && accs[s.len() as int] == out;
    lemma_running_by_ref_fold_left(f, g, base, s, accs, s.len() as int);
    assert(s.take(s.len() as int) =~= s);
}

/// What a filter keeps was accepted: `p` can return `true` for every element of `out`.
/// Nothing is added: `out` is no longer than `s`.
pub proof fn lemma_filters_accepted<T, P: Fn(&T) -> bool>(p: P, s: Seq<T>, out: Seq<T>)
    requires
        filters(p, s, out),
    ensures
        out.len() <= s.len(),
        forall|j: int| 0 <= j < out.len() ==> p.ensures((&#[trigger] out[j],), true),
    decreases s.len(),
{
    if s.len() > 0 {
        if p.ensures((&s.last(),), true) && out.len() > 0 && out.last() == s.last() && filters(
            p,
            s.drop_last(),
            out.drop_last(),
        ) {
            lemma_filters_accepted(p, s.drop_last(), out.drop_last());
            assert forall|j: int| 0 <= j < out.len() implies p.ensures((&#[trigger] out[j],), true) by {
                if j < out.len() - 1 {
                    assert(out[j] == out.drop_last()[j]);
                }
            }
        } else {
            lemma_filters_accepted(p, s.drop_last(), out);
        }
    }
}

/// For a predicate that decides `g`, the only result of a filter is `s.filter(g)`.
pub proof fn lemma_filters_filter<T, P: Fn(&T) -> bool>(
    p: P,
    g: spec_fn(T) -> bool,
    s: Seq<T>,
    out: Seq<T>,
)
    requires
        decides(p, g),
        filters(p, s, out),
    ensures
        out == s.filter(g),
    decreases s.len(),
{
    reveal(Seq::filter);
    if s.len() > 0 {
        if p.ensures((&s.last(),), true) && out.len() > 0 && out.last() == s.last() && filters(
            p,
            s.drop_last(),
            out.drop_last(),
        ) {
            lemma_filters_filter(p, g, s.drop_last(), out.drop_last());
            assert(out =~= out.drop_last().push(out.last()));
        } else {
            lemma_filters_filter(p, g, s.drop_last(), out);
        }
    } else {
        assert(out =~= s);
    }
}

} // verus!
