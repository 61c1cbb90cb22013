//! Stable sorting by an order given as a predicate, and what it gives.
use vstd::prelude::*;

verus! {

/// Where `x` goes in `r`: before the first element it must precede.
pub open spec fn first_before<T>(r: Seq<T>, x: T, before: spec_fn(T, T) -> bool) -> int
    decreases r.len(),
{
    if r.len() == 0 {
        0
    } else if before(x, r[0]) {
        0
    } else {
        1 + first_before(r.drop_first(), x, before)
    }
}

/// A stable sort: the elements taken in order, each inserted before the
/// first it must precede, so that elements that tie keep their order.
pub open spec fn stable_sorted<T>(s: Seq<T>, before: spec_fn(T, T) -> bool) -> Seq<T>
    decreases s.len(),
{
    if s.len() == 0 {
        s
    } else {
        let r = stable_sorted(s.drop_last(), before);
        r.insert(first_before(r, s.last(), before), s.last())
    }
}

pub proof fn lemma_first_before<T>(r: Seq<T>, x: T, before: spec_fn(T, T) -> bool, p: int)
    requires
        0 <= p <= r.len(),
        forall|k: int| 0 <= k < p ==> !before(x, #[trigger] r[k]),
        p == r.len() || before(x, r[p]),
    ensures
        first_before(r, x, before) == p,
    decreases r.len(),
{
    if r.len() > 0 && p > 0 {
        assert forall|k: int| 0 <= k < p - 1 implies !before(x, #[trigger] r.drop_first()[k]) by {
            assert(r.drop_first()[k] == r[k + 1]);
        }
        lemma_first_before(r.drop_first(), x, before, p - 1);
    }
}

pub proof fn lemma_stable_sorted_len<T>(s: Seq<T>, before: spec_fn(T, T) -> bool)
    ensures
        stable_sorted(s, before).len() == s.len(),
    decreases s.len(),
{
    if s.len() > 0 {
        lemma_stable_sorted_len(s.drop_last(), before);
        lemma_first_before_bound(stable_sorted(s.drop_last(), before), s.last(), before);
    }
}

pub proof fn lemma_first_before_bound<T>(r: Seq<T>, x: T, before: spec_fn(T, T) -> bool)
    ensures
        0 <= first_before(r, x, before) <= r.len(),
    decreases r.len(),
{
    if r.len() > 0 {
        lemma_first_before_bound(r.drop_first(), x, before);
    }
}

/// `before` is a strict order: asymmetric and transitive.
pub open spec fn strict_order<T>(before: spec_fn(T, T) -> bool) -> bool {
    &&& forall|a: T, b: T| #[trigger] before(a, b) ==> !before(b, a)
    &&& forall|a: T, b: T, c: T| #[trigger] before(a, b) && #[trigger] before(b, c) ==> before(a, c)
}

/// No element must precede one that stands before it.
pub open spec fn sorted_by<T>(s: Seq<T>, before: spec_fn(T, T) -> bool) -> bool {
    forall|i: int, j: int| 0 <= i < j < s.len() ==> !before(#[trigger] s[j], #[trigger] s[i])
}

/// A stable sort by a strict order gives the same elements, sorted.
pub proof fn lemma_stable_sorted<T>(s: Seq<T>, before: spec_fn(T, T) -> bool)
    requires
        strict_order(before),
    ensures
        sorted_by(stable_sorted(s, before), before),
        stable_sorted(s, before).to_multiset() == s.to_multiset(),
    decreases s.len(),
{
    broadcast use vstd::seq_lib::group_to_multiset_ensures;

    if s.len() > 0 {
        let r = stable_sorted(s.drop_last(), before);
        let x = s.last();
        lemma_stable_sorted(s.drop_last(), before);
        lemma_first_before_bound(r, x, before);
        let p = first_before(r, x, before);
        lemma_first_before_props(r, x, before);
        let t = r.insert(p, x);
        assert forall|i: int, j: int| 0 <= i < j < t.len() implies !before(#[trigger] t[j], #[trigger] t[i]) by {
            if j < p {
                assert(t[i] == r[i] && t[j] == r[j]);
            } else if j == p {
                assert(t[i] == r[i]);
            } else if i == p {
                assert(t[j] == r[j - 1]);
                if before(r[j - 1], x) {
                    if j - 1 == p {
                    } else {
                        assert(!before(r[j - 1], r[p]));
                    }
                }
            } else if i < p {
                assert(t[i] == r[i] && t[j] == r[j - 1]);
            } else {
                assert(t[i] == r[i - 1] && t[j] == r[j - 1]);
            }
        }
        vstd::seq_lib::to_multiset_insert(r, p, x);
        assert(s =~= s.drop_last().push(x));
    }
}

/// The position of an insertion: after every element that `x` need not
/// precede, before one it must precede.
pub proof fn lemma_first_before_props<T>(r: Seq<T>, x: T, before: spec_fn(T, T) -> bool)
    ensures
        forall|k: int| 0 <= k < first_before(r, x, before) ==> !before(x, #[trigger] r[k]),
        first_before(r, x, before) < r.len() ==> before(x, r[first_before(r, x, before)]),
    decreases r.len(),
{
    lemma_first_before_bound(r, x, before);
    if r.len() > 0 {
        lemma_first_before_props(r.drop_first(), x, before);
        lemma_first_before_bound(r.drop_first(), x, before);
        assert forall|k: int| 0 <= k < first_before(r, x, before) implies !before(x, #[trigger] r[k]) by {
            if k > 0 {
                assert(r[k] == r.drop_first()[k - 1]);
            }
        }
        if !before(x, r[0]) && first_before(r, x, before) < r.len() {
            assert(r[first_before(r, x, before)] == r.drop_first()[first_before(r.drop_first(), x, before)]);
        }
    }
}

} // verus!
