//! Stable insertion order: what `sort_by` yields for a comparison that says
//! when one element goes strictly before another, ties keeping their order.
use vstd::prelude::*;

verus! {

/// `x` placed into `t` after every element it does not go before.
pub open spec fn insert_by<T>(t: Seq<T>, x: T, before: spec_fn(T, T) -> bool) -> Seq<T>
    decreases t.len(),
{
    if t.len() == 0 {
        seq![x]
    } else if before(x, t.last()) {
        insert_by(t.drop_last(), x, before).push(t.last())
    } else {
        t.push(x)
    }
}

/// `s` sorted by `before`, elements that tie keeping their order.
pub open spec fn sorted_by<T>(s: Seq<T>, before: spec_fn(T, T) -> bool) -> Seq<T>
    decreases s.len(),
{
    if s.len() == 0 {
        s
    } else {
        insert_by(sorted_by(s.drop_last(), before), s.last(), before)
    }
}

/// `before` is a strict weak order: asymmetric, and when `a` goes before
/// `c`, any `b` goes after `a` or before `c`.
pub open spec fn strict_order<T>(before: spec_fn(T, T) -> bool) -> bool {
    &&& forall|a: T, b: T| #[trigger] before(a, b) ==> !before(b, a)
    &&& forall|a: T, b: T, c: T|
        #![trigger before(a, c), before(b, c)]
        #![trigger before(a, c), before(a, b)]
        before(a, c) ==> before(a, b) || before(b, c)
}

/// No element goes before an earlier one.
pub open spec fn in_order<T>(s: Seq<T>, before: spec_fn(T, T) -> bool) -> bool {
    forall|i: int, j: int| 0 <= i < j < s.len() ==> !before(#[trigger] s[j], #[trigger] s[i])
}

/// Where the insertion lands: after the last element that `x` does not go
/// before, when `x` goes before every element from `p` on.
pub proof fn lemma_insert_at<T>(t: Seq<T>, x: T, p: int, before: spec_fn(T, T) -> bool)
    requires
        0 <= p <= t.len(),
        forall|q: int| p <= q < t.len() ==> before(x, #[trigger] t[q]),
        p > 0 ==> !before(x, t[p - 1]),
    ensures
        insert_by(t, x, before) == t.take(p).push(x) + t.skip(p),
    decreases t.len(),
{
    if t.len() == 0 {
        assert(t.take(p).push(x) + t.skip(p) =~= seq![x]);
    } else if p == t.len() {
        assert(t.take(p).push(x) + t.skip(p) =~= t.push(x));
    } else {
        let t0 = t.drop_last();
        assert(before(x, t[t.len() - 1]));
        assert forall|q: int| p <= q < t0.len() implies before(x, #[trigger] t0[q]) by {
            assert(t0[q] == t[q]);
        }
        if p > 0 {
            assert(t0[p - 1] == t[p - 1]);
        }
        lemma_insert_at(t0, x, p, before);
        assert(t.take(p).push(x) + t.skip(p) =~= (t0.take(p).push(x) + t0.skip(p)).push(t.last()));
    }
}

proof fn lemma_insert_sorted<T>(t: Seq<T>, x: T, before: spec_fn(T, T) -> bool)
    requires
        strict_order(before),
        in_order(t, before),
    ensures
        in_order(insert_by(t, x, before), before),
        insert_by(t, x, before).to_multiset() == t.to_multiset().insert(x),
    decreases t.len(),
{
    broadcast use vstd::seq_lib::group_to_multiset_ensures;
    broadcast use vstd::multiset::group_multiset_axioms;

    if t.len() == 0 {
        assert(insert_by(t, x, before) =~= Seq::<T>::empty().push(x));
        vstd::seq_lib::to_multiset_build(Seq::<T>::empty(), x);
    } else if before(x, t.last()) {
        let t0 = t.drop_last();
        assert(in_order(t0, before)) by {
            assert forall|i: int, j: int| 0 <= i < j < t0.len() implies !before(
                #[trigger] t0[j],
                #[trigger] t0[i],
            ) by {
                assert(t0[i] == t[i] && t0[j] == t[j]);
            }
        }
        lemma_insert_sorted(t0, x, before);
        let r0 = insert_by(t0, x, before);
        let r = r0.push(t.last());
        vstd::seq_lib::to_multiset_build(r0, t.last());
        vstd::seq_lib::to_multiset_build(t0, t.last());
        assert(t0.push(t.last()) =~= t);
        assert(r.to_multiset() =~= t.to_multiset().insert(x));
        assert forall|i: int, j: int| 0 <= i < j < r.len() implies !before(
            #[trigger] r[j],
            #[trigger] r[i],
        ) by {
            if j == r.len() - 1 {
                assert(r0.to_multiset().count(r[i]) > 0) by {
                    vstd::seq_lib::to_multiset_contains(r0, r[i]);
                    assert(r0[i] == r[i]);
                }
                assert(t0.to_multiset().insert(x).count(r[i]) > 0);
                if r[i] == x {
                    assert(!before(t.last(), x));
                } else {
                    assert(t0.to_multiset().count(r[i]) > 0);
                    vstd::seq_lib::to_multiset_contains(t0, r[i]);
                    let k = choose|k: int| 0 <= k < t0.len() && t0[k] == r[i];
                    assert(t[k] == r[i]);
                    assert(!before(t[t.len() - 1], t[k]));
                }
            } else {
                assert(r[i] == r0[i] && r[j] == r0[j]);
            }
        }
    } else {
        let r = t.push(x);
        vstd::seq_lib::to_multiset_build(t, x);
        assert forall|i: int, j: int| 0 <= i < j < r.len() implies !before(
            #[trigger] r[j],
            #[trigger] r[i],
        ) by {
            if j == r.len() - 1 {
                if i < t.len() - 1 {
                    assert(!before(t[t.len() - 1], t[i]));
                    if before(x, t[i]) {
                        assert(before(x, t[t.len() - 1]) || before(t[t.len() - 1], t[i]));
                    }
                }
            } else {
                assert(r[i] == t[i] && r[j] == t[j]);
            }
        }
    }
}

/// Sorting by a strict order puts the elements in order and keeps exactly
/// the elements it was given.
pub proof fn lemma_sorted_by_is_ordered_permutation<T>(s: Seq<T>, before: spec_fn(T, T) -> bool)
    requires
        strict_order(before),
    ensures
        in_order(sorted_by(s, before), before),
        sorted_by(s, before).to_multiset() == s.to_multiset(),
    decreases s.len(),
{
    broadcast use vstd::seq_lib::group_to_multiset_ensures;

    if s.len() > 0 {
        lemma_sorted_by_is_ordered_permutation(s.drop_last(), before);
        lemma_insert_sorted(sorted_by(s.drop_last(), before), s.last(), before);
        vstd::seq_lib::to_multiset_build(s.drop_last(), s.last());
        assert(s.drop_last().push(s.last()) =~= s);
    } else {
        assert(sorted_by(s, before).to_multiset() =~= s.to_multiset());
    }
}

} // verus!
