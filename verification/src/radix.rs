//! Stable counting sort of index permutations by small integer keys, with the
//! counting lemmas its proof rests on.
use vstd::prelude::*;
use vstd::set_lib::*;

verus! {

/// The values of `sa` are exactly the indices `0..n`, each once.
pub open spec fn is_index_permutation(sa: Seq<usize>, n: nat) -> bool {
    &&& sa.len() == n
    &&& forall|i: int| 0 <= i < n ==> #[trigger] sa[i] < n
    &&& forall|i: int, j: int| 0 <= i < j < n ==> sa[i] != sa[j]
}

/// Number of entries of `ks` equal to `b`.
pub open spec fn count_eq(ks: Seq<usize>, b: int) -> nat
    decreases ks.len(),
{
    if ks.len() == 0 {
        0
    } else {
        count_eq(ks.drop_last(), b) + if ks.last() == b {
            1nat
        } else {
            0nat
        }
    }
}

/// Number of entries of `ks` below `b`.
pub open spec fn count_lt(ks: Seq<usize>, b: int) -> nat
    decreases ks.len(),
{
    if ks.len() == 0 {
        0
    } else {
        count_lt(ks.drop_last(), b) + if ks.last() < b {
            1nat
        } else {
            0nat
        }
    }
}

pub proof fn lemma_count_take_step(ks: Seq<usize>, t: int, b: int)
    requires
        0 <= t < ks.len(),
    ensures
        count_eq(ks.take(t + 1), b) == count_eq(ks.take(t), b) + if ks[t] == b {
            1nat
        } else {
            0nat
        },
        count_lt(ks.take(t + 1), b) == count_lt(ks.take(t), b) + if ks[t] < b {
            1nat
        } else {
            0nat
        },
{
    assert(ks.take(t + 1).drop_last() =~= ks.take(t));
}

pub proof fn lemma_count_bounds(ks: Seq<usize>, b: int)
    ensures
        count_lt(ks, b) + count_eq(ks, b) <= ks.len(),
        count_lt(ks, b + 1) == count_lt(ks, b) + count_eq(ks, b),
    decreases ks.len(),
{
    if ks.len() > 0 {
        lemma_count_bounds(ks.drop_last(), b);
    }
}

pub proof fn lemma_count_lt_monotone(ks: Seq<usize>, b1: int, b2: int)
    requires
        b1 < b2,
    ensures
        count_lt(ks, b1) + count_eq(ks, b1) <= count_lt(ks, b2),
    decreases ks.len(),
{
    if ks.len() > 0 {
        lemma_count_lt_monotone(ks.drop_last(), b1, b2);
    }
}

pub proof fn lemma_count_lt_extremes(ks: Seq<usize>, nb: int)
    requires
        forall|i: int| 0 <= i < ks.len() ==> ks[i] < nb,
    ensures
        count_lt(ks, 0) == 0,
        count_lt(ks, nb) == ks.len(),
    decreases ks.len(),
{
    if ks.len() > 0 {
        lemma_count_lt_extremes(ks.drop_last(), nb);
    }
}

/// Counting over a longer prefix counts at least as much, and strictly more
/// once an occurrence lies between the two prefix ends.
pub proof fn lemma_count_take_monotone(ks: Seq<usize>, t1: int, t2: int, b: int)
    requires
        0 <= t1 <= t2 <= ks.len(),
    ensures
        count_eq(ks.take(t1), b) <= count_eq(ks.take(t2), b),
        t1 < t2 && ks[t1] == b ==> count_eq(ks.take(t1), b) < count_eq(ks.take(t2), b),
    decreases t2 - t1,
{
    if t1 < t2 {
        lemma_count_take_step(ks, t2 - 1, b);
        lemma_count_take_monotone(ks, t1, t2 - 1, b);
    }
}

/// The slot a stable counting sort gives to input position `s`.
pub open spec fn slot(ks: Seq<usize>, s: int) -> int {
    (count_lt(ks, ks[s] as int) + count_eq(ks.take(s), ks[s] as int)) as int
}

pub proof fn lemma_slot_order(ks: Seq<usize>, s1: int, s2: int)
    requires
        0 <= s1 < ks.len(),
        0 <= s2 < ks.len(),
        ks[s1] < ks[s2] || (ks[s1] == ks[s2] && s1 < s2),
    ensures
        slot(ks, s1) < slot(ks, s2),
{
    let b1 = ks[s1] as int;
    let b2 = ks[s2] as int;
    assert(ks.take(ks.len() as int) =~= ks);
    lemma_count_take_monotone(ks, s1, ks.len() as int, b1);
    if b1 < b2 {
        lemma_count_lt_monotone(ks, b1, b2);
    } else {
        lemma_count_take_monotone(ks, s1, s2, b1);
    }
}

pub proof fn lemma_slot_range(ks: Seq<usize>, nb: int, s: int)
    requires
        0 <= s < ks.len(),
        forall|i: int| 0 <= i < ks.len() ==> ks[i] < nb,
    ensures
        0 <= slot(ks, s) < ks.len(),
{
    let b = ks[s] as int;
    assert(ks.take(ks.len() as int) =~= ks);
    lemma_count_take_monotone(ks, s, ks.len() as int, b);
    lemma_count_lt_extremes(ks, nb);
    if b + 1 < nb {
        lemma_count_lt_monotone(ks, b, nb);
    } else {
        lemma_count_bounds(ks, b);
    }
}

/// Some index in `0..n` is mapped to `p`.
pub open spec fn reached(f: spec_fn(int) -> int, n: int, p: int) -> bool {
    exists|s: int| 0 <= s < n && #[trigger] f(s) == p
}

/// `x` occurs in `sa`.
pub open spec fn occurs(sa: Seq<usize>, x: int) -> bool {
    exists|p: int| 0 <= p < sa.len() && #[trigger] sa[p] == x
}

/// An injective map of `0..n` into `0..n` reaches every index.
pub proof fn lemma_injective_onto(f: spec_fn(int) -> int, n: int)
    requires
        n >= 0,
        forall|s: int| 0 <= s < n ==> 0 <= #[trigger] f(s) < n,
        forall|s1: int, s2: int|
            0 <= s1 < n && 0 <= s2 < n && s1 != s2 ==> #[trigger] f(s1) != #[trigger] f(s2),
    ensures
        forall|p: int| 0 <= p < n ==> #[trigger] reached(f, n, p),
{
    let dom = set_int_range(0, n);
    lemma_int_range(0, n);
    let img = dom.map(f);
    assert(vstd::relations::injective_on(f, dom));
    lemma_map_size(dom, img, f);
    assert(img.subset_of(dom)) by {
        assert forall|p: int| img.contains(p) implies dom.contains(p) by {
            let s = choose|s: int| dom.contains(s) && f(s) == p;
        }
    }
    lemma_subset_equality(img, dom);
    assert forall|p: int| 0 <= p < n implies #[trigger] reached(f, n, p) by {
        assert(dom.contains(p));
        assert(img.contains(p));
    }
}

/// Every index occurs in a permutation of `0..n`.
pub proof fn lemma_permutation_onto(sa: Seq<usize>, n: nat)
    requires
        is_index_permutation(sa, n),
    ensures
        forall|x: int| 0 <= x < n ==> #[trigger] occurs(sa, x),
{
    let f = |p: int| sa[p] as int;
    lemma_injective_onto(f, n as int);
    assert forall|x: int| 0 <= x < n implies #[trigger] occurs(sa, x) by {
        assert(reached(f, n as int, x));
        let p = choose|p: int| 0 <= p < n && #[trigger] f(p) == x;
        assert(sa[p] == x);
    }
}

/// Stable counting sort of `input` by `key`.
///
/// Returns the sorted order together with, for each output position, the
/// input position it came from. Equal keys keep their input order.
pub fn counting_sort_by_key(input: &Vec<usize>, key: &Vec<usize>, nb: usize) -> (res: (
    Vec<usize>,
    Ghost<Seq<int>>,
))
    requires
        is_index_permutation(input@, key@.len()),
        forall|i: int| 0 <= i < key@.len() ==> #[trigger] key@[i] < nb,
    ensures
        is_index_permutation(res.0@, key@.len()),
        res.1@.len() == key@.len(),
        forall|p: int|
            0 <= p < key@.len() ==> 0 <= #[trigger] res.1@[p] < key@.len() && res.0@[p]
                == input@[res.1@[p]],
        forall|p: int, q: int|
            0 <= p < q < key@.len() ==> key@[res.0@[p] as int] <= key@[res.0@[q] as int],
        forall|p: int, q: int|
            0 <= p < q < key@.len() && key@[res.0@[p] as int] == key@[res.0@[q] as int]
                ==> res.1@[p] < res.1@[q],
{
    let n = input.len();
    let ghost ks = Seq::new(n as nat, |t: int| key@[input@[t] as int]);
    let mut counts: Vec<usize> = Vec::new();
    let mut b: usize = 0;
    while b < nb
        invariant
            b <= nb,
            counts@.len() == b,
            forall|c: int| 0 <= c < b ==> counts@[c] == 0,
        decreases nb - b,
    {
        counts.push(0);
        b = b + 1;
    }
    proof {
        assert(ks.take(0) =~= Seq::<usize>::empty());
    }
    let mut t: usize = 0;
    while t < n
        invariant
            n == input@.len(),
            n == key@.len(),
            is_index_permutation(input@, key@.len()),
            forall|i: int| 0 <= i < key@.len() ==> #[trigger] key@[i] < nb,
            ks == Seq::new(n as nat, |t: int| key@[input@[t] as int]),
            t <= n,
            counts@.len() == nb,
            forall|c: int| 0 <= c < nb ==> #[trigger] counts@[c] == count_eq(ks.take(t as int), c),
        decreases n - t,
    {
        let x = input[t];
        let kb = key[x];
        proof {
            lemma_count_take_step(ks, t as int, kb as int);
            lemma_count_bounds(ks.take(t as int), kb as int);
            assert forall|c: int| 0 <= c < nb && c != kb implies count_eq(ks.take(t + 1), c)
                == count_eq(ks.take(t as int), c) by {
                lemma_count_take_step(ks, t as int, c);
            }
        }
        counts.set(kb, counts[kb] + 1);
        t = t + 1;
    }
    proof {
        assert(ks.take(n as int) =~= ks);
    }
    proof {
        lemma_count_lt_extremes(ks, nb as int);
    }
    let mut sum: usize = 0;
    let mut b: usize = 0;
    while b < nb
        invariant
            n == key@.len(),
            ks.len() == n,
            forall|i: int| 0 <= i < ks.len() ==> ks[i] < nb,
            b <= nb,
            counts@.len() == nb,
            sum == count_lt(ks, b as int),
            forall|c: int| 0 <= c < b ==> #[trigger] counts@[c] == count_lt(ks, c),
            forall|c: int| b <= c < nb ==> #[trigger] counts@[c] == count_eq(ks, c),
        decreases nb - b,
    {
        let v = counts[b];
        proof {
            lemma_count_bounds(ks, b as int);
        }
        counts.set(b, sum);
        sum = sum + v;
        b = b + 1;
    }
    let mut out: Vec<usize> = Vec::new();
    let mut t: usize = 0;
    while t < n
        invariant
            t <= n,
            out@.len() == t,
        decreases n - t,
    {
        out.push(0);
        t = t + 1;
    }
    proof {
        assert(ks.take(0) =~= Seq::<usize>::empty());
    }
    let mut t: usize = 0;
    while t < n
        invariant
            n == input@.len(),
            n == key@.len(),
            is_index_permutation(input@, key@.len()),
            forall|i: int| 0 <= i < key@.len() ==> #[trigger] key@[i] < nb,
            ks == Seq::new(n as nat, |t: int| key@[input@[t] as int]),
            t <= n,
            counts@.len() == nb,
            out@.len() == n,
            forall|c: int|
                0 <= c < nb ==> #[trigger] counts@[c] == count_lt(ks, c) + count_eq(
                    ks.take(t as int),
                    c,
                ),
            forall|s: int| 0 <= s < t ==> #[trigger] out@[slot(ks, s)] == input@[s],
        decreases n - t,
    {
        let x = input[t];
        let kb = key[x];
        proof {
            lemma_slot_range(ks, nb as int, t as int);
            lemma_count_take_step(ks, t as int, kb as int);
            assert forall|c: int| 0 <= c < nb && c != kb implies count_eq(ks.take(t + 1), c)
                == count_eq(ks.take(t as int), c) by {
                lemma_count_take_step(ks, t as int, c);
            }
            assert forall|s: int| 0 <= s < t implies slot(ks, s) != slot(ks, t as int) by {
                if ks[s] > ks[t as int] {
                    lemma_slot_order(ks, t as int, s);
                } else {
                    lemma_slot_order(ks, s, t as int);
                }
            }
            assert(ks[t as int] == kb);
        }
        let pos = counts[kb];
        assert(pos == slot(ks, t as int));
        let ghost prev = out@;
        out.set(pos, x);
        proof {
            assert forall|s: int| 0 <= s < t + 1 implies #[trigger] out@[slot(ks, s)] == input@[s] by {
                if s < t {
                    lemma_slot_range(ks, nb as int, s);
                    assert(slot(ks, s) != slot(ks, t as int));
                    assert(out@[slot(ks, s)] == prev[slot(ks, s)]);
                }
            }
        }
        counts.set(kb, pos + 1);
        t = t + 1;
    }
    let ghost src = Seq::new(
        n as nat,
        |p: int| choose|s: int| 0 <= s < n && #[trigger] slot(ks, s) == p,
    );
    proof {
        let f = |s: int| slot(ks, s);
        assert forall|s: int| 0 <= s < n implies 0 <= #[trigger] f(s) < n by {
            lemma_slot_range(ks, nb as int, s);
        }
        assert forall|s1: int, s2: int|
            0 <= s1 < n && 0 <= s2 < n && s1 != s2 implies #[trigger] f(s1) != #[trigger] f(s2) by {
            if ks[s1] < ks[s2] || (ks[s1] == ks[s2] && s1 < s2) {
                lemma_slot_order(ks, s1, s2);
            } else {
                lemma_slot_order(ks, s2, s1);
            }
        }
        lemma_injective_onto(f, n as int);
        assert forall|p: int| 0 <= p < n implies 0 <= #[trigger] src[p] < n && slot(ks, src[p])
            == p && out@[p] == input@[src[p]] by {
            assert(reached(f, n as int, p));
        }
        assert forall|p: int, q: int|
            0 <= p < q < n implies key@[out@[p] as int] <= key@[out@[q] as int] && (key@[out@[
            p] as int] == key@[out@[q] as int] ==> src[p] < src[q]) by {
            let sp = src[p];
            let sq = src[q];
            assert(ks[sp] == key@[out@[p] as int]);
            assert(ks[sq] == key@[out@[q] as int]);
            if ks[sq] < ks[sp] || (ks[sq] == ks[sp] && sq < sp) {
                lemma_slot_order(ks, sq, sp);
            }
        }
        assert forall|i: int, j: int| 0 <= i < j < n implies out@[i] != out@[j] by {
            assert(src[i] != src[j]);
        }
        assert forall|i: int| 0 <= i < n implies #[trigger] out@[i] < n by {
            assert(out@[i] == input@[src[i]]);
        }
        assert forall|p: int, q: int|
            0 <= p < q < n implies #[trigger] key@[out@[p] as int] <= #[trigger] key@[out@[q] as int] by {
            let sp = src[p];
            let sq = src[q];
            if ks[sq] < ks[sp] || (ks[sq] == ks[sp] && sq < sp) {
                lemma_slot_order(ks, sq, sp);
            }
        }
    }
    (out, Ghost(src))
}

} // verus!
