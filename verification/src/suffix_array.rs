//! Suffix array construction by prefix doubling with a two-pass radix sort.
use vstd::prelude::*;

use crate::lexorder::{
    lemma_lex_compare_basic, lemma_lex_compare_common_prefix, lemma_lex_compare_decided_prefix,
    lex_compare, lex_lt, three_way,
};
use crate::radix::{counting_sort_by_key, is_index_permutation, lemma_permutation_onto, occurs};

verus! {

/// The suffix of `text` that starts at `i`.
pub open spec fn suffix(text: Seq<i64>, i: int) -> Seq<i64> {
    text.subrange(i, text.len() as int)
}

/// The first `m` values of the suffix at `i` (all of it when it is shorter).
pub open spec fn key_at(text: Seq<i64>, i: int, m: int) -> Seq<i64> {
    text.subrange(
        i,
        if i + m < text.len() {
            i + m
        } else {
            text.len() as int
        },
    )
}

/// Three-way comparison of the length-`m` prefixes of the suffixes at `i` and `j`.
pub open spec fn prefix_compare(text: Seq<i64>, i: int, j: int, m: int) -> int {
    lex_compare(key_at(text, i, m), key_at(text, j, m))
}

/// `rank` orders positions exactly as their length-`m` prefixes are ordered.
pub open spec fn ranks_match(text: Seq<i64>, rank: Seq<usize>, m: int) -> bool {
    forall|i: int, j: int|
        0 <= i < text.len() && 0 <= j < text.len() ==> #[trigger] three_way(
            rank[i] as int,
            rank[j] as int,
        ) == prefix_compare(text, i, j, m)
}

/// Three-way comparison of the pairs `(rank, key2)` of two positions.
pub open spec fn pair_compare(rank: Seq<usize>, key2: Seq<usize>, i: int, j: int) -> int {
    if rank[i] != rank[j] {
        three_way(rank[i] as int, rank[j] as int)
    } else {
        three_way(key2[i] as int, key2[j] as int)
    }
}

/// The suffixes named by `sa` appear in strictly increasing order.
pub open spec fn suffixes_sorted(text: Seq<i64>, sa: Seq<usize>) -> bool {
    forall|p: int, q: int|
        0 <= p < q < sa.len() ==> lex_lt(
            #[trigger] suffix(text, sa[p] as int),
            #[trigger] suffix(text, sa[q] as int),
        )
}

/// The key of the second half of a doubled prefix: `0` when it is empty,
/// else one more than the rank of the suffix it starts.
pub open spec fn second_key(rank: Seq<usize>, k: int, i: int) -> int {
    if i + k < rank.len() {
        rank[i + k] + 1
    } else {
        0
    }
}

proof fn lemma_split_key(text: Seq<i64>, i: int, k: int)
    requires
        0 <= i < text.len(),
        k >= 1,
    ensures
        key_at(text, i, 2 * k) =~= key_at(text, i, k) + if i + k < text.len() {
            key_at(text, i + k, k)
        } else {
            Seq::<i64>::empty()
        },
{
}

/// Doubling the prefix length: the longer prefixes compare as the pairs of
/// the rank of the first half and the key of the second half.
proof fn lemma_doubling(text: Seq<i64>, rank: Seq<usize>, key2: Seq<usize>, k: int, i: int, j: int)
    requires
        rank.len() == text.len(),
        key2.len() == text.len(),
        0 <= i < text.len(),
        0 <= j < text.len(),
        k >= 1,
        ranks_match(text, rank, k),
        forall|x: int| 0 <= x < text.len() ==> #[trigger] key2[x] == second_key(rank, k, x),
    ensures
        prefix_compare(text, i, j, 2 * k) == pair_compare(rank, key2, i, j),
{
    let n = text.len() as int;
    let a = key_at(text, i, k);
    let b = key_at(text, j, k);
    let c = if i + k < n {
        key_at(text, i + k, k)
    } else {
        Seq::<i64>::empty()
    };
    let d = if j + k < n {
        key_at(text, j + k, k)
    } else {
        Seq::<i64>::empty()
    };
    lemma_split_key(text, i, k);
    lemma_split_key(text, j, k);
    lemma_lex_compare_basic(a, b);
    assert(three_way(rank[i] as int, rank[j] as int) == prefix_compare(text, i, j, k));
    if rank[i] != rank[j] {
        lemma_lex_compare_decided_prefix(a, c, b, d);
    } else {
        assert(a =~= b);
        lemma_lex_compare_common_prefix(a, c, d);
        assert(key2[i] == second_key(rank, k, i));
        assert(key2[j] == second_key(rank, k, j));
        if i + k < n && j + k < n {
            assert(three_way(rank[i + k] as int, rank[j + k] as int) == prefix_compare(
                text,
                i + k,
                j + k,
                k,
            ));
        } else if i + k < n {
            assert(c.len() > 0);
        } else if j + k < n {
            assert(d.len() > 0);
        }
    }
}

/// A strictly smaller prefix means a strictly smaller suffix.
proof fn lemma_prefix_orders_suffix(text: Seq<i64>, i: int, j: int, m: int)
    requires
        0 <= i < text.len(),
        0 <= j < text.len(),
        m >= 1,
        prefix_compare(text, i, j, m) < 0,
    ensures
        lex_lt(suffix(text, i), suffix(text, j)),
{
    let n = text.len() as int;
    let a = key_at(text, i, m);
    let b = key_at(text, j, m);
    let ei = if i + m < n {
        i + m
    } else {
        n
    };
    let ej = if j + m < n {
        j + m
    } else {
        n
    };
    let c = text.subrange(ei, n);
    let d = text.subrange(ej, n);
    assert(suffix(text, i) =~= a + c);
    assert(suffix(text, j) =~= b + d);
    lemma_lex_compare_basic(a, b);
    lemma_lex_compare_decided_prefix(a, c, b, d);
}

/// Suffixes at distinct positions differ.
proof fn lemma_distinct_suffixes(text: Seq<i64>, i: int, j: int)
    requires
        0 <= i < text.len(),
        0 <= j < text.len(),
        i != j,
    ensures
        lex_compare(suffix(text, i), suffix(text, j)) != 0,
{
    lemma_lex_compare_basic(suffix(text, i), suffix(text, j));
    assert(suffix(text, i).len() != suffix(text, j).len());
}

proof fn lemma_singleton_compare(text: Seq<i64>, i: int, j: int)
    requires
        0 <= i < text.len(),
        0 <= j < text.len(),
    ensures
        prefix_compare(text, i, j, 1) == three_way(text[i] as int, text[j] as int),
{
    let a = key_at(text, i, 1);
    let b = key_at(text, j, 1);
    assert(a =~= seq![text[i]]);
    assert(b =~= seq![text[j]]);
    if text[i] == text[j] {
        assert(a.drop_first() =~= Seq::<i64>::empty());
        assert(b.drop_first() =~= Seq::<i64>::empty());
        assert(lex_compare(a.drop_first(), b.drop_first()) == 0);
    }
}

/// New dense ranks for positions listed by `sa`, sorted by their pairs.
fn rerank(sa: &Vec<usize>, rank: &Vec<usize>, key2: &Vec<usize>) -> (tmp: Vec<usize>)
    requires
        sa@.len() >= 1,
        is_index_permutation(sa@, sa@.len()),
        rank@.len() == sa@.len(),
        key2@.len() == sa@.len(),
        forall|p: int, q: int|
            0 <= p < q < sa@.len() ==> pair_compare(
                rank@,
                key2@,
                #[trigger] sa@[p] as int,
                #[trigger] sa@[q] as int,
            ) <= 0,
    ensures
        tmp@.len() == sa@.len(),
        forall|a: int, b: int|
            0 <= a < sa@.len() && 0 <= b < sa@.len() ==> #[trigger] three_way(
                tmp@[a] as int,
                tmp@[b] as int,
            ) == pair_compare(rank@, key2@, a, b),
        forall|a: int| 0 <= a < sa@.len() ==> #[trigger] tmp@[a] <= tmp@[sa@[sa@.len() - 1] as int],
        tmp@[sa@[sa@.len() - 1] as int] < sa@.len(),
        tmp@[sa@[sa@.len() - 1] as int] == sa@.len() - 1 ==> forall|p: int, q: int|
            0 <= p < q < sa@.len() ==> #[trigger] tmp@[sa@[p] as int] < #[trigger] tmp@[sa@[q] as int],
{
    let n = sa.len();
    let mut tmp: Vec<usize> = Vec::new();
    let mut t: usize = 0;
    while t < n
        invariant
            t <= n,
            tmp@.len() == t,
            forall|x: int| 0 <= x < t ==> tmp@[x] == 0,
        decreases n - t,
    {
        tmp.push(0);
        t = t + 1;
    }
    let mut i: usize = 1;
    while i < n
        invariant
            n == sa@.len(),
            n >= 1,
            is_index_permutation(sa@, n as nat),
            rank@.len() == n,
            key2@.len() == n,
            forall|p: int, q: int|
                0 <= p < q < n ==> pair_compare(
                    rank@,
                    key2@,
                    #[trigger] sa@[p] as int,
                    #[trigger] sa@[q] as int,
                ) <= 0,
            1 <= i <= n,
            tmp@.len() == n,
            forall|p: int| 0 <= p < i ==> #[trigger] tmp@[sa@[p] as int] <= p,
            forall|p: int, q: int|
                0 <= p < q < i ==> {
                    &&& #[trigger] tmp@[sa@[p] as int] <= #[trigger] tmp@[sa@[q] as int]
                    &&& (tmp@[sa@[p] as int] == tmp@[sa@[q] as int] <==> (rank@[sa@[p] as int]
                        == rank@[sa@[q] as int] && key2@[sa@[p] as int] == key2@[sa@[q] as int]))
                    &&& tmp@[sa@[q] as int] - tmp@[sa@[p] as int] <= q - p
                },
        decreases n - i,
    {
        let prev = sa[i - 1];
        let curr = sa[i];
        let same = rank[prev] == rank[curr] && key2[prev] == key2[curr];
        let value = if same {
            tmp[prev]
        } else {
            tmp[prev] + 1
        };
        let ghost old_tmp = tmp@;
        tmp.set(curr, value);
        proof {
            assert forall|p: int| 0 <= p < i implies tmp@[sa@[p] as int] == old_tmp[sa@[p] as int] by {
                assert(sa@[p] != sa@[i as int]);
            }
            assert forall|p: int| 0 <= p < i + 1 implies #[trigger] tmp@[sa@[p] as int] <= p by {
                if p < i {
                    assert(tmp@[sa@[p] as int] == old_tmp[sa@[p] as int]);
                }
            }
            assert forall|p: int, q: int|
                0 <= p < q < i + 1 implies {
                    &&& #[trigger] tmp@[sa@[p] as int] <= #[trigger] tmp@[sa@[q] as int]
                    &&& (tmp@[sa@[p] as int] == tmp@[sa@[q] as int] <==> (rank@[sa@[p] as int]
                        == rank@[sa@[q] as int] && key2@[sa@[p] as int] == key2@[sa@[q] as int]))
                    &&& tmp@[sa@[q] as int] - tmp@[sa@[p] as int] <= q - p
                } by {
                assert(tmp@[sa@[p] as int] == old_tmp[sa@[p] as int]);
                if q < i {
                    assert(tmp@[sa@[q] as int] == old_tmp[sa@[q] as int]);
                } else if p < i - 1 {
                    assert(old_tmp[sa@[p] as int] <= old_tmp[sa@[i - 1] as int]);
                    assert(pair_compare(rank@, key2@, sa@[p] as int, sa@[i - 1] as int) <= 0);
                    assert(pair_compare(rank@, key2@, sa@[i - 1] as int, sa@[i as int] as int)
                        <= 0);
                } else {
                    assert(pair_compare(rank@, key2@, sa@[i - 1] as int, sa@[i as int] as int)
                        <= 0);
                }
            }
        }
        i = i + 1;
    }
    proof {
        lemma_permutation_onto(sa@, n as nat);
        assert forall|a: int, b: int| 0 <= a < n && 0 <= b < n implies #[trigger] three_way(
            tmp@[a] as int,
            tmp@[b] as int,
        ) == pair_compare(rank@, key2@, a, b) by {
            assert(occurs(sa@, a));
            assert(occurs(sa@, b));
            let p = choose|p: int| 0 <= p < sa@.len() && #[trigger] sa@[p] == a;
            let q = choose|q: int| 0 <= q < sa@.len() && #[trigger] sa@[q] == b;
            if p < q {
                assert(pair_compare(rank@, key2@, sa@[p] as int, sa@[q] as int) <= 0);
            } else if q < p {
                assert(pair_compare(rank@, key2@, sa@[q] as int, sa@[p] as int) <= 0);
            }
        }
        let last = n - 1;
        assert forall|a: int| 0 <= a < n implies #[trigger] tmp@[a] <= tmp@[sa@[last] as int] by {
            assert(occurs(sa@, a));
            let p = choose|p: int| 0 <= p < sa@.len() && #[trigger] sa@[p] == a;
            if p < last {
                assert(tmp@[sa@[p] as int] <= tmp@[sa@[last] as int]);
            }
        }
        assert(tmp@[sa@[last] as int] <= last);
        if tmp@[sa@[last] as int] == last {
            assert forall|p: int, q: int|
                0 <= p < q < n implies #[trigger] tmp@[sa@[p] as int] < #[trigger] tmp@[sa@[q] as int] by {
                if q < last {
                    assert(tmp@[sa@[last] as int] - tmp@[sa@[q] as int] <= last - q);
                } else {
                    assert(tmp@[sa@[last] as int] - tmp@[sa@[p] as int] <= last - p);
                }
                assert(tmp@[sa@[q] as int] <= q);
                assert(tmp@[sa@[p] as int] <= p);
                if p < last {
                    assert(tmp@[sa@[last] as int] - tmp@[sa@[p] as int] <= last - p);
                }
            }
        }
    }
    tmp
}

/// Builds the suffix array of `text`: `sa[i]` is the start of the i-th
/// smallest suffix in lexicographic order.
///
/// The `requires` exclude inputs on which the rank arithmetic overflows.
pub fn build_suffix_array(text: &[i64]) -> (sa: Vec<usize>)
    requires
        text@.len() <= usize::MAX / 2,
        forall|i: int, j: int|
            0 <= i < text@.len() && 0 <= j < text@.len() ==> #[trigger] text@[i] - #[trigger] text@[j]
                <= i64::MAX && text@[i] - text@[j] + 3 <= usize::MAX,
    ensures
        is_index_permutation(sa@, text@.len()),
        suffixes_sorted(text@, sa@),
{
    let n = text.len();
    if n == 0 {
        return Vec::new();
    }
    let mut min_val = text[0];
    let mut max_val = text[0];
    let ghost mut imin: int = 0;
    let ghost mut imax: int = 0;
    let mut t: usize = 1;
    while t < n
        invariant
            n == text@.len(),
            1 <= t <= n,
            0 <= imin < n,
            0 <= imax < n,
            text@[imin] == min_val,
            text@[imax] == max_val,
            forall|x: int| 0 <= x < t ==> min_val <= #[trigger] text@[x] <= max_val,
        decreases n - t,
    {
        let v = text[t];
        if v < min_val {
            min_val = v;
            proof {
                imin = t as int;
            }
        }
        if v > max_val {
            max_val = v;
            proof {
                imax = t as int;
            }
        }
        t = t + 1;
    }
    proof {
        assert(text@[imax] - text@[imin] <= i64::MAX);
    }
    let mut rank: Vec<usize> = Vec::new();
    let mut t: usize = 0;
    while t < n
        invariant
            n == text@.len(),
            t <= n,
            text@[imin] == min_val,
            text@[imax] == max_val,
            0 <= imin < n,
            0 <= imax < n,
            forall|x: int| 0 <= x < n ==> min_val <= #[trigger] text@[x] <= max_val,
            forall|i: int, j: int|
                0 <= i < text@.len() && 0 <= j < text@.len() ==> #[trigger] text@[i]
                    - #[trigger] text@[j] <= i64::MAX && text@[i] - text@[j] + 3 <= usize::MAX,
            rank@.len() == t,
            forall|x: int| 0 <= x < t ==> #[trigger] rank@[x] == text@[x] - min_val,
        decreases n - t,
    {
        let v = text[t];
        proof {
            assert(text@[t as int] - text@[imin] <= i64::MAX);
            assert(text@[t as int] - text@[imin] + 3 <= usize::MAX);
        }
        let r = (v - min_val) as usize;
        rank.push(r);
        t = t + 1;
    }
    proof {
        assert(text@[imax] - text@[imin] + 3 <= usize::MAX);
    }
    let mut max_rank: usize = (max_val - min_val) as usize;
    let mut sa: Vec<usize> = Vec::new();
    let mut t: usize = 0;
    while t < n
        invariant
            t <= n,
            sa@.len() == t,
            forall|x: int| 0 <= x < t ==> #[trigger] sa@[x] == x,
        decreases n - t,
    {
        sa.push(t);
        t = t + 1;
    }
    proof {
        assert forall|i: int, j: int| 0 <= i < n && 0 <= j < n implies #[trigger] three_way(
            rank@[i] as int,
            rank@[j] as int,
        ) == prefix_compare(text@, i, j, 1) by {
            lemma_singleton_compare(text@, i, j);
        }
    }
    let mut k: usize = 1;
    loop
        invariant_except_break
            n == text@.len(),
            n >= 1,
            n <= usize::MAX / 2,
            1 <= k,
            k < 2 * n,
            rank@.len() == n,
            is_index_permutation(sa@, n as nat),
            max_rank + 3 <= usize::MAX,
            forall|x: int| 0 <= x < n ==> #[trigger] rank@[x] <= max_rank,
            ranks_match(text@, rank@, k as int),
            k == 1 || forall|p: int, q: int|
                0 <= p < q < n ==> #[trigger] rank@[sa@[p] as int] <= #[trigger] rank@[sa@[q] as int],
        ensures
            is_index_permutation(sa@, text@.len()),
            suffixes_sorted(text@, sa@),
        decreases 2 * n - k,
    {
        if k >= n {
            proof {
                if k > 1 {
                    assert forall|p: int, q: int| 0 <= p < q < n implies lex_lt(
                        #[trigger] suffix(text@, sa@[p] as int),
                        #[trigger] suffix(text@, sa@[q] as int),
                    ) by {
                        let a = sa@[p] as int;
                        let b = sa@[q] as int;
                        assert(key_at(text@, a, k as int) =~= suffix(text@, a));
                        assert(key_at(text@, b, k as int) =~= suffix(text@, b));
                        lemma_distinct_suffixes(text@, a, b);
                        assert(rank@[a] <= rank@[b]);
                        assert(three_way(rank@[a] as int, rank@[b] as int) == prefix_compare(
                            text@,
                            a,
                            b,
                            k as int,
                        ));
                    }
                }
            }
            break ;
        }
        let bucket_count = max_rank + 2;
        let mut key2: Vec<usize> = Vec::new();
        let mut t: usize = 0;
        while t < n
            invariant
                n == rank@.len(),
                t <= n,
                k < n,
                n <= usize::MAX / 2,
                forall|x: int| 0 <= x < n ==> #[trigger] rank@[x] <= max_rank,
                max_rank + 3 <= usize::MAX,
                bucket_count == max_rank + 2,
                key2@.len() == t,
                forall|x: int| 0 <= x < t ==> #[trigger] key2@[x] == second_key(rank@, k as int, x),
                forall|x: int| 0 <= x < t ==> #[trigger] key2@[x] < bucket_count + 1,
            decreases n - t,
        {
            if t + k < n {
                key2.push(rank[t + k] + 1);
            } else {
                key2.push(0);
            }
            t = t + 1;
        }
        let (sa_tmp, Ghost(src1)) = counting_sort_by_key(&sa, &key2, bucket_count + 1);
        let (sa_new, Ghost(src2)) = counting_sort_by_key(&sa_tmp, &rank, bucket_count + 1);
        proof {
            assert forall|p: int, q: int| 0 <= p < q < n implies pair_compare(
                rank@,
                key2@,
                #[trigger] sa_new@[p] as int,
                #[trigger] sa_new@[q] as int,
            ) <= 0 by {
                assert(rank@[sa_new@[p] as int] <= rank@[sa_new@[q] as int]);
                if rank@[sa_new@[p] as int] == rank@[sa_new@[q] as int] {
                    assert(src2[p] < src2[q]);
                    assert(sa_new@[p] == sa_tmp@[src2[p]]);
                    assert(sa_new@[q] == sa_tmp@[src2[q]]);
                    assert(key2@[sa_tmp@[src2[p]] as int] <= key2@[sa_tmp@[src2[q]] as int]);
                }
            }
        }
        let tmp = rerank(&sa_new, &rank, &key2);
        let new_max_rank = tmp[sa_new[n - 1]];
        proof {
            assert forall|i: int, j: int| 0 <= i < n && 0 <= j < n implies #[trigger] three_way(
                tmp@[i] as int,
                tmp@[j] as int,
            ) == prefix_compare(text@, i, j, 2 * k) by {
                lemma_doubling(text@, rank@, key2@, k as int, i, j);
            }
            assert forall|p: int, q: int|
                0 <= p < q < n implies #[trigger] tmp@[sa_new@[p] as int] <= #[trigger] tmp@[sa_new@[q] as int] by {
                assert(pair_compare(rank@, key2@, sa_new@[p] as int, sa_new@[q] as int) <= 0);
                assert(three_way(tmp@[sa_new@[p] as int] as int, tmp@[sa_new@[q] as int] as int)
                    == pair_compare(rank@, key2@, sa_new@[p] as int, sa_new@[q] as int));
            }
        }
        sa = sa_new;
        rank = tmp;
        if new_max_rank == n - 1 {
            proof {
                assert forall|p: int, q: int| 0 <= p < q < n implies lex_lt(
                    #[trigger] suffix(text@, sa@[p] as int),
                    #[trigger] suffix(text@, sa@[q] as int),
                ) by {
                    assert(rank@[sa@[p] as int] < rank@[sa@[q] as int]);
                    assert(three_way(rank@[sa@[p] as int] as int, rank@[sa@[q] as int] as int)
                        == prefix_compare(text@, sa@[p] as int, sa@[q] as int, 2 * k));
                    lemma_prefix_orders_suffix(text@, sa@[p] as int, sa@[q] as int, 2 * k);
                }
            }
            break ;
        }
        max_rank = new_max_rank;
        k = k * 2;
    }
    sa
}


/// Two texts whose values compare alike, position by position.
pub open spec fn same_order(t1: Seq<i64>, t2: Seq<i64>) -> bool {
    &&& t1.len() == t2.len()
    &&& forall|i: int, j: int|
        0 <= i < t1.len() && 0 <= j < t1.len() ==> (#[trigger] t1[i] < #[trigger] t1[j]) == (t2[i]
            < t2[j])
}

proof fn lemma_suffix_compare_alike(t1: Seq<i64>, t2: Seq<i64>, i: int, j: int)
    requires
        same_order(t1, t2),
        0 <= i <= t1.len(),
        0 <= j <= t1.len(),
    ensures
        lex_compare(suffix(t1, i), suffix(t1, j)) == lex_compare(suffix(t2, i), suffix(t2, j)),
    decreases t1.len() - i,
{
    let a1 = suffix(t1, i);
    let b1 = suffix(t1, j);
    let a2 = suffix(t2, i);
    let b2 = suffix(t2, j);
    if i < t1.len() && j < t1.len() {
        assert(a1[0] == t1[i] && b1[0] == t1[j] && a2[0] == t2[i] && b2[0] == t2[j]);
        assert((t1[i] < t1[j]) == (t2[i] < t2[j]));
        assert((t1[j] < t1[i]) == (t2[j] < t2[i]));
        if t1[i] == t1[j] {
            assert(a1.drop_first() =~= suffix(t1, i + 1));
            assert(b1.drop_first() =~= suffix(t1, j + 1));
            assert(a2.drop_first() =~= suffix(t2, i + 1));
            assert(b2.drop_first() =~= suffix(t2, j + 1));
            lemma_suffix_compare_alike(t1, t2, i + 1, j + 1);
        }
    }
}

proof fn lemma_sorted_prefix_agrees(
    t1: Seq<i64>,
    t2: Seq<i64>,
    sa1: Seq<usize>,
    sa2: Seq<usize>,
    k: int,
)
    requires
        same_order(t1, t2),
        is_index_permutation(sa1, t1.len()),
        suffixes_sorted(t1, sa1),
        is_index_permutation(sa2, t2.len()),
        suffixes_sorted(t2, sa2),
        0 <= k <= t1.len(),
    ensures
        forall|m: int| 0 <= m < k ==> sa1[m] == sa2[m],
    decreases k,
{
    if k > 0 {
        lemma_sorted_prefix_agrees(t1, t2, sa1, sa2, k - 1);
        let c = k - 1;
        if sa1[c] != sa2[c] {
            let x = sa1[c] as int;
            let y = sa2[c] as int;
            lemma_permutation_onto(sa1, t1.len());
            lemma_permutation_onto(sa2, t2.len());
            assert(occurs(sa2, x));
            let p = choose|p: int| 0 <= p < sa2.len() && #[trigger] sa2[p] == x;
            assert(occurs(sa1, y));
            let q = choose|q: int| 0 <= q < sa1.len() && #[trigger] sa1[q] == y;
            if p < c {
                assert(sa1[p] == sa2[p]);
                assert(sa1[p] != sa1[c]);
            }
            if q < c {
                assert(sa1[q] == sa2[q]);
                assert(sa2[q] != sa2[c]);
            }
            assert(p > c && q > c);
            assert(lex_lt(suffix(t1, sa1[c] as int), suffix(t1, sa1[q] as int)));
            assert(lex_lt(suffix(t2, sa2[c] as int), suffix(t2, sa2[p] as int)));
            lemma_suffix_compare_alike(t1, t2, y, x);
            lemma_lex_compare_basic(suffix(t1, x), suffix(t1, y));
            assert(false);
        }
    }
}

/// The suffix array of a text depends only on the relative order of its
/// values, not on their magnitude or sign: for texts whose values compare
/// alike position by position, the permutations that sort their suffixes
/// strictly are one and the same.
pub proof fn lemma_suffix_array_depends_only_on_order(
    t1: Seq<i64>,
    t2: Seq<i64>,
    sa1: Seq<usize>,
    sa2: Seq<usize>,
)
    requires
        same_order(t1, t2),
        is_index_permutation(sa1, t1.len()),
        suffixes_sorted(t1, sa1),
        is_index_permutation(sa2, t2.len()),
        suffixes_sorted(t2, sa2),
    ensures
        sa1 == sa2,
{
    lemma_sorted_prefix_agrees(t1, t2, sa1, sa2, t1.len() as int);
    assert(sa1 =~= sa2);
}

} // verus!
