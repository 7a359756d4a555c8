//! Per-group health for `--group-by`: the candidate files bucketed by the
//! owner key they resolve to, and what of a project's findings falls in each
//! bucket.
use vstd::prelude::*;

use crate::path_order::{path_eq, same_path};
use crate::stable_sort::{in_order, lemma_insert_at, sorted_by, strict_order};
use crate::text::{chars_before, chars_lt, chars_of, str_eq, string_of, string_views};

verus! {

/// The key of the files that no ownership rule matches.
pub open spec fn unowned_label() -> Seq<char> {
    "(unowned)"@
}

/// A candidate file with the key and the section owners that the ownership
/// resolver gives its project-relative path.
#[derive(Clone, Debug)]
pub struct ResolvedPath {
    pub path: String,
    pub key: String,
    pub owners: Option<Vec<String>>,
}

/// The files that share a key.
#[derive(Clone, Debug)]
pub struct GroupBucket {
    pub key: String,
    pub owners: Option<Vec<String>>,
    pub paths: Vec<String>,
}

pub type ResolvedView = (Seq<char>, Seq<char>, Option<Seq<Seq<char>>>);

pub type BucketView = (Seq<char>, Option<Seq<Seq<char>>>, Seq<Seq<char>>);

pub open spec fn owners_view(o: Option<Vec<String>>) -> Option<Seq<Seq<char>>> {
    match o {
        Some(v) => Some(string_views(v@)),
        None => None,
    }
}

pub open spec fn resolved_view(r: ResolvedPath) -> ResolvedView {
    (r.path@, r.key@, owners_view(r.owners))
}

pub open spec fn bucket_view(b: GroupBucket) -> BucketView {
    (b.key@, owners_view(b.owners), string_views(b.paths@))
}

/// Some path of `ps` has the components of `p`.
pub open spec fn has_same_path(ps: Seq<Seq<char>>, p: Seq<char>) -> bool {
    exists|i: int| 0 <= i < ps.len() && same_path(#[trigger] ps[i], p)
}

/// The last bucket of `bs` with key `key`.
pub open spec fn find_key(bs: Seq<BucketView>, key: Seq<char>) -> Option<int>
    decreases bs.len(),
{
    if bs.len() == 0 {
        None
    } else if bs.last().0 == key {
        Some(bs.len() - 1)
    } else {
        find_key(bs.drop_last(), key)
    }
}

/// `r` added to the buckets: to the bucket of its key, unless that bucket
/// already holds its path, or as a new bucket with its owners.
pub open spec fn add_resolved(bs: Seq<BucketView>, r: ResolvedView) -> Seq<BucketView> {
    match find_key(bs, r.1) {
        Some(k) => {
            let b = bs[k];
            if has_same_path(b.2, r.0) {
                bs
            } else {
                bs.update(k, (b.0, b.1, b.2.push(r.0)))
            }
        },
        None => bs.push((r.1, r.2, seq![r.0])),
    }
}

/// The resolved files bucketed by key, buckets in order of first appearance.
pub open spec fn grouped(rs: Seq<ResolvedView>) -> Seq<BucketView>
    decreases rs.len(),
{
    if rs.len() == 0 {
        Seq::empty()
    } else {
        add_resolved(grouped(rs.drop_last()), rs.last())
    }
}

/// Buckets go: owned before unowned, then more files first, then by key.
pub open spec fn bucket_order() -> spec_fn(BucketView, BucketView) -> bool {
    |a: BucketView, b: BucketView|
        {
            let ua = a.0 == unowned_label();
            let ub = b.0 == unowned_label();
            (!ua && ub) || (ua == ub && (a.2.len() > b.2.len() || (a.2.len() == b.2.len()
                && chars_before(a.0, b.0))))
        }
}

fn copy_string(s: &String) -> (r: String)
    ensures
        r@ == s@,
{
    string_of(s.as_str())
}

fn copy_strings(v: &Vec<String>) -> (r: Vec<String>)
    ensures
        string_views(r@) == string_views(v@),
{
    let mut r: Vec<String> = Vec::new();
    let mut i: usize = 0;
    while i < v.len()
        invariant
            i <= v@.len(),
            string_views(r@) == string_views(v@).take(i as int),
        decreases v@.len() - i,
    {
        let ghost before = string_views(r@);
        r.push(copy_string(&v[i]));
        assert(string_views(r@) =~= before.push(v@[i as int]@));
        assert(string_views(v@).take(i + 1) =~= string_views(v@).take(i as int).push(v@[i as int]@));
        i = i + 1;
    }
    assert(string_views(v@).take(i as int) =~= string_views(v@));
    r
}

fn copy_owners(o: &Option<Vec<String>>) -> (r: Option<Vec<String>>)
    ensures
        owners_view(r) == owners_view(*o),
{
    match o {
        Some(v) => Some(copy_strings(v)),
        None => None,
    }
}

/// Whether some path of `ps` has the components of `p`.
pub fn contains_path(ps: &Vec<String>, p: &str) -> (b: bool)
    ensures
        b == has_same_path(string_views(ps@), p@),
{
    let mut i: usize = 0;
    while i < ps.len()
        invariant
            i <= ps@.len(),
            forall|q: int| 0 <= q < i ==> !same_path(#[trigger] string_views(ps@)[q], p@),
        decreases ps@.len() - i,
    {
        if path_eq(ps[i].as_str(), p) {
            assert(same_path(string_views(ps@)[i as int], p@));
            return true;
        }
        i = i + 1;
    }
    false
}

fn find_bucket(bs: &Vec<GroupBucket>, key: &str) -> (r: Option<usize>)
    ensures
        match r {
            Some(k) => k < bs@.len() && find_key(bs@.map_values(|b: GroupBucket| bucket_view(b)), key@) == Some(
                k as int,
            ),
            None => find_key(bs@.map_values(|b: GroupBucket| bucket_view(b)), key@) is None,
        },
{
    let ghost views = bs@.map_values(|b: GroupBucket| bucket_view(b));
    let mut j: usize = bs.len();
    assert(views.take(j as int) =~= views);
    while j > 0
        invariant
            j <= bs@.len(),
            views == bs@.map_values(|b: GroupBucket| bucket_view(b)),
            find_key(views.take(j as int), key@) == find_key(views, key@),
        decreases j,
    {
        assert(views.take(j as int).last() == bucket_view(bs@[j - 1]));
        assert(views.take(j as int).drop_last() =~= views.take(j - 1));
        if str_eq(bs[j - 1].key.as_str(), key) {
            return Some(j - 1);
        }
        j = j - 1;
    }
    None
}

/// Whether a bucket key is the label of files without an owner.
fn is_unowned_label(key: &str) -> (b: bool)
    ensures
        b == (key@ == unowned_label()),
{
    proof {
        reveal_strlit("(unowned)");
    }
    str_eq(key, "(unowned)")
}

fn bucket_lt(a: &GroupBucket, b: &GroupBucket) -> (r: bool)
    ensures
        r == (bucket_order())(bucket_view(*a), bucket_view(*b)),
{
    let ua = is_unowned_label(a.key.as_str());
    let ub = is_unowned_label(b.key.as_str());
    if ua != ub {
        return !ua;
    }
    if a.paths.len() != b.paths.len() {
        return a.paths.len() > b.paths.len();
    }
    let ka = chars_of(a.key.as_str());
    let kb = chars_of(b.key.as_str());
    chars_lt(&ka, &kb)
}

fn sort_buckets(items: Vec<GroupBucket>) -> (out: Vec<GroupBucket>)
    ensures
        out@.map_values(|x: GroupBucket| bucket_view(x)) == sorted_by(
            items@.map_values(|x: GroupBucket| bucket_view(x)),
            bucket_order(),
        ),
{
    let ghost input = items@.map_values(|x: GroupBucket| bucket_view(x));
    let mut out: Vec<GroupBucket> = Vec::new();
    let mut i: usize = 0;
    assert(input.take(0) =~= Seq::<BucketView>::empty());
    while i < items.len()
        invariant
            i <= items@.len(),
            input == items@.map_values(|x: GroupBucket| bucket_view(x)),
            out@.map_values(|x: GroupBucket| bucket_view(x)) == sorted_by(
                input.take(i as int),
                bucket_order(),
            ),
        decreases items@.len() - i,
    {
        let x = GroupBucket {
            key: copy_string(&items[i].key),
            owners: copy_owners(&items[i].owners),
            paths: copy_strings(&items[i].paths),
        };
        let ghost before_out = out@.map_values(|y: GroupBucket| bucket_view(y));
        assert(input.take(i + 1).drop_last() =~= input.take(i as int));
        assert(input.take(i + 1).last() == bucket_view(x));
        let mut p = out.len();
        while p > 0 && bucket_lt(&x, &out[p - 1])
            invariant
                p <= out@.len(),
                before_out == out@.map_values(|y: GroupBucket| bucket_view(y)),
                forall|q: int|
                    p <= q < before_out.len() ==> (bucket_order())(
                        bucket_view(x),
                        #[trigger] before_out[q],
                    ),
            decreases p,
        {
            p = p - 1;
        }
        proof {
            if p > 0 {
                assert(before_out[p - 1] == bucket_view(out@[p - 1]));
            }
            lemma_insert_at(before_out, bucket_view(x), p as int, bucket_order());
        }
        let ghost xv = bucket_view(x);
        out.insert(p, x);
        assert(out@.map_values(|y: GroupBucket| bucket_view(y)) =~= before_out.take(p as int).push(
            xv,
        ) + before_out.skip(p as int));
        i = i + 1;
    }
    assert(input.take(i as int) =~= input);
    out
}

/// Buckets the candidate files by their resolved key. Each bucket holds the
/// paths of its key once each, and the owners resolved for the first of
/// them; buckets come owned first, then by descending file count, then by
/// key, the unowned bucket last.
pub fn bucket_paths(resolved: &Vec<ResolvedPath>) -> (r: Vec<GroupBucket>)
    ensures
        r@.map_values(|b: GroupBucket| bucket_view(b)) == sorted_by(
            grouped(resolved@.map_values(|x: ResolvedPath| resolved_view(x))),
            bucket_order(),
        ),
{
    let ghost input = resolved@.map_values(|x: ResolvedPath| resolved_view(x));
    let mut buckets: Vec<GroupBucket> = Vec::new();
    let mut i: usize = 0;
    assert(input.take(0) =~= Seq::<ResolvedView>::empty());
    while i < resolved.len()
        invariant
            i <= resolved@.len(),
            input == resolved@.map_values(|x: ResolvedPath| resolved_view(x)),
            buckets@.map_values(|b: GroupBucket| bucket_view(b)) == grouped(input.take(i as int)),
        decreases resolved@.len() - i,
    {
        let r = &resolved[i];
        let ghost bs = buckets@.map_values(|b: GroupBucket| bucket_view(b));
        assert(input.take(i + 1).drop_last() =~= input.take(i as int));
        assert(input.take(i + 1).last() == resolved_view(*r));
        match find_bucket(&buckets, r.key.as_str()) {
            Some(k) => {
                if !contains_path(&buckets[k].paths, r.path.as_str()) {
                    let ghost before = buckets@;
                    let mut b = buckets.remove(k);
                    assert(b == before[k as int]);
                    let ghost old_paths = string_views(b.paths@);
                    b.paths.push(copy_string(&r.path));
                    assert(string_views(b.paths@) =~= old_paths.push(r.path@));
                    assert(bucket_view(b) == (bs[k as int].0, bs[k as int].1, bs[k as int].2.push(r.path@)));
                    buckets.insert(k, b);
                    assert(buckets@ =~= before.update(k as int, b));
                    assert(buckets@.map_values(|b: GroupBucket| bucket_view(b)) =~= bs.update(
                        k as int,
                        (bs[k as int].0, bs[k as int].1, bs[k as int].2.push(r.path@)),
                    ));
                }
            },
            None => {
                let mut paths: Vec<String> = Vec::new();
                paths.push(copy_string(&r.path));
                let b = GroupBucket {
                    key: copy_string(&r.key),
                    owners: copy_owners(&r.owners),
                    paths,
                };
                assert(string_views(b.paths@) =~= seq![r.path@]);
                buckets.push(b);
                assert(buckets@.map_values(|b: GroupBucket| bucket_view(b)) =~= bs.push(
                    (r.key@, owners_view(r.owners), seq![r.path@]),
                ));
            },
        }
        i = i + 1;
    }
    assert(input.take(i as int) =~= input);
    sort_buckets(buckets)
}

proof fn lemma_find_key(bs: Seq<BucketView>, key: Seq<char>)
    ensures
        find_key(bs, key) matches Some(k) ==> 0 <= k < bs.len() && bs[k].0 == key,
        find_key(bs, key) is None ==> forall|i: int| 0 <= i < bs.len() ==> #[trigger] bs[i].0 != key,
    decreases bs.len(),
{
    if bs.len() > 0 {
        lemma_find_key(bs.drop_last(), key);
        if bs.last().0 != key {
            assert forall|i: int| 0 <= i < bs.len() - 1 implies #[trigger] bs[i].0 == bs.drop_last()[i].0 by {}
        }
    }
}

/// Some resolved file of `rs` has key `key` and the components of `p`.
pub open spec fn resolved_to(rs: Seq<ResolvedView>, key: Seq<char>, p: Seq<char>) -> bool {
    exists|k: int| 0 <= k < rs.len() && (#[trigger] rs[k]).1 == key && same_path(rs[k].0, p)
}

/// Bucketing puts each key in one bucket, and each bucket holds exactly the
/// paths resolved to its key, once each.
pub proof fn lemma_grouped_partitions(rs: Seq<ResolvedView>)
    ensures
        forall|i: int, j: int|
            0 <= i < j < grouped(rs).len() ==> (#[trigger] grouped(rs)[i]).0 != (
            #[trigger] grouped(rs)[j]).0,
        forall|i: int, p: Seq<char>|
            0 <= i < grouped(rs).len() ==> (#[trigger] has_same_path(grouped(rs)[i].2, p)
                <==> resolved_to(rs, grouped(rs)[i].0, p)),
        forall|i: int, a: int, b: int|
            0 <= i < grouped(rs).len() && 0 <= a < b < grouped(rs)[i].2.len() ==> !same_path(
                #[trigger] grouped(rs)[i].2[a],
                #[trigger] grouped(rs)[i].2[b],
            ),
        forall|k: int|
            0 <= k < rs.len() ==> exists|i: int|
                0 <= i < grouped(rs).len() && (#[trigger] grouped(rs)[i]).0 == (#[trigger] rs[k]).1,
    decreases rs.len(),
{
    if rs.len() > 0 {
        let r0 = rs.drop_last();
        let r = rs.last();
        let g0 = grouped(r0);
        let g = grouped(rs);
        lemma_grouped_partitions(r0);
        lemma_find_key(g0, r.1);
        assert(g == add_resolved(g0, r));
        assert forall|k: int| 0 <= k < r0.len() implies (#[trigger] rs[k]) == r0[k] by {}
        assert forall|key: Seq<char>, p: Seq<char>|
            #[trigger] resolved_to(rs, key, p) <==> resolved_to(r0, key, p) || (r.1 == key && same_path(r.0, p)) by {
            if resolved_to(rs, key, p) {
                let k = choose|k: int| 0 <= k < rs.len() && (#[trigger] rs[k]).1 == key && same_path(rs[k].0, p);
                if k < r0.len() {
                    assert(r0[k] == rs[k]);
                }
            }
            if resolved_to(r0, key, p) {
                let k = choose|k: int| 0 <= k < r0.len() && (#[trigger] r0[k]).1 == key && same_path(r0[k].0, p);
                assert(rs[k] == r0[k]);
            }
            if r.1 == key && same_path(r.0, p) {
                assert(rs[rs.len() - 1] == r);
            }
        }
        match find_key(g0, r.1) {
            Some(kk) => {
                let b = g0[kk];
                if has_same_path(b.2, r.0) {
                    assert(g == g0);
                    assert forall|i: int, p: Seq<char>| 0 <= i < g.len() implies (#[trigger] has_same_path(
                        g[i].2,
                        p,
                    ) <==> resolved_to(rs, g[i].0, p)) by {
                        assert(resolved_to(rs, g[i].0, p) <==> resolved_to(r0, g[i].0, p) || (r.1 == g[i].0 && same_path(r.0, p)));
                        if r.1 == g[i].0 && same_path(r.0, p) {
                            if i != kk {
                                assert(g0[i].0 == g0[kk].0);
                            }
                            let q = choose|q: int| 0 <= q < b.2.len() && same_path(#[trigger] b.2[q], r.0);
                            assert(same_path(b.2[q], p));
                        }
                    }
                } else {
                    let nb = (b.0, b.1, b.2.push(r.0));
                    assert(g == g0.update(kk, nb));
                    assert forall|i: int, j: int| 0 <= i < j < g.len() implies (#[trigger] g[i]).0 != (
                    #[trigger] g[j]).0 by {
                        assert(g[i].0 == g0[i].0 && g[j].0 == g0[j].0);
                    }
                    assert forall|i: int, p: Seq<char>| 0 <= i < g.len() implies (#[trigger] has_same_path(
                        g[i].2,
                        p,
                    ) <==> resolved_to(rs, g[i].0, p)) by {
                        assert(resolved_to(rs, g[i].0, p) <==> resolved_to(r0, g[i].0, p) || (r.1 == g[i].0 && same_path(r.0, p)));
                        if i == kk {
                            if has_same_path(g[i].2, p) {
                                let q = choose|q: int| 0 <= q < g[i].2.len() && same_path(#[trigger] g[i].2[q], p);
                                if q < b.2.len() {
                                    assert(b.2[q] == g[i].2[q]);
                                    assert(has_same_path(b.2, p));
                                }
                            }
                            if has_same_path(b.2, p) {
                                let q = choose|q: int| 0 <= q < b.2.len() && same_path(#[trigger] b.2[q], p);
                                assert(g[i].2[q] == b.2[q]);
                            }
                            if same_path(r.0, p) {
                                assert(g[i].2[b.2.len() as int] == r.0);
                            }
                        } else {
                            assert(g[i] == g0[i]);
                            assert(g0[i].0 != r.1);
                        }
                    }
                    assert forall|i: int, a: int, c: int|
                        0 <= i < g.len() && 0 <= a < c < g[i].2.len() implies !same_path(
                            #[trigger] g[i].2[a],
                            #[trigger] g[i].2[c],
                        ) by {
                        if i == kk {
                            if c == b.2.len() {
                                assert(g[i].2[a] == b.2[a]);
                                assert(g[i].2[c] == r.0);
                                if same_path(b.2[a], r.0) {
                                    assert(has_same_path(b.2, r.0));
                                }
                            } else {
                                assert(g[i].2[a] == b.2[a] && g[i].2[c] == b.2[c]);
                            }
                        } else {
                            assert(g[i] == g0[i]);
                        }
                    }
                    assert forall|k: int| 0 <= k < rs.len() implies exists|i: int|
                        0 <= i < g.len() && (#[trigger] g[i]).0 == (#[trigger] rs[k]).1 by {
                        if k < r0.len() {
                            let i = choose|i: int| 0 <= i < g0.len() && (#[trigger] g0[i]).0 == (#[trigger] r0[k]).1;
                            assert(g[i].0 == g0[i].0);
                        } else {
                            assert(g[kk].0 == r.1);
                        }
                    }
                }
            },
            None => {
                let nb = (r.1, r.2, seq![r.0]);
                assert(g == g0.push(nb));
                assert forall|i: int, j: int| 0 <= i < j < g.len() implies (#[trigger] g[i]).0 != (
                #[trigger] g[j]).0 by {
                    if j == g0.len() {
                        assert(g[i] == g0[i]);
                    } else {
                        assert(g[i] == g0[i] && g[j] == g0[j]);
                    }
                }
                assert forall|i: int, p: Seq<char>| 0 <= i < g.len() implies (#[trigger] has_same_path(
                    g[i].2,
                    p,
                ) <==> resolved_to(rs, g[i].0, p)) by {
                    assert(resolved_to(rs, g[i].0, p) <==> resolved_to(r0, g[i].0, p) || (r.1 == g[i].0 && same_path(r.0, p)));
                    if i == g0.len() {
                        if resolved_to(r0, r.1, p) {
                            let k = choose|k: int| 0 <= k < r0.len() && (#[trigger] r0[k]).1 == r.1 && same_path(r0[k].0, p);
                            let j = choose|j: int| 0 <= j < g0.len() && (#[trigger] g0[j]).0 == (#[trigger] r0[k]).1;
                        }
                        if has_same_path(g[i].2, p) {
                            let q = choose|q: int| 0 <= q < g[i].2.len() && same_path(#[trigger] g[i].2[q], p);
                            assert(q == 0);
                        }
                        if same_path(r.0, p) {
                            assert(g[i].2[0] == r.0);
                        }
                    } else {
                        assert(g[i] == g0[i]);
                    }
                }
                assert forall|i: int, a: int, c: int|
                    0 <= i < g.len() && 0 <= a < c < g[i].2.len() implies !same_path(
                        #[trigger] g[i].2[a],
                        #[trigger] g[i].2[c],
                    ) by {
                    if i < g0.len() {
                        assert(g[i] == g0[i]);
                    }
                }
                assert forall|k: int| 0 <= k < rs.len() implies exists|i: int|
                    0 <= i < g.len() && (#[trigger] g[i]).0 == (#[trigger] rs[k]).1 by {
                    if k < r0.len() {
                        let i = choose|i: int| 0 <= i < g0.len() && (#[trigger] g0[i]).0 == (#[trigger] r0[k]).1;
                        assert(g[i] == g0[i]);
                    } else {
                        assert(g[g0.len() as int].0 == r.1);
                    }
                }
            },
        }
    }
}

/// Ordering buckets is a strict weak order.
pub proof fn lemma_bucket_order_is_strict()
    ensures
        strict_order(bucket_order()),
{
    assert forall|a: BucketView, b: BucketView| #[trigger] (bucket_order())(a, b) implies !(
    bucket_order())(b, a) by {
        crate::text::lemma_chars_before_irreflexive(a.0);
        if chars_before(a.0, b.0) && chars_before(b.0, a.0) {
            crate::text::lemma_chars_before_transitive(a.0, b.0, a.0);
        }
    }
    assert forall|a: BucketView, b: BucketView, c: BucketView|
        #![trigger (bucket_order())(a, c), (bucket_order())(b, c)]
        #![trigger (bucket_order())(a, c), (bucket_order())(a, b)]
        (bucket_order())(a, c) implies (bucket_order())(a, b) || (bucket_order())(b, c) by {
        lemma_three_keys(a.0, b.0, c.0);
    }
}

proof fn lemma_three_keys(x: Seq<char>, y: Seq<char>, z: Seq<char>)
    ensures
        chars_before(x, y) || chars_before(y, x) || x == y,
        chars_before(y, z) || chars_before(z, y) || y == z,
        chars_before(x, z) || chars_before(z, x) || x == z,
        !chars_before(x, x) && !chars_before(y, y) && !chars_before(z, z),
        chars_before(x, y) && chars_before(y, z) ==> chars_before(x, z),
        chars_before(y, x) && chars_before(x, z) ==> chars_before(y, z),
        chars_before(x, z) && chars_before(z, y) ==> chars_before(x, y),
        chars_before(z, y) && chars_before(y, x) ==> chars_before(z, x),
        chars_before(y, z) && chars_before(z, x) ==> chars_before(y, x),
        chars_before(z, x) && chars_before(x, y) ==> chars_before(z, y),
{
    crate::text::lemma_chars_before_total(x, y);
    crate::text::lemma_chars_before_total(y, z);
    crate::text::lemma_chars_before_total(x, z);
    crate::text::lemma_chars_before_irreflexive(x);
    crate::text::lemma_chars_before_irreflexive(y);
    crate::text::lemma_chars_before_irreflexive(z);
    if chars_before(x, y) && chars_before(y, z) {
        crate::text::lemma_chars_before_transitive(x, y, z);
    }
    if chars_before(y, x) && chars_before(x, z) {
        crate::text::lemma_chars_before_transitive(y, x, z);
    }
    if chars_before(x, z) && chars_before(z, y) {
        crate::text::lemma_chars_before_transitive(x, z, y);
    }
    if chars_before(z, y) && chars_before(y, x) {
        crate::text::lemma_chars_before_transitive(z, y, x);
    }
    if chars_before(y, z) && chars_before(z, x) {
        crate::text::lemma_chars_before_transitive(y, z, x);
    }
    if chars_before(z, x) && chars_before(x, y) {
        crate::text::lemma_chars_before_transitive(z, x, y);
    }
}

/// The buckets come out in bucket order, exactly those that were formed.
pub proof fn lemma_buckets_sorted(rs: Seq<ResolvedView>)
    ensures
        in_order(sorted_by(grouped(rs), bucket_order()), bucket_order()),
        sorted_by(grouped(rs), bucket_order()).to_multiset() == grouped(rs).to_multiset(),
{
    lemma_bucket_order_is_strict();
    crate::stable_sort::lemma_sorted_by_is_ordered_permutation(grouped(rs), bucket_order());
}

/// Suppression-hint metadata attached to a group's findings.
#[derive(Clone, Debug)]
pub struct HealthActionsMeta {
    pub suppression_hints_omitted: bool,
    pub reason: String,
    pub scope: String,
}

/// The paths of the project-level findings, one list per kind, in report
/// order.
#[derive(Clone, Debug)]
pub struct FindingPaths {
    pub findings: Vec<String>,
    pub file_scores: Vec<String>,
    pub hotspots: Vec<String>,
    pub large_functions: Vec<String>,
    pub targets: Vec<String>,
}

/// What of the project's findings belongs to one group: positions into each
/// list of [`FindingPaths`], in report order.
#[derive(Clone, Debug)]
pub struct GroupSelection {
    pub key: String,
    pub owners: Option<Vec<String>>,
    pub files_analyzed: usize,
    pub functions_above_threshold: usize,
    pub findings: Vec<usize>,
    pub file_scores: Vec<usize>,
    pub hotspots: Vec<usize>,
    pub large_functions: Vec<usize>,
    pub targets: Vec<usize>,
    pub actions_meta: Option<HealthActionsMeta>,
}

/// Positions of the items of `items` whose path is one of `paths`, in order.
pub open spec fn selected(paths: Seq<Seq<char>>, items: Seq<Seq<char>>) -> Seq<int>
    decreases items.len(),
{
    if items.len() == 0 {
        Seq::empty()
    } else {
        let init = selected(paths, items.drop_last());
        if has_same_path(paths, items.last()) {
            init.push(items.len() - 1)
        } else {
            init
        }
    }
}

pub open spec fn positions(v: Seq<usize>) -> Seq<int> {
    v.map_values(|x: usize| x as int)
}

/// Positions of the items whose path is one of `paths`.
pub fn select_in(paths: &Vec<String>, items: &Vec<String>) -> (r: Vec<usize>)
    ensures
        positions(r@) == selected(string_views(paths@), string_views(items@)),
{
    let ghost ps = string_views(paths@);
    let ghost is = string_views(items@);
    let mut r: Vec<usize> = Vec::new();
    let mut i: usize = 0;
    assert(is.take(0) =~= Seq::<Seq<char>>::empty());
    while i < items.len()
        invariant
            i <= items@.len(),
            ps == string_views(paths@),
            is == string_views(items@),
            positions(r@) == selected(ps, is.take(i as int)),
        decreases items@.len() - i,
    {
        assert(is.take(i + 1).drop_last() =~= is.take(i as int));
        assert(is.take(i + 1).last() == items@[i as int]@);
        if contains_path(paths, items[i].as_str()) {
            let ghost before = positions(r@);
            r.push(i);
            assert(positions(r@) =~= before.push(i as int));
        }
        i = i + 1;
    }
    assert(is.take(i as int) =~= is);
    r
}

/// The selection of one group: its key and owners, how many files it has,
/// the findings of each kind whose file is in it, and, when suppression
/// lines are omitted from actions, metadata saying so with its reason
/// (`unspecified` when none was given).
pub fn build_group(
    bucket: GroupBucket,
    items: &FindingPaths,
    omit_suppress_line: bool,
    omit_reason: Option<&str>,
) -> (g: GroupSelection)
    ensures
        g.key@ == bucket.key@,
        owners_view(g.owners) == owners_view(bucket.owners),
        g.files_analyzed == bucket.paths@.len(),
        positions(g.findings@) == selected(string_views(bucket.paths@), string_views(items.findings@)),
        g.functions_above_threshold == g.findings@.len(),
        positions(g.file_scores@) == selected(
            string_views(bucket.paths@),
            string_views(items.file_scores@),
        ),
        positions(g.hotspots@) == selected(string_views(bucket.paths@), string_views(items.hotspots@)),
        positions(g.large_functions@) == selected(
            string_views(bucket.paths@),
            string_views(items.large_functions@),
        ),
        positions(g.targets@) == selected(string_views(bucket.paths@), string_views(items.targets@)),
        match g.actions_meta {
            Some(m) => omit_suppress_line && m.suppression_hints_omitted && m.reason@ == (
            match omit_reason {
                Some(r) => r@,
                None => "unspecified"@,
            }) && m.scope@ == "health-findings"@,
            None => !omit_suppress_line,
        },
{
    let findings = select_in(&bucket.paths, &items.findings);
    let file_scores = select_in(&bucket.paths, &items.file_scores);
    let hotspots = select_in(&bucket.paths, &items.hotspots);
    let large_functions = select_in(&bucket.paths, &items.large_functions);
    let targets = select_in(&bucket.paths, &items.targets);
    let actions_meta = if omit_suppress_line {
        let reason = match omit_reason {
            Some(r) => string_of(r),
            None => string_of("unspecified"),
        };
        Some(
            HealthActionsMeta {
                suppression_hints_omitted: true,
                reason,
                scope: string_of("health-findings"),
            },
        )
    } else {
        None
    };
    let files_analyzed = bucket.paths.len();
    let functions_above_threshold = findings.len();
    GroupSelection {
        key: bucket.key,
        owners: bucket.owners,
        files_analyzed,
        functions_above_threshold,
        findings,
        file_scores,
        hotspots,
        large_functions,
        targets,
        actions_meta,
    }
}

/// The groups of a `--group-by` run: one selection per bucket of the
/// resolved candidate files, in bucket order.
pub fn build_health_grouping(
    resolved: &Vec<ResolvedPath>,
    items: &FindingPaths,
    omit_suppress_line: bool,
    omit_reason: Option<&str>,
) -> (gs: Vec<GroupSelection>)
    ensures
        ({
            let bs = sorted_by(
                grouped(resolved@.map_values(|x: ResolvedPath| resolved_view(x))),
                bucket_order(),
            );
            &&& gs@.len() == bs.len()
            &&& forall|i: int|
                0 <= i < gs@.len() ==> {
                    let g = #[trigger] gs@[i];
                    &&& g.key@ == bs[i].0
                    &&& owners_view(g.owners) == bs[i].1
                    &&& g.files_analyzed == bs[i].2.len()
                    &&& positions(g.findings@) == selected(bs[i].2, string_views(items.findings@))
                    &&& g.functions_above_threshold == g.findings@.len()
                    &&& positions(g.file_scores@) == selected(bs[i].2, string_views(items.file_scores@))
                    &&& positions(g.hotspots@) == selected(bs[i].2, string_views(items.hotspots@))
                    &&& positions(g.large_functions@) == selected(
                        bs[i].2,
                        string_views(items.large_functions@),
                    )
                    &&& positions(g.targets@) == selected(bs[i].2, string_views(items.targets@))
                    &&& (g.actions_meta is Some <==> omit_suppress_line)
                }
        }),
{
    let buckets = bucket_paths(resolved);
    let ghost bs = buckets@.map_values(|b: GroupBucket| bucket_view(b));
    let mut gs: Vec<GroupSelection> = Vec::new();
    let mut rest = buckets;
    let n = rest.len();
    while rest.len() > 0
        invariant
            rest@.len() <= n,
            n == bs.len(),
            rest@.map_values(|b: GroupBucket| bucket_view(b)) == bs.skip(n - rest@.len()),
            gs@.len() == n - rest@.len(),
            forall|i: int|
                0 <= i < gs@.len() ==> {
                    let g = #[trigger] gs@[i];
                    &&& g.key@ == bs[i].0
                    &&& owners_view(g.owners) == bs[i].1
                    &&& g.files_analyzed == bs[i].2.len()
                    &&& positions(g.findings@) == selected(bs[i].2, string_views(items.findings@))
                    &&& g.functions_above_threshold == g.findings@.len()
                    &&& positions(g.file_scores@) == selected(bs[i].2, string_views(items.file_scores@))
                    &&& positions(g.hotspots@) == selected(bs[i].2, string_views(items.hotspots@))
                    &&& positions(g.large_functions@) == selected(
                        bs[i].2,
                        string_views(items.large_functions@),
                    )
                    &&& positions(g.targets@) == selected(bs[i].2, string_views(items.targets@))
                    &&& (g.actions_meta is Some <==> omit_suppress_line)
                },
        decreases rest@.len(),
    {
        let ghost k = n - rest@.len();
        let ghost old_rest = rest@;
        let b = rest.remove(0);
        proof {
            assert(old_rest.map_values(|b: GroupBucket| bucket_view(b))[0] == bs.skip(k)[0]);
            assert(bucket_view(b) == bs[k]);
            let ov = old_rest.map_values(|b: GroupBucket| bucket_view(b));
            assert(ov == bs.skip(k));
            assert(rest@ =~= old_rest.remove(0));
            assert(rest@.map_values(|b: GroupBucket| bucket_view(b)) =~= ov.skip(1));
            assert(ov.skip(1) =~= bs.skip(k + 1));
        }
        let g = build_group(b, items, omit_suppress_line, omit_reason);
        gs.push(g);
    }
    gs
}

} // verus!
