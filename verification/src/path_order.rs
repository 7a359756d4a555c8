//! The order and equality of `/`-separated paths by their components, as
//! `Path`'s `Ord` and `Eq` compare them: a root first, then a leading `.`,
//! then `..`, then ordinary names compared by their text.
use vstd::prelude::*;

use crate::text::{chars_before, chars_eq_str, chars_of, split_chars, split_on, vec_views};

verus! {

/// Code of the root component.
pub open spec fn root_code() -> Seq<char> {
    seq!['\u{1}']
}

/// Code of a leading `.` component.
pub open spec fn cur_dir_code() -> Seq<char> {
    seq!['\u{2}']
}

/// Code of a `..` component.
pub open spec fn parent_dir_code() -> Seq<char> {
    seq!['\u{3}']
}

/// Code of an ordinary name.
pub open spec fn normal_code(name: Seq<char>) -> Seq<char> {
    seq!['\u{4}'] + name
}

/// Codes of the pieces between separators: empty pieces and `.` name no
/// component, `..` is the parent, anything else an ordinary name.
pub open spec fn piece_codes(ps: Seq<Seq<char>>) -> Seq<Seq<char>>
    decreases ps.len(),
{
    if ps.len() == 0 {
        Seq::empty()
    } else {
        let init = piece_codes(ps.drop_last());
        let last = ps.last();
        if last.len() == 0 || last == "."@ {
            init
        } else if last == ".."@ {
            init.push(parent_dir_code())
        } else {
            init.push(normal_code(last))
        }
    }
}

/// The components of a path, each by its code: a root when it starts with
/// `/`, else a leading `.` when its first piece is `.`, then the pieces.
pub open spec fn path_code(p: Seq<char>) -> Seq<Seq<char>> {
    let ps = split_on(p, '/');
    if p.len() > 0 && p[0] == '/' {
        seq![root_code()] + piece_codes(ps)
    } else if ps.len() > 0 && ps[0] == "."@ {
        seq![cur_dir_code()] + piece_codes(ps)
    } else {
        piece_codes(ps)
    }
}

/// Lexicographic order of code sequences.
pub open spec fn codes_before(a: Seq<Seq<char>>, b: Seq<Seq<char>>) -> bool
    decreases a.len(),
{
    if a.len() == 0 {
        b.len() > 0
    } else if b.len() == 0 {
        false
    } else if a[0] != b[0] {
        chars_before(a[0], b[0])
    } else {
        codes_before(a.drop_first(), b.drop_first())
    }
}

/// Path `a` orders strictly before path `b`.
pub open spec fn path_before(a: Seq<char>, b: Seq<char>) -> bool {
    codes_before(path_code(a), path_code(b))
}

/// Paths `a` and `b` have the same components.
pub open spec fn same_path(a: Seq<char>, b: Seq<char>) -> bool {
    path_code(a) == path_code(b)
}

pub proof fn lemma_codes_before_irreflexive(a: Seq<Seq<char>>)
    ensures
        !codes_before(a, a),
    decreases a.len(),
{
    if a.len() > 0 {
        lemma_codes_before_irreflexive(a.drop_first());
    }
}

pub proof fn lemma_codes_before_transitive(a: Seq<Seq<char>>, b: Seq<Seq<char>>, c: Seq<Seq<char>>)
    requires
        codes_before(a, b),
        codes_before(b, c),
    ensures
        codes_before(a, c),
    decreases a.len(),
{
    if a.len() > 0 && b.len() > 0 && c.len() > 0 {
        if a[0] == b[0] && b[0] == c[0] {
            lemma_codes_before_transitive(a.drop_first(), b.drop_first(), c.drop_first());
        } else if a[0] != b[0] && b[0] != c[0] {
            crate::text::lemma_chars_before_transitive(a[0], b[0], c[0]);
            if a[0] == c[0] {
                crate::text::lemma_chars_before_irreflexive(a[0]);
            }
        }
    }
}

pub proof fn lemma_codes_before_total(a: Seq<Seq<char>>, b: Seq<Seq<char>>)
    ensures
        !codes_before(a, b) && !codes_before(b, a) ==> a == b,
    decreases a.len(),
{
    if a.len() > 0 && b.len() > 0 {
        if a[0] == b[0] {
            lemma_codes_before_total(a.drop_first(), b.drop_first());
            if !codes_before(a, b) && !codes_before(b, a) {
                assert(a =~= seq![a[0]] + a.drop_first());
                assert(b =~= seq![b[0]] + b.drop_first());
            }
        } else {
            crate::text::lemma_chars_before_total(a[0], b[0]);
        }
    } else if a.len() == 0 && b.len() == 0 {
        assert(a =~= b);
    }
}

fn unit_code(c: char) -> (v: Vec<char>)
    ensures
        v@ == seq![c],
{
    let mut v: Vec<char> = Vec::new();
    v.push(c);
    assert(v@ =~= seq![c]);
    v
}

/// The component codes of `p`.
pub fn path_code_of(p: &str) -> (r: Vec<Vec<char>>)
    ensures
        vec_views(r@) == path_code(p@),
{
    let c = chars_of(p);
    let pieces = split_chars(&c, '/');
    proof {
        crate::text::lemma_split_on_nonempty(c@, '/');
    }
    let mut out: Vec<Vec<char>> = Vec::new();
    let ghost lead: Seq<Seq<char>>;
    if c.len() > 0 && c[0] == '/' {
        out.push(unit_code('\u{1}'));
        proof {
            lead = seq![root_code()];
        }
    } else if chars_eq_str(&pieces[0], ".") {
        out.push(unit_code('\u{2}'));
        proof {
            lead = seq![cur_dir_code()];
        }
    } else {
        proof {
            lead = Seq::empty();
        }
    }
    assert(vec_views(out@) =~= lead);
    let ghost ps = vec_views(pieces@);
    assert(ps.take(0) =~= Seq::<Seq<char>>::empty());
    let mut i: usize = 0;
    while i < pieces.len()
        invariant
            i <= pieces@.len(),
            ps == vec_views(pieces@),
            vec_views(out@) == lead + piece_codes(ps.take(i as int)),
        decreases pieces@.len() - i,
    {
        let piece = &pieces[i];
        assert(ps.take(i + 1).drop_last() =~= ps.take(i as int));
        assert(ps.take(i + 1).last() == piece@);
        if piece.len() == 0 || chars_eq_str(piece, ".") {
        } else if chars_eq_str(piece, "..") {
            let ghost before = vec_views(out@);
            out.push(unit_code('\u{3}'));
            assert(vec_views(out@) =~= before.push(parent_dir_code()));
            assert(vec_views(out@) =~= lead + piece_codes(ps.take(i as int)).push(parent_dir_code()));
        } else {
            let mut code: Vec<char> = unit_code('\u{4}');
            assert(piece@.take(0) =~= Seq::<char>::empty());
            let mut k: usize = 0;
            while k < piece.len()
                invariant
                    k <= piece@.len(),
                    code@ == seq!['\u{4}'] + piece@.take(k as int),
                decreases piece@.len() - k,
            {
                code.push(piece[k]);
                assert(piece@.take(k + 1) =~= piece@.take(k as int).push(piece@[k as int]));
                assert(code@ =~= seq!['\u{4}'] + piece@.take(k + 1));
                k = k + 1;
            }
            assert(piece@.take(k as int) =~= piece@);
            let ghost before = vec_views(out@);
            out.push(code);
            assert(vec_views(out@) =~= before.push(normal_code(piece@)));
            assert(vec_views(out@) =~= lead + piece_codes(ps.take(i as int)).push(normal_code(piece@)));
        }
        i = i + 1;
    }
    assert(ps.take(i as int) =~= ps);
    out
}

/// Lexicographic comparison of code sequences.
pub fn codes_lt(a: &Vec<Vec<char>>, b: &Vec<Vec<char>>) -> (r: bool)
    ensures
        r == codes_before(vec_views(a@), vec_views(b@)),
{
    let ghost av = vec_views(a@);
    let ghost bv = vec_views(b@);
    assert(av.skip(0) =~= av);
    assert(bv.skip(0) =~= bv);
    let mut i: usize = 0;
    while i < a.len() && i < b.len()
        invariant
            i <= a@.len(),
            i <= b@.len(),
            av == vec_views(a@),
            bv == vec_views(b@),
            codes_before(av.skip(i as int), bv.skip(i as int)) == codes_before(av, bv),
        decreases a@.len() - i,
    {
        let x = &a[i];
        let y = &b[i];
        assert(av.skip(i as int)[0] == x@);
        assert(bv.skip(i as int)[0] == y@);
        if x.len() == y.len() && crate::text::matches_at(x, 0, y) {
            assert(x@ =~= x@.subrange(0, y@.len() as int));
            assert(x@ == y@);
            assert(av.skip(i as int).drop_first() =~= av.skip(i + 1));
            assert(bv.skip(i as int).drop_first() =~= bv.skip(i + 1));
            i = i + 1;
        } else {
            proof {
                if x@ == y@ {
                    assert(y@.subrange(0, y@.len() as int) =~= y@);
                }
            }
            assert(x@ != y@);
            return crate::text::chars_lt(x, y);
        }
    }
    i >= a.len() && i < b.len()
}

/// Whether path `a` orders strictly before path `b`.
pub fn path_lt(a: &str, b: &str) -> (r: bool)
    ensures
        r == path_before(a@, b@),
{
    let ca = path_code_of(a);
    let cb = path_code_of(b);
    codes_lt(&ca, &cb)
}

/// Whether paths `a` and `b` have the same components.
pub fn path_eq(a: &str, b: &str) -> (r: bool)
    ensures
        r == same_path(a@, b@),
{
    let ca = path_code_of(a);
    let cb = path_code_of(b);
    let lt = codes_lt(&ca, &cb);
    let gt = codes_lt(&cb, &ca);
    proof {
        lemma_codes_before_total(path_code(a@), path_code(b@));
        lemma_codes_before_irreflexive(path_code(a@));
    }
    !lt && !gt
}

/// The text of a component from its code.
pub open spec fn code_text(c: Seq<char>) -> Seq<char> {
    if c == root_code() {
        Seq::empty()
    } else if c == cur_dir_code() {
        "."@
    } else if c == parent_dir_code() {
        ".."@
    } else if c.len() == 0 {
        c
    } else {
        c.drop_first()
    }
}

/// `path` without the leading components of `root`, as `Path::strip_prefix`
/// gives it, its remaining components joined with `/`; none when `root`'s
/// components do not lead `path`'s.
pub open spec fn stripped(path: Seq<char>, root: Seq<char>) -> Option<Seq<char>> {
    stripped_codes(path_code(path), path_code(root))
}

/// The text of the components of `pc` after those of `rc`, when `rc` leads
/// `pc`.
pub open spec fn stripped_codes(pc: Seq<Seq<char>>, rc: Seq<Seq<char>>) -> Option<Seq<char>> {
    if rc.len() <= pc.len() && pc.take(rc.len() as int) == rc {
        Some(
            crate::text::joined_str(
                pc.skip(rc.len() as int).map_values(|c: Seq<char>| code_text(c)),
                "/"@,
            ),
        )
    } else {
        None
    }
}

/// The components of the parent of a path, as `Path::parent` gives it:
/// none for an empty path or the root alone.
pub open spec fn parent_code(p: Seq<char>) -> Option<Seq<Seq<char>>> {
    let pc = path_code(p);
    if pc.len() == 0 || (pc.len() == 1 && pc[0] == root_code()) {
        None
    } else {
        Some(pc.drop_last())
    }
}

/// The parent of `path` relative to `root`, its components joined with `/`;
/// none when it has no parent or `root`'s components do not lead it.
pub open spec fn relative_parent_of(path: Seq<char>, root: Seq<char>) -> Option<Seq<char>> {
    match parent_code(path) {
        Some(pp) => stripped_codes(pp, path_code(root)),
        None => None,
    }
}

fn code_text_of(c: &Vec<char>) -> (r: Vec<char>)
    ensures
        r@ == code_text(c@),
{
    if c.len() == 1 && c[0] == '\u{1}' {
        assert(c@ =~= root_code());
        return Vec::new();
    }
    if c.len() == 1 && c[0] == '\u{2}' {
        assert(c@ =~= cur_dir_code());
        return chars_of(".");
    }
    if c.len() == 1 && c[0] == '\u{3}' {
        assert(c@ =~= parent_dir_code());
        return chars_of("..");
    }
    if c.len() == 0 {
        return Vec::new();
    }
    let mut out: Vec<char> = Vec::new();
    let mut i: usize = 1;
    assert(c@.subrange(1, 1) =~= Seq::<char>::empty());
    while i < c.len()
        invariant
            1 <= i <= c@.len(),
            out@ == c@.subrange(1, i as int),
        decreases c@.len() - i,
    {
        out.push(c[i]);
        assert(c@.subrange(1, i + 1) =~= c@.subrange(1, i as int).push(c@[i as int]));
        i = i + 1;
    }
    assert(c@.subrange(1, c@.len() as int) =~= c@.drop_first());
    out
}

/// The text after the components of `rc` among the first `n` of `pc`.
fn strip_codes(pc: &Vec<Vec<char>>, n: usize, rc: &Vec<Vec<char>>) -> (r: Option<String>)
    requires
        n <= pc@.len(),
    ensures
        match r {
            Some(s) => stripped_codes(vec_views(pc@).take(n as int), vec_views(rc@)) == Some(s@),
            None => stripped_codes(vec_views(pc@).take(n as int), vec_views(rc@)) is None,
        },
{
    let ghost pv = vec_views(pc@).take(n as int);
    let ghost rv = vec_views(rc@);
    if rc.len() > n {
        return None;
    }
    let mut i: usize = 0;
    while i < rc.len()
        invariant
            i <= rc@.len(),
            rc@.len() <= n <= pc@.len(),
            pv == vec_views(pc@).take(n as int),
            rv == vec_views(rc@),
            pv.take(i as int) == rv.take(i as int),
        decreases rc@.len() - i,
    {
        let a = &pc[i];
        let b = &rc[i];
        if !(a.len() == b.len() && crate::text::matches_at(a, 0, b)) {
            proof {
                assert(pv[i as int] == a@);
                assert(rv[i as int] == b@);
                if pv.take(rv.len() as int) == rv {
                    assert(pv.take(rv.len() as int)[i as int] == rv[i as int]);
                    assert(a@ == b@);
                    assert(a@.subrange(0, b@.len() as int) =~= a@);
                    assert(crate::text::occurs_at(a@, 0, b@));
                }
            }
            return None;
        }
        assert(a@.subrange(0, b@.len() as int) =~= a@);
        assert(pv[i as int] == a@);
        assert(pv.take(i + 1) =~= pv.take(i as int).push(a@));
        assert(rv.take(i + 1) =~= rv.take(i as int).push(b@));
        i = i + 1;
    }
    assert(rv.take(i as int) =~= rv);
    let ghost rest = pv.skip(rv.len() as int).map_values(|c: Seq<char>| code_text(c));
    let mut parts: Vec<Vec<char>> = Vec::new();
    let mut k: usize = rc.len();
    while k < n
        invariant
            rc@.len() <= k <= n <= pc@.len(),
            pv == vec_views(pc@).take(n as int),
            rv.len() == rc@.len(),
            rest == pv.skip(rv.len() as int).map_values(|c: Seq<char>| code_text(c)),
            vec_views(parts@) == rest.take(k - rc@.len()),
        decreases n - k,
    {
        let ghost before = vec_views(parts@);
        let t = code_text_of(&pc[k]);
        assert(pv[k as int] == pc@[k as int]@);
        parts.push(t);
        assert(vec_views(parts@) =~= before.push(t@));
        assert(rest.take(k + 1 - rc@.len()) =~= rest.take(k - rc@.len()).push(rest[k - rc@.len()]));
        k = k + 1;
    }
    assert(rest.take(k - rc@.len()) =~= rest);
    let sep = chars_of("/");
    let joined = crate::text::join_with(&parts, &sep);
    Some(crate::text::string_from_chars(&joined))
}

/// `path` relative to `root`, as `Path::strip_prefix` gives it.
pub fn strip_root(path: &str, root: &str) -> (r: Option<String>)
    ensures
        match r {
            Some(s) => stripped(path@, root@) == Some(s@),
            None => stripped(path@, root@) is None,
        },
{
    let pc = path_code_of(path);
    let rc = path_code_of(root);
    assert(vec_views(pc@).take(pc@.len() as int) =~= vec_views(pc@));
    strip_codes(&pc, pc.len(), &rc)
}

/// The parent of `path` relative to `root`, as `Path::parent` and then
/// `Path::strip_prefix` give it.
pub fn relative_parent(path: &str, root: &str) -> (r: Option<String>)
    ensures
        match r {
            Some(s) => relative_parent_of(path@, root@) == Some(s@),
            None => relative_parent_of(path@, root@) is None,
        },
{
    let pc = path_code_of(path);
    if pc.len() == 0 || (pc.len() == 1 && pc[0].len() == 1 && pc[0][0] == '\u{1}') {
        proof {
            if pc@.len() == 1 && pc@[0]@.len() == 1 && pc@[0]@[0] == '\u{1}' {
                assert(pc@[0]@ =~= root_code());
            }
        }
        return None;
    }
    proof {
        if pc@.len() == 1 {
            assert(vec_views(pc@)[0] == pc@[0]@);
            if pc@[0]@ == root_code() {
                assert(pc@[0]@[0] == '\u{1}');
            }
        }
    }
    let rc = path_code_of(root);
    assert(vec_views(pc@).take(pc@.len() - 1) =~= vec_views(pc@).drop_last());
    strip_codes(&pc, pc.len() - 1, &rc)
}

/// The text of the parent of a path, as `Path::parent` gives it for a
/// path without repeated separators or inner `.` components: the root alone
/// is `/`, other parents their components joined with `/`.
pub open spec fn parent_text(p: Seq<char>) -> Option<Seq<char>> {
    match parent_code(p) {
        Some(pp) => if pp == seq![root_code()] {
            Some("/"@)
        } else {
            Some(crate::text::joined_str(pp.map_values(|c: Seq<char>| code_text(c)), "/"@))
        },
        None => None,
    }
}

/// The parent of a path.
pub fn parent_of(p: &str) -> (r: Option<String>)
    ensures
        match r {
            Some(s) => parent_text(p@) == Some(s@),
            None => parent_text(p@) is None,
        },
{
    let pc = path_code_of(p);
    if pc.len() == 0 || (pc.len() == 1 && pc[0].len() == 1 && pc[0][0] == '\u{1}') {
        proof {
            if pc@.len() == 1 && pc@[0]@.len() == 1 && pc@[0]@[0] == '\u{1}' {
                assert(pc@[0]@ =~= root_code());
            }
        }
        return None;
    }
    proof {
        if pc@.len() == 1 {
            assert(vec_views(pc@)[0] == pc@[0]@);
            if pc@[0]@ == root_code() {
                assert(pc@[0]@[0] == '\u{1}');
            }
        }
    }
    let ghost pp = vec_views(pc@).drop_last();
    let n = pc.len() - 1;
    if n == 1 && pc[0].len() == 1 && pc[0][0] == '\u{1}' {
        assert(pc@[0]@ =~= root_code());
        assert(pp[0] == pc@[0]@);
        assert(pp =~= seq![root_code()]);
        return Some(crate::text::string_of("/"));
    }
    proof {
        if pp == seq![root_code()] {
            assert(pp[0] == pc@[0]@);
            assert(pc@[0]@[0] == '\u{1}');
        }
    }
    let ghost texts = pp.map_values(|c: Seq<char>| code_text(c));
    let mut parts: Vec<Vec<char>> = Vec::new();
    let mut k: usize = 0;
    while k < n
        invariant
            k <= n,
            n == pc@.len() - 1,
            pp == vec_views(pc@).drop_last(),
            texts == pp.map_values(|c: Seq<char>| code_text(c)),
            vec_views(parts@) == texts.take(k as int),
        decreases n - k,
    {
        let ghost before = vec_views(parts@);
        let t = code_text_of(&pc[k]);
        assert(pp[k as int] == pc@[k as int]@);
        parts.push(t);
        assert(vec_views(parts@) =~= before.push(t@));
        assert(texts.take(k + 1) =~= texts.take(k as int).push(texts[k as int]));
        k = k + 1;
    }
    assert(texts.take(k as int) =~= texts);
    let sep = chars_of("/");
    let joined = crate::text::join_with(&parts, &sep);
    Some(crate::text::string_from_chars(&joined))
}

} // verus!
