//! Framework and tooling plugins: the packages that enable each one, the files
//! it keeps alive, and the dependencies it credits as tooling.
use vstd::prelude::*;

use crate::text::{starts_with, str_eq, str_starts_with};

pub mod angular;
pub mod commit_and_tag_version;
pub mod contentlayer;
pub mod electron;
pub mod ember;
pub mod fumadocs;
pub mod mintlify;
pub mod napi_rs;
pub mod nx;
pub mod pinia;
pub mod supabase;
pub mod test_alias;
pub mod tooling;
pub mod typescript;
pub mod velite;
pub mod vercel;
pub mod vite;
pub mod vscode;

verus! {

/// A fresh list holding `items` in order.
pub fn str_list(items: &[&'static str]) -> (v: Vec<&'static str>)
    ensures
        v@ == items@,
{
    let mut v: Vec<&'static str> = Vec::new();
    let mut i: usize = 0;
    while i < items.len()
        invariant
            i <= items@.len(),
            v@ == items@.take(i as int),
        decreases items@.len() - i,
    {
        v.push(items[i]);
        i = i + 1;
        assert(items@.take(i as int) =~= items@.take(i - 1).push(items@[i - 1]));
    }
    assert(items@.take(i as int) =~= items@);
    v
}

/// Some dependency name equals one of `names`.
pub open spec fn has_any_dep(deps: Seq<String>, names: Seq<&str>) -> bool {
    exists|i: int, j: int|
        0 <= i < deps.len() && 0 <= j < names.len() && #[trigger] deps[i]@ == #[trigger] names[j]@
}

/// Whether some dependency name equals one of `names`.
pub fn deps_include_any(deps: &Vec<String>, names: &[&str]) -> (b: bool)
    ensures
        b == has_any_dep(deps@, names@),
{
    let mut i: usize = 0;
    while i < deps.len()
        invariant
            i <= deps@.len(),
            forall|a: int, j: int|
                0 <= a < i && 0 <= j < names@.len() ==> #[trigger] deps@[a]@ != #[trigger] names@[j]@,
        decreases deps@.len() - i,
    {
        let mut j: usize = 0;
        while j < names.len()
            invariant
                i < deps@.len(),
                j <= names@.len(),
                forall|a: int, k: int|
                    0 <= a < i && 0 <= k < names@.len() ==> #[trigger] deps@[a]@ != #[trigger] names@[k]@,
                forall|k: int| 0 <= k < j ==> deps@[i as int]@ != #[trigger] names@[k]@,
            decreases names@.len() - j,
        {
            if str_eq(deps[i].as_str(), names[j]) {
                return true;
            }
            j = j + 1;
        }
        i = i + 1;
    }
    false
}

/// An import specifier is covered by a virtual-module prefix when it starts
/// with the prefix, or when the prefix ends in `/` and the specifier is the
/// prefix without it (so `ember/` covers the bare `ember`).
pub open spec fn virtual_prefix_matches(prefix: Seq<char>, spec: Seq<char>) -> bool {
    starts_with(spec, prefix) || (prefix.len() > 0 && prefix.last() == '/' && spec
        == prefix.drop_last())
}

/// Whether the import specifier `spec` is covered by the virtual-module `prefix`.
pub fn matches_virtual_prefix(prefix: &str, spec: &str) -> (b: bool)
    ensures
        b == virtual_prefix_matches(prefix@, spec@),
{
    if str_starts_with(spec, prefix) {
        return true;
    }
    let p = crate::text::chars_of(prefix);
    if p.len() == 0 || p[p.len() - 1] != '/' {
        return false;
    }
    let s = crate::text::chars_of(spec);
    if s.len() != p.len() - 1 {
        return false;
    }
    let r = crate::text::matches_at(&p, 0, &s);
    proof {
        if r {
            assert(s@ =~= p@.drop_last());
        } else {
            assert(p@.subrange(0, s@.len() as int) =~= p@.drop_last());
        }
    }
    r
}

/// Class members that a framework calls on the classes that extend or
/// implement a given name, so they count as used.
#[derive(Clone, Debug)]
pub struct ScopedUsedClassMemberRule {
    pub extends: Option<String>,
    pub implements: Option<String>,
    pub members: Vec<String>,
}

/// A rule that marks class members as used.
#[derive(Clone, Debug)]
pub enum UsedClassMemberRule {
    Scoped(ScopedUsedClassMemberRule),
}

pub open spec fn opt_view(o: Option<String>) -> Option<Seq<char>> {
    match o {
        Some(s) => Some(s@),
        None => None,
    }
}

/// A rule by its heritage name (what it extends, what it implements) and
/// members.
pub open spec fn rule_view(r: UsedClassMemberRule) -> (Option<Seq<char>>, Option<Seq<char>>, Seq<Seq<char>>) {
    match r {
        UsedClassMemberRule::Scoped(s) => (opt_view(s.extends), opt_view(s.implements), crate::text::string_views(s.members@)),
    }
}

/// The members of classes that extend `extends`.
pub fn scoped_rule(extends: &str, members: &[&str]) -> (r: UsedClassMemberRule)
    ensures
        rule_view(r) == (Some(extends@), None::<Seq<char>>, crate::text::views(members@)),
{
    UsedClassMemberRule::Scoped(
        ScopedUsedClassMemberRule {
            extends: Some(crate::text::string_of(extends)),
            implements: None,
            members: crate::text::strings_of(members),
        },
    )
}

/// The members of classes that implement `interface_name`.
pub fn implements_rule(interface_name: &str, members: &[&str]) -> (r: UsedClassMemberRule)
    ensures
        rule_view(r) == (None::<Seq<char>>, Some(interface_name@), crate::text::views(members@)),
{
    UsedClassMemberRule::Scoped(
        ScopedUsedClassMemberRule {
            extends: None,
            implements: Some(crate::text::string_of(interface_name)),
            members: crate::text::strings_of(members),
        },
    )
}


/// Whether the package name of an import is one a config references: not
/// empty, and neither relative nor absolute.
pub open spec fn is_referenced_package(name: Seq<char>) -> bool {
    name.len() > 0 && name[0] != '.' && name[0] != '/'
}

/// The dependencies that a config's imports reference, from the package
/// names of those imports: the referenced ones, sorted and without repeats.
pub fn referenced_import_packages(package_names: &Vec<String>) -> (r: Vec<String>)
    ensures
        crate::text::sorted_chars(crate::text::string_views(r@)),
        crate::text::string_views(r@).no_duplicates(),
        forall|x: Seq<char>|
            #[trigger] crate::text::string_views(r@).contains(x) <==> (crate::text::string_views(
                package_names@,
            ).contains(x) && is_referenced_package(x)),
{
    let ghost ns = crate::text::string_views(package_names@);
    let mut kept: Vec<Vec<char>> = Vec::new();
    let mut i: usize = 0;
    while i < package_names.len()
        invariant
            i <= package_names@.len(),
            ns == crate::text::string_views(package_names@),
            forall|x: Seq<char>|
                #[trigger] crate::text::vec_views(kept@).contains(x) <==> (ns.take(i as int).contains(x)
                    && is_referenced_package(x)),
        decreases package_names@.len() - i,
    {
        let ghost before = crate::text::vec_views(kept@);
        let ghost t0 = ns.take(i as int);
        let ghost t1 = ns.take(i + 1);
        assert(t1 =~= t0.push(ns[i as int]));
        let c = crate::text::chars_of(package_names[i].as_str());
        if c.len() > 0 && c[0] != '.' && c[0] != '/' {
            kept.push(c);
            assert(crate::text::vec_views(kept@) =~= before.push(ns[i as int]));
            assert forall|x: Seq<char>|
                #[trigger] crate::text::vec_views(kept@).contains(x) <==> (t1.contains(x)
                    && is_referenced_package(x)) by {
                if x == ns[i as int] {
                    assert(crate::text::vec_views(kept@)[before.len() as int] == x);
                    assert(t1[i as int] == x);
                }
                if crate::text::vec_views(kept@).contains(x) && x != ns[i as int] {
                    let k = choose|k: int| 0 <= k < crate::text::vec_views(kept@).len() && crate::text::vec_views(kept@)[k] == x;
                    assert(before[k] == x);
                    assert(before.contains(x));
                    let m = choose|m: int| 0 <= m < t0.len() && t0[m] == x;
                    assert(t1[m] == x);
                }
                if t1.contains(x) && is_referenced_package(x) && x != ns[i as int] {
                    let m = choose|m: int| 0 <= m < t1.len() && t1[m] == x;
                    assert(m < i);
                    assert(t0[m] == x);
                    assert(before.contains(x));
                    let k = choose|k: int| 0 <= k < before.len() && before[k] == x;
                    assert(crate::text::vec_views(kept@)[k] == x);
                }
            }
        } else {
            assert forall|x: Seq<char>|
                #[trigger] crate::text::vec_views(kept@).contains(x) <==> (t1.contains(x)
                    && is_referenced_package(x)) by {
                if t0.contains(x) {
                    let m = choose|m: int| 0 <= m < t0.len() && t0[m] == x;
                    assert(t1[m] == x);
                }
                if t1.contains(x) && is_referenced_package(x) {
                    let m = choose|m: int| 0 <= m < t1.len() && t1[m] == x;
                    if m == i {
                        assert(x == ns[i as int]);
                        assert(c@ == x);
                    }
                    assert(t0[m] == x);
                }
            }
        }
        i = i + 1;
    }
    assert(ns.take(i as int) =~= ns);
    crate::text::sorted_unique_strings(kept)
}

} // verus!
