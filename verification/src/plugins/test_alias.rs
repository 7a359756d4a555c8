//! Test-runner aliases (`test.alias`, `resolve.alias`) and what they credit.
use vstd::prelude::*;

use crate::runtime_filter::joined_onto;
use crate::text::{string_of, string_views};
use crate::walkthrough::{extension_of, file_name_of};

verus! {

/// Extensions of the source files an alias replacement may name.
pub open spec fn alias_source_extensions() -> Seq<Seq<char>> {
    seq!["ts"@, "tsx"@, "js"@, "jsx"@, "mjs"@, "cjs"@, "mts"@, "cts"@]
}

/// A normalized alias replacement that names a source file.
pub open spec fn is_alias_source_file(normalized: Seq<char>) -> bool {
    file_name_of(normalized) matches Some(n) && (extension_of(n) matches Some(e)
        && alias_source_extensions().contains(e))
}

/// Whether a normalized alias replacement names a source file (by its
/// extension) rather than a directory.
pub fn alias_target_is_source_file(normalized: &str) -> (b: bool)
    ensures
        b == (file_name_of(normalized@) matches Some(n) && (extension_of(n) matches Some(e)
            && alias_source_extensions().contains(e))),
{
    let e = match crate::walkthrough::file_extension(normalized) {
        Some(e) => e,
        None => {
            return false;
        },
    };
    let exts: [&str; 8] = ["ts", "tsx", "js", "jsx", "mjs", "cjs", "mts", "cts"];
    assert(exts@.map_values(|x: &str| x@) =~= alias_source_extensions());
    let mut i: usize = 0;
    while i < 8
        invariant
            i <= 8,
            exts@.map_values(|x: &str| x@) == alias_source_extensions(),
            forall|q: int| 0 <= q < i ==> alias_source_extensions()[q] != e@,
            file_name_of(normalized@) matches Some(n) && extension_of(n) == Some(e@),
        decreases 8 - i,
    {
        assert(exts@[i as int]@ == alias_source_extensions()[i as int]);
        if crate::text::str_eq(exts[i], e.as_str()) {
            assert(alias_source_extensions()[i as int] == e@);
            return true;
        }
        i = i + 1;
    }
    false
}


/// One alias entry and what the resolver says of its two sides.
#[derive(Clone, Debug)]
pub struct AliasEntry {
    /// The alias key.
    pub find: String,
    /// The replacement was written as a plain string literal, not a path
    /// expression.
    pub replacement_is_bare_string_literal: bool,
    /// The key is a bare npm package specifier (not relative, not a URL, not
    /// a path-alias key such as `@/` or `~/`).
    pub find_is_package: bool,
    /// The replacement is a bare npm package specifier.
    pub replacement_is_package: bool,
    /// The package name of the key.
    pub find_package: String,
    /// The package name of the replacement.
    pub replacement_package: String,
    /// The replacement normalized against the config's directory to a
    /// root-relative path; none when it leaves the root.
    pub normalized: Option<String>,
}

/// What aliases credit: referenced packages, path aliases, and support
/// files.
#[derive(Clone, Debug)]
pub struct AliasCredits {
    pub referenced_dependencies: Vec<String>,
    pub path_aliases: Vec<(String, String)>,
    pub setup_files: Vec<String>,
}

pub open spec fn pair_views(ps: Seq<(String, String)>) -> Seq<(Seq<char>, Seq<char>)> {
    ps.map_values(|p: (String, String)| (p.0@, p.1@))
}

/// An alias entry maps package to package: both sides are bare packages and
/// the replacement is a plain string.
pub open spec fn is_package_to_package(a: AliasEntry) -> bool {
    a.find_is_package && a.replacement_is_bare_string_literal && a.replacement_is_package
}

/// Applies one alias entry. A package-to-package alias credits both
/// packages and no path alias. Otherwise, when the replacement normalizes
/// under the root, the alias becomes a path alias, a replacement naming a
/// source file becomes a support file (joined onto the root), and a key that
/// is a package is credited.
pub fn process_test_alias(result: &mut AliasCredits, alias: &AliasEntry, root: &str)
    ensures
        is_package_to_package(*alias) ==> {
            &&& string_views(final(result).referenced_dependencies@) == string_views(
                old(result).referenced_dependencies@,
            ) + seq![alias.replacement_package@, alias.find_package@]
            &&& pair_views(final(result).path_aliases@) == pair_views(old(result).path_aliases@)
            &&& string_views(final(result).setup_files@) == string_views(old(result).setup_files@)
        },
        !is_package_to_package(*alias) && alias.normalized is None ==> {
            &&& string_views(final(result).referenced_dependencies@) == string_views(
                old(result).referenced_dependencies@,
            )
            &&& pair_views(final(result).path_aliases@) == pair_views(old(result).path_aliases@)
            &&& string_views(final(result).setup_files@) == string_views(old(result).setup_files@)
        },
        !is_package_to_package(*alias) ==> (alias.normalized matches Some(n) ==> {
            &&& pair_views(final(result).path_aliases@) == pair_views(old(result).path_aliases@).push(
                (alias.find@, n@),
            )
            &&& string_views(final(result).setup_files@) == string_views(old(result).setup_files@)
                + (if is_alias_source_file(n@) {
                seq![joined_onto(root@, n@)]
            } else {
                Seq::empty()
            })
            &&& string_views(final(result).referenced_dependencies@) == string_views(
                old(result).referenced_dependencies@,
            ) + (if alias.find_is_package {
                seq![alias.find_package@]
            } else {
                Seq::empty()
            })
        }),
{
    let ghost d0 = string_views(result.referenced_dependencies@);
    let ghost p0 = pair_views(result.path_aliases@);
    let ghost s0 = string_views(result.setup_files@);
    if alias.find_is_package && alias.replacement_is_bare_string_literal && alias.replacement_is_package {
        let a = string_of(alias.replacement_package.as_str());
        let b = string_of(alias.find_package.as_str());
        result.referenced_dependencies.push(a);
        result.referenced_dependencies.push(b);
        assert(string_views(result.referenced_dependencies@) =~= d0 + seq![a@, b@]);
        assert(pair_views(result.path_aliases@) =~= p0);
        assert(string_views(result.setup_files@) =~= s0);
        return;
    }
    let normalized = match &alias.normalized {
        Some(n) => n,
        None => {
            assert(string_views(result.referenced_dependencies@) =~= d0);
            assert(pair_views(result.path_aliases@) =~= p0);
            assert(string_views(result.setup_files@) =~= s0);
            return;
        },
    };
    let pair = (string_of(alias.find.as_str()), string_of(normalized.as_str()));
    let ghost pv = (pair.0@, pair.1@);
    result.path_aliases.push(pair);
    assert(pair_views(result.path_aliases@) =~= p0.push(pv));
    if alias_target_is_source_file(normalized.as_str()) {
        let f = crate::runtime_filter::join_onto(root, normalized.as_str());
        result.setup_files.push(f);
        assert(string_views(result.setup_files@) =~= s0 + seq![f@]);
    } else {
        assert(string_views(result.setup_files@) =~= s0 + Seq::<Seq<char>>::empty());
    }
    if alias.find_is_package {
        let b = string_of(alias.find_package.as_str());
        result.referenced_dependencies.push(b);
        assert(string_views(result.referenced_dependencies@) =~= d0 + seq![b@]);
    } else {
        assert(string_views(result.referenced_dependencies@) =~= d0 + Seq::<Seq<char>>::empty());
    }
}

} // verus!
