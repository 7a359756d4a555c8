//! Contentlayer content pipelines.
use vstd::prelude::*;

use super::str_list;
use super::{deps_include_any, has_any_dep};
use crate::text::{
    chars_of, push_chars, push_str, sorted_chars, starts_with, string_views, strip_leading,
    strip_prefix_all, strip_trailing, vec_views,
};

verus! {

/// Built-in plugin for contentlayer content pipelines.
pub struct ContentlayerPlugin;

impl ContentlayerPlugin {
    /// The plugin's name.
    pub fn name(&self) -> (n: &'static str)
        ensures
            n@ == "contentlayer"@,
    {
        "contentlayer"
    }

    /// Packages whose presence activates the plugin.
    pub fn enablers(&self) -> (v: Vec<&'static str>)
        ensures
            v@ == seq![
                "contentlayer",
                "contentlayer2",
                "next-contentlayer",
                "next-contentlayer2",
            ],
    {
        str_list(&[
            "contentlayer",
            "contentlayer2",
            "next-contentlayer",
            "next-contentlayer2",
        ])
    }

    /// The enabling packages, which are build tooling.
    pub fn tooling_dependencies(&self) -> (v: Vec<&'static str>)
        ensures
            v@ == seq![
                "contentlayer",
                "contentlayer2",
                "next-contentlayer",
                "next-contentlayer2",
            ],
    {
        str_list(&[
            "contentlayer",
            "contentlayer2",
            "next-contentlayer",
            "next-contentlayer2",
        ])
    }

    /// Config files the plugin reads.
    pub fn config_patterns(&self) -> (v: Vec<&'static str>)
        ensures
            v@ == seq![
                "contentlayer.config.{ts,js,mts,mjs}",
            ],
    {
        str_list(&[
            "contentlayer.config.{ts,js,mts,mjs}",
        ])
    }

    /// Files that are always in use.
    pub fn always_used(&self) -> (v: Vec<&'static str>)
        ensures
            v@ == seq![
                "contentlayer.config.{ts,js,mts,mjs}",
                ".contentlayer/**/*.{ts,tsx,js,jsx,mts,mjs,cts,cjs}",
            ],
    {
        str_list(&[
            "contentlayer.config.{ts,js,mts,mjs}",
            ".contentlayer/**/*.{ts,tsx,js,jsx,mts,mjs,cts,cjs}",
        ])
    }

    /// Hidden directories that discovery enters.
    pub fn discovery_hidden_dirs(&self) -> (v: Vec<&'static str>)
        ensures
            v@ == seq![
                ".contentlayer",
            ],
    {
        str_list(&[
            ".contentlayer",
        ])
    }

    /// Activates on one of the enabling packages, or when a `contentlayer.config.*` file exists
    /// at the root (the caller checks each config extension).
    pub fn is_enabled_with_deps(&self, deps: &Vec<String>, config_file_exists: bool) -> (b: bool)
        ensures
            b == (has_any_dep(deps@, seq!["contentlayer", "contentlayer2", "next-contentlayer", "next-contentlayer2"]) || config_file_exists),
    {
        let names: [&str; 4] = ["contentlayer", "contentlayer2", "next-contentlayer", "next-contentlayer2"];
        assert(names@ =~= seq!["contentlayer", "contentlayer2", "next-contentlayer", "next-contentlayer2"]);
        deps_include_any(deps, &names) || config_file_exists
    }
}


/// A `filePathPattern` as a document pattern: without its leading `./`
/// runs, kept when something is left that neither climbs out (`../`) nor is
/// absolute.
pub open spec fn document_pattern_of(pattern: Seq<char>) -> Option<Seq<char>> {
    let t = strip_prefix_all(pattern, "./"@);
    if t.len() > 0 && !starts_with(t, "../"@) && !starts_with(t, "/"@) {
        Some(t)
    } else {
        None
    }
}

/// The document pattern a collection's `filePathPattern` contributes, if any.
pub fn document_pattern(pattern: &str) -> (r: Option<String>)
    ensures
        match r {
            Some(d) => document_pattern_of(pattern@) == Some(d@),
            None => document_pattern_of(pattern@) is None,
        },
{
    proof {
        reveal_strlit("../");
        reveal_strlit("/");
    }
    let c = chars_of(pattern);
    let t = crate::text::strip_prefix_all_chars(&c, "./");
    if t.len() > 0 && !crate::text::chars_start_with_str(&t, "../") && !crate::text::chars_start_with_str(&t, "/") {
        Some(crate::text::string_from_chars(&t))
    } else {
        None
    }
}

/// Everything under a content directory in one of the content formats.
pub open spec fn content_glob(dir: Seq<char>) -> Seq<char> {
    dir + "/**/*.{md,mdx,json,yml,yaml}"@
}

/// A document pattern scoped to a content directory.
pub open spec fn document_glob(dir: Seq<char>, pattern: Seq<char>) -> Seq<char> {
    strip_trailing(dir, '/') + "/"@ + strip_leading(pattern, '/')
}

/// Whether `x` is one of the patterns a content directory contributes: its
/// content glob, or one of the document patterns scoped to it.
pub open spec fn from_dir(dir: Seq<char>, patterns: Seq<Seq<char>>, x: Seq<char>) -> bool {
    x == content_glob(dir) || exists|j: int| 0 <= j < patterns.len() && x == #[trigger] document_glob(dir, patterns[j])
}

/// Whether `x` is an entry pattern for the given content directories and
/// document patterns.
pub open spec fn is_content_pattern(dirs: Seq<Seq<char>>, patterns: Seq<Seq<char>>, x: Seq<char>) -> bool {
    exists|i: int| 0 <= i < dirs.len() && #[trigger] from_dir(dirs[i], patterns, x)
}

/// The entry patterns of the content directories and document patterns that
/// a contentlayer config declares: for each directory its content glob and
/// each document pattern under it, sorted and without repeats.
pub fn content_entry_patterns(content_dirs: &Vec<String>, document_patterns: &Vec<String>) -> (r: Vec<String>)
    ensures
        sorted_chars(string_views(r@)),
        string_views(r@).no_duplicates(),
        forall|x: Seq<char>| #[trigger] string_views(r@).contains(x)
            <==> is_content_pattern(string_views(content_dirs@), string_views(document_patterns@), x),
{
    proof {
        reveal_strlit("/**/*.{md,mdx,json,yml,yaml}");
        reveal_strlit("/");
    }
    let ghost ds = string_views(content_dirs@);
    let ghost ps = string_views(document_patterns@);
    let mut found: Vec<Vec<char>> = Vec::new();
    let mut i: usize = 0;
    while i < content_dirs.len()
        invariant
            i <= content_dirs@.len(),
            ds == string_views(content_dirs@),
            ps == string_views(document_patterns@),
            forall|x: Seq<char>| #[trigger] vec_views(found@).contains(x)
                <==> exists|a: int| 0 <= a < i && #[trigger] from_dir(ds[a], ps, x),
        decreases content_dirs@.len() - i,
    {
        let dir = chars_of(content_dirs[i].as_str());
        let mut glob = dir.clone();
        assert(glob@ == dir@);
        push_str(&mut glob, "/**/*.{md,mdx,json,yml,yaml}");
        let ghost before = vec_views(found@);
        found.push(glob);
        let ghost g = content_glob(ds[i as int]);
        assert(vec_views(found@) =~= before.push(g));
        assert forall|x: Seq<char>| #[trigger] vec_views(found@).contains(x)
            <==> (exists|a: int| 0 <= a < i && #[trigger] from_dir(ds[a], ps, x))
                || x == content_glob(ds[i as int])
                || exists|b: int| 0 <= b < 0 && x == #[trigger] document_glob(ds[i as int], ps[b]) by {
            if x == g {
                assert(vec_views(found@)[before.len() as int] == x);
            }
            if vec_views(found@).contains(x) && x != g {
                let k = choose|k: int| 0 <= k < vec_views(found@).len() && vec_views(found@)[k] == x;
                assert(before[k] == x);
                assert(before.contains(x));
            }
            if exists|a: int| 0 <= a < i && #[trigger] from_dir(ds[a], ps, x) {
                assert(before.contains(x));
                let k = choose|k: int| 0 <= k < before.len() && before[k] == x;
                assert(vec_views(found@)[k] == x);
            }
        }
        let base = crate::text::strip_trailing_chars(&dir, '/');
        let mut j: usize = 0;
        while j < document_patterns.len()
            invariant
                i < content_dirs@.len(),
                j <= document_patterns@.len(),
                ds == string_views(content_dirs@),
                ps == string_views(document_patterns@),
                dir@ == ds[i as int],
                base@ == strip_trailing(dir@, '/'),
                forall|x: Seq<char>| #[trigger] vec_views(found@).contains(x)
                    <==> (exists|a: int| 0 <= a < i && #[trigger] from_dir(ds[a], ps, x))
                        || x == content_glob(ds[i as int])
                        || exists|b: int| 0 <= b < j && x == #[trigger] document_glob(ds[i as int], ps[b]),
            decreases document_patterns@.len() - j,
        {
            let pc = chars_of(document_patterns[j].as_str());
            let tail = crate::text::strip_leading_chars(&pc, '/');
            let mut item = base.clone();
            assert(item@ == base@);
            push_str(&mut item, "/");
            push_chars(&mut item, &tail);
            let ghost d = document_glob(ds[i as int], ps[j as int]);
            assert(item@ == d);
            let ghost before2 = vec_views(found@);
            found.push(item);
            assert(vec_views(found@) =~= before2.push(d));
            assert forall|x: Seq<char>| #[trigger] vec_views(found@).contains(x)
                <==> (exists|a: int| 0 <= a < i && #[trigger] from_dir(ds[a], ps, x))
                    || x == content_glob(ds[i as int])
                    || exists|b: int| 0 <= b < j + 1 && x == #[trigger] document_glob(ds[i as int], ps[b]) by {
                if x == d {
                    assert(vec_views(found@)[before2.len() as int] == x);
                }
                if vec_views(found@).contains(x) && x != d {
                    let k = choose|k: int| 0 <= k < vec_views(found@).len() && vec_views(found@)[k] == x;
                    assert(k < before2.len());
                    assert(before2[k] == x);
                    assert(before2.contains(x));
                }
                if (exists|a: int| 0 <= a < i && #[trigger] from_dir(ds[a], ps, x))
                    || x == content_glob(ds[i as int])
                    || exists|b: int| 0 <= b < j && x == #[trigger] document_glob(ds[i as int], ps[b]) {
                    assert(before2.contains(x));
                    let k = choose|k: int| 0 <= k < before2.len() && before2[k] == x;
                    assert(vec_views(found@)[k] == x);
                }
            }
            j = j + 1;
        }
        assert forall|x: Seq<char>| #[trigger] vec_views(found@).contains(x)
            <==> exists|a: int| 0 <= a < i + 1 && #[trigger] from_dir(ds[a], ps, x) by {
            if vec_views(found@).contains(x) {
                if !(exists|a: int| 0 <= a < i && #[trigger] from_dir(ds[a], ps, x)) {
                    assert(from_dir(ds[i as int], ps, x));
                }
            }
            if exists|a: int| 0 <= a < i + 1 && #[trigger] from_dir(ds[a], ps, x) {
                let a = choose|a: int| 0 <= a < i + 1 && #[trigger] from_dir(ds[a], ps, x);
                if a == i {
                    if x != content_glob(ds[i as int]) {
                        let b = choose|b: int| 0 <= b < ps.len() && x == #[trigger] document_glob(ds[i as int], ps[b]);
                        assert(0 <= b < document_patterns@.len());
                    }
                }
            }
        }
        i = i + 1;
    }
    crate::text::sorted_unique_strings(found)
}

} // verus!
