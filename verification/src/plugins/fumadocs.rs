//! Fumadocs documentation sites.
use vstd::prelude::*;

use super::str_list;
use super::{deps_include_any, has_any_dep};
use crate::text::{chars_of, push_str, sorted_chars, string_views, vec_views};

verus! {

/// Built-in plugin for fumadocs documentation sites.
pub struct FumadocsPlugin;

impl FumadocsPlugin {
    /// The plugin's name.
    pub fn name(&self) -> (n: &'static str)
        ensures
            n@ == "fumadocs"@,
    {
        "fumadocs"
    }

    /// Packages whose presence activates the plugin.
    pub fn enablers(&self) -> (v: Vec<&'static str>)
        ensures
            v@ == seq![
                "fumadocs-mdx",
                "fumadocs-core",
                "fumadocs-ui",
            ],
    {
        str_list(&[
            "fumadocs-mdx",
            "fumadocs-core",
            "fumadocs-ui",
        ])
    }

    /// Config files the plugin reads.
    pub fn config_patterns(&self) -> (v: Vec<&'static str>)
        ensures
            v@ == seq![
                "source.config.{ts,tsx,js,jsx,mts,mjs,cts,cjs}",
            ],
    {
        str_list(&[
            "source.config.{ts,tsx,js,jsx,mts,mjs,cts,cjs}",
        ])
    }

    /// Files that are always in use.
    pub fn always_used(&self) -> (v: Vec<&'static str>)
        ensures
            v@ == seq![
                "source.config.{ts,tsx,js,jsx,mts,mjs,cts,cjs}",
                ".source/**/*.{ts,tsx,js,jsx,mts,mjs,cts,cjs}",
            ],
    {
        str_list(&[
            "source.config.{ts,tsx,js,jsx,mts,mjs,cts,cjs}",
            ".source/**/*.{ts,tsx,js,jsx,mts,mjs,cts,cjs}",
        ])
    }

    /// Hidden directories that discovery enters.
    pub fn discovery_hidden_dirs(&self) -> (v: Vec<&'static str>)
        ensures
            v@ == seq![
                ".source",
            ],
    {
        str_list(&[
            ".source",
        ])
    }

    /// Import prefixes served by the MDX loader.
    pub fn virtual_module_prefixes(&self) -> (v: Vec<&'static str>)
        ensures
            v@ == seq![
                "fumadocs-mdx:",
            ],
    {
        str_list(&[
            "fumadocs-mdx:",
        ])
    }

    /// Activates on one of the enabling packages, or when a `source.config.*` file exists
    /// at the root (the caller checks each config extension).
    pub fn is_enabled_with_deps(&self, deps: &Vec<String>, config_file_exists: bool) -> (b: bool)
        ensures
            b == (has_any_dep(deps@, seq!["fumadocs-mdx", "fumadocs-core", "fumadocs-ui"]) || config_file_exists),
    {
        let names: [&str; 3] = ["fumadocs-mdx", "fumadocs-core", "fumadocs-ui"];
        assert(names@ =~= seq!["fumadocs-mdx", "fumadocs-core", "fumadocs-ui"]);
        deps_include_any(deps, &names) || config_file_exists
    }
}


/// Everything under a content directory in one of the content formats.
pub open spec fn content_dir_glob(dir: Seq<char>) -> Seq<char> {
    dir + "/**/*.{md,mdx,json,yml,yaml}"@
}

/// The entry patterns of the content directories that a fumadocs config
/// declares: one glob per distinct directory, the directories in sorted
/// order.
pub fn content_dir_patterns(dirs: &Vec<String>) -> (r: Vec<String>)
    ensures
        exists|u: Seq<Seq<char>>|
            #![trigger sorted_chars(u)]
            sorted_chars(u) && u.no_duplicates() && (forall|d: Seq<char>|
                #[trigger] u.contains(d) <==> string_views(dirs@).contains(d)) && string_views(r@)
                == u.map_values(|d: Seq<char>| content_dir_glob(d)),
{
    proof {
        reveal_strlit("/**/*.{md,mdx,json,yml,yaml}");
    }
    let mut cs: Vec<Vec<char>> = Vec::new();
    let mut i: usize = 0;
    while i < dirs.len()
        invariant
            i <= dirs@.len(),
            vec_views(cs@) == string_views(dirs@).take(i as int),
        decreases dirs@.len() - i,
    {
        let ghost before = vec_views(cs@);
        cs.push(chars_of(dirs[i].as_str()));
        assert(vec_views(cs@) =~= before.push(dirs@[i as int]@));
        assert(string_views(dirs@).take(i + 1) =~= string_views(dirs@).take(i as int).push(dirs@[i as int]@));
        i = i + 1;
    }
    assert(string_views(dirs@).take(i as int) =~= string_views(dirs@));
    let unique = crate::text::sorted_unique_strings(cs);
    let ghost u = string_views(unique@);
    let mut out: Vec<String> = Vec::new();
    let mut k: usize = 0;
    while k < unique.len()
        invariant
            k <= unique@.len(),
            u == string_views(unique@),
            string_views(out@) == u.take(k as int).map_values(|d: Seq<char>| content_dir_glob(d)),
        decreases unique@.len() - k,
    {
        let ghost before = string_views(out@);
        let mut g = chars_of(unique[k].as_str());
        push_str(&mut g, "/**/*.{md,mdx,json,yml,yaml}");
        let gs = crate::text::string_from_chars(&g);
        out.push(gs);
        assert(string_views(out@) =~= before.push(gs@));
        assert(u.take(k + 1) =~= u.take(k as int).push(u[k as int]));
        k = k + 1;
    }
    assert(u.take(k as int) =~= u);
    assert(sorted_chars(u) && u.no_duplicates() && (forall|d: Seq<char>|
        #[trigger] u.contains(d) <==> string_views(dirs@).contains(d)) && string_views(out@)
        == u.map_values(|d: Seq<char>| content_dir_glob(d)));
    out
}

} // verus!
