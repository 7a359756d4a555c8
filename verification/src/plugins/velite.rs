//! Velite content pipelines.
use vstd::prelude::*;

use super::str_list;
use super::{deps_include_any, has_any_dep};

verus! {

/// Built-in plugin for velite content pipelines.
pub struct VelitePlugin;

impl VelitePlugin {
    /// The plugin's name.
    pub fn name(&self) -> (n: &'static str)
        ensures
            n@ == "velite"@,
    {
        "velite"
    }

    /// Packages whose presence activates the plugin.
    pub fn enablers(&self) -> (v: Vec<&'static str>)
        ensures
            v@ == seq![
                "velite",
            ],
    {
        str_list(&[
            "velite",
        ])
    }

    /// Config files the plugin reads.
    pub fn config_patterns(&self) -> (v: Vec<&'static str>)
        ensures
            v@ == seq![
                "velite.config.{ts,mts,cts,js,mjs,cjs}",
            ],
    {
        str_list(&[
            "velite.config.{ts,mts,cts,js,mjs,cjs}",
        ])
    }

    /// Files that are always in use.
    pub fn always_used(&self) -> (v: Vec<&'static str>)
        ensures
            v@ == seq![
                "velite.config.{ts,mts,cts,js,mjs,cjs}",
                ".velite/**",
            ],
    {
        str_list(&[
            "velite.config.{ts,mts,cts,js,mjs,cjs}",
            ".velite/**",
        ])
    }

    /// Hidden directories that discovery enters.
    pub fn discovery_hidden_dirs(&self) -> (v: Vec<&'static str>)
        ensures
            v@ == seq![
                ".velite",
            ],
    {
        str_list(&[
            ".velite",
        ])
    }

    /// The Velite CLI.
    pub fn tooling_dependencies(&self) -> (v: Vec<&'static str>)
        ensures
            v@ == seq![
                "velite",
            ],
    {
        str_list(&[
            "velite",
        ])
    }

    /// Activates on one of the enabling packages, or when a `velite.config.*` file exists
    /// at the root (the caller checks each config extension).
    pub fn is_enabled_with_deps(&self, deps: &Vec<String>, config_file_exists: bool) -> (b: bool)
        ensures
            b == (has_any_dep(deps@, seq!["velite"]) || config_file_exists),
    {
        let names: [&str; 1] = ["velite"];
        assert(names@ =~= seq!["velite"]);
        deps_include_any(deps, &names) || config_file_exists
    }
}

/// The content patterns of a collection that count: not negated, without
/// leading `./` runs, and not empty.
pub open spec fn positive_patterns(ps: Seq<Seq<char>>) -> Seq<Seq<char>>
    decreases ps.len(),
{
    if ps.len() == 0 {
        Seq::empty()
    } else {
        let init = positive_patterns(ps.drop_last());
        let p = ps.last();
        let t = crate::text::strip_prefix_all(p, "./"@);
        if (p.len() > 0 && p[0] == '!') || t.len() == 0 {
            init
        } else {
            init.push(t)
        }
    }
}

/// The entry patterns of the content under `root_dir`: each positive
/// pattern below it, or all content files below it when there is none.
pub open spec fn content_patterns_of(root_dir: Seq<char>, ps: Seq<Seq<char>>) -> Seq<Seq<char>> {
    let pos = positive_patterns(ps);
    if pos.len() == 0 {
        seq![root_dir + "/**/*.{md,mdx,yml,yaml,json}"@]
    } else {
        pos.map_values(|p: Seq<char>| root_dir + "/"@ + p)
    }
}

/// The entry patterns of the content that Velite reads from `root_dir`,
/// given the collections' patterns.
pub fn content_entry_patterns(root_dir: &str, patterns: &Vec<String>) -> (r: Vec<String>)
    ensures
        crate::text::string_views(r@) == content_patterns_of(
            root_dir@,
            crate::text::string_views(patterns@),
        ),
{
    let ghost ps = crate::text::string_views(patterns@);
    let mut pos: Vec<Vec<char>> = Vec::new();
    let mut i: usize = 0;
    assert(ps.take(0) =~= Seq::<Seq<char>>::empty());
    while i < patterns.len()
        invariant
            i <= patterns@.len(),
            ps == crate::text::string_views(patterns@),
            crate::text::vec_views(pos@) == positive_patterns(ps.take(i as int)),
        decreases patterns@.len() - i,
    {
        assert(ps.take(i + 1).drop_last() =~= ps.take(i as int));
        assert(ps.take(i + 1).last() == patterns@[i as int]@);
        let c = crate::text::chars_of(patterns[i].as_str());
        let t = crate::text::strip_prefix_all_chars(&c, "./");
        if !(c.len() > 0 && c[0] == '!') && t.len() > 0 {
            let ghost before = crate::text::vec_views(pos@);
            pos.push(t);
            assert(crate::text::vec_views(pos@) =~= before.push(t@));
        }
        i = i + 1;
    }
    assert(ps.take(i as int) =~= ps);
    let mut out: Vec<String> = Vec::new();
    if pos.len() == 0 {
        let mut c = crate::text::chars_of(root_dir);
        crate::text::push_str(&mut c, "/**/*.{md,mdx,yml,yaml,json}");
        out.push(crate::text::string_from_chars(&c));
        assert(crate::text::string_views(out@) =~= seq![root_dir@ + "/**/*.{md,mdx,yml,yaml,json}"@]);
        return out;
    }
    let ghost pv = crate::text::vec_views(pos@);
    let mut k: usize = 0;
    while k < pos.len()
        invariant
            k <= pos@.len(),
            pv == crate::text::vec_views(pos@),
            crate::text::string_views(out@) == pv.take(k as int).map_values(
                |p: Seq<char>| root_dir@ + "/"@ + p,
            ),
        decreases pos@.len() - k,
    {
        let ghost before = crate::text::string_views(out@);
        let mut c = crate::text::chars_of(root_dir);
        crate::text::push_str(&mut c, "/");
        crate::text::push_chars(&mut c, &pos[k]);
        out.push(crate::text::string_from_chars(&c));
        assert(crate::text::string_views(out@) =~= before.push(root_dir@ + "/"@ + pv[k as int]));
        assert(pv.take(k + 1).map_values(|p: Seq<char>| root_dir@ + "/"@ + p) =~= pv.take(
            k as int,
        ).map_values(|p: Seq<char>| root_dir@ + "/"@ + p).push(root_dir@ + "/"@ + pv[k as int]));
        k = k + 1;
    }
    assert(pv.take(k as int) =~= pv);
    out
}

/// Whether a configured `output.data` is other than Velite's default
/// `.velite` (leading `./` runs aside), so its output must be kept.
pub fn is_custom_output_dir(raw: &str) -> (b: bool)
    ensures
        b == (crate::text::strip_prefix_all(raw@, "./"@) != ".velite"@),
{
    let c = crate::text::chars_of(raw);
    let t = crate::text::strip_prefix_all_chars(&c, "./");
    !crate::text::chars_eq_str(&t, ".velite")
}

/// Whether an import of the config names a package to credit: not empty,
/// and neither relative nor absolute.
pub fn is_package_import(package_name: &str) -> (b: bool)
    ensures
        b == (package_name@.len() > 0 && package_name@[0] != '.' && package_name@[0] != '/'),
{
    let c = crate::text::chars_of(package_name);
    c.len() > 0 && c[0] != '.' && c[0] != '/'
}

} // verus!
