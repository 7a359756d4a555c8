//! Mintlify documentation sites.
use vstd::prelude::*;

use super::str_list;
use super::{deps_include_any, has_any_dep};

verus! {

/// The docs content that a Mintlify config at `config_path` keeps alive.
pub open spec fn docs_content_patterns(config_path: Seq<char>, root: Seq<char>) -> Seq<Seq<char>> {
    match crate::path_order::relative_parent_of(config_path, root) {
        Some(rel) => {
            let t = crate::text::strip_trailing(
                crate::text::strip_leading(crate::runtime_filter::forward_slashes(rel), '/'),
                '/',
            );
            if t.len() == 0 {
                seq!["**/*.{md,mdx}"@]
            } else {
                seq![t + "/**/*.{md,mdx}"@]
            }
        },
        None => Seq::empty(),
    }
}

/// Built-in plugin for mintlify documentation sites.
pub struct MintlifyPlugin;

impl MintlifyPlugin {
    /// The plugin's name.
    pub fn name(&self) -> (n: &'static str)
        ensures
            n@ == "mintlify"@,
    {
        "mintlify"
    }

    /// Packages whose presence activates the plugin.
    pub fn enablers(&self) -> (v: Vec<&'static str>)
        ensures
            v@ == seq![
                "mint",
                "mintlify",
            ],
    {
        str_list(&[
            "mint",
            "mintlify",
        ])
    }

    /// Config files the plugin reads.
    pub fn config_patterns(&self) -> (v: Vec<&'static str>)
        ensures
            v@ == seq![
                "docs.json",
                "mint.json",
            ],
    {
        str_list(&[
            "docs.json",
            "mint.json",
        ])
    }

    /// Files that are always in use.
    pub fn always_used(&self) -> (v: Vec<&'static str>)
        ensures
            v@ == seq![
                "docs.json",
                "mint.json",
            ],
    {
        str_list(&[
            "docs.json",
            "mint.json",
        ])
    }

    /// The Mintlify CLI packages.
    pub fn tooling_dependencies(&self) -> (v: Vec<&'static str>)
        ensures
            v@ == seq![
                "mint",
                "mintlify",
            ],
    {
        str_list(&[
            "mint",
            "mintlify",
        ])
    }

    /// Activates on a Mintlify dependency, or when `docs.json` or `mint.json`
    /// is a file at the root.
    pub fn is_enabled_with_deps(&self, deps: &Vec<String>, docs_json_is_file: bool, mint_json_is_file: bool) -> (b: bool)
        ensures
            b == (has_any_dep(deps@, seq!["mint", "mintlify"]) || docs_json_is_file || mint_json_is_file),
    {
        let names: [&str; 2] = ["mint", "mintlify"];
        assert(names@ =~= seq!["mint", "mintlify"]);
        deps_include_any(deps, &names) || docs_json_is_file || mint_json_is_file
    }

    /// The content of the docs site: every `{md,mdx}` file below the config
    /// file's directory, relative to the root; nothing for a config outside
    /// the root.
    pub fn resolve_config(&self, config_path: &str, root: &str) -> (patterns: Vec<String>)
        ensures
            crate::text::string_views(patterns@) == docs_content_patterns(config_path@, root@),
    {
        let mut out: Vec<String> = Vec::new();
        let rel = match crate::path_order::relative_parent(config_path, root) {
            Some(r) => r,
            None => {
                assert(crate::text::string_views(out@) =~= Seq::<Seq<char>>::empty());
                return out;
            },
        };
        let c = crate::text::chars_of(rel.as_str());
        let fwd = crate::runtime_filter::forward_slashes_of(&c);
        let fc = crate::text::chars_of(fwd.as_str());
        let lead = crate::text::strip_leading_chars(&fc, '/');
        let t = crate::text::strip_trailing_chars(&lead, '/');
        let mut p = t;
        if p.len() == 0 {
            p = crate::text::chars_of("**/*.{md,mdx}");
        } else {
            crate::text::push_str(&mut p, "/**/*.{md,mdx}");
        }
        out.push(crate::text::string_from_chars(&p));
        assert(crate::text::string_views(out@) =~= seq![p@]);
        out
    }
}

} // verus!
