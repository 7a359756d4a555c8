//! Supabase Edge Functions projects.
use vstd::prelude::*;

use super::str_list;
use super::{deps_include_any, has_any_dep};

verus! {

/// Built-in plugin for supabase Edge Functions projects.
pub struct SupabasePlugin;

impl SupabasePlugin {
    /// The plugin's name.
    pub fn name(&self) -> (n: &'static str)
        ensures
            n@ == "supabase"@,
    {
        "supabase"
    }

    /// Packages whose presence activates the plugin.
    pub fn enablers(&self) -> (v: Vec<&'static str>)
        ensures
            v@ == seq![
                "supabase",
            ],
    {
        str_list(&[
            "supabase",
        ])
    }

    /// The per-function entry files.
    pub fn entry_patterns(&self) -> (v: Vec<&'static str>)
        ensures
            v@ == seq![
                "supabase/functions/*/index.{ts,tsx,js,jsx,mts,mjs,cts,cjs}",
            ],
    {
        str_list(&[
            "supabase/functions/*/index.{ts,tsx,js,jsx,mts,mjs,cts,cjs}",
        ])
    }

    /// The Supabase CLI, invoked from scripts.
    pub fn tooling_dependencies(&self) -> (v: Vec<&'static str>)
        ensures
            v@ == seq![
                "supabase",
            ],
    {
        str_list(&[
            "supabase",
        ])
    }

    /// Activates on the `supabase` dependency, or when `supabase/config.toml`
    /// is a file, or `supabase/functions` is a directory, under the root.
    pub fn is_enabled_with_deps(&self, deps: &Vec<String>, config_toml_is_file: bool, functions_is_dir: bool) -> (b: bool)
        ensures
            b == (has_any_dep(deps@, seq!["supabase"]) || config_toml_is_file || functions_is_dir),
    {
        let names: [&str; 1] = ["supabase"];
        assert(names@ =~= seq!["supabase"]);
        deps_include_any(deps, &names) || config_toml_is_file || functions_is_dir
    }

    /// The plugin parses no config file.
    pub fn config_patterns(&self) -> (v: Vec<&'static str>)
        ensures
            v@.len() == 0,
    {
        Vec::new()
    }
}

} // verus!
