//! Vercel deployments configured in code.
use vstd::prelude::*;

use super::str_list;

verus! {

/// Built-in plugin for Vercel deployments.
pub struct VercelPlugin;

impl VercelPlugin {
    /// The plugin's name.
    pub fn name(&self) -> (n: &'static str)
        ensures
            n@ == "vercel"@,
    {
        "vercel"
    }

    /// Packages whose presence activates the plugin.
    pub fn enablers(&self) -> (v: Vec<&'static str>)
        ensures
            v@ == seq!["vercel", "@vercel/config"],
    {
        str_list(&["vercel", "@vercel/config"])
    }

    /// The Vercel config files.
    pub fn config_patterns(&self) -> (v: Vec<&'static str>)
        ensures
            v@ == seq!["vercel.{ts,js,mjs,cjs,mts}"],
    {
        str_list(&["vercel.{ts,js,mjs,cjs,mts}"])
    }

    /// Files that are always in use.
    pub fn always_used(&self) -> (v: Vec<&'static str>)
        ensures
            v@ == seq!["vercel.{ts,js,mjs,cjs,mts}"],
    {
        str_list(&["vercel.{ts,js,mjs,cjs,mts}"])
    }

    /// The Vercel CLI and config packages.
    pub fn tooling_dependencies(&self) -> (v: Vec<&'static str>)
        ensures
            v@ == seq!["vercel", "@vercel/config"],
    {
        str_list(&["vercel", "@vercel/config"])
    }
}

} // verus!
