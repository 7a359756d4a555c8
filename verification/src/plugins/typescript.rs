//! TypeScript projects and their `tsconfig.json` files.
use vstd::prelude::*;

use super::str_list;
use crate::runtime_filter::joined_onto;
use crate::text::{chars_of, starts_with, str_eq, strip_prefix_all, string_from_chars};
use crate::walkthrough::{extension_of, file_name_of};

verus! {

/// Built-in plugin for TypeScript projects.
pub struct TypeScriptPlugin;

impl TypeScriptPlugin {
    /// The plugin's name.
    pub fn name(&self) -> (n: &'static str)
        ensures
            n@ == "typescript"@,
    {
        "typescript"
    }

    /// Packages whose presence activates the plugin.
    pub fn enablers(&self) -> (v: Vec<&'static str>)
        ensures
            v@ == seq!["typescript"],
    {
        str_list(&["typescript"])
    }

    /// The TypeScript config files.
    pub fn config_patterns(&self) -> (v: Vec<&'static str>)
        ensures
            v@ == seq!["tsconfig.json", "tsconfig.*.json"],
    {
        str_list(&["tsconfig.json", "tsconfig.*.json"])
    }

    /// Files that are always in use.
    pub fn always_used(&self) -> (v: Vec<&'static str>)
        ensures
            v@ == seq!["tsconfig.json", "tsconfig.*.json"],
    {
        str_list(&["tsconfig.json", "tsconfig.*.json"])
    }

    /// Packages used by the compiler toolchain rather than imported.
    pub fn tooling_dependencies(&self) -> (v: Vec<&'static str>)
        ensures
            v@ == seq!["typescript", "ts-node", "tsx", "ts-loader"],
    {
        str_list(&["typescript", "ts-node", "tsx", "ts-loader"])
    }
}

/// An `extends` value names a file (it starts with `.` or `/`) rather than a
/// package.
pub open spec fn extends_names_file(extends: Seq<char>) -> bool {
    extends.len() > 0 && (extends[0] == '.' || extends[0] == '/')
}

/// Whether an `extends` value names a file rather than a package.
pub fn is_local_extends(extends: &str) -> (b: bool)
    ensures
        b == extends_names_file(extends@),
{
    let c = chars_of(extends);
    c.len() > 0 && (c[0] == '.' || c[0] == '/')
}

/// The file that a local `extends` names: the value without its leading
/// `./` runs, joined onto the root.
pub fn local_extends_path(root: &str, extends: &str) -> (p: String)
    ensures
        p@ == joined_onto(root@, strip_prefix_all(extends@, "./"@)),
{
    let c = chars_of(extends);
    let t = crate::text::strip_prefix_all_chars(&c, "./");
    let ts = string_from_chars(&t);
    crate::runtime_filter::join_onto(root, ts.as_str())
}

/// The tsconfig a project reference points at: the reference path without
/// its leading `./` runs, joined onto the root, naming a `.json` file as it
/// is and a directory by its `tsconfig.json`.
pub open spec fn reference_target(root: Seq<char>, reference: Seq<char>) -> Seq<char> {
    let target = joined_onto(root, strip_prefix_all(reference, "./"@));
    if file_name_of(target) matches Some(n) && extension_of(n) == Some("json"@) {
        target
    } else {
        joined_onto(target, "tsconfig.json"@)
    }
}

/// The tsconfig that a `references[].path` entry points at.
pub fn tsconfig_reference_target(root: &str, reference: &str) -> (p: String)
    ensures
        p@ == reference_target(root@, reference@),
{
    let target = local_extends_path(root, reference);
    let is_json = match crate::walkthrough::file_extension(target.as_str()) {
        Some(e) => str_eq(e.as_str(), "json"),
        None => false,
    };
    if is_json {
        target
    } else {
        crate::runtime_filter::join_onto(target.as_str(), "tsconfig.json")
    }
}

} // verus!
