//! Pinia stores auto-imported by Nuxt.
use vstd::prelude::*;

use super::str_list;
use crate::text::{chars_of, chars_end_with_str, chars_start_with_str, lower_seq, starts_with, ends_with};
use crate::walkthrough::{extension_of, file_name_of};
use super::{deps_include_any, has_any_dep};

verus! {

/// Built-in plugin for pinia stores auto-imported by Nuxt.
pub struct PiniaPlugin;

impl PiniaPlugin {
    /// The plugin's name.
    pub fn name(&self) -> (n: &'static str)
        ensures
            n@ == "pinia"@,
    {
        "pinia"
    }

    /// Packages whose presence activates the plugin.
    pub fn enablers(&self) -> (v: Vec<&'static str>)
        ensures
            v@ == seq![
                "@pinia/nuxt",
            ],
    {
        str_list(&[
            "@pinia/nuxt",
        ])
    }

    /// Activates when a dependency is one of the enabling packages.
    pub fn is_enabled_with_deps(&self, deps: &Vec<String>) -> (b: bool)
        ensures
            b == has_any_dep(deps@, seq!["@pinia/nuxt"]),
    {
        let names: [&str; 1] = ["@pinia/nuxt"];
        assert(names@ =~= seq!["@pinia/nuxt"]);
        deps_include_any(deps, &names)
    }
}

/// Extensions of store modules, compared without regard to ASCII case.
pub open spec fn store_extensions() -> Seq<Seq<char>> {
    seq!["ts"@, "tsx"@, "js"@, "jsx"@, "mts"@, "cts"@, "mjs"@, "cjs"@]
}

/// Whether a path's extension is a store module extension, ignoring ASCII case.
pub fn has_store_extension(path: &str) -> (b: bool)
    ensures
        b == (file_name_of(path@) matches Some(n) && (extension_of(n) matches Some(e)
            && store_extensions().contains(lower_seq(e)))),
{
    let ext = match crate::walkthrough::file_extension(path) {
        Some(e) => e,
        None => {
            return false;
        },
    };
    let e = chars_of(ext.as_str());
    let low = crate::text::lower_range(&e, 0, e.len());
    assert(e@.subrange(0, e@.len() as int) =~= e@);
    assert(low@ == lower_seq(ext@));
    let exts: [&str; 8] = ["ts", "tsx", "js", "jsx", "mts", "cts", "mjs", "cjs"];
    assert(exts@.map_values(|x: &str| x@) =~= store_extensions());
    let mut i: usize = 0;
    while i < 8
        invariant
            i <= 8,
            exts@.map_values(|x: &str| x@) == store_extensions(),
            forall|k: int| 0 <= k < i ==> store_extensions()[k] != low@,
            low@ == lower_seq(ext@),
            file_name_of(path@) matches Some(n) && extension_of(n) == Some(ext@),
        decreases 8 - i,
    {
        assert(exts@[i as int]@ == store_extensions()[i as int]);
        if crate::text::chars_eq_str(&low, exts[i]) {
            assert(store_extensions()[i as int] == low@);
            assert(store_extensions().contains(low@));
            return true;
        }
        i = i + 1;
    }
    false
}

/// Whether an export name is a store hook: `use...Store` with something in
/// between.
pub fn is_store_export_name(name: &str) -> (b: bool)
    ensures
        b == (starts_with(name@, "use"@) && ends_with(name@, "Store"@)
            && (vstd::utf8::encode_utf8(name@).len() as usize) > 8),
{
    let c = chars_of(name);
    proof {
        assert(vstd::string::StringSliceAdditionalSpecFns::spec_bytes(name) == vstd::utf8::encode_utf8(name@));
    }
    chars_start_with_str(&c, "use") && chars_end_with_str(&c, "Store") && name.len() > 8
}

/// How an auto-imported name is bound.
#[derive(Clone, Copy, Debug, PartialEq, Eq, Structural)]
pub enum AutoImportKind {
    Named,
}

/// A name that a framework makes available without an import, and the
/// module that provides it.
#[derive(Clone, Debug)]
pub struct AutoImportRule {
    pub name: String,
    pub source: String,
    pub kind: AutoImportKind,
}

/// An export of a store module: its name (none for a default export) and
/// whether it exports only a type.
#[derive(Clone, Debug)]
pub struct StoreModuleExport {
    pub name: Option<String>,
    pub is_type_only: bool,
}

pub open spec fn auto_import_view(r: AutoImportRule) -> (Seq<char>, Seq<char>, AutoImportKind) {
    (r.name@, r.source@, r.kind)
}

/// Some rule already binds `name` from the module at `source`.
pub open spec fn has_store_rule(rules: Seq<AutoImportRule>, name: Seq<char>, source: Seq<char>) -> bool {
    exists|i: int|
        0 <= i < rules.len() && (#[trigger] rules[i]).name@ == name
            && crate::path_order::same_path(rules[i].source@, source) && rules[i].kind == AutoImportKind::Named
}

/// Adds the named store `name` from `source`, unless a rule already binds
/// it from that module.
pub fn push_store_rule(rules: &mut Vec<AutoImportRule>, name: String, source: String)
    ensures
        has_store_rule(old(rules)@, name@, source@) ==> final(rules)@ == old(rules)@,
        !has_store_rule(old(rules)@, name@, source@) ==> final(rules)@.len() == old(rules)@.len() + 1
            && final(rules)@.take(old(rules)@.len() as int) == old(rules)@ && auto_import_view(
            final(rules)@.last(),
        ) == (name@, source@, AutoImportKind::Named),
{
    let mut i: usize = 0;
    while i < rules.len()
        invariant
            i <= rules@.len(),
            forall|q: int|
                0 <= q < i ==> !((#[trigger] rules@[q]).name@ == name@ && crate::path_order::same_path(
                    rules@[q].source@,
                    source@,
                ) && rules@[q].kind == AutoImportKind::Named),
        decreases rules@.len() - i,
    {
        let r = &rules[i];
        let named = match r.kind {
            AutoImportKind::Named => true,
        };
        if crate::text::str_eq(r.name.as_str(), name.as_str()) && crate::path_order::path_eq(
            r.source.as_str(),
            source.as_str(),
        ) && named {
            return;
        }
        i = i + 1;
    }
    let ghost before = rules@;
    rules.push(AutoImportRule { name, source, kind: AutoImportKind::Named });
    assert(rules@.take(before.len() as int) =~= before);
}

/// A store export: a value export whose name is a store hook.
pub open spec fn is_store_export(e: StoreModuleExport) -> bool {
    !e.is_type_only && (e.name matches Some(n) && starts_with(n@, "use"@) && ends_with(n@, "Store"@)
        && (vstd::utf8::encode_utf8(n@).len() as usize) > 8)
}

/// The rule binds, from `path`, the name of a store export of `exports`.
#[verifier::opaque]
pub open spec fn rule_for_store_export(
    exports: Seq<StoreModuleExport>,
    path: Seq<char>,
    r: AutoImportRule,
) -> bool {
    exists|k: int|
        0 <= k < exports.len() && is_store_export(#[trigger] exports[k]) && r.name@
            == exports[k].name.unwrap()@ && r.source@ == path && r.kind == AutoImportKind::Named
}

/// Adds a rule for each store export of the module at `path`, in order,
/// skipping names that a rule already binds from that module.
pub fn push_store_exports(rules: &mut Vec<AutoImportRule>, path: &str, exports: &Vec<StoreModuleExport>)
    ensures
        forall|k: int|
            0 <= k < exports@.len() && is_store_export(#[trigger] exports@[k]) ==> has_store_rule(
                final(rules)@,
                exports@[k].name.unwrap()@,
                path@,
            ),
        forall|i: int| 0 <= i < old(rules)@.len() ==> final(rules)@[i] == old(rules)@[i],
        forall|i: int|
            old(rules)@.len() <= i < final(rules)@.len() ==> rule_for_store_export(
                exports@,
                path@,
                #[trigger] final(rules)@[i],
            ),
{
    let ghost start = rules@;
    let mut k: usize = 0;
    while k < exports.len()
        invariant
            k <= exports@.len(),
            start.len() <= rules@.len(),
            forall|i: int| 0 <= i < start.len() ==> rules@[i] == start[i],
            forall|q: int|
                0 <= q < k && is_store_export(#[trigger] exports@[q]) ==> has_store_rule(
                    rules@,
                    exports@[q].name.unwrap()@,
                    path@,
                ),
            forall|i: int|
                start.len() <= i < rules@.len() ==> rule_for_store_export(exports@, path@, #[trigger] rules@[i]),
            start == old(rules)@,
        decreases exports@.len() - k,
    {
        let e = &exports[k];
        if !e.is_type_only {
            if let Some(n) = &e.name {
                if is_store_export_name(n.as_str()) {
                    let ghost before = rules@;
                    push_store_rule(rules, crate::text::string_of(n.as_str()), crate::text::string_of(path));
                    proof {
                        if rules@.len() > before.len() {
                            assert forall|i: int| 0 <= i < before.len() implies rules@[i] == before[i] by {
                                assert(rules@.take(before.len() as int)[i] == rules@[i]);
                            }
                            assert(crate::path_order::same_path(path@, path@));
                            assert(has_store_rule(rules@, n@, path@)) by {
                                assert(rules@[before.len() as int] == rules@.last());
                            }
                        }
                        assert forall|q: int|
                            0 <= q < k + 1 && is_store_export(#[trigger] exports@[q]) implies has_store_rule(
                                rules@,
                                exports@[q].name.unwrap()@,
                                path@,
                            ) by {
                            if q < k {
                                let nm = exports@[q].name.unwrap()@;
                                assert(has_store_rule(before, nm, path@));
                                let w = choose|w: int|
                                    0 <= w < before.len() && (#[trigger] before[w]).name@ == nm
                                        && crate::path_order::same_path(before[w].source@, path@)
                                        && before[w].kind == AutoImportKind::Named;
                                assert(rules@[w] == before[w]);
                            } else {
                                assert(exports@[q] == *e);
                            }
                        }
                        assert forall|i: int|
                            start.len() <= i < rules@.len() implies rule_for_store_export(
                                exports@,
                                path@,
                                #[trigger] rules@[i],
                            ) by {
                            if i < before.len() {
                                assert(rules@[i] == before[i]);
                            } else {
                                reveal(rule_for_store_export);
                                assert(exports@[k as int] == *e);
                                assert(is_store_export(exports@[k as int]));
                            }
                        }
                    }
                }
            }
        }
        k = k + 1;
    }
}

} // verus!
