//! Vite projects.
use vstd::prelude::*;

use super::str_list;
use crate::path_order::parent_text;
use crate::runtime_filter::joined_onto;
use crate::text::{lower_seq, string_views, strip_prefix_all};
use crate::walkthrough::{extension_of, file_name_of};

verus! {

/// Built-in plugin for Vite projects.
pub struct VitePlugin;

impl VitePlugin {
    /// The plugin's name.
    pub fn name(&self) -> (n: &'static str)
        ensures
            n@ == "vite"@,
    {
        "vite"
    }

    /// Packages whose presence activates the plugin.
    pub fn enablers(&self) -> (v: Vec<&'static str>)
        ensures
            v@ == seq!["vite", "rolldown-vite"],
    {
        str_list(&["vite", "rolldown-vite"])
    }

    /// The conventional entry files.
    pub fn entry_patterns(&self) -> (v: Vec<&'static str>)
        ensures
            v@ == seq!["src/main.{ts,tsx,js,jsx}", "src/index.{ts,tsx,js,jsx}", "index.html"],
    {
        str_list(&["src/main.{ts,tsx,js,jsx}", "src/index.{ts,tsx,js,jsx}", "index.html"])
    }

    /// The Vite config files.
    pub fn config_patterns(&self) -> (v: Vec<&'static str>)
        ensures
            v@ == seq!["vite.config.{ts,js,mts,mjs}"],
    {
        str_list(&["vite.config.{ts,js,mts,mjs}"])
    }

    /// Files that are always in use.
    pub fn always_used(&self) -> (v: Vec<&'static str>)
        ensures
            v@ == seq!["vite.config.{ts,js,mts,mjs}"],
    {
        str_list(&["vite.config.{ts,js,mts,mjs}"])
    }

    /// The bundler and its framework plugins.
    pub fn tooling_dependencies(&self) -> (v: Vec<&'static str>)
        ensures
            v@ == seq!["vite", "@vitejs/plugin-react", "@vitejs/plugin-vue"],
    {
        str_list(&["vite", "@vitejs/plugin-react", "@vitejs/plugin-vue"])
    }

    /// Import prefixes of modules that Vite plugins provide virtually.
    pub fn virtual_module_prefixes(&self) -> (v: Vec<&'static str>)
        ensures
            v@ == seq!["virtual:"],
    {
        str_list(&["virtual:"])
    }

    /// Exports of the config file that Vite reads.
    pub fn config_exports(&self) -> (v: Vec<&'static str>)
        ensures
            v@ == seq!["default"],
    {
        str_list(&["default"])
    }
}

/// Extensions of stylesheets, compared without regard to ASCII case.
pub open spec fn style_ext_names() -> Seq<Seq<char>> {
    seq!["css"@, "scss"@, "sass"@, "less"@, "stylus"@]
}

/// The extensions tried, in order, when resolving an extensionless style
/// import.
pub open spec fn candidate_exts() -> Seq<Seq<char>> {
    seq!["scss"@, "sass"@, "css"@, "less"@, "stylus"@]
}

/// The path's extension is a stylesheet's.
pub open spec fn has_style_ext(p: Seq<char>) -> bool {
    file_name_of(p) matches Some(n) && (extension_of(n) matches Some(e) && style_ext_names().contains(
        lower_seq(e),
    ))
}

/// `f` next to the imported path: joined onto its directory under the root,
/// or onto the root when it has none.
pub open spec fn with_parent(root: Seq<char>, p: Seq<char>, f: Seq<char>) -> Seq<char> {
    match parent_text(p) {
        Some(par) => if par.len() > 0 {
            joined_onto(joined_onto(root, par), f)
        } else {
            joined_onto(root, f)
        },
        None => joined_onto(root, f),
    }
}

/// The files tried for one extension: the name with it, the partial
/// (`_name`) with it, and the directory's `_index` and `index` with it.
pub open spec fn ext_candidates(root: Seq<char>, p: Seq<char>, name: Seq<char>, ext: Seq<char>) -> Seq<Seq<char>> {
    seq![
        with_parent(root, p, name + "."@ + ext),
        with_parent(root, p, "_"@ + name + "."@ + ext),
        joined_onto(joined_onto(root, p), "_index."@ + ext),
        joined_onto(joined_onto(root, p), "index."@ + ext),
    ]
}

pub open spec fn all_ext_candidates(root: Seq<char>, p: Seq<char>, name: Seq<char>, k: int) -> Seq<Seq<char>>
    decreases k,
{
    if k <= 0 {
        Seq::empty()
    } else {
        all_ext_candidates(root, p, name, k - 1) + ext_candidates(root, p, name, candidate_exts()[k - 1])
    }
}

/// The files whose existence makes an `additionalData` import local, in the
/// order they are tried: the path itself, then, for a path without a
/// stylesheet extension that has a file name, the candidates of each
/// extension.
pub open spec fn style_candidates_of(root: Seq<char>, p: Seq<char>) -> Seq<Seq<char>> {
    let exact = seq![joined_onto(root, p)];
    if has_style_ext(p) {
        exact
    } else {
        match file_name_of(p) {
            Some(name) => exact + all_ext_candidates(root, p, name, 5),
            None => exact,
        }
    }
}

fn push_joined(out: &mut Vec<String>, a: &str, b: &str)
    ensures
        string_views(final(out)@) == string_views(old(out)@).push(joined_onto(a@, b@)),
{
    let ghost before = string_views(out@);
    out.push(crate::runtime_filter::join_onto(a, b));
    assert(string_views(out@) =~= before.push(joined_onto(a@, b@)));
}

fn with_parent_of(root: &str, p: &str, f: &str) -> (r: String)
    ensures
        r@ == with_parent(root@, p@, f@),
{
    match crate::path_order::parent_of(p) {
        Some(par) => if crate::text::chars_of(par.as_str()).len() > 0 {
            let base = crate::runtime_filter::join_onto(root, par.as_str());
            crate::runtime_filter::join_onto(base.as_str(), f)
        } else {
            crate::runtime_filter::join_onto(root, f)
        },
        None => crate::runtime_filter::join_onto(root, f),
    }
}

/// The files to try, in order, to learn whether an `additionalData` style
/// import names a file of the project (`normalized` is relative to `root`).
pub fn local_style_candidates(root: &str, normalized: &str) -> (r: Vec<String>)
    ensures
        string_views(r@) == style_candidates_of(root@, normalized@),
{
    let mut out: Vec<String> = Vec::new();
    push_joined(&mut out, root, normalized);
    assert(string_views(out@) =~= seq![joined_onto(root@, normalized@)]);
    let style = match crate::walkthrough::file_extension(normalized) {
        Some(e) => {
            let c = crate::text::chars_of(e.as_str());
            let low = crate::text::lower_range(&c, 0, c.len());
            assert(c@.subrange(0, c@.len() as int) =~= c@);
            let names: [&str; 5] = ["css", "scss", "sass", "less", "stylus"];
            assert(names@.map_values(|x: &str| x@) =~= style_ext_names());
            let mut found = false;
            let mut i: usize = 0;
            while i < 5
                invariant
                    i <= 5,
                    names@.map_values(|x: &str| x@) == style_ext_names(),
                    found == exists|q: int| 0 <= q < i && style_ext_names()[q] == low@,
                decreases 5 - i,
            {
                assert(names@[i as int]@ == style_ext_names()[i as int]);
                if crate::text::chars_eq_str(&low, names[i]) {
                    found = true;
                }
                i = i + 1;
            }
            proof {
                if found {
                    let q = choose|q: int| 0 <= q < 5 && style_ext_names()[q] == low@;
                    assert(style_ext_names().contains(low@));
                }
                if style_ext_names().contains(low@) {
                    let q = choose|q: int| 0 <= q < style_ext_names().len() && style_ext_names()[q] == low@;
                }
            }
            found
        },
        None => false,
    };
    if style {
        return out;
    }
    let name = match crate::walkthrough::file_name(normalized) {
        Some(n) => n,
        None => {
            return out;
        },
    };
    let exts: [&str; 5] = ["scss", "sass", "css", "less", "stylus"];
    assert(exts@.map_values(|x: &str| x@) =~= candidate_exts());
    let exact = crate::runtime_filter::join_onto(root, normalized);
    let mut k: usize = 0;
    while k < 5
        invariant
            k <= 5,
            exts@.map_values(|x: &str| x@) == candidate_exts(),
            exact@ == joined_onto(root@, normalized@),
            file_name_of(normalized@) == Some(name@),
            string_views(out@) == seq![joined_onto(root@, normalized@)] + all_ext_candidates(
                root@,
                normalized@,
                name@,
                k as int,
            ),
        decreases 5 - k,
    {
        let ext = exts[k];
        assert(ext@ == candidate_exts()[k as int]);
        let ghost before = string_views(out@);
        let mut c1 = crate::text::chars_of(name.as_str());
        crate::text::push_str(&mut c1, ".");
        crate::text::push_str(&mut c1, ext);
        let f1 = crate::text::string_from_chars(&c1);
        let mut c2 = crate::text::chars_of("_");
        crate::text::push_str(&mut c2, name.as_str());
        crate::text::push_str(&mut c2, ".");
        crate::text::push_str(&mut c2, ext);
        let f2 = crate::text::string_from_chars(&c2);
        let mut c3 = crate::text::chars_of("_index.");
        crate::text::push_str(&mut c3, ext);
        let f3 = crate::text::string_from_chars(&c3);
        let mut c4 = crate::text::chars_of("index.");
        crate::text::push_str(&mut c4, ext);
        let f4 = crate::text::string_from_chars(&c4);
        out.push(with_parent_of(root, normalized, f1.as_str()));
        out.push(with_parent_of(root, normalized, f2.as_str()));
        push_joined(&mut out, exact.as_str(), f3.as_str());
        push_joined(&mut out, exact.as_str(), f4.as_str());
        assert(string_views(out@) =~= before + ext_candidates(root@, normalized@, name@, ext@));
        k = k + 1;
    }
    out
}
/// Whether an `additionalData` import names a package: its raw specifier is
/// neither relative, absolute nor a URL, and no local file answers it.
pub fn is_additional_data_package_import(raw: &str, local_candidate_exists: bool) -> (b: bool)
    ensures
        b == (!(raw@.len() > 0 && (raw@[0] == '.' || raw@[0] == '/')) && !raw@.contains(':')
            && !local_candidate_exists),
{
    let c = crate::text::chars_of(raw);
    if c.len() > 0 && (c[0] == '.' || c[0] == '/') {
        return false;
    }
    let mut i: usize = 0;
    while i < c.len()
        invariant
            i <= c@.len(),
            c@ == raw@,
            forall|q: int| 0 <= q < i ==> c@[q] != ':',
        decreases c@.len() - i,
    {
        if c[i] == ':' {
            assert(raw@[i as int] == ':');
            assert(raw@.contains(':'));
            return false;
        }
        i = i + 1;
    }
    !local_candidate_exists
}

/// The entry pattern of a local `additionalData` import: its normalized path
/// without leading `./` runs, unless that is empty, absolute, or a package.
pub fn additional_data_entry_pattern(normalized: &str, is_package_import: bool) -> (r: Option<String>)
    ensures
        ({
            let t = strip_prefix_all(normalized@, "./"@);
            match r {
                Some(p) => p@ == t && t.len() > 0 && t[0] != '/' && !is_package_import,
                None => t.len() == 0 || t[0] == '/' || is_package_import,
            }
        }),
{
    let c = crate::text::chars_of(normalized);
    let t = crate::text::strip_prefix_all_chars(&c, "./");
    if t.len() == 0 || t[0] == '/' || is_package_import {
        return None;
    }
    Some(crate::text::string_from_chars(&t))
}

} // verus!
