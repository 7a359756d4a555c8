//! Nx workspaces: the plugin's conventions, the expansion of Nx path
//! tokens, and what a `project.json` contributes.
use vstd::prelude::*;

use super::str_list;
use crate::text::{chars_of, matches_at, occurs_at, push_chars, string_from_chars, string_views, strip_prefix_all};

verus! {

/// `s` with every occurrence of `pat` (left to right, not overlapping)
/// replaced by `rep`, as `str::replace` does for a non-empty pattern.
pub open spec fn replaced(s: Seq<char>, pat: Seq<char>, rep: Seq<char>) -> Seq<char>
    decreases s.len(),
{
    if s.len() == 0 {
        s
    } else if pat.len() > 0 && occurs_at(s, 0, pat) {
        rep + replaced(s.skip(pat.len() as int), pat, rep)
    } else {
        seq![s[0]] + replaced(s.drop_first(), pat, rep)
    }
}

fn replace_all(s: &Vec<char>, pat: &str, rep: &Vec<char>) -> (r: Vec<char>)
    requires
        pat@.len() > 0,
    ensures
        r@ == replaced(s@, pat@, rep@),
{
    let p = chars_of(pat);
    let mut out: Vec<char> = Vec::new();
    let mut i: usize = 0;
    assert(s@.skip(0) =~= s@);
    assert(out@ + s@ =~= s@);
    while i < s.len()
        invariant
            i <= s@.len(),
            p@ == pat@,
            p@.len() > 0,
            out@ + replaced(s@.skip(i as int), pat@, rep@) == replaced(s@, pat@, rep@),
        decreases s@.len() - i,
    {
        let ghost rest = s@.skip(i as int);
        if matches_at(s, i, &p) {
            assert(occurs_at(rest, 0, p@)) by {
                assert(rest.subrange(0, p@.len() as int) =~= s@.subrange(i as int, i + p@.len()));
            }
            assert(rest.skip(p@.len() as int) =~= s@.skip(i + p@.len()));
            let ghost before = out@;
            push_chars(&mut out, rep);
            assert(out@ + replaced(s@.skip(i + p@.len()), pat@, rep@) =~= before + (rep@ + replaced(
                rest.skip(p@.len() as int),
                pat@,
                rep@,
            )));
            i = i + p.len();
        } else {
            assert(!occurs_at(rest, 0, p@)) by {
                if i + p@.len() <= s@.len() {
                    assert(rest.subrange(0, p@.len() as int) =~= s@.subrange(i as int, i + p@.len()));
                }
            }
            assert(rest.drop_first() =~= s@.skip(i + 1));
            let ghost before = out@;
            out.push(s[i]);
            assert(out@ + replaced(s@.skip(i + 1), pat@, rep@) =~= before + (seq![rest[0]]
                + replaced(rest.drop_first(), pat@, rep@)));
            i = i + 1;
        }
    }
    assert(s@.skip(i as int) =~= Seq::<char>::empty());
    assert(out@ + Seq::<char>::empty() =~= out@);
    out
}

/// The expansion of Nx tokens in a path: `{projectRoot}` becomes the
/// project's root (and with an empty root, `{projectRoot}/` and
/// `{projectRoot}` vanish); then `{workspaceRoot}/` and `{workspaceRoot}`
/// vanish, paths being relative to the workspace root already. A path
/// without `{` is left as it is.
pub open spec fn nx_expanded(path: Seq<char>, project_root: Seq<char>) -> Seq<char> {
    if !path.contains('{') {
        path
    } else {
        let r = if project_root.len() == 0 {
            replaced(replaced(path, "{projectRoot}/"@, Seq::empty()), "{projectRoot}"@, Seq::empty())
        } else {
            replaced(path, "{projectRoot}"@, project_root)
        };
        replaced(replaced(r, "{workspaceRoot}/"@, Seq::empty()), "{workspaceRoot}"@, Seq::empty())
    }
}

/// Expands Nx path tokens relative to a project root.
pub fn expand_nx_tokens(path: &str, project_root_rel: &str) -> (r: String)
    ensures
        r@ == nx_expanded(path@, project_root_rel@),
{
    let p = chars_of(path);
    if !crate::text::has_char(&p, '{') {
        return crate::text::string_of(path);
    }
    proof {
        reveal_strlit("{projectRoot}/");
        reveal_strlit("{projectRoot}");
        reveal_strlit("{workspaceRoot}/");
        reveal_strlit("{workspaceRoot}");
    }
    let empty: Vec<char> = Vec::new();
    let root = chars_of(project_root_rel);
    let r = if root.len() == 0 {
        let a = replace_all(&p, "{projectRoot}/", &empty);
        replace_all(&a, "{projectRoot}", &empty)
    } else {
        replace_all(&p, "{projectRoot}", &root)
    };
    let b = replace_all(&r, "{workspaceRoot}/", &empty);
    let c = replace_all(&b, "{workspaceRoot}", &empty);
    assert(empty@ =~= Seq::<char>::empty());
    string_from_chars(&c)
}

/// Built-in plugin for Nx workspaces.
pub struct NxPlugin;

impl NxPlugin {
    /// The plugin's name.
    pub fn name(&self) -> (n: &'static str)
        ensures
            n@ == "nx"@,
    {
        "nx"
    }

    /// Packages whose presence activates the plugin.
    pub fn enablers(&self) -> (v: Vec<&'static str>)
        ensures
            v@ == seq!["nx"],
    {
        str_list(&["nx"])
    }

    /// The project config files.
    pub fn config_patterns(&self) -> (v: Vec<&'static str>)
        ensures
            v@ == seq!["**/project.json"],
    {
        str_list(&["**/project.json"])
    }

    /// Files that are always in use.
    pub fn always_used(&self) -> (v: Vec<&'static str>)
        ensures
            v@ == seq!["nx.json", "**/project.json"],
    {
        str_list(&["nx.json", "**/project.json"])
    }

    /// Nx and its plugins, invoked through executors rather than imports.
    pub fn tooling_dependencies(&self) -> (v: Vec<&'static str>)
        ensures
            v@ == seq!["nx", "@nx/workspace", "@nx/js", "@nx/react", "@nx/next", "@nx/node", "@nx/web", "@nx/vite", "@nx/jest", "@nx/eslint", "@nx/angular", "@nx/storybook", "@nx/webpack", "@nx/cypress", "@nx/playwright", "@nx/rollup", "@nx/esbuild", "@nx/rspack", "@nx/express", "@nx/nest"],
    {
        str_list(&["nx", "@nx/workspace", "@nx/js", "@nx/react", "@nx/next", "@nx/node", "@nx/web", "@nx/vite", "@nx/jest", "@nx/eslint", "@nx/angular", "@nx/storybook", "@nx/webpack", "@nx/cypress", "@nx/playwright", "@nx/rollup", "@nx/esbuild", "@nx/rspack", "@nx/express", "@nx/nest"])
    }
}

/// The strings of a `project.json` that the plugin reads, as its config
/// extractor finds them under `targets`.
#[derive(Clone, Debug)]
pub struct NxProjectStrings {
    /// Each target's `executor`.
    pub executors: Vec<String>,
    /// The targets' `options.main`, then their `options.browser`.
    pub mains: Vec<String>,
    /// The targets' `options.styles`, then their `options.scripts`.
    pub assets: Vec<String>,
    /// The targets' `options.tsConfig`.
    pub tsconfigs: Vec<String>,
    /// The targets' `options.stylePreprocessorOptions.includePaths`.
    pub include_paths: Vec<String>,
}

/// What a `project.json` contributes.
#[derive(Clone, Debug)]
pub struct NxProjectResult {
    pub referenced_dependencies: Vec<String>,
    pub entry_patterns: Vec<String>,
    pub always_used_files: Vec<String>,
    /// The include paths, joined onto the workspace root; those that are
    /// directories are SCSS include paths.
    pub scss_include_candidates: Vec<String>,
}

/// The package of an executor: what precedes its first `:`.
pub open spec fn executor_package(e: Seq<char>) -> Seq<char> {
    crate::text::split_on(e, ':')[0]
}

/// The packages of the executors, those that are not empty.
pub open spec fn executor_packages(es: Seq<Seq<char>>) -> Seq<Seq<char>>
    decreases es.len(),
{
    if es.len() == 0 {
        Seq::empty()
    } else {
        let init = executor_packages(es.drop_last());
        let p = executor_package(es.last());
        if p.len() > 0 {
            init.push(p)
        } else {
            init
        }
    }
}

/// A path of a `project.json`, with Nx tokens expanded and without leading
/// `./` runs.
pub open spec fn project_path(p: Seq<char>, project_root: Seq<char>) -> Seq<char> {
    strip_prefix_all(nx_expanded(p, project_root), "./"@)
}

/// The project's root relative to the workspace root: the config file's
/// directory, or empty when it lies outside the root.
pub open spec fn project_root_of(config_path: Seq<char>, root: Seq<char>) -> Seq<char> {
    match crate::path_order::relative_parent_of(config_path, root) {
        Some(r) => r,
        None => Seq::empty(),
    }
}

fn project_paths(ps: &Vec<String>, project_root: &str) -> (r: Vec<String>)
    ensures
        string_views(r@) == string_views(ps@).map_values(|p: Seq<char>| project_path(p, project_root@)),
{
    let ghost vs = string_views(ps@);
    let mut out: Vec<String> = Vec::new();
    let mut i: usize = 0;
    while i < ps.len()
        invariant
            i <= ps@.len(),
            vs == string_views(ps@),
            string_views(out@) == vs.take(i as int).map_values(|p: Seq<char>| project_path(p, project_root@)),
        decreases ps@.len() - i,
    {
        let ghost before = string_views(out@);
        let e = expand_nx_tokens(ps[i].as_str(), project_root);
        let c = chars_of(e.as_str());
        let t = crate::text::strip_prefix_all_chars(&c, "./");
        let ts = string_from_chars(&t);
        out.push(ts);
        assert(string_views(out@) =~= before.push(ts@));
        assert(vs.take(i + 1) =~= vs.take(i as int).push(vs[i as int]));
        i = i + 1;
    }
    assert(vs.take(i as int) =~= vs);
    out
}

/// What a `project.json` at `config_path` in the workspace at `root`
/// contributes: the packages of its executors as referenced dependencies,
/// its mains, browsers, styles and scripts as entry patterns, its tsconfigs
/// as always-used files, and its include paths under the root, each with Nx
/// tokens expanded against the project's root.
pub fn resolve_nx_project(config_path: &str, root: &str, strings: &NxProjectStrings) -> (r: NxProjectResult)
    ensures
        string_views(r.referenced_dependencies@) == executor_packages(string_views(strings.executors@)),
        string_views(r.entry_patterns@) == string_views(strings.mains@ + strings.assets@).map_values(
            |p: Seq<char>| project_path(p, project_root_of(config_path@, root@)),
        ),
        string_views(r.always_used_files@) == string_views(strings.tsconfigs@).map_values(
            |p: Seq<char>| project_path(p, project_root_of(config_path@, root@)),
        ),
        string_views(r.scss_include_candidates@) == string_views(strings.include_paths@).map_values(
            |p: Seq<char>| crate::runtime_filter::joined_onto(
                root@,
                project_path(p, project_root_of(config_path@, root@)),
            ),
        ),
{
    let mut deps: Vec<String> = Vec::new();
    let ghost es = string_views(strings.executors@);
    let mut i: usize = 0;
    assert(es.take(0) =~= Seq::<Seq<char>>::empty());
    while i < strings.executors.len()
        invariant
            i <= strings.executors@.len(),
            es == string_views(strings.executors@),
            string_views(deps@) == executor_packages(es.take(i as int)),
        decreases strings.executors@.len() - i,
    {
        assert(es.take(i + 1).drop_last() =~= es.take(i as int));
        assert(es.take(i + 1).last() == strings.executors@[i as int]@);
        let c = chars_of(strings.executors[i].as_str());
        let pieces = crate::text::split_chars(&c, ':');
        proof {
            crate::text::lemma_split_on_nonempty(c@, ':');
        }
        assert(crate::text::vec_views(pieces@)[0] == pieces@[0]@);
        if pieces[0].len() > 0 {
            let ghost before = string_views(deps@);
            let d = string_from_chars(&pieces[0]);
            deps.push(d);
            assert(string_views(deps@) =~= before.push(d@));
        }
        i = i + 1;
    }
    assert(es.take(i as int) =~= es);
    let prel = match crate::path_order::relative_parent(config_path, root) {
        Some(r) => r,
        None => crate::text::string_of(""),
    };
    proof {
        reveal_strlit("");
    }
    assert(prel@ == project_root_of(config_path@, root@));
    let mut entries = project_paths(&strings.mains, prel.as_str());
    let mut more = project_paths(&strings.assets, prel.as_str());
    let ghost ev = string_views(entries@);
    let ghost mv = string_views(more@);
    entries.append(&mut more);
    assert(string_views(entries@) =~= ev + mv);
    assert(string_views(strings.mains@ + strings.assets@) =~= string_views(strings.mains@) + string_views(strings.assets@));
    let always = project_paths(&strings.tsconfigs, prel.as_str());
    let incl = project_paths(&strings.include_paths, prel.as_str());
    let mut cands: Vec<String> = Vec::new();
    let ghost iv = string_views(incl@);
    let mut j: usize = 0;
    while j < incl.len()
        invariant
            j <= incl@.len(),
            iv == string_views(incl@),
            string_views(cands@) == iv.take(j as int).map_values(
                |p: Seq<char>| crate::runtime_filter::joined_onto(root@, p),
            ),
        decreases incl@.len() - j,
    {
        let ghost before = string_views(cands@);
        let x = crate::runtime_filter::join_onto(root, incl[j].as_str());
        cands.push(x);
        assert(string_views(cands@) =~= before.push(x@));
        assert(iv.take(j + 1) =~= iv.take(j as int).push(iv[j as int]));
        j = j + 1;
    }
    assert(iv.take(j as int) =~= iv);
    NxProjectResult {
        referenced_dependencies: deps,
        entry_patterns: entries,
        always_used_files: always,
        scss_include_candidates: cands,
    }
}

} // verus!
