//! Angular applications and libraries.
use vstd::prelude::*;

use super::str_list;
use crate::text::str_eq;
use crate::walkthrough::file_name_of;

verus! {

/// Built-in plugin for angular applications and libraries.
pub struct AngularPlugin;

impl AngularPlugin {
    /// The plugin's name.
    pub fn name(&self) -> (n: &'static str)
        ensures
            n@ == "angular"@,
    {
        "angular"
    }

    /// Packages whose presence activates the plugin.
    pub fn enablers(&self) -> (v: Vec<&'static str>)
        ensures
            v@ == seq![
                "@angular/core",
                "ng-packagr",
            ],
    {
        str_list(&[
            "@angular/core",
            "ng-packagr",
        ])
    }

    /// Entry files of the Angular CLI and Nx layouts.
    pub fn entry_patterns(&self) -> (v: Vec<&'static str>)
        ensures
            v@ == seq![
                "src/main.ts",
                "src/app/**/*.component.ts",
                "src/app/**/*.module.ts",
                "src/app/**/*.service.ts",
                "src/app/**/*.guard.ts",
                "src/app/**/*.pipe.ts",
                "src/app/**/*.directive.ts",
                "src/app/**/*.resolver.ts",
                "src/app/**/*.interceptor.ts",
                "**/src/main.ts",
                "**/src/app/**/*.component.ts",
                "**/src/app/**/*.module.ts",
                "**/src/app/**/*.service.ts",
                "**/src/app/**/*.guard.ts",
                "**/src/app/**/*.pipe.ts",
                "**/src/app/**/*.directive.ts",
                "**/src/app/**/*.resolver.ts",
                "**/src/app/**/*.interceptor.ts",
            ],
    {
        str_list(&[
            "src/main.ts",
            "src/app/**/*.component.ts",
            "src/app/**/*.module.ts",
            "src/app/**/*.service.ts",
            "src/app/**/*.guard.ts",
            "src/app/**/*.pipe.ts",
            "src/app/**/*.directive.ts",
            "src/app/**/*.resolver.ts",
            "src/app/**/*.interceptor.ts",
            "**/src/main.ts",
            "**/src/app/**/*.component.ts",
            "**/src/app/**/*.module.ts",
            "**/src/app/**/*.service.ts",
            "**/src/app/**/*.guard.ts",
            "**/src/app/**/*.pipe.ts",
            "**/src/app/**/*.directive.ts",
            "**/src/app/**/*.resolver.ts",
            "**/src/app/**/*.interceptor.ts",
        ])
    }

    /// Config files the plugin reads.
    pub fn config_patterns(&self) -> (v: Vec<&'static str>)
        ensures
            v@ == seq![
                "angular.json",
                ".angular.json",
                "ng-package.json",
                "ng-package.prod.json",
            ],
    {
        str_list(&[
            "angular.json",
            ".angular.json",
            "ng-package.json",
            "ng-package.prod.json",
        ])
    }

    /// Files that are always in use.
    pub fn always_used(&self) -> (v: Vec<&'static str>)
        ensures
            v@ == seq![
                "angular.json",
                ".angular.json",
                "src/polyfills.ts",
                "src/environments/**/*.ts",
                "src/app/app.config.ts",
                "src/app/app.config.server.ts",
            ],
    {
        str_list(&[
            "angular.json",
            ".angular.json",
            "src/polyfills.ts",
            "src/environments/**/*.ts",
            "src/app/app.config.ts",
            "src/app/app.config.server.ts",
        ])
    }

    /// Build tools and framework peers that source does not import.
    pub fn tooling_dependencies(&self) -> (v: Vec<&'static str>)
        ensures
            v@ == seq![
                "@angular/cli",
                "@angular-devkit/build-angular",
                "@angular/compiler-cli",
                "@angular/compiler",
                "@angular/build",
                "ng-packagr",
                "zone.js",
                "tslib",
                "rxjs",
                "@angular/common",
                "@angular/platform-browser",
                "@angular/platform-browser-dynamic",
            ],
    {
        str_list(&[
            "@angular/cli",
            "@angular-devkit/build-angular",
            "@angular/compiler-cli",
            "@angular/compiler",
            "@angular/build",
            "ng-packagr",
            "zone.js",
            "tslib",
            "rxjs",
            "@angular/common",
            "@angular/platform-browser",
            "@angular/platform-browser-dynamic",
        ])
    }

}

/// Whether a file name is an ng-packagr library descriptor.
pub fn is_ng_package_file_name(name: &str) -> (b: bool)
    ensures
        b == (name@ == "ng-package.json"@ || name@ == "ng-package.prod.json"@),
{
    str_eq(name, "ng-package.json") || str_eq(name, "ng-package.prod.json")
}

/// Whether a config path names an ng-packagr library descriptor.
pub fn is_ng_package_config(config_path: &str) -> (b: bool)
    ensures
        b == (file_name_of(config_path@) matches Some(n) && (n == "ng-package.json"@ || n
            == "ng-package.prod.json"@)),
{
    match crate::walkthrough::file_name(config_path) {
        Some(n) => is_ng_package_file_name(n.as_str()),
        None => false,
    }
}

/// Directory names that the scan for nested ng-package configs never enters.
pub open spec fn scan_skip_dirs() -> Seq<Seq<char>> {
    seq!["node_modules"@, "dist"@, "out"@, "tmp"@, "coverage"@]
}

/// Whether the scan for nested ng-package configs skips a directory: hidden
/// directories and build or dependency output.
pub fn is_skipped_scan_dir(name: &str) -> (b: bool)
    ensures
        b == (crate::text::starts_with(name@, "."@) || scan_skip_dirs().contains(name@)),
{
    let c = crate::text::chars_of(name);
    proof {
        reveal_strlit(".");
    }
    if c.len() > 0 && c[0] == '.' {
        assert(c@.subrange(0, 1) =~= "."@);
        return true;
    }
    assert(!crate::text::starts_with(name@, "."@)) by {
        if crate::text::starts_with(name@, "."@) {
            assert(name@.subrange(0, 1)[0] == '.');
        }
    }
    let skip: [&str; 5] = ["node_modules", "dist", "out", "tmp", "coverage"];
    assert(skip@.map_values(|x: &str| x@) =~= scan_skip_dirs());
    let mut i: usize = 0;
    while i < 5
        invariant
            i <= 5,
            skip@.map_values(|x: &str| x@) == scan_skip_dirs(),
            forall|q: int| 0 <= q < i ==> scan_skip_dirs()[q] != name@,
        decreases 5 - i,
    {
        assert(skip@[i as int]@ == scan_skip_dirs()[i as int]);
        if str_eq(skip[i], name) {
            assert(scan_skip_dirs()[i as int] == name@);
            return true;
        }
        i = i + 1;
    }
    false
}

/// The deepest subdirectory level that the nested-config scan enters.
pub open spec fn scan_max_depth() -> nat {
    6
}

/// What the nested-config scan does with one directory entry.
#[derive(Clone, Copy, Debug, PartialEq, Eq, Structural)]
pub enum ScanAction {
    /// Scan the directory one level deeper.
    Descend,
    /// Take the file as a nested ng-package config.
    Collect,
    /// Leave the entry alone.
    Ignore,
}

/// What the scan does with an entry found at `depth` (the scanned directory
/// itself is depth 0): a directory that is not skipped is entered, unless
/// that would go past the deepest level; an ng-package descriptor below the
/// top level is collected; anything else is left alone.
pub fn classify_scan_entry(depth: usize, name: Option<&str>, is_dir: bool) -> (a: ScanAction)
    requires
        depth <= scan_max_depth(),
    ensures
        a == (if is_dir {
            if name matches Some(n) && (crate::text::starts_with(n@, "."@) || scan_skip_dirs().contains(n@)) {
                ScanAction::Ignore
            } else if depth + 1 > scan_max_depth() {
                ScanAction::Ignore
            } else {
                ScanAction::Descend
            }
        } else if depth >= 1 && (name matches Some(n) && (n@ == "ng-package.json"@ || n@
            == "ng-package.prod.json"@)) {
            ScanAction::Collect
        } else {
            ScanAction::Ignore
        }),
{
    if is_dir {
        let skip = match name {
            Some(n) => is_skipped_scan_dir(n),
            None => false,
        };
        if skip || depth + 1 > 6 {
            ScanAction::Ignore
        } else {
            ScanAction::Descend
        }
    } else if depth >= 1 && match name {
        Some(n) => is_ng_package_file_name(n),
        None => false,
    } {
        ScanAction::Collect
    } else {
        ScanAction::Ignore
    }
}

/// The entry file named in an ng-package config, or ng-packagr's default
/// `src/public_api.ts` when it names none or a blank one.
pub fn ng_package_entry_file(extracted: Option<&str>) -> (r: String)
    ensures
        r@ == (match extracted {
            Some(v) => if crate::text::trim(v@).len() > 0 {
                v@
            } else {
                "src/public_api.ts"@
            },
            None => "src/public_api.ts"@,
        }),
{
    match extracted {
        Some(v) => {
            let c = crate::text::chars_of(v);
            let t = crate::text::trim_chars(&c);
            if t.len() > 0 {
                crate::text::string_of(v)
            } else {
                crate::text::string_of("src/public_api.ts")
            }
        },
        None => crate::text::string_of("src/public_api.ts"),
    }
}

/// The entry patterns of a package, sorted and without repeats.
pub fn finish_ng_package_entries(entries: &Vec<String>) -> (r: Vec<String>)
    ensures
        crate::text::sorted_chars(crate::text::string_views(r@)),
        crate::text::string_views(r@).no_duplicates(),
        forall|e: Seq<char>|
            #[trigger] crate::text::string_views(r@).contains(e) <==> crate::text::string_views(
                entries@,
            ).contains(e),
{
    let mut cs: Vec<Vec<char>> = Vec::new();
    let mut i: usize = 0;
    while i < entries.len()
        invariant
            i <= entries@.len(),
            crate::text::vec_views(cs@) == crate::text::string_views(entries@).take(i as int),
        decreases entries@.len() - i,
    {
        let ghost before = crate::text::vec_views(cs@);
        let c = crate::text::chars_of(entries[i].as_str());
        cs.push(c);
        assert(crate::text::vec_views(cs@) =~= before.push(entries@[i as int]@));
        assert(crate::text::string_views(entries@).take(i + 1) =~= crate::text::string_views(
            entries@,
        ).take(i as int).push(entries@[i as int]@));
        i = i + 1;
    }
    assert(crate::text::string_views(entries@).take(i as int) =~= crate::text::string_views(
        entries@,
    ));
    crate::text::sorted_unique_strings(cs)
}

/// The directories that SCSS include paths name: each entry without its
/// leading `./` runs, joined onto the root.
pub fn scss_include_candidates(root: &str, entries: &Vec<String>) -> (r: Vec<String>)
    ensures
        crate::text::string_views(r@) == crate::text::string_views(entries@).map_values(
            |e: Seq<char>| crate::runtime_filter::joined_onto(root@, crate::text::strip_prefix_all(e, "./"@)),
        ),
{
    let ghost es = crate::text::string_views(entries@);
    let mut out: Vec<String> = Vec::new();
    let mut i: usize = 0;
    while i < entries.len()
        invariant
            i <= entries@.len(),
            es == crate::text::string_views(entries@),
            crate::text::string_views(out@) == es.take(i as int).map_values(
                |e: Seq<char>| crate::runtime_filter::joined_onto(root@, crate::text::strip_prefix_all(e, "./"@)),
            ),
        decreases entries@.len() - i,
    {
        let ghost before = crate::text::string_views(out@);
        let c = crate::text::chars_of(entries[i].as_str());
        let t = crate::text::strip_prefix_all_chars(&c, "./");
        let ts = crate::text::string_from_chars(&t);
        let j = crate::runtime_filter::join_onto(root, ts.as_str());
        out.push(j);
        assert(crate::text::string_views(out@) =~= before.push(j@));
        assert(es.take(i + 1) =~= es.take(i as int).push(es[i as int]));
        i = i + 1;
    }
    assert(es.take(i as int) =~= es);
    out
}

} // verus!
