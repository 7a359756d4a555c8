//! napi-rs native addons: the per-platform packages a build target publishes.
use vstd::prelude::*;

use crate::text::{
    chars_before, chars_eq_str, chars_of, push_chars, push_str, sort_char_vecs, sorted_chars,
    string_from_chars, string_views, trim, trim_chars, vec_views,
};

verus! {

/// The package-name suffix napi-rs publishes for a Rust target triple.
pub open spec fn napi_suffix_of(t: Seq<char>) -> Option<Seq<char>> {
    if t == "aarch64-apple-darwin"@ {
        Some("darwin-arm64"@)
    } else if t == "x86_64-apple-darwin"@ {
        Some("darwin-x64"@)
    } else if t == "aarch64-linux-android"@ {
        Some("android-arm64"@)
    } else if t == "armv7-linux-androideabi"@ {
        Some("android-arm-eabi"@)
    } else if t == "i686-linux-android"@ {
        Some("android-ia32"@)
    } else if t == "x86_64-linux-android"@ {
        Some("android-x64"@)
    } else if t == "aarch64-pc-windows-msvc"@ {
        Some("win32-arm64-msvc"@)
    } else if t == "i686-pc-windows-msvc"@ {
        Some("win32-ia32-msvc"@)
    } else if t == "x86_64-pc-windows-msvc"@ {
        Some("win32-x64-msvc"@)
    } else if t == "aarch64-unknown-freebsd"@ {
        Some("freebsd-arm64"@)
    } else if t == "x86_64-unknown-freebsd"@ {
        Some("freebsd-x64"@)
    } else if t == "aarch64-unknown-linux-gnu"@ {
        Some("linux-arm64-gnu"@)
    } else if t == "aarch64-unknown-linux-musl"@ {
        Some("linux-arm64-musl"@)
    } else if t == "armv7-unknown-linux-gnueabihf"@ {
        Some("linux-arm-gnueabihf"@)
    } else if t == "x86_64-unknown-linux-gnu"@ {
        Some("linux-x64-gnu"@)
    } else if t == "x86_64-unknown-linux-musl"@ {
        Some("linux-x64-musl"@)
    } else if t == "wasm32-wasi"@ {
        Some("wasm32-wasi"@)
    } else if t == "wasm32-wasip1"@ {
        Some("wasm32-wasi"@)
    } else if t == "wasm32-wasi-preview1-threads"@ {
        Some("wasm32-wasi-singlethreaded"@)
    } else if t == "wasm32-wasip1-threads"@ {
        Some("wasm32-wasi-singlethreaded"@)
    } else {
        None
    }
}

/// The package-name suffix for a Rust target triple (surrounding whitespace
/// ignored), if napi-rs publishes one.
pub fn target_suffix(target: &str) -> (r: Option<&'static str>)
    ensures
        match r {
            Some(s) => napi_suffix_of(trim(target@)) == Some(s@),
            None => napi_suffix_of(trim(target@)) is None,
        },
{
    let t = trim_chars(&chars_of(target));
    if chars_eq_str(&t, "aarch64-apple-darwin") {
        return Some("darwin-arm64");
    }
    if chars_eq_str(&t, "x86_64-apple-darwin") {
        return Some("darwin-x64");
    }
    if chars_eq_str(&t, "aarch64-linux-android") {
        return Some("android-arm64");
    }
    if chars_eq_str(&t, "armv7-linux-androideabi") {
        return Some("android-arm-eabi");
    }
    if chars_eq_str(&t, "i686-linux-android") {
        return Some("android-ia32");
    }
    if chars_eq_str(&t, "x86_64-linux-android") {
        return Some("android-x64");
    }
    if chars_eq_str(&t, "aarch64-pc-windows-msvc") {
        return Some("win32-arm64-msvc");
    }
    if chars_eq_str(&t, "i686-pc-windows-msvc") {
        return Some("win32-ia32-msvc");
    }
    if chars_eq_str(&t, "x86_64-pc-windows-msvc") {
        return Some("win32-x64-msvc");
    }
    if chars_eq_str(&t, "aarch64-unknown-freebsd") {
        return Some("freebsd-arm64");
    }
    if chars_eq_str(&t, "x86_64-unknown-freebsd") {
        return Some("freebsd-x64");
    }
    if chars_eq_str(&t, "aarch64-unknown-linux-gnu") {
        return Some("linux-arm64-gnu");
    }
    if chars_eq_str(&t, "aarch64-unknown-linux-musl") {
        return Some("linux-arm64-musl");
    }
    if chars_eq_str(&t, "armv7-unknown-linux-gnueabihf") {
        return Some("linux-arm-gnueabihf");
    }
    if chars_eq_str(&t, "x86_64-unknown-linux-gnu") {
        return Some("linux-x64-gnu");
    }
    if chars_eq_str(&t, "x86_64-unknown-linux-musl") {
        return Some("linux-x64-musl");
    }
    if chars_eq_str(&t, "wasm32-wasi") {
        return Some("wasm32-wasi");
    }
    if chars_eq_str(&t, "wasm32-wasip1") {
        return Some("wasm32-wasi");
    }
    if chars_eq_str(&t, "wasm32-wasi-preview1-threads") {
        return Some("wasm32-wasi-singlethreaded");
    }
    if chars_eq_str(&t, "wasm32-wasip1-threads") {
        return Some("wasm32-wasi-singlethreaded");
    }
    None
}

/// The `napi` section of a `package.json`.
#[derive(Clone, Debug)]
pub struct NapiConfig {
    pub package_name: Option<String>,
    pub targets: Vec<String>,
}

/// What the plugin reads of a `package.json`: its name, its `napi` section
/// and the names of its optional dependencies.
#[derive(Clone, Debug)]
pub struct PackageJson {
    pub name: Option<String>,
    pub napi: Option<NapiConfig>,
    pub optional_dependencies: Option<Vec<String>>,
}

/// Built-in plugin for napi-rs native packages.
pub struct NapiRsPlugin;

/// The base name of the platform packages: the napi package name, else the
/// package name, trimmed; none when blank.
pub open spec fn package_base_of(name: Option<String>, napi: NapiConfig) -> Option<Seq<char>> {
    let chosen = match napi.package_name {
        Some(n) => Some(n@),
        None => match name {
            Some(n) => Some(n@),
            None => None,
        },
    };
    match chosen {
        Some(c) => if trim(c).len() > 0 {
            Some(trim(c))
        } else {
            None
        },
        None => None,
    }
}

/// The optional dependency named `base-suffix` for one of the napi targets.
pub open spec fn is_platform_package(pkg: PackageJson, base: Seq<char>, dep: Seq<char>) -> bool {
    pkg.napi matches Some(napi) && exists|i: int|
        0 <= i < napi.targets@.len() && (#[trigger] napi_suffix_of(trim(napi.targets@[i]@))
            matches Some(sfx) && dep == base + seq!['-'] + sfx)
}

pub open spec fn optional_names(pkg: PackageJson) -> Seq<Seq<char>> {
    match pkg.optional_dependencies {
        Some(v) => string_views(v@),
        None => Seq::empty(),
    }
}

fn package_base(pkg: &PackageJson, napi: &NapiConfig) -> (r: Option<Vec<char>>)
    ensures
        match r {
            Some(b) => package_base_of(pkg.name, *napi) == Some(b@),
            None => package_base_of(pkg.name, *napi) is None,
        },
{
    let chosen = match &napi.package_name {
        Some(n) => chars_of(n.as_str()),
        None => match &pkg.name {
            Some(n) => chars_of(n.as_str()),
            None => {
                return None;
            },
        },
    };
    let t = trim_chars(&chosen);
    if t.len() > 0 {
        Some(t)
    } else {
        None
    }
}

impl NapiRsPlugin {
    pub fn name(&self) -> (n: &'static str)
        ensures
            n@ == "napi-rs"@,
    {
        "napi-rs"
    }

    /// The plugin applies to a package with a napi section that has a base
    /// name, at least one target, and an optional-dependencies table.
    pub fn is_enabled_with_package_json(&self, pkg: &PackageJson) -> (b: bool)
        ensures
            b == (pkg.napi matches Some(napi) && package_base_of(pkg.name, napi) is Some
                && napi.targets@.len() > 0 && pkg.optional_dependencies is Some),
    {
        match &pkg.napi {
            Some(napi) => package_base(pkg, napi).is_some() && napi.targets.len() > 0
                && pkg.optional_dependencies.is_some(),
            None => false,
        }
    }

    /// The optional dependencies that are platform packages of this addon,
    /// sorted and without repeats.
    pub fn package_json_referenced_dependencies(&self, pkg: &PackageJson) -> (r: Vec<String>)
        ensures
            sorted_chars(string_views(r@)),
            string_views(r@).no_duplicates(),
            forall|d: Seq<char>|
                #[trigger] string_views(r@).contains(d) <==> (pkg.napi matches Some(napi) && (
                package_base_of(pkg.name, napi) matches Some(base) && is_platform_package(
                    *pkg,
                    base,
                    d,
                ) && optional_names(*pkg).contains(d))),
    {
        referenced_optional_dependencies(pkg)
    }
}

fn contains_chars(set: &Vec<Vec<char>>, s: &Vec<char>) -> (b: bool)
    ensures
        b == vec_views(set@).contains(s@),
{
    let mut i: usize = 0;
    while i < set.len()
        invariant
            i <= set@.len(),
            forall|k: int| 0 <= k < i ==> set@[k]@ != s@,
        decreases set@.len() - i,
    {
        if set[i].len() == s.len() && crate::text::matches_at(&set[i], 0, s) {
            assert(set@[i as int]@ =~= s@);
            assert(vec_views(set@)[i as int] == s@);
            return true;
        }
        i = i + 1;
    }
    assert(!vec_views(set@).contains(s@)) by {
        if vec_views(set@).contains(s@) {
            let k = choose|k: int| 0 <= k < vec_views(set@).len() && vec_views(set@)[k] == s@;
            assert(set@[k]@ == s@);
        }
    }
    false
}

/// The platform packages of `pkg` that it lists as optional dependencies.
pub fn referenced_optional_dependencies(pkg: &PackageJson) -> (r: Vec<String>)
    ensures
        sorted_chars(string_views(r@)),
        string_views(r@).no_duplicates(),
        forall|d: Seq<char>|
            #[trigger] string_views(r@).contains(d) <==> (pkg.napi matches Some(napi) && (
            package_base_of(pkg.name, napi) matches Some(base) && is_platform_package(*pkg, base, d)
                && optional_names(*pkg).contains(d))),
{
    let napi = match &pkg.napi {
        Some(n) => n,
        None => {
            return Vec::new();
        },
    };
    let base = match package_base(pkg, napi) {
        Some(b) => b,
        None => {
            return Vec::new();
        },
    };
    let mut optional: Vec<Vec<char>> = Vec::new();
    match &pkg.optional_dependencies {
        Some(v) => {
            let mut i: usize = 0;
            while i < v.len()
                invariant
                    i <= v@.len(),
                    vec_views(optional@) == string_views(v@).take(i as int),
                decreases v@.len() - i,
            {
                let c = chars_of(v[i].as_str());
                let ghost before = vec_views(optional@);
                assert(c@ == string_views(v@)[i as int]);
                optional.push(c);
                i = i + 1;
                assert(string_views(v@).take(i as int) =~= string_views(v@).take(i - 1).push(
                    string_views(v@)[i - 1],
                ));
                assert(vec_views(optional@) =~= string_views(v@).take(i as int));
            }
            assert(string_views(v@).take(i as int) =~= string_views(v@));
        },
        None => {},
    }
    assert(vec_views(optional@) == optional_names(*pkg));
    let mut found: Vec<Vec<char>> = Vec::new();
    let mut t: usize = 0;
    while t < napi.targets.len()
        invariant
            t <= napi.targets@.len(),
            pkg.napi == Some(*napi),
            package_base_of(pkg.name, *napi) == Some(base@),
            vec_views(optional@) == optional_names(*pkg),
            forall|d: Seq<char>|
                #[trigger] vec_views(found@).contains(d) <==> (optional_names(*pkg).contains(d)
                    && exists|i: int|
                    0 <= i < t && (#[trigger] napi_suffix_of(trim(napi.targets@[i]@)) matches Some(
                        sfx,
                    ) && d == base@ + seq!['-'] + sfx)),
        decreases napi.targets@.len() - t,
    {
        let ghost before = vec_views(found@);
        match target_suffix(napi.targets[t].as_str()) {
            Some(sfx) => {
                let mut dep = base.clone();
                dep.push('-');
                push_str(&mut dep, sfx);
                assert(dep@ =~= base@ + seq!['-'] + sfx@);
                if contains_chars(&optional, &dep) {
                    let ghost dv = dep@;
                    found.push(dep);
                    assert(vec_views(found@) =~= before.push(dv));
                    assert forall|d: Seq<char>|
                        #[trigger] vec_views(found@).contains(d) <==> (optional_names(
                            *pkg,
                        ).contains(d) && exists|i: int|
                            0 <= i < t + 1 && (#[trigger] napi_suffix_of(
                                trim(napi.targets@[i]@),
                            ) matches Some(sfx) && d == base@ + seq!['-'] + sfx)) by {
                        if vec_views(found@).contains(d) && !before.contains(d) {
                            let k = choose|k: int| 0 <= k < vec_views(found@).len() && vec_views(found@)[k] == d;
                            assert(k == before.len());
                            assert(d == dv);
                        }
                        if before.contains(d) {
                            let k = choose|k: int| 0 <= k < before.len() && before[k] == d;
                            assert(vec_views(found@)[k] == d);
                        }
                        if d == dv {
                            assert(vec_views(found@)[before.len() as int] == d);
                        }
                    }
                } else {
                    assert forall|d: Seq<char>|
                        #[trigger] vec_views(found@).contains(d) <==> (optional_names(
                            *pkg,
                        ).contains(d) && exists|i: int|
                            0 <= i < t + 1 && (#[trigger] napi_suffix_of(
                                trim(napi.targets@[i]@),
                            ) matches Some(sfx) && d == base@ + seq!['-'] + sfx)) by {
                        if optional_names(*pkg).contains(d) && exists|i: int|
                            0 <= i < t + 1 && (#[trigger] napi_suffix_of(
                                trim(napi.targets@[i]@),
                            ) matches Some(sfx) && d == base@ + seq!['-'] + sfx) {
                            let i = choose|i: int|
                                0 <= i < t + 1 && (#[trigger] napi_suffix_of(
                                    trim(napi.targets@[i]@),
                                ) matches Some(sfx) && d == base@ + seq!['-'] + sfx);
                            if i == t {
                                assert(d == dep@);
                            }
                        }
                    }
                }
            },
            None => {
                assert forall|d: Seq<char>|
                    #[trigger] vec_views(found@).contains(d) <==> (optional_names(*pkg).contains(d)
                        && exists|i: int|
                        0 <= i < t + 1 && (#[trigger] napi_suffix_of(trim(napi.targets@[i]@))
                            matches Some(sfx) && d == base@ + seq!['-'] + sfx)) by {
                    if exists|i: int|
                        0 <= i < t + 1 && (#[trigger] napi_suffix_of(trim(napi.targets@[i]@))
                            matches Some(sfx) && d == base@ + seq!['-'] + sfx) {
                        let i = choose|i: int|
                            0 <= i < t + 1 && (#[trigger] napi_suffix_of(trim(napi.targets@[i]@))
                                matches Some(sfx) && d == base@ + seq!['-'] + sfx);
                        assert(i != t);
                    }
                }
            },
        }
        t = t + 1;
    }
    crate::text::sorted_unique_strings(found)
}

} // verus!
