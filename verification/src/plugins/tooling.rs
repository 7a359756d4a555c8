//! General tooling dependency detection.
//!
//! Known dev dependencies that are tooling (used by a CLI or a config file,
//! never imported by application code). A package is tooling when its name
//! begins with one of the catalogue's prefixes or equals one of its exact names.
use vstd::prelude::*;

use crate::text::{starts_with, str_eq, str_starts_with, string_views, strings_of, views};

verus! {

/// Scope and name prefixes whose every package is tooling.
pub open spec fn tooling_prefixes() -> Seq<Seq<char>> {
    seq![
        "@types/"@,
        "@testing-library/"@,
        "@vitest/"@,
        "@biomejs/"@,
        "@electron-forge/"@,
        "@electron/"@,
        "@formatjs/"@,
        "@semantic-release/"@,
        "@release-it/"@,
        "@lerna-lite/"@,
        "@changesets/"@,
        "@graphql-codegen/"@,
        "@secretlint/"@,
        "@react-native-community/"@,
        "@react-native/"@,
        "@jest/"@,
        "@playwright/"@,
        "@tapjs/"@,
        "@tsconfig/"@,
    ]
}

/// Package names that are tooling exactly as written.
pub open spec fn tooling_exact_names() -> Seq<Seq<char>> {
    seq![
        "typescript"@,
        "prettier"@,
        "vitest"@,
        "jest"@,
        "vite"@,
        "esbuild"@,
        "tsup"@,
        "turbo"@,
        "sass"@,
        "sass-embedded"@,
        "semantic-release"@,
        "secretlint"@,
        "oxlint"@,
        "playwright"@,
        "tap"@,
        "rolldown"@,
        "rolldown-vite"@,
        "electron"@,
        "electron-builder"@,
        "electron-vite"@,
        "sharp"@,
        "puppeteer"@,
        "madge"@,
        "patch-package"@,
        "nx"@,
        "vue-tsc"@,
        "@vue/tsconfig"@,
        "@vitejs/plugin-vue"@,
        "@vitejs/plugin-react"@,
        "@vitejs/plugin-react-swc"@,
        "@vitejs/plugin-legacy"@,
        "oxc-transform"@,
        "@typescript/native-preview"@,
        "tw-animate-css"@,
        "@manypkg/cli"@,
        "@swc/core"@,
        "@swc/jest"@,
    ]
}

/// `name` is a known tooling package: it starts with a catalogue prefix or
/// equals a catalogue name.
pub open spec fn is_tooling_name(name: Seq<char>) -> bool {
    ||| exists|i: int|
        0 <= i < tooling_prefixes().len() && #[trigger] starts_with(name, tooling_prefixes()[i])
    ||| tooling_exact_names().contains(name)
}

/// The tooling catalogue: ordered prefix patterns and exact names.
pub struct Catalogue {
    pub prefixes: Vec<String>,
    pub exact: Vec<String>,
}

/// The catalogue's entries.
pub fn catalogue() -> (c: Catalogue)
    ensures
        string_views(c.prefixes@) == tooling_prefixes(),
        string_views(c.exact@) == tooling_exact_names(),
{
    let prefixes: [&str; 19] = [
        "@types/",
        "@testing-library/",
        "@vitest/",
        "@biomejs/",
        "@electron-forge/",
        "@electron/",
        "@formatjs/",
        "@semantic-release/",
        "@release-it/",
        "@lerna-lite/",
        "@changesets/",
        "@graphql-codegen/",
        "@secretlint/",
        "@react-native-community/",
        "@react-native/",
        "@jest/",
        "@playwright/",
        "@tapjs/",
        "@tsconfig/",
    ];
    let exact: [&str; 37] = [
        "typescript",
        "prettier",
        "vitest",
        "jest",
        "vite",
        "esbuild",
        "tsup",
        "turbo",
        "sass",
        "sass-embedded",
        "semantic-release",
        "secretlint",
        "oxlint",
        "playwright",
        "tap",
        "rolldown",
        "rolldown-vite",
        "electron",
        "electron-builder",
        "electron-vite",
        "sharp",
        "puppeteer",
        "madge",
        "patch-package",
        "nx",
        "vue-tsc",
        "@vue/tsconfig",
        "@vitejs/plugin-vue",
        "@vitejs/plugin-react",
        "@vitejs/plugin-react-swc",
        "@vitejs/plugin-legacy",
        "oxc-transform",
        "@typescript/native-preview",
        "tw-animate-css",
        "@manypkg/cli",
        "@swc/core",
        "@swc/jest",
    ];
    let c = Catalogue { prefixes: strings_of(&prefixes), exact: strings_of(&exact) };
    assert(views(prefixes@) =~= tooling_prefixes());
    assert(views(exact@) =~= tooling_exact_names());
    c
}

/// Whether a package is a known tooling dependency by name.
pub fn is_known_tooling_dependency(name: &str) -> (b: bool)
    ensures
        b == is_tooling_name(name@),
{
    let c = catalogue();
    let mut i: usize = 0;
    while i < c.prefixes.len()
        invariant
            i <= c.prefixes@.len(),
            string_views(c.prefixes@) == tooling_prefixes(),
            forall|k: int| 0 <= k < i ==> !starts_with(name@, #[trigger] tooling_prefixes()[k]),
        decreases c.prefixes@.len() - i,
    {
        assert(c.prefixes@[i as int]@ == tooling_prefixes()[i as int]);
        if str_starts_with(name, c.prefixes[i].as_str()) {
            return true;
        }
        i = i + 1;
    }
    let mut j: usize = 0;
    while j < c.exact.len()
        invariant
            j <= c.exact@.len(),
            string_views(c.exact@) == tooling_exact_names(),
            forall|k: int| 0 <= k < j ==> name@ != #[trigger] tooling_exact_names()[k],
        decreases c.exact@.len() - j,
    {
        assert(c.exact@[j as int]@ == tooling_exact_names()[j as int]);
        if str_eq(name, c.exact[j].as_str()) {
            assert(tooling_exact_names()[j as int] == name@);
            return true;
        }
        j = j + 1;
    }
    false
}

} // verus!
