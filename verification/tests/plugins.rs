use plow_logic::plugins::angular::AngularPlugin;
use plow_logic::plugins::commit_and_tag_version::{bump_file_setup_path, CommitAndTagVersionPlugin};
use plow_logic::plugins::contentlayer::ContentlayerPlugin;
use plow_logic::plugins::electron::ElectronPlugin;
use plow_logic::plugins::vercel::VercelPlugin;
use plow_logic::plugins::vite::{
    additional_data_entry_pattern, is_additional_data_package_import, local_style_candidates,
    VitePlugin,
};
use plow_logic::plugins::ember::EmberPlugin;
use plow_logic::plugins::fumadocs::FumadocsPlugin;
use plow_logic::plugins::{matches_virtual_prefix, UsedClassMemberRule};
use plow_logic::plugins::mintlify::MintlifyPlugin;
use plow_logic::plugins::napi_rs::{
    referenced_optional_dependencies, target_suffix, NapiConfig, NapiRsPlugin, PackageJson,
};
use plow_logic::plugins::angular::{
    classify_scan_entry, finish_ng_package_entries, is_ng_package_config, is_ng_package_file_name,
    is_skipped_scan_dir, ng_package_entry_file, scss_include_candidates, ScanAction,
};
use plow_logic::plugins::pinia::{
    has_store_extension, is_store_export_name, push_store_exports, push_store_rule, AutoImportKind,
    StoreModuleExport,
};
use plow_logic::plugins::nx::expand_nx_tokens;
use plow_logic::plugins::pinia::PiniaPlugin;
use plow_logic::plugins::supabase::SupabasePlugin;
use plow_logic::plugins::test_alias::alias_target_is_source_file;
use plow_logic::plugins::velite::{
    content_entry_patterns, is_custom_output_dir, is_package_import, VelitePlugin,
};
use plow_logic::plugins::typescript::{
    is_local_extends, local_extends_path, tsconfig_reference_target, TypeScriptPlugin,
};
use plow_logic::plugins::vscode::VscodePlugin;

fn is_covered(prefixes: &[&str], spec: &str) -> bool {
    prefixes
        .iter()
        .any(|prefix| matches_virtual_prefix(prefix, spec))
}

#[test]
fn enablers_cover_classic_embroider_and_glimmer() {
    let plugin = EmberPlugin;
    assert!(plugin.enablers().contains(&"ember-source"));
    assert!(plugin.enablers().contains(&"@embroider/core"));
    assert!(plugin.enablers().contains(&"@glimmer/component"));
}
#[test]
fn tooling_dependencies_cover_runtime_only_packages() {
    let plugin = EmberPlugin;
    let deps = plugin.tooling_dependencies();
    assert!(deps.contains(&"ember-source"));
    assert!(deps.contains(&"ember-cli-htmlbars"));
    assert!(deps.contains(&"@embroider/core"));
    assert!(deps.contains(&"@glint/core"));
    assert!(deps.contains(&"ember-exam"));
    assert!(deps.contains(&"loader.js"));
    assert!(deps.contains(&"broccoli-asset-rev"));
    assert!(deps.contains(&"ember-cli-app-version"));
    assert!(deps.contains(&"ember-export-application-global"));
    assert!(deps.contains(&"@tsconfig/ember"));
    assert!(deps.contains(&"@glint/tsserver-plugin"));
}
#[test]
fn tooling_dependencies_omits_source_imported_packages() {
    let plugin = EmberPlugin;
    let deps = plugin.tooling_dependencies();
    for name in [
        "@glimmer/component",
        "@glimmer/tracking",
        "@glimmer/env",
        "@glint/template",
        "@ember/test-helpers",
        "ember-qunit",
        "qunit",
        "qunit-dom",
        "ember-data",
        "@ember-data/store",
        "@ember-data/model",
        "@embroider/macros",
        "@embroider/router",
        "@embroider/test-setup",
        "@embroider/webpack",
        "@embroider/vite",
        "@embroider/addon-shim",
        "ember-load-initializers",
        "ember-resolver",
    ] {
        assert!(
            !deps.contains(&name),
            "{name} is imported from source in modern Ember; remove from tooling_dependencies"
        );
    }
}
#[test]
fn entry_patterns_cover_classic_layout() {
    let plugin = EmberPlugin;
    let patterns = plugin.entry_patterns();
    assert!(patterns.contains(&"app/components/**/*.{js,ts,gjs,gts,hbs}"));
    assert!(patterns.contains(&"tests/**/*-test.{js,ts,gjs,gts}"));
}
#[test]
fn entry_patterns_do_not_include_v1_addon_layout() {
    let plugin = EmberPlugin;
    let patterns = plugin.entry_patterns();
    for v1_only in [
        "addon/**/*.{js,ts,gjs,gts,hbs}",
        "addon-test-support/**/*.{js,ts,gjs,gts}",
    ] {
        assert!(
            !patterns.contains(&v1_only),
            "{v1_only} must not be in entry_patterns (v1 addons are out \
             of scope); current patterns = {patterns:?}"
        );
    }
}
#[test]
fn virtual_module_prefixes_cover_ember_source_runtime() {
    let prefixes = EmberPlugin.virtual_module_prefixes();
    for spec in [
        "@ember/object",
        "@ember/object/computed",
        "@ember/template",
        "@ember/service",
        "@ember/runloop",
        "@ember/utils",
        "@ember/routing/router-service",
        "@ember/helper",
        "@ember/modifier",
        "@ember/application",
        "@ember/component",
        "@ember/component/helper",
        "@ember/controller",
        "@ember/debug",
        "@ember/destroyable",
        "@ember/object/proxy",
        "@ember/routing/route",
        "@ember/template-compilation",
        "@ember/template-factory",
        "@ember/owner",
        "ember",
    ] {
        assert!(
            is_covered(&prefixes, spec),
            "expected `{spec}` to be silenced by the virtual-module \
             prefix list (it is rewritten by Embroider / the AMD loader \
             and not resolvable through node_modules); prefixes = \
             {prefixes:?}",
        );
    }
}
#[test]
fn virtual_module_prefixes_do_not_swallow_real_ember_npm_packages() {
    let prefixes = EmberPlugin.virtual_module_prefixes();
    for real in [
        "@ember/test-helpers",
        "@ember/render-modifiers",
        "@ember/test-waiters",
        "@ember/string",
        "@ember/jquery",
        "@ember/legacy-built-in-components",
        "@ember/optional-features",
    ] {
        assert!(
            !is_covered(&prefixes, real),
            "`{real}` is a real npm package and must NOT be covered by \
             the virtual-module prefix list; prefixes = {prefixes:?}",
        );
    }
}
#[test]
fn virtual_module_prefixes_do_not_swallow_ember_dash_packages() {
    let prefixes = EmberPlugin.virtual_module_prefixes();
    for spec in [
        "@ember-data/store",
        "@ember-data/model",
        "@glimmer/component",
        "@glimmer/tracking",
        "ember-source",
        "ember-cli",
        "ember-data",
        "ember-in-viewport",
        "ember-template-lint",
    ] {
        assert!(
            !is_covered(&prefixes, spec),
            "`{spec}` must NOT be covered by the virtual-module prefix \
             list; prefixes = {prefixes:?}",
        );
    }
}
#[test]
fn expand_nx_tokens_no_braces_unchanged() {
    assert_eq!(expand_nx_tokens("src/styles", "apps/myapp"), "src/styles");
}
#[test]
fn expand_nx_tokens_project_root_replaced() {
    assert_eq!(
        expand_nx_tokens("{projectRoot}/src/styles", "apps/myapp"),
        "apps/myapp/src/styles"
    );
}
#[test]
fn expand_nx_tokens_workspace_root_replaced() {
    assert_eq!(
        expand_nx_tokens("{workspaceRoot}/shared/styles", ""),
        "shared/styles"
    );
}
#[test]
fn expand_nx_tokens_empty_project_root() {
    assert_eq!(
        expand_nx_tokens("{projectRoot}/src/styles", ""),
        "src/styles"
    );
}
#[test]
fn entry_pattern_targets_per_function_index() {
    let plugin = SupabasePlugin;
    assert_eq!(
        plugin.entry_patterns(),
        &["supabase/functions/*/index.{ts,tsx,js,jsx,mts,mjs,cts,cjs}"]
    );
}
#[test]
fn credits_supabase_cli_as_tooling() {
    let plugin = SupabasePlugin;
    assert!(plugin.tooling_dependencies().contains(&"supabase"));
}
#[test]
fn claims_no_config_patterns() {
    // config.toml is not a JS/TS source file, so there is nothing to parse;
    // activation reads it directly via is_enabled_with_deps.
    let plugin = SupabasePlugin;
    assert!(plugin.config_patterns().is_empty());
}
#[test]
fn maps_common_targets_to_napi_package_suffixes() {
    for (target, suffix) in [
        ("aarch64-apple-darwin", "darwin-arm64"),
        ("x86_64-apple-darwin", "darwin-x64"),
        ("aarch64-unknown-linux-gnu", "linux-arm64-gnu"),
        ("aarch64-unknown-linux-musl", "linux-arm64-musl"),
        ("x86_64-unknown-linux-gnu", "linux-x64-gnu"),
        ("x86_64-unknown-linux-musl", "linux-x64-musl"),
        ("aarch64-pc-windows-msvc", "win32-arm64-msvc"),
        ("x86_64-pc-windows-msvc", "win32-x64-msvc"),
        ("wasm32-wasip1", "wasm32-wasi"),
        ("wasm32-wasip1-threads", "wasm32-wasi-singlethreaded"),
    ] {
        assert_eq!(target_suffix(target), Some(suffix));
    }
}
#[test]
fn enabler_is_pinia_nuxt() {
    let plugin = PiniaPlugin;
    assert_eq!(plugin.enablers(), &["@pinia/nuxt"]);
}
#[test]
fn is_enabled_with_pinia_nuxt_dep() {
    let plugin = PiniaPlugin;
    let deps = vec!["@pinia/nuxt".to_string()];
    assert!(plugin.is_enabled_with_deps(&deps));
}
#[test]
fn is_not_enabled_without_pinia_nuxt_dep() {
    let plugin = PiniaPlugin;
    let deps = vec!["pinia".to_string(), "nuxt".to_string()];
    assert!(!plugin.is_enabled_with_deps(&deps));
}
#[test]
fn ng_packagr_is_enabler_and_tooling_dependency() {
    let plugin = AngularPlugin;
    assert!(plugin.enablers().contains(&"ng-packagr"));
    // ng-packagr is a build tool invoked via `ng build` / scripts, never
    // imported in source. It must be credited as a tooling dependency so a
    // library that activates the plugin via `ng-packagr` does not then
    // report `ng-packagr` itself as an unused dependency.
    assert!(plugin.tooling_dependencies().contains(&"ng-packagr"));
}
#[test]
fn enablers_cover_vscode_package() {
    let enablers = VscodePlugin.enablers();
    assert!(enablers.contains(&"vscode"));
    assert!(enablers.contains(&"@types/vscode"));
}
#[test]
fn exposes_static_contentlayer_conventions() {
    let plugin = ContentlayerPlugin;

    assert_eq!(plugin.config_patterns(), ["contentlayer.config.{ts,js,mts,mjs}"]);
    assert_eq!(
        plugin.tooling_dependencies(),
        ["contentlayer", "contentlayer2", "next-contentlayer", "next-contentlayer2"]
    );
    assert!(
        plugin
            .always_used()
            .contains(&"contentlayer.config.{ts,js,mts,mjs}")
    );
    assert!(
        plugin
            .always_used()
            .contains(&".contentlayer/**/*.{ts,tsx,js,jsx,mts,mjs,cts,cjs}")
    );
    assert_eq!(plugin.discovery_hidden_dirs(), [".contentlayer"]);
}
#[test]
fn exposes_static_fumadocs_conventions() {
    let plugin = FumadocsPlugin;

    assert_eq!(plugin.config_patterns(), ["source.config.{ts,tsx,js,jsx,mts,mjs,cts,cjs}"]);
    assert!(
        plugin
            .always_used()
            .contains(&"source.config.{ts,tsx,js,jsx,mts,mjs,cts,cjs}")
    );
    assert!(
        plugin
            .always_used()
            .contains(&".source/**/*.{ts,tsx,js,jsx,mts,mjs,cts,cjs}")
    );
    assert_eq!(plugin.discovery_hidden_dirs(), [".source"]);
    assert_eq!(plugin.virtual_module_prefixes(), ["fumadocs-mdx:"]);
}
#[test]
fn exposes_static_mintlify_conventions() {
    let plugin = MintlifyPlugin;

    assert_eq!(plugin.config_patterns(), ["docs.json", "mint.json"]);
    assert!(plugin.always_used().contains(&"docs.json"));
    assert!(plugin.always_used().contains(&"mint.json"));
    assert!(plugin.tooling_dependencies().contains(&"mint"));
    assert!(plugin.tooling_dependencies().contains(&"mintlify"));
}
#[test]
fn exposes_static_velite_conventions() {
    let plugin = VelitePlugin;

    assert_eq!(plugin.config_patterns(), ["velite.config.{ts,mts,cts,js,mjs,cjs}"]);
    assert!(
        plugin
            .always_used()
            .contains(&"velite.config.{ts,mts,cts,js,mjs,cjs}")
    );
    assert!(plugin.always_used().contains(&".velite/**"));
    assert_eq!(plugin.discovery_hidden_dirs(), [".velite"]);
    assert!(plugin.tooling_dependencies().contains(&"velite"));
}

#[test]
fn supabase_activation_signals() {
    let plugin = SupabasePlugin;
    assert!(plugin.is_enabled_with_deps(&vec!["supabase".to_string()], false, false));
    assert!(plugin.is_enabled_with_deps(&vec![], true, false));
    assert!(plugin.is_enabled_with_deps(&vec![], false, true));
    assert!(!plugin.is_enabled_with_deps(&vec!["react".to_string()], false, false));
    assert_eq!(plugin.name(), "supabase");
}

#[test]
fn pinia_activation_requires_pinia_nuxt() {
    let plugin = PiniaPlugin;
    assert!(plugin.is_enabled_with_deps(&vec!["@pinia/nuxt".to_string()]));
    assert!(!plugin.is_enabled_with_deps(&vec!["pinia".to_string(), "nuxt".to_string()]));
}

#[test]
fn config_file_plugins_activate_on_dependency_or_config() {
    assert!(MintlifyPlugin.is_enabled_with_deps(&vec![], true, false));
    assert!(!MintlifyPlugin.is_enabled_with_deps(&vec![], false, false));
    assert!(ContentlayerPlugin.is_enabled_with_deps(&vec!["next-contentlayer2".to_string()], false));
    assert!(FumadocsPlugin.is_enabled_with_deps(&vec![], true));
    assert!(!VelitePlugin.is_enabled_with_deps(&vec!["vite".to_string()], false));
}

#[test]
fn napi_target_suffix_trims_and_rejects_unknown() {
    assert_eq!(target_suffix("  i686-pc-windows-msvc "), Some("win32-ia32-msvc"));
    assert_eq!(target_suffix("wasm32-wasi"), Some("wasm32-wasi"));
    assert_eq!(target_suffix("riscv64gc-unknown-linux-gnu"), None);
}

#[test]
fn nx_tokens_everywhere_in_path() {
    assert_eq!(
        expand_nx_tokens("{workspaceRoot}/{projectRoot}/a/{projectRoot}", "p"),
        "p/a/p"
    );
    assert_eq!(expand_nx_tokens("{projectRoot}", ""), "");
    assert_eq!(expand_nx_tokens("{other}/x", "p"), "{other}/x");
}

fn napi_pkg(
    name: Option<&str>,
    optional: Option<&[&str]>,
    package_name: Option<&str>,
    targets: Option<&[&str]>,
) -> PackageJson {
    PackageJson {
        name: name.map(|n| n.to_string()),
        napi: targets.map(|t| NapiConfig {
            package_name: package_name.map(|n| n.to_string()),
            targets: t.iter().map(|s| s.to_string()).collect(),
        }),
        optional_dependencies: optional.map(|o| o.iter().map(|s| s.to_string()).collect()),
    }
}

#[test]
fn credits_scoped_optional_packages_from_package_name() {
    let referenced = referenced_optional_dependencies(&napi_pkg(
        Some("@srcmap/codec"),
        Some(&[
            "@srcmap/codec-darwin-arm64",
            "@srcmap/codec-linux-x64-gnu",
            "unused-optional-pkg",
        ]),
        None,
        Some(&["aarch64-apple-darwin", "x86_64-unknown-linux-gnu"]),
    ));
    assert_eq!(
        referenced,
        vec![
            "@srcmap/codec-darwin-arm64".to_string(),
            "@srcmap/codec-linux-x64-gnu".to_string()
        ]
    );
}

#[test]
fn package_name_overrides_manifest_name() {
    let referenced = referenced_optional_dependencies(&napi_pkg(
        Some("development-helper"),
        Some(&[
            "@oxc-coverage-instrument/binding-win32-arm64-msvc",
            "@oxc-coverage-instrument/binding-wasm32-wasi",
            "@oxc-coverage-instrument/binding-wasm32-wasi-singlethreaded",
        ]),
        Some("@oxc-coverage-instrument/binding"),
        Some(&["aarch64-pc-windows-msvc", "wasm32-wasip1", "wasm32-wasip1-threads"]),
    ));
    assert_eq!(
        referenced,
        vec![
            "@oxc-coverage-instrument/binding-wasm32-wasi".to_string(),
            "@oxc-coverage-instrument/binding-wasm32-wasi-singlethreaded".to_string(),
            "@oxc-coverage-instrument/binding-win32-arm64-msvc".to_string()
        ]
    );
}

#[test]
fn credits_unscoped_optional_packages() {
    let referenced = referenced_optional_dependencies(&napi_pkg(
        Some("snappy"),
        Some(&["snappy-linux-x64-gnu"]),
        None,
        Some(&["x86_64-unknown-linux-gnu"]),
    ));
    assert_eq!(referenced, vec!["snappy-linux-x64-gnu"]);
}

#[test]
fn does_not_credit_binary_name_as_package_base() {
    let referenced = referenced_optional_dependencies(&napi_pkg(
        None,
        Some(&["srcmap-codec-darwin-arm64"]),
        None,
        Some(&["aarch64-apple-darwin"]),
    ));
    assert!(referenced.is_empty());
}

#[test]
fn ignores_missing_optional_dependencies_and_unknown_targets() {
    let referenced = referenced_optional_dependencies(&napi_pkg(
        Some("@scope/native"),
        Some(&["@scope/native-linux-x64-gnu"]),
        None,
        Some(&["x86_64-unknown-linux-gnu", "unknown-target"]),
    ));
    assert_eq!(referenced, vec!["@scope/native-linux-x64-gnu"]);
}

#[test]
fn malformed_napi_config_is_ignored_by_package_parser() {
    // A `napi` value that is not an object leaves no napi section.
    let referenced = referenced_optional_dependencies(&napi_pkg(
        Some("native"),
        Some(&["native-linux-x64-gnu"]),
        None,
        None,
    ));
    assert!(referenced.is_empty());
}

#[test]
fn napi_duplicate_targets_are_reported_once_and_names_trimmed() {
    let pkg = napi_pkg(
        Some("  tool  "),
        Some(&["tool-linux-x64-gnu", "tool-darwin-x64"]),
        None,
        Some(&["x86_64-unknown-linux-gnu", " x86_64-unknown-linux-gnu ", "x86_64-apple-darwin"]),
    );
    let plugin = NapiRsPlugin;
    assert_eq!(plugin.name(), "napi-rs");
    assert!(plugin.is_enabled_with_package_json(&pkg));
    assert_eq!(
        plugin.package_json_referenced_dependencies(&pkg),
        vec!["tool-darwin-x64".to_string(), "tool-linux-x64-gnu".to_string()]
    );
}

#[test]
fn napi_activation_needs_base_targets_and_optional_table() {
    let plugin = NapiRsPlugin;
    assert!(!plugin.is_enabled_with_package_json(&napi_pkg(Some("x"), None, None, Some(&["x86_64-apple-darwin"]))));
    assert!(!plugin.is_enabled_with_package_json(&napi_pkg(Some("x"), Some(&[]), None, Some(&[]))));
    assert!(!plugin.is_enabled_with_package_json(&napi_pkg(Some("   "), Some(&[]), None, Some(&["a"]))));
    assert!(!plugin.is_enabled_with_package_json(&napi_pkg(Some("x"), Some(&[]), None, None)));
    assert!(plugin.is_enabled_with_package_json(&napi_pkg(None, Some(&[]), Some("x"), Some(&["a"]))));
}

#[test]
fn ng_package_descriptor_names() {
    assert!(is_ng_package_file_name("ng-package.json"));
    assert!(is_ng_package_file_name("ng-package.prod.json"));
    assert!(!is_ng_package_file_name("package.json"));
    assert!(is_ng_package_config("projects/lib/ng-package.json"));
    assert!(is_ng_package_config("ng-package.prod.json"));
    assert!(is_ng_package_config("projects/lib/ng-package.json/"));
    assert!(!is_ng_package_config("projects/lib/angular.json"));
}

#[test]
fn pinia_store_files_and_export_names() {
    assert!(has_store_extension("stores/user.ts"));
    assert!(has_store_extension("app/stores/cart.MJS"));
    assert!(!has_store_extension("stores/user.vue"));
    assert!(!has_store_extension("stores/README"));
    assert!(is_store_export_name("useUserStore"));
    assert!(!is_store_export_name("useStore"));
    assert!(!is_store_export_name("unusedStoreHelper"));
    assert!(!is_store_export_name("getUserStore"));
}

#[test]
fn lifecycle_rules_scope_component_members_to_glimmer_component() {
    let rules = EmberPlugin.used_class_member_rules();
    let component_rule = rules.iter().find_map(|r| match r {
        UsedClassMemberRule::Scoped(s) if s.extends.as_deref() == Some("Component") => Some(s),
        _ => None,
    });
    let component_rule = component_rule.expect("Component-scoped rule missing");
    assert!(component_rule.members.iter().any(|m| m == "willDestroy"));
    assert!(
        component_rule
            .members
            .iter()
            .any(|m| m == "didInsertElement")
    );
}

#[test]
fn lifecycle_rules_scope_route_members_to_route_class() {
    let rules = EmberPlugin.used_class_member_rules();
    let route_rule = rules.iter().find_map(|r| match r {
        UsedClassMemberRule::Scoped(s) if s.extends.as_deref() == Some("Route") => Some(s),
        _ => None,
    });
    let route_rule = route_rule.expect("Route-scoped rule missing");
    assert!(route_rule.members.iter().any(|m| m == "model"));
    assert!(route_rule.members.iter().any(|m| m == "beforeModel"));
    assert!(route_rule.members.iter().any(|m| m == "setupController"));
}

#[test]
fn provider_rules_are_scoped_to_interfaces() {
    let rules = VscodePlugin.used_class_member_rules();

    assert!(rules.iter().any(|rule| {
        matches!(
            rule,
            UsedClassMemberRule::Scoped(rule)
                if rule.implements.as_deref() == Some("vscode.TextDocumentContentProvider")
                    && rule.members.contains(&"provideTextDocumentContent".to_string())
        )
    }));
    assert!(
        rules
            .iter()
            .all(|rule| matches!(rule, UsedClassMemberRule::Scoped(_))),
        "VS Code provider methods must stay heritage-scoped"
    );
}

#[test]
fn ember_rules_cover_every_base_class_once() {
    let rules = EmberPlugin.used_class_member_rules();
    let bases: Vec<&str> = rules
        .iter()
        .map(|r| match r {
            UsedClassMemberRule::Scoped(s) => s.extends.as_deref().unwrap_or(""),
        })
        .collect();
    assert_eq!(
        bases,
        vec!["Component", "Route", "Controller", "Service", "Helper", "Modifier", "Application", "Router"]
    );
    let UsedClassMemberRule::Scoped(service) = &rules[3];
    assert_eq!(service.members, vec!["init", "willDestroy", "destroy"]);
    assert!(service.implements.is_none());
}

#[test]
fn vscode_rules_come_in_bare_and_qualified_pairs() {
    let rules = VscodePlugin.used_class_member_rules();
    assert_eq!(rules.len(), 30);
    let UsedClassMemberRule::Scoped(bare) = &rules[2];
    let UsedClassMemberRule::Scoped(qualified) = &rules[3];
    assert_eq!(bare.implements.as_deref(), Some("TreeDataProvider"));
    assert_eq!(qualified.implements.as_deref(), Some("vscode.TreeDataProvider"));
    assert_eq!(bare.members, vec!["getTreeItem", "getChildren", "getParent"]);
    assert_eq!(bare.members, qualified.members);
    assert!(bare.extends.is_none());
}

#[test]
fn store_rules_are_pushed_once_per_name_and_module() {
    let mut rules = Vec::new();
    push_store_rule(&mut rules, "useUserStore".to_string(), "/p/stores/user.ts".to_string());
    push_store_rule(&mut rules, "useUserStore".to_string(), "/p/stores//user.ts".to_string());
    push_store_rule(&mut rules, "useUserStore".to_string(), "/p/app/stores/user.ts".to_string());
    assert_eq!(rules.len(), 2);
    assert_eq!(rules[1].source, "/p/app/stores/user.ts");
    assert!(rules.iter().all(|r| r.kind == AutoImportKind::Named));
}

#[test]
fn store_exports_keep_value_hooks_only() {
    let export = |name: Option<&str>, type_only: bool| StoreModuleExport {
        name: name.map(|n| n.to_string()),
        is_type_only: type_only,
    };
    let exports = vec![
        export(Some("useUserStore"), false),
        export(Some("unusedStoreHelper"), false),
        export(Some("useTypeStore"), true),
        export(Some("useStore"), false),
        export(None, false),
        export(Some("useCartStore"), false),
        export(Some("useUserStore"), false),
    ];
    let mut rules = Vec::new();
    push_store_exports(&mut rules, "/p/stores/user.ts", &exports);
    let names: Vec<&str> = rules.iter().map(|r| r.name.as_str()).collect();
    assert_eq!(names, vec!["useUserStore", "useCartStore"]);
    assert!(rules.iter().all(|r| r.source == "/p/stores/user.ts"));
}

#[test]
fn ng_package_scan_skips_hidden_and_output_dirs() {
    for name in ["node_modules", "dist", "out", "tmp", "coverage", ".git", "."] {
        assert!(is_skipped_scan_dir(name), "{name}");
    }
    assert!(!is_skipped_scan_dir("src"));
    assert!(!is_skipped_scan_dir("distribution"));
    assert_eq!(classify_scan_entry(0, Some("lib"), true), ScanAction::Descend);
    assert_eq!(classify_scan_entry(0, Some("node_modules"), true), ScanAction::Ignore);
    assert_eq!(classify_scan_entry(6, Some("deep"), true), ScanAction::Ignore);
    assert_eq!(classify_scan_entry(5, None, true), ScanAction::Descend);
    assert_eq!(classify_scan_entry(0, Some("ng-package.json"), false), ScanAction::Ignore);
    assert_eq!(classify_scan_entry(1, Some("ng-package.json"), false), ScanAction::Collect);
    assert_eq!(classify_scan_entry(2, Some("ng-package.prod.json"), false), ScanAction::Collect);
    assert_eq!(classify_scan_entry(2, Some("package.json"), false), ScanAction::Ignore);
}

#[test]
fn ng_package_entry_defaults_and_dedups() {
    assert_eq!(ng_package_entry_file(Some("src/index.ts")), "src/index.ts");
    assert_eq!(ng_package_entry_file(Some("   ")), "src/public_api.ts");
    assert_eq!(ng_package_entry_file(None), "src/public_api.ts");
    let entries = vec![
        "projects/lib/src/public_api.ts".to_string(),
        "projects/lib/testing/src/index.ts".to_string(),
        "projects/lib/src/public_api.ts".to_string(),
    ];
    assert_eq!(
        finish_ng_package_entries(&entries),
        vec!["projects/lib/src/public_api.ts", "projects/lib/testing/src/index.ts"]
    );
}

#[test]
fn tsconfig_references_point_at_config_files() {
    assert_eq!(tsconfig_reference_target("/project", "./packages/core"), "/project/packages/core/tsconfig.json");
    assert_eq!(tsconfig_reference_target("/project", "./tsconfig.build.json"), "/project/tsconfig.build.json");
    assert_eq!(tsconfig_reference_target("/project/", "././lib"), "/project/lib/tsconfig.json");
    assert_eq!(tsconfig_reference_target("/project", "/abs/app"), "/abs/app/tsconfig.json");
    assert!(is_local_extends("./base.json"));
    assert!(is_local_extends("/etc/tsconfig.json"));
    assert!(!is_local_extends("@tsconfig/node20"));
    assert_eq!(local_extends_path("/project", "./configs/base.json"), "/project/configs/base.json");
    let plugin = TypeScriptPlugin;
    assert_eq!(plugin.name(), "typescript");
    assert_eq!(plugin.config_patterns(), vec!["tsconfig.json", "tsconfig.*.json"]);
    assert!(plugin.tooling_dependencies().contains(&"ts-node"));
}

#[test]
fn bump_files_resolve_against_config_directory() {
    assert_eq!(
        bump_file_setup_path("/project", "./version-updater.cjs"),
        Some("/project/version-updater.cjs".to_string())
    );
    assert_eq!(
        bump_file_setup_path("/project/sub", "u.cjs"),
        Some("/project/sub/u.cjs".to_string())
    );
    assert_eq!(bump_file_setup_path("/project", "./"), None);
    assert_eq!(bump_file_setup_path("/project", ""), None);
    let plugin = CommitAndTagVersionPlugin;
    assert_eq!(plugin.name(), "commit-and-tag-version");
    assert_eq!(plugin.file_arrays(), vec!["bumpFiles", "packageFiles"]);
    assert_eq!(plugin.file_keys(), vec!["updater", "filename"]);
    assert!(plugin.enablers().contains(&"standard-version"));
}

#[test]
fn static_plugin_conventions() {
    assert_eq!(VercelPlugin.enablers(), vec!["vercel", "@vercel/config"]);
    assert_eq!(VercelPlugin.config_patterns(), vec!["vercel.{ts,js,mjs,cjs,mts}"]);
    assert_eq!(ElectronPlugin.vite_sections(), vec!["main", "preload", "renderer"]);
    assert!(ElectronPlugin.tooling_dependencies().contains(&"@electron/rebuild"));
    assert_eq!(VitePlugin.name(), "vite");
    assert_eq!(VitePlugin.virtual_module_prefixes(), vec!["virtual:"]);
    assert!(VitePlugin.entry_patterns().contains(&"index.html"));
}

#[test]
fn velite_content_patterns_follow_collections() {
    let patterns = vec![
        "./blog/**/*.mdx".to_string(),
        "!drafts/**".to_string(),
        "./".to_string(),
        "docs/*.md".to_string(),
    ];
    assert_eq!(
        content_entry_patterns("content", &patterns),
        vec!["content/blog/**/*.mdx", "content/docs/*.md"]
    );
    assert_eq!(
        content_entry_patterns("content", &vec!["!x".to_string()]),
        vec!["content/**/*.{md,mdx,yml,yaml,json}"]
    );
    assert!(!is_custom_output_dir("./.velite"));
    assert!(!is_custom_output_dir(".velite"));
    assert!(is_custom_output_dir("generated"));
    assert!(is_package_import("@shikijs/rehype"));
    assert!(!is_package_import("./local"));
    assert!(!is_package_import(""));
}

#[test]
fn activates_from_cli_dependency() {
    let plugin = MintlifyPlugin;
    // An empty directory: neither docs.json nor mint.json is a file.
    assert!(plugin.is_enabled_with_deps(&vec!["mint".to_string()], false, false));
    assert!(plugin.is_enabled_with_deps(&vec!["mintlify".to_string()], false, false));
    assert!(!plugin.is_enabled_with_deps(&vec!["next".to_string()], false, false));
}

#[test]
fn resolve_config_scopes_content_to_nested_docs_root() {
    let plugin = MintlifyPlugin;
    let patterns = plugin.resolve_config("/repo/apps/docs/docs.json", "/repo");
    assert_eq!(
        patterns,
        vec!["apps/docs/**/*.{md,mdx}".to_string()],
        "content pattern should be scoped to the docs.json directory"
    );
}

#[test]
fn resolve_config_handles_root_level_config() {
    let plugin = MintlifyPlugin;
    let patterns = plugin.resolve_config("/repo/mint.json", "/repo");
    assert_eq!(patterns, vec!["**/*.{md,mdx}".to_string()]);
}

#[test]
fn resolve_config_does_not_emit_project_wide_pattern_for_nested_docs() {
    let plugin = MintlifyPlugin;
    let patterns = plugin.resolve_config("/repo/apps/docs/docs.json", "/repo");
    assert!(
        !patterns.contains(&"**/*.{md,mdx}".to_string()),
        "a nested docs root must not credit MDX across the whole project"
    );
}

#[test]
fn resolve_config_ignores_config_outside_root() {
    let plugin = MintlifyPlugin;
    let patterns = plugin.resolve_config("/elsewhere/docs/docs.json", "/repo");
    assert!(patterns.is_empty());
}

#[test]
fn resolve_config_does_not_inspect_source_so_malformed_json_is_safe() {
    let plugin = MintlifyPlugin;
    // The config's contents are never read.
    let patterns = plugin.resolve_config("/repo/docs.json", "/repo");
    assert_eq!(patterns, vec!["**/*.{md,mdx}".to_string()]);
}

#[test]
fn style_import_candidates_follow_sass_resolution() {
    assert_eq!(local_style_candidates("/repo", "styles/vars.scss"), vec!["/repo/styles/vars.scss"]);
    assert_eq!(local_style_candidates("/repo", "styles/VARS.CSS").len(), 1);
    let c = local_style_candidates("/repo", "styles/vars");
    assert_eq!(c.len(), 21);
    assert_eq!(
        &c[..5],
        &[
            "/repo/styles/vars",
            "/repo/styles/vars.scss",
            "/repo/styles/_vars.scss",
            "/repo/styles/vars/_index.scss",
            "/repo/styles/vars/index.scss",
        ]
    );
    assert_eq!(c[20], "/repo/styles/vars/index.stylus");
    let top = local_style_candidates("/repo", "theme");
    assert_eq!(top[1], "/repo/theme.scss");
    assert_eq!(top[2], "/repo/_theme.scss");
}

#[test]
fn additional_data_imports_split_into_packages_and_entries() {
    assert!(is_additional_data_package_import("bootstrap/scss/variables", false));
    assert!(!is_additional_data_package_import("bootstrap/scss/variables", true));
    assert!(!is_additional_data_package_import("./styles/vars", false));
    assert!(!is_additional_data_package_import("/abs/vars", false));
    assert!(!is_additional_data_package_import("sass:math", false));
    assert_eq!(
        additional_data_entry_pattern("./src/styles/vars.scss", false),
        Some("src/styles/vars.scss".to_string())
    );
    assert_eq!(additional_data_entry_pattern("./", false), None);
    assert_eq!(additional_data_entry_pattern("/abs/x.scss", false), None);
    assert_eq!(additional_data_entry_pattern("bootstrap/x", true), None);
}

#[test]
fn scss_include_paths_join_the_root() {
    let entries = vec!["./src/styles".to_string(), "node_modules".to_string(), "/abs/theme".to_string()];
    assert_eq!(
        scss_include_candidates("/ws", &entries),
        vec!["/ws/src/styles", "/ws/node_modules", "/abs/theme"]
    );
}

#[test]
fn alias_targets_name_files_by_extension() {
    assert!(alias_target_is_source_file("test/__mocks__/vscode.js"));
    assert!(alias_target_is_source_file("src/mocks/api.mts"));
    assert!(!alias_target_is_source_file("src"));
    assert!(!alias_target_is_source_file("src/styles.css"));
    assert!(!alias_target_is_source_file("mock/.ts"));
}
