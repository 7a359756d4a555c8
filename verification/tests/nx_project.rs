use plow_logic::plugins::nx::{resolve_nx_project, NxPlugin, NxProjectResult, NxProjectStrings};

fn strings(v: &[&str]) -> Vec<String> {
    v.iter().map(|s| s.to_string()).collect()
}

fn project(
    executors: &[&str],
    mains: &[&str],
    assets: &[&str],
    tsconfigs: &[&str],
    include_paths: &[&str],
) -> NxProjectStrings {
    NxProjectStrings {
        executors: strings(executors),
        mains: strings(mains),
        assets: strings(assets),
        tsconfigs: strings(tsconfigs),
        include_paths: strings(include_paths),
    }
}

fn has_entry_pattern(result: &NxProjectResult, pattern: &str) -> bool {
    result.entry_patterns.iter().any(|p| p == pattern)
}

#[test]
fn resolve_config_extracts_executor() {
    let s = project(&["@angular/build:application", "@nx/vite:test"], &[], &[], &[], &[]);
    let result = resolve_nx_project("project.json", "/project", &s);
    assert!(result.referenced_dependencies.contains(&"@angular/build".to_string()));
    assert!(result.referenced_dependencies.contains(&"@nx/vite".to_string()));
}

#[test]
fn nx_resolve_config_extracts_main() {
    let s = project(&["@angular/build:application"], &["apps/client/src/main.ts"], &[], &[], &[]);
    let result = resolve_nx_project("project.json", "/project", &s);
    assert!(has_entry_pattern(&result, "apps/client/src/main.ts"));
}

#[test]
fn resolve_config_extracts_browser_as_entry() {
    // `options.browser` values follow the mains in the extracted strings.
    let s = project(&["@angular/build:application"], &["apps/client/src/main.ts"], &[], &[], &[]);
    let result = resolve_nx_project("project.json", "/project", &s);
    assert!(has_entry_pattern(&result, "apps/client/src/main.ts"));
}

#[test]
fn resolve_config_extracts_styles_as_entry() {
    let s = project(
        &["@angular/build:application"],
        &[],
        &["src/styles.scss", "apps/client/src/theme.css"],
        &[],
        &[],
    );
    let result = resolve_nx_project("project.json", "/project", &s);
    assert!(has_entry_pattern(&result, "src/styles.scss"));
    assert!(has_entry_pattern(&result, "apps/client/src/theme.css"));
}

#[test]
fn nx_resolve_config_extracts_styles_object_form() {
    // The extractor hands over the object form's `input` as a plain string.
    let s = project(
        &["@angular/build:application"],
        &[],
        &["src/styles.scss", "src/theme.scss"],
        &[],
        &[],
    );
    let result = resolve_nx_project("project.json", "/project", &s);
    assert!(has_entry_pattern(&result, "src/styles.scss"));
    assert!(
        has_entry_pattern(&result, "src/theme.scss"),
        "object-form entry `input` must be extracted as entry pattern"
    );
}

#[test]
fn resolve_config_extracts_scripts_as_entry() {
    let s = project(&["@angular/build:application"], &[], &["src/analytics.ts"], &[], &[]);
    let result = resolve_nx_project("project.json", "/project", &s);
    assert!(has_entry_pattern(&result, "src/analytics.ts"));
}

#[test]
fn resolve_config_expands_project_root_in_styles() {
    let s = project(&[], &[], &["{projectRoot}/src/styles.scss"], &[], &[]);
    let result = resolve_nx_project("/repo/apps/client/project.json", "/repo", &s);
    assert!(has_entry_pattern(&result, "apps/client/src/styles.scss"));
}

#[test]
fn resolve_config_extracts_tsconfig() {
    let s = project(&["@angular/build:application"], &[], &[], &["apps/client/tsconfig.app.json"], &[]);
    let result = resolve_nx_project("project.json", "/project", &s);
    assert!(result.always_used_files.contains(&"apps/client/tsconfig.app.json".to_string()));
}

#[test]
fn resolve_config_empty_targets() {
    let s = project(&[], &[], &[], &[], &[]);
    let result = resolve_nx_project("project.json", "/project", &s);
    assert!(result.referenced_dependencies.is_empty());
    assert!(result.entry_patterns.is_empty());
}

#[test]
fn resolve_config_expands_project_root_in_main() {
    let s = project(&["@angular/build:application"], &["{projectRoot}/src/main.ts"], &[], &[], &[]);
    let result = resolve_nx_project("/workspace/apps/myapp/project.json", "/workspace", &s);
    assert!(has_entry_pattern(&result, "apps/myapp/src/main.ts"));
}

#[test]
fn resolve_config_expands_project_root_in_tsconfig() {
    let s = project(&["@angular/build:application"], &[], &[], &["{projectRoot}/tsconfig.app.json"], &[]);
    let result = resolve_nx_project("/workspace/apps/myapp/project.json", "/workspace", &s);
    assert!(result.always_used_files.contains(&"apps/myapp/tsconfig.app.json".to_string()));
}

#[test]
fn resolve_config_expands_project_root_token() {
    let s = project(&["@angular/build:application"], &[], &[], &[], &["{projectRoot}/src/style-paths"]);
    let result = resolve_nx_project("/ws/project.json", "/ws", &s);
    assert_eq!(result.scss_include_candidates.len(), 1);
    assert_eq!(result.scss_include_candidates[0], "/ws/src/style-paths");
}

#[test]
fn resolve_config_expands_project_root_token_in_subproject() {
    let s = project(&["@angular/build:application"], &[], &[], &[], &["{projectRoot}/src/styles"]);
    let result = resolve_nx_project("/ws/apps/myapp/project.json", "/ws", &s);
    assert_eq!(result.scss_include_candidates.len(), 1);
    assert_eq!(result.scss_include_candidates[0], "/ws/apps/myapp/src/styles");
}

#[test]
fn resolve_config_expands_workspace_root_token() {
    let s = project(&["@angular/build:application"], &[], &[], &[], &["{workspaceRoot}/shared/styles"]);
    let result = resolve_nx_project("/ws/project.json", "/ws", &s);
    assert_eq!(result.scss_include_candidates.len(), 1);
    assert_eq!(result.scss_include_candidates[0], "/ws/shared/styles");
}

#[test]
fn nx_project_keeps_order_and_strips_dot_slash_runs() {
    let s = project(
        &["nx:run-commands", ":odd", "plain"],
        &["./././a.ts", "b.ts"],
        &["./c.css"],
        &["./tsconfig.json"],
        &["./libs/scss", "/abs/dir"],
    );
    let result = resolve_nx_project("/ws/apps/x/project.json", "/ws/", &s);
    assert_eq!(result.referenced_dependencies, vec!["nx".to_string(), "plain".to_string()]);
    assert_eq!(
        result.entry_patterns,
        vec!["a.ts".to_string(), "b.ts".to_string(), "c.css".to_string()]
    );
    assert_eq!(result.always_used_files, vec!["tsconfig.json".to_string()]);
    assert_eq!(
        result.scss_include_candidates,
        vec!["/ws/libs/scss".to_string(), "/abs/dir".to_string()]
    );
}

#[test]
fn nx_project_outside_root_uses_empty_project_root() {
    let s = project(&[], &["{projectRoot}/src/main.ts"], &[], &[], &[]);
    let result = resolve_nx_project("/elsewhere/app/project.json", "/ws", &s);
    assert_eq!(result.entry_patterns, vec!["src/main.ts".to_string()]);
}

#[test]
fn nx_plugin_conventions() {
    let p = NxPlugin;
    assert_eq!(p.name(), "nx");
    assert_eq!(p.enablers(), vec!["nx"]);
    assert_eq!(p.config_patterns(), vec!["**/project.json"]);
    assert_eq!(p.always_used(), vec!["nx.json", "**/project.json"]);
    let deps = p.tooling_dependencies();
    assert_eq!(deps.len(), 20);
    assert_eq!(deps[0], "nx");
    assert!(deps.contains(&"@nx/nest"));
}
