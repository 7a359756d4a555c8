use plow_logic::parse_scripts::{extract_script_file_refs, looks_like_file_path, looks_like_script_file};


#[test]
fn script_node_runner() {
    let refs = extract_script_file_refs("node utilities/generate-coverage-badge.js");
    assert_eq!(refs, vec!["utilities/generate-coverage-badge.js"]);
}

#[test]
fn script_ts_node_runner() {
    let refs = extract_script_file_refs("ts-node scripts/seed.ts");
    assert_eq!(refs, vec!["scripts/seed.ts"]);
}

#[test]
fn script_tsx_runner() {
    let refs = extract_script_file_refs("tsx scripts/migrate.ts");
    assert_eq!(refs, vec!["scripts/migrate.ts"]);
}

#[test]
fn script_npx_prefix() {
    let refs = extract_script_file_refs("npx ts-node scripts/generate.ts");
    assert_eq!(refs, vec!["scripts/generate.ts"]);
}

#[test]
fn script_chained_commands() {
    let refs = extract_script_file_refs("node scripts/build.js && node scripts/post-build.js");
    assert_eq!(refs, vec!["scripts/build.js", "scripts/post-build.js"]);
}

#[test]
fn script_with_flags() {
    let refs = extract_script_file_refs(
        "node --experimental-specifier-resolution=node scripts/run.mjs",
    );
    assert_eq!(refs, vec!["scripts/run.mjs"]);
}

#[test]
fn script_no_file_ref() {
    let refs = extract_script_file_refs("next build");
    assert!(refs.is_empty());
}

#[test]
fn script_bare_file_path() {
    let refs = extract_script_file_refs("echo done && node ./scripts/check.js");
    assert_eq!(refs, vec!["./scripts/check.js"]);
}

#[test]
fn script_semicolon_separator() {
    let refs = extract_script_file_refs("node scripts/a.js; node scripts/b.ts");
    assert_eq!(refs, vec!["scripts/a.js", "scripts/b.ts"]);
}

#[test]
fn file_path_with_extension() {
    assert!(looks_like_file_path("scripts/build.js"));
    assert!(looks_like_file_path("scripts/build.ts"));
    assert!(looks_like_file_path("scripts/build.mjs"));
}

#[test]
fn file_path_with_slash() {
    assert!(looks_like_file_path("scripts/build"));
}

#[test]
fn not_file_path() {
    assert!(!looks_like_file_path("--watch"));
    assert!(!looks_like_file_path("build"));
}

#[test]
fn script_file_with_path() {
    assert!(looks_like_script_file("scripts/build.js"));
    assert!(looks_like_script_file("./scripts/build.ts"));
    assert!(looks_like_script_file("../scripts/build.mjs"));
}

#[test]
fn not_script_file_bare_name() {
    assert!(!looks_like_script_file("webpack.js"));
    assert!(!looks_like_script_file("build"));
}

#[test]
fn looks_like_file_path_rejects_gha_fragments() {
    assert!(!looks_like_file_path("${{ env.URL }}/api.ts"));
    assert!(!looks_like_file_path("}}/api/health.ts"));
}

#[test]
fn looks_like_file_path_rejects_backslash_and_bracket_class() {
    assert!(!looks_like_file_path(r"path\to\file.ts"));
    assert!(!looks_like_file_path(".[]"));
    assert!(!looks_like_file_path("prefix/[^unclosed.ts"));
}

#[test]
fn looks_like_file_path_passes_nextjs_dynamic_route() {
    assert!(looks_like_file_path("app/[id]/page.tsx"));
    assert!(looks_like_file_path("pages/[...slug].ts"));
}

#[test]
fn looks_like_script_file_rejects_gha_and_regex_fragments() {
    assert!(!looks_like_script_file("${{ env.X }}/path.ts"));
    assert!(!looks_like_script_file(r"path\file.ts"));
}


#[test]
fn script_yarn_exec_launcher() {
    let refs = extract_script_file_refs("yarn exec tsx scripts/a.ts || pnpm exec node ../tools/b.mjs");
    assert_eq!(refs, vec!["scripts/a.ts", "../tools/b.mjs"]);
}

#[test]
fn script_bare_script_without_runner() {
    let refs = extract_script_file_refs("./bin/run.js --fast; webpack.js");
    assert_eq!(refs, vec!["./bin/run.js"]);
}

#[test]
fn script_launcher_alone_has_no_refs() {
    assert!(extract_script_file_refs("npx").is_empty());
    assert!(extract_script_file_refs("  ;  && ").is_empty());
}

#[test]
fn runner_argument_without_extension_is_a_path() {
    let refs = extract_script_file_refs("node ./bin/server https://x.io/a @scope/pkg");
    assert_eq!(refs, vec!["./bin/server"]);
}
