use plow_logic::package_assets::{
    has_template_or_scaffold_segment, looks_like_file, normalize_publish_entry,
    scaffold_template_asset_patterns,
};

fn pkg(files: &[&str]) -> Vec<String> {
    files.iter().map(|value| (*value).to_string()).collect()
}

#[test]
fn package_files_template_roots_become_recursive_patterns() {
    assert_eq!(
        scaffold_template_asset_patterns(&pkg(&[
            "template-*",
            "templates/**",
            "templates",
            "scaffold/**",
            "scaffolds/*",
        ])),
        vec![
            "template-*/**/*",
            "templates/**",
            "templates/**/*",
            "scaffold/**",
            "scaffolds/*/**/*",
        ]
    );
}

#[test]
fn package_files_generic_publish_entries_are_ignored() {
    assert!(
        scaffold_template_asset_patterns(&pkg(&["dist", "index.js", "README.md", "src/index.ts"]))
            .is_empty()
    );
}

#[test]
fn package_files_reject_absolute_traversal_and_file_entries() {
    assert!(
        scaffold_template_asset_patterns(&pkg(&[
            "/template-react",
            "C:/template-react",
            "../template-react",
            "templates/../template-react",
            "template.json",
        ]))
        .is_empty()
    );
}

#[test]
fn package_files_with_negated_entries_skip_derivation() {
    assert!(scaffold_template_asset_patterns(&pkg(&["template-*", "!template-legacy"])).is_empty());
}

#[test]
fn package_files_normalize_relative_prefixes_and_separators() {
    assert_eq!(
        scaffold_template_asset_patterns(&pkg(&["./template-react", r".\scaffold"])),
        vec!["template-react/**/*", "scaffold/**/*"]
    );
}

#[test]
fn publish_entries_are_trimmed_and_unslashed() {
    assert_eq!(normalize_publish_entry("  ././a/b/ ").as_deref(), Some("a/b"));
    assert_eq!(normalize_publish_entry("./"), None);
    assert_eq!(normalize_publish_entry("a/../b"), None);
    assert_eq!(normalize_publish_entry("a/...").as_deref(), Some("a/..."));
}

#[test]
fn template_segments_and_file_names() {
    assert!(has_template_or_scaffold_segment("x/*templates*/y"));
    assert!(has_template_or_scaffold_segment("**/scaffold*{"));
    assert!(!has_template_or_scaffold_segment("{scaffold}"));
    assert!(!has_template_or_scaffold_segment("my-template"));
    assert!(looks_like_file("templates/a.json/**"));
    assert!(!looks_like_file("templates/*.json"));
    assert!(!looks_like_file("templates/.hidden"));
}
