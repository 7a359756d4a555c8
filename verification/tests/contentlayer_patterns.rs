use plow_logic::plugins::contentlayer::{content_entry_patterns, document_pattern};
use plow_logic::plugins::referenced_import_packages;

fn strings(v: &[&str]) -> Vec<String> {
    v.iter().map(|s| s.to_string()).collect()
}

#[test]
fn skips_document_patterns_that_escape_content_dir() {
    // `filePathPattern: '../outside/**/*.mdx'` under `contentDirPath: 'data'`.
    let documents: Vec<String> = document_pattern("../outside/**/*.mdx").into_iter().collect();
    let patterns = content_entry_patterns(&strings(&["data"]), &documents);
    assert_eq!(patterns, vec!["data/**/*.{md,mdx,json,yml,yaml}"]);
}

#[test]
fn content_roots_and_document_patterns_combine() {
    let documents: Vec<String> = ["blog/**/*.mdx", "./authors/**/*.mdx"]
        .iter()
        .filter_map(|p| document_pattern(p))
        .collect();
    assert_eq!(documents, strings(&["blog/**/*.mdx", "authors/**/*.mdx"]));
    let patterns = content_entry_patterns(&strings(&["data"]), &documents);
    assert_eq!(
        patterns,
        strings(&[
            "data/**/*.{md,mdx,json,yml,yaml}",
            "data/authors/**/*.mdx",
            "data/blog/**/*.mdx",
        ])
    );
}

#[test]
fn document_patterns_drop_empty_parent_and_absolute_values() {
    assert_eq!(document_pattern("./"), None);
    assert_eq!(document_pattern(""), None);
    assert_eq!(document_pattern("../x/*.md"), None);
    assert_eq!(document_pattern("/abs/*.md"), None);
    assert_eq!(document_pattern("././docs/*.md"), Some("docs/*.md".to_string()));
}

#[test]
fn content_patterns_are_sorted_unique_and_trim_slashes() {
    let patterns = content_entry_patterns(
        &strings(&["content/", "content/", "a"]),
        &strings(&["//x.md", "x.md"]),
    );
    assert_eq!(
        patterns,
        strings(&[
            "a/**/*.{md,mdx,json,yml,yaml}",
            "a/x.md",
            "content//**/*.{md,mdx,json,yml,yaml}",
            "content/x.md",
        ])
    );
    assert!(content_entry_patterns(&Vec::new(), &strings(&["x.md"])).is_empty());
}

#[test]
fn import_packages_are_filtered_sorted_and_unique() {
    let names = strings(&[
        "remark-gfm",
        "contentlayer2",
        "./local",
        "",
        "/abs",
        "remark-gfm",
        "@scope/pkg",
    ]);
    assert_eq!(
        referenced_import_packages(&names),
        strings(&["@scope/pkg", "contentlayer2", "remark-gfm"])
    );
    assert!(referenced_import_packages(&Vec::new()).is_empty());
}
