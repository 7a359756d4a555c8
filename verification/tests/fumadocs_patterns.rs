use plow_logic::plugins::fumadocs::content_dir_patterns;

#[test]
fn content_dirs_become_sorted_unique_globs() {
    let dirs: Vec<String> = ["docs/guides", "content/docs", "docs/guides"]
        .iter()
        .map(|s| s.to_string())
        .collect();
    assert_eq!(
        content_dir_patterns(&dirs),
        vec![
            "content/docs/**/*.{md,mdx,json,yml,yaml}".to_string(),
            "docs/guides/**/*.{md,mdx,json,yml,yaml}".to_string(),
        ]
    );
    assert!(content_dir_patterns(&Vec::new()).is_empty());
}

#[test]
fn content_dir_globs_follow_directory_order() {
    // `a` sorts before `a-b`, although `a/` would sort after `a-b/`.
    let dirs = vec!["a-b".to_string(), "a".to_string()];
    assert_eq!(
        content_dir_patterns(&dirs),
        vec![
            "a/**/*.{md,mdx,json,yml,yaml}".to_string(),
            "a-b/**/*.{md,mdx,json,yml,yaml}".to_string(),
        ]
    );
}
