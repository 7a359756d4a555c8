use plow_logic::plugins::test_alias::{process_test_alias, AliasCredits, AliasEntry};

/// An alias entry of `/project/vitest.config.ts`, with what the resolver says
/// of a key and replacement that are both bare package specifiers, and the
/// replacement normalized under `/project`.
fn entry(find: &str, replacement: &str, bare_string: bool) -> AliasEntry {
    AliasEntry {
        find: find.to_string(),
        replacement_is_bare_string_literal: bare_string,
        find_is_package: true,
        replacement_is_package: true,
        find_package: find.to_string(),
        replacement_package: replacement.to_string(),
        normalized: Some(replacement.to_string()),
    }
}

fn empty() -> AliasCredits {
    AliasCredits { referenced_dependencies: vec![], path_aliases: vec![], setup_files: vec![] }
}

#[test]
fn package_to_package_credits_both_no_path_alias() {
    let mut result = empty();
    process_test_alias(&mut result, &entry("lodash-es", "lodash", true), "/project");
    assert!(
        result.path_aliases.is_empty(),
        "package-to-package must emit no path alias: {:?}",
        result.path_aliases
    );
    assert!(result.referenced_dependencies.contains(&"lodash".to_string()));
    assert!(result.referenced_dependencies.contains(&"lodash-es".to_string()));
}

#[test]
fn path_builder_directory_alias_is_path_not_package_even_without_src_on_disk() {
    // `@` -> path.resolve(__dirname, 'src') arrives as a path expression, so
    // it takes the path-alias branch although `src` is a bare specifier.
    let mut result = empty();
    process_test_alias(&mut result, &entry("@", "src", false), "/project");
    assert_eq!(
        result.path_aliases,
        vec![("@".to_string(), "src".to_string())],
        "path-expression directory alias must emit a path alias"
    );
}

#[test]
fn bare_string_directory_alias_residual_is_package_to_package() {
    let mut result = empty();
    process_test_alias(&mut result, &entry("@", "src", true), "/project");
    assert!(
        result.path_aliases.is_empty(),
        "bare-string `@`->`src` is treated as package-to-package (documented residual)"
    );
}

#[test]
fn mock_file_alias_becomes_a_setup_file_and_credits_its_key() {
    let mut result = empty();
    let alias = AliasEntry {
        find: "vscode".to_string(),
        replacement_is_bare_string_literal: true,
        find_is_package: true,
        replacement_is_package: false,
        find_package: "vscode".to_string(),
        replacement_package: String::new(),
        normalized: Some("test/mock/vscode.js".to_string()),
    };
    process_test_alias(&mut result, &alias, "/project");
    assert_eq!(result.path_aliases, vec![("vscode".to_string(), "test/mock/vscode.js".to_string())]);
    assert_eq!(result.setup_files, vec!["/project/test/mock/vscode.js".to_string()]);
    assert_eq!(result.referenced_dependencies, vec!["vscode".to_string()]);

    let mut result = empty();
    let escaping = AliasEntry { normalized: None, ..alias };
    process_test_alias(&mut result, &escaping, "/project");
    assert!(result.path_aliases.is_empty() && result.setup_files.is_empty());
    assert!(result.referenced_dependencies.is_empty());
}
