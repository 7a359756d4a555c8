use plow_logic::plugins::commit_and_tag_version::{resolve_bump_files, BumpEntryStrings};

fn strings(v: &[&str]) -> Vec<String> {
    v.iter().map(|s| s.to_string()).collect()
}

/// The extracted `updater` / `filename` values of `bumpFiles` and
/// `packageFiles` entries, resolved for a config at `config_path` in the
/// project at `/project`.
fn resolve(
    config_path: &str,
    bump_updaters: &[&str],
    bump_filenames: &[&str],
    package_updaters: &[&str],
    package_filenames: &[&str],
) -> Vec<String> {
    let entries = BumpEntryStrings {
        bump_updaters: strings(bump_updaters),
        bump_filenames: strings(bump_filenames),
        package_updaters: strings(package_updaters),
        package_filenames: strings(package_filenames),
    };
    resolve_bump_files(config_path, "/project", &entries)
}

#[test]
fn credits_updater_and_filename_from_bump_files() {
    let files = resolve(
        "/project/commit-and-tag-version.config.json",
        &["app/scripts/gradle-updater.cjs"],
        &["app/android/app/build.gradle"],
        &[],
        &[],
    );
    assert!(files.contains(&"/project/app/scripts/gradle-updater.cjs".to_string()));
    assert!(files.contains(&"/project/app/android/app/build.gradle".to_string()));
}

#[test]
fn credits_package_files_entries() {
    let files = resolve(
        "/project/commit-and-tag-version.config.json",
        &[],
        &[],
        &["scripts/manifest-updater.js"],
        &["site.webmanifest"],
    );
    assert!(files.contains(&"/project/scripts/manifest-updater.js".to_string()));
    assert!(files.contains(&"/project/site.webmanifest".to_string()));
}

#[test]
fn strips_leading_dot_slash() {
    let files = resolve(
        "/project/commit-and-tag-version.config.json",
        &["./version-updater.cjs"],
        &["VERSION"],
        &[],
        &[],
    );
    assert!(files.contains(&"/project/version-updater.cjs".to_string()));
}

#[test]
fn resolves_relative_to_config_directory() {
    let files = resolve("/project/sub/.versionrc.json", &["u.cjs"], &["pkg.json"], &[], &[]);
    assert!(files.contains(&"/project/sub/u.cjs".to_string()));
    assert!(files.contains(&"/project/sub/pkg.json".to_string()));
}

#[test]
fn type_only_entries_credit_filename_only() {
    // Built-in `type` updaters have no custom module; only `filename` is a
    // local file reference.
    let files = resolve(
        "/project/commit-and-tag-version.config.json",
        &[],
        &["package.json"],
        &[],
        &[],
    );
    assert_eq!(files, vec!["/project/package.json".to_string()]);
}

#[test]
fn empty_config_credits_nothing() {
    let files = resolve("/project/commit-and-tag-version.config.json", &[], &[], &[], &[]);
    assert!(files.is_empty());
}

#[test]
fn bump_files_keep_order_skip_empty_and_fall_back_to_root() {
    let files = resolve(
        "relative/.versionrc",
        &["./", "a.cjs"],
        &["./././b.json"],
        &[""],
        &["c.txt"],
    );
    assert_eq!(
        files,
        vec![
            "/project/a.cjs".to_string(),
            "/project/b.json".to_string(),
            "/project/c.txt".to_string(),
        ]
    );
}
