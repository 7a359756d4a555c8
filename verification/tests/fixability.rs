use plow_logic::fixability::{
    classify_config_fix_plan, has_workspace_marker, is_config_fixable, join_path, ConfigFixPlan,
    WorkspacesField,
};

#[test]
fn config_fixable_true_when_config_exists() {
    assert!(is_config_fixable("/repo", Some("/repo/.plowrc.json"), Some("/")));
}

#[test]
fn config_fixable_true_when_can_create_at_root() {
    assert!(is_config_fixable("/repo", None, None));
    assert_eq!(
        classify_config_fix_plan("/repo", None, None, false),
        ConfigFixPlan::Create { target: "/repo/.plowrc.json".to_string() }
    );
}

#[test]
fn config_fixable_false_when_monorepo_subpackage() {
    assert!(!is_config_fixable("/repo/packages/app", None, Some("/repo")));
    assert_eq!(
        classify_config_fix_plan("/repo/packages/app", None, Some("/repo"), true),
        ConfigFixPlan::BlockedMonorepo { workspace_root: "/repo".to_string() }
    );
}

#[test]
fn no_create_blocks_creation() {
    assert_eq!(
        classify_config_fix_plan("dir/", None, None, true),
        ConfigFixPlan::BlockedNoCreate { target: "dir/.plowrc.json".to_string() }
    );
    assert_eq!(join_path("", "x"), "x");
}

#[test]
fn workspace_marker_from_sentinels_or_workspaces_field() {
    assert!(has_workspace_marker(&vec![false, true, false, false], WorkspacesField::Absent));
    assert!(has_workspace_marker(&vec![false; 4], WorkspacesField::ListOrObject));
    assert!(!has_workspace_marker(&vec![false; 4], WorkspacesField::Other));
}
