use plow_logic::list_output::{build_list_json_output, ListJsonOutputInput, WorkspacesOutput};

#[test]
fn list_output_counts_sections_and_spreads_workspaces() {
    let input: ListJsonOutputInput<&str, u8, Vec<&str>, Vec<&str>> = ListJsonOutputInput {
        plugins: Some(vec!["react".to_string(), "vite".to_string()]),
        files: Some(vec!["src/index.ts".to_string()]),
        entry_points: Some(vec!["package.json main", "src/cli.ts"]),
        boundaries: None,
        workspaces: Some(WorkspacesOutput {
            workspace_count: 2,
            workspaces: vec!["web", "api"],
            workspace_diagnostics: vec![],
        }),
    };
    let out = build_list_json_output(input);
    let names: Vec<&str> = out.plugins.as_ref().unwrap().iter().map(|p| p.name.as_str()).collect();
    assert_eq!(names, vec!["react", "vite"]);
    assert_eq!(out.file_count, Some(1));
    assert_eq!(out.entry_point_count, Some(2));
    assert_eq!(out.boundaries, None);
    assert_eq!(out.workspace_count, Some(2));
    assert_eq!(out.workspaces, Some(vec!["web", "api"]));
    assert_eq!(out.workspace_diagnostics, Some(vec![]));
}

#[test]
fn list_output_leaves_unasked_sections_out() {
    let input: ListJsonOutputInput<(), (), (), ()> = ListJsonOutputInput {
        plugins: None,
        files: None,
        entry_points: None,
        boundaries: None,
        workspaces: None,
    };
    let out = build_list_json_output(input);
    assert!(out.plugins.is_none() && out.file_count.is_none() && out.files.is_none());
    assert!(out.entry_point_count.is_none() && out.workspace_count.is_none());
    assert!(out.workspaces.is_none() && out.workspace_diagnostics.is_none());
}
