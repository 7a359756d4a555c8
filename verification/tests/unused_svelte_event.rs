use plow_logic::unused_svelte_event::{
    collect_listened_events, component_name_for, find_unused_svelte_events,
    flag_unlistened_events, is_svelte_file, DispatchedEvent, SvelteGraphNode, SvelteModuleFacts,
    UnusedSvelteEvent,
};

/// A `.svelte` module with the given dispatched and listened events.
fn svelte_module(id: u32, dispatched: &[&str], listened: &[&str], dynamic: bool) -> SvelteModuleFacts {
    SvelteModuleFacts {
        file_id: id,
        dispatched_events: dispatched
            .iter()
            .enumerate()
            .map(|(i, name)| DispatchedEvent {
                name: (*name).to_string(),
                line: 1,
                col: i as u32,
            })
            .collect(),
        listened_events: listened.iter().map(|s| (*s).to_string()).collect(),
        has_dynamic_dispatch: dynamic,
    }
}

/// Both passes run directly against the modules, each a reachable component
/// named `Comp<id>.svelte`.
fn run(modules: &[SvelteModuleFacts]) -> Vec<UnusedSvelteEvent> {
    let modules = modules.to_vec();
    let listened = collect_listened_events(&modules);
    let mut findings = Vec::new();
    for module in &modules {
        let path = format!("src/Comp{}.svelte", module.file_id);
        flag_unlistened_events(module, &path, &listened, &mut findings);
    }
    findings.sort_by(|a, b| a.path.cmp(&b.path).then(a.event_name.cmp(&b.event_name)));
    findings
}

#[test]
fn dispatched_and_listened_is_not_flagged() {
    let child = svelte_module(0, &["save"], &[], false);
    let parent = svelte_module(1, &[], &["save"], false);
    let findings = run(&[child, parent]);
    assert!(findings.is_empty(), "listened event must not flag: {findings:?}");
}

#[test]
fn dispatched_and_unlistened_is_flagged() {
    let child = svelte_module(0, &["save"], &[], false);
    let parent = svelte_module(1, &[], &["close"], false);
    let findings = run(&[child, parent]);
    assert_eq!(findings.len(), 1, "unlistened event must flag: {findings:?}");
    assert_eq!(findings[0].event_name, "save");
}

#[test]
fn dynamic_dispatch_abstains_whole_component() {
    let child = svelte_module(0, &["save"], &[], true);
    let findings = run(&[child]);
    assert!(findings.is_empty(), "dynamic dispatch must abstain the whole component: {findings:?}");
}

#[test]
fn dom_on_click_does_not_credit_listener() {
    let child = svelte_module(0, &["click"], &[], false);
    let findings = run(&[child]);
    assert_eq!(findings.len(), 1, "DOM on:click must not credit: {findings:?}");
    assert_eq!(findings[0].event_name, "click");
}

#[test]
fn forwarding_listener_credits_the_event() {
    let child = svelte_module(0, &["save"], &[], false);
    let mid = svelte_module(1, &[], &["save"], false);
    let findings = run(&[child, mid]);
    assert!(findings.is_empty(), "forwarded event must be credited: {findings:?}");
}

#[test]
fn no_dep_gate_returns_empty() {
    let child = svelte_module(0, &["save"], &[], false);
    let findings = find_unused_svelte_events(&vec![], &vec![child], &vec![]);
    assert!(findings.is_empty(), "no `svelte` dep must abstain: {findings:?}");
}

#[test]
fn graph_pass_keeps_reachable_svelte_components_sorted() {
    let modules = vec![
        svelte_module(0, &["save", "close"], &[], false),
        svelte_module(1, &["open"], &["close"], false),
        svelte_module(2, &["gone"], &[], false),
        svelte_module(3, &["raw"], &[], false),
    ];
    let nodes = vec![
        SvelteGraphNode { file_id: 1, reachable: true, path: "src/B.svelte".to_string() },
        SvelteGraphNode { file_id: 0, reachable: true, path: "src/A.svelte".to_string() },
        SvelteGraphNode { file_id: 2, reachable: false, path: "src/C.svelte".to_string() },
        SvelteGraphNode { file_id: 3, reachable: true, path: "src/D.ts".to_string() },
    ];
    let deps = vec!["svelte".to_string()];
    let findings = find_unused_svelte_events(&nodes, &modules, &deps);
    let got: Vec<(&str, &str, &str, u32)> = findings
        .iter()
        .map(|f| (f.path.as_str(), f.component_name.as_str(), f.event_name.as_str(), f.col))
        .collect();
    assert_eq!(
        got,
        vec![("src/A.svelte", "A", "save", 0), ("src/B.svelte", "B", "open", 0)]
    );
}

#[test]
fn listened_names_are_collected_once() {
    let modules = vec![
        svelte_module(0, &[], &["a", "b"], false),
        svelte_module(1, &[], &["b", "c"], false),
    ];
    assert_eq!(collect_listened_events(&modules), vec!["a", "b", "c"]);
}

#[test]
fn svelte_paths_and_component_names() {
    assert!(is_svelte_file("src/Button.svelte"));
    assert!(!is_svelte_file("src/Button.svelte.ts"));
    assert!(!is_svelte_file(".svelte"));
    assert_eq!(component_name_for("src/Button.svelte"), "Button");
    assert_eq!(component_name_for("src/a.b.svelte"), "a.b");
    assert_eq!(component_name_for("src/.hidden"), ".hidden");
    assert_eq!(component_name_for(""), "");
}
