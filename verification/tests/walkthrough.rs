use plow_logic::walkthrough::{
    build_direction, change_anchor_allowlist, derive_change_anchor_id, extract_count,
    is_reviewable_source_unit, normalize_added_text, parse_change_anchors, parse_fan_counts,
    validate_walkthrough, AgentJudgment, AgentWalkthrough, DecisionSurface, FocusMap, FocusUnit,
    OutOfDiff, RoutingFacts, RoutingUnit, out_of_diff_by_file, CoordinationGap,
};

fn surface_with_one_signal() -> (DecisionSurface, String) {
    let real_id = "sig:0123456789abcdef".to_string();
    (DecisionSurface { signal_ids: vec![real_id.clone()] }, real_id)
}

fn judgment(signal_id: &str, change_anchor: &str, framing: &str) -> AgentJudgment {
    AgentJudgment {
        signal_id: signal_id.to_string(),
        change_anchor: change_anchor.to_string(),
        framing: framing.to_string(),
        concern: None,
    }
}

#[test]
fn clean_agent_json_is_accepted_with_zero_unanchored() {
    let (surface, real_id) = surface_with_one_signal();
    let hash = "graph:abc123";
    let agent = AgentWalkthrough {
        graph_snapshot_hash: hash.to_string(),
        judgments: vec![AgentJudgment {
            signal_id: real_id.clone(),
            change_anchor: String::new(),
            framing: "Intended coupling, payments boundary widened on purpose.".to_string(),
            concern: Some("coupling".to_string()),
        }],
    };
    let validation = validate_walkthrough(&agent, &surface, &Vec::new(), hash);
    assert!(!validation.stale, "matching hash is not stale");
    assert_eq!(validation.accepted_count, 1, "the anchored judgment accepts");
    assert_eq!(validation.rejected_count, 0, "no rejections");
    assert_eq!(validation.unanchored_count, 0, "zero unanchored findings");
    assert!(!validation.accepted[0].deterministic);
    assert_eq!(validation.accepted[0].signal_id, real_id);
    assert_eq!(validation.accepted[0].anchor_kind, "signal");
    assert_eq!(validation.accepted[0].concern.as_deref(), Some("coupling"));
    assert_eq!(validation.command, "review-walkthrough-validation");
}

#[test]
fn injected_unanchored_signal_id_is_rejected() {
    let (surface, real_id) = surface_with_one_signal();
    let hash = "graph:abc123";
    let agent = AgentWalkthrough {
        graph_snapshot_hash: hash.to_string(),
        judgments: vec![
            judgment(&real_id, "", "real"),
            judgment("sig:deadbeefdeadbeef", "", "hallucinated decision with no graph anchor"),
        ],
    };
    let validation = validate_walkthrough(&agent, &surface, &Vec::new(), hash);
    assert_eq!(validation.accepted_count, 1, "only the real one accepts");
    assert_eq!(validation.rejected_count, 1, "the fabricated one rejects");
    assert_eq!(validation.rejected[0].signal_id, "sig:deadbeefdeadbeef");
    assert_eq!(validation.rejected[0].reason, "unanchored-signal-id");
    assert!(validation.accepted.iter().all(|j| j.signal_id == real_id));
}

#[test]
fn stale_snapshot_hash_refuses_the_whole_payload() {
    let (surface, real_id) = surface_with_one_signal();
    let agent = AgentWalkthrough {
        graph_snapshot_hash: "graph:OLD_before_mutation".to_string(),
        judgments: vec![judgment(&real_id, "", "would be valid, but the tree moved")],
    };
    let validation = validate_walkthrough(&agent, &surface, &Vec::new(), "graph:NEW_after_mutation");
    assert!(validation.stale, "old hash is stale");
    assert_eq!(validation.accepted_count, 0, "nothing accepts when stale");
    assert_eq!(validation.rejected_count, 1, "the judgment is refused");
    assert_eq!(validation.rejected[0].reason, "stale-snapshot");
    assert_eq!(validation.graph_snapshot_hash, "graph:NEW_after_mutation");
}

#[test]
fn empty_echoed_hash_is_a_stale_refusal() {
    let (surface, _) = surface_with_one_signal();
    let agent = AgentWalkthrough { graph_snapshot_hash: String::new(), judgments: Vec::new() };
    let validation = validate_walkthrough(&agent, &surface, &Vec::new(), "graph:real");
    assert!(validation.stale, "empty echoed hash never matches a real hash");
    assert_eq!(validation.accepted_count, 0);
}

fn focus_unit(file: &str, total: u32) -> FocusUnit {
    FocusUnit { file: file.to_string(), reason: String::new(), score_total: total }
}

fn focus_unit_fan(file: &str, importers: u32, total: u32) -> FocusUnit {
    let s = if importers == 1 { "" } else { "s" };
    FocusUnit {
        file: file.to_string(),
        reason: format!("high fan-in ({importers} importer{s})"),
        score_total: total,
    }
}

fn no_routing() -> RoutingFacts {
    RoutingFacts { units: Vec::new() }
}

#[test]
fn within_stage_order_follows_visible_fan_io_not_hidden_total() {
    let focus = FocusMap {
        review_here: vec![focus_unit_fan("src/a.ts", 5, 99), focus_unit_fan("src/b.ts", 60, 1)],
        deprioritized: vec![],
    };
    let direction = build_direction(&focus, &Vec::new(), &no_routing());
    assert_eq!(direction.order, vec!["src/b.ts", "src/a.ts"]);
}

#[test]
fn stage_two_orders_by_importer_then_fanout_then_path() {
    let focus = FocusMap {
        review_here: vec![
            FocusUnit { file: "src/zlo.ts".to_string(), reason: "fan-out 1".to_string(), score_total: 0 },
            FocusUnit { file: "src/zhi.ts".to_string(), reason: "fan-out 9".to_string(), score_total: 0 },
            focus_unit_fan("src/top.ts", 12, 1),
        ],
        deprioritized: vec![],
    };
    let direction = build_direction(&focus, &Vec::new(), &no_routing());
    assert_eq!(direction.order, vec!["src/top.ts", "src/zhi.ts", "src/zlo.ts"]);
}

#[test]
fn out_of_diff_units_sort_ahead_of_higher_fan_io_orientation_units() {
    let focus = FocusMap {
        review_here: vec![focus_unit_fan("src/contract.ts", 1, 1), focus_unit_fan("src/orient.ts", 9, 9)],
        deprioritized: vec![],
    };
    let out_of_diff = vec![OutOfDiff {
        file: "src/contract.ts".to_string(),
        consumers: vec!["src/consumer.ts".to_string()],
    }];
    let direction = build_direction(&focus, &out_of_diff, &no_routing());
    assert_eq!(direction.order, vec!["src/contract.ts", "src/orient.ts"]);
    assert_eq!(direction.units[0].concern_lens, "contract-break");
}

#[test]
fn direction_spines_on_focus_units_with_expert_overlay() {
    let focus = FocusMap {
        review_here: vec![focus_unit("src/b.ts", 5), focus_unit("src/a.ts", 3)],
        deprioritized: vec![],
    };
    let routing = RoutingFacts {
        units: vec![RoutingUnit {
            file: "src/b.ts".to_string(),
            expert: vec!["@team".to_string()],
            bus_factor_one: false,
        }],
    };
    let out_of_diff = vec![OutOfDiff {
        file: "src/a.ts".to_string(),
        consumers: vec!["src/consumer.ts".to_string()],
    }];
    let direction = build_direction(&focus, &out_of_diff, &routing);
    assert_eq!(direction.order, vec!["src/a.ts", "src/b.ts"]);
    assert_eq!(direction.units[0].file, "src/a.ts");
    assert_eq!(direction.units[0].concern_lens, "contract-break");
    assert_eq!(direction.units[0].out_of_diff, vec!["src/consumer.ts"]);
    assert_eq!(direction.units[0].scoring_budget, 3);
    assert!(direction.units[0].expert.is_empty());
    assert_eq!(direction.units[1].file, "src/b.ts");
    assert_eq!(direction.units[1].concern_lens, "orientation");
    assert_eq!(direction.units[1].scoring_budget, 5);
    assert_eq!(direction.units[1].expert, vec!["@team".to_string()]);
}

#[test]
fn direction_excludes_non_source_units() {
    let focus = FocusMap {
        review_here: vec![
            focus_unit("LICENSE", 1),
            focus_unit(".gitignore", 1),
            focus_unit("README.md", 1),
            focus_unit("src/app.component.ts", 4),
        ],
        deprioritized: vec![],
    };
    let direction = build_direction(&focus, &Vec::new(), &no_routing());
    assert_eq!(direction.order, vec!["src/app.component.ts"]);
    assert_eq!(direction.units[0].concern_lens, "orientation");
    assert_eq!(direction.units[0].scoring_budget, 4);
}

#[test]
fn deprioritized_units_follow_and_ties_keep_their_order() {
    let focus = FocusMap {
        review_here: vec![focus_unit("src/same.ts", 1)],
        deprioritized: vec![focus_unit("src/same.ts", 2), focus_unit("lib/x.vue", 3)],
    };
    let direction = build_direction(&focus, &Vec::new(), &no_routing());
    assert_eq!(direction.order, vec!["lib/x.vue", "src/same.ts", "src/same.ts"]);
    assert_eq!(direction.units[1].scoring_budget, 1);
    assert_eq!(direction.units[2].scoring_budget, 2);
}

#[test]
fn reviewable_source_units_by_extension() {
    assert!(is_reviewable_source_unit("src/a.tsx"));
    assert!(is_reviewable_source_unit("a/b.c/d.svelte"));
    assert!(is_reviewable_source_unit("./x/./y.mjs/."));
    assert!(!is_reviewable_source_unit(".ts"));
    assert!(!is_reviewable_source_unit("src/.."));
    assert!(!is_reviewable_source_unit("src/a.ts.map"));
    assert!(!is_reviewable_source_unit("Makefile"));
    assert!(!is_reviewable_source_unit(""));
}

#[test]
fn fan_counts_are_read_from_the_reason() {
    assert_eq!(parse_fan_counts("high fan-in (12 importers), fan-out 3"), (12, 3));
    assert_eq!(parse_fan_counts("nothing here"), (0, 0));
    assert_eq!(extract_count("x: 99999999999", "x: "), 0);
    assert_eq!(extract_count("x: 4294967295!", "x: "), u32::MAX);
    assert_eq!(extract_count("x: y", "x: "), 0);
}

#[test]
fn derive_change_anchor_id_is_stable_and_namespaced() {
    let added = vec!["const x = 1;".to_string(), "return x;".to_string()];
    let normalized = normalize_added_text(&added);
    assert_eq!(normalized, "const x = 1;\nreturn x;");
    let id = derive_change_anchor_id("src/a.ts", &normalized, 0);
    assert!(id.starts_with("chg:"), "namespaced under chg:");
    assert_eq!(id.len(), 20);
    assert_eq!(id, derive_change_anchor_id("src/a.ts", &normalized, 0));
    let reflowed = vec!["  const x = 1;  ".to_string(), "\treturn x;".to_string()];
    assert_eq!(id, derive_change_anchor_id("src/a.ts", &normalize_added_text(&reflowed), 0));
    assert_ne!(
        id,
        derive_change_anchor_id("src/a.ts", &normalize_added_text(&["const y = 2;".to_string()]), 0)
    );
    assert_ne!(id, derive_change_anchor_id("src/b.ts", &normalized, 0));
    assert_ne!(id, derive_change_anchor_id("src/a.ts", &normalized, 1));
}

#[test]
fn derive_change_anchor_id_hashes_path_text_and_ordinal_bytes() {
    let mut bytes = b"p".to_vec();
    bytes.push(0);
    bytes.extend_from_slice(b"t");
    bytes.push(0);
    bytes.extend_from_slice(&7u32.to_le_bytes());
    let expected = format!("chg:{:016x}", xxhash_rust::xxh3::xxh3_64(&bytes));
    assert_eq!(derive_change_anchor_id("p", "t", 7), expected);
}

#[test]
fn parse_change_anchors_is_line_shift_stable() {
    let diff_a = "diff --git a/src/x.ts b/src/x.ts\n--- a/src/x.ts\n+++ b/src/x.ts\n@@ -10,0 +11,1 @@\n+  const added = compute();\n";
    let diff_b = "diff --git a/src/x.ts b/src/x.ts\n--- a/src/x.ts\n+++ b/src/x.ts\n@@ -40,0 +41,1 @@\n+  const added = compute();\n";
    let a = parse_change_anchors(diff_a);
    let b = parse_change_anchors(diff_b);
    assert_eq!(a.len(), 1);
    assert_eq!(b.len(), 1);
    assert_eq!(a[0].change_anchor, b[0].change_anchor, "id is line-shift stable");
    assert_eq!(a[0].start_line, 11);
    assert_eq!(b[0].start_line, 41, "start_line tracks the new position");
    assert_eq!(a[0].line_count, 1);
    assert_eq!(a[0].file, "src/x.ts");
}

#[test]
fn change_anchor_judgment_accepts_and_unknown_rejects() {
    let (surface, _) = surface_with_one_signal();
    let hash = "graph:abc123";
    let diff = "diff --git a/src/x.ts b/src/x.ts\n--- a/src/x.ts\n+++ b/src/x.ts\n@@ -1,0 +2,1 @@\n+  const added = compute();\n";
    let anchors = parse_change_anchors(diff);
    let allow = change_anchor_allowlist(&anchors);
    let real = anchors[0].change_anchor.clone();
    let agent = AgentWalkthrough {
        graph_snapshot_hash: hash.to_string(),
        judgments: vec![
            judgment("", &real, "this region trades simplicity for a cache"),
            judgment("", "chg:deadbeefdeadbeef", "hallucinated region"),
        ],
    };
    let validation = validate_walkthrough(&agent, &surface, &allow, hash);
    assert_eq!(validation.accepted_count, 1, "the real change_anchor accepts");
    assert_eq!(validation.accepted[0].anchor_kind, "change");
    assert_eq!(validation.accepted[0].change_anchor, real);
    assert!(validation.accepted[0].signal_id.is_empty());
    assert!(!validation.accepted[0].deterministic);
    assert_eq!(validation.rejected_count, 1, "the fabricated region rejects");
    assert_eq!(validation.rejected[0].reason, "unknown-change-anchor");
    assert_eq!(validation.rejected[0].change_anchor, "chg:deadbeefdeadbeef");
}

#[test]
fn stale_snapshot_refuses_change_anchor_judgment() {
    let (surface, _) = surface_with_one_signal();
    let diff = "diff --git a/src/x.ts b/src/x.ts\n--- a/src/x.ts\n+++ b/src/x.ts\n@@ -1,0 +2,1 @@\n+  const added = compute();\n";
    let anchors = parse_change_anchors(diff);
    let allow = change_anchor_allowlist(&anchors);
    let agent = AgentWalkthrough {
        graph_snapshot_hash: "graph:OLD".to_string(),
        judgments: vec![judgment("", &anchors[0].change_anchor, "valid region, but the tree moved")],
    };
    let validation = validate_walkthrough(&agent, &surface, &allow, "graph:NEW");
    assert!(validation.stale);
    assert_eq!(validation.accepted_count, 0, "nothing accepts when stale");
    assert_eq!(validation.rejected[0].reason, "stale-snapshot");
}

#[test]
fn change_anchor_survives_rename_via_previous_anchor() {
    let renamed = "diff --git a/src/old.ts b/src/new.ts\nrename from src/old.ts\nrename to src/new.ts\n--- a/src/old.ts\n+++ b/src/new.ts\n@@ -1,0 +2,1 @@\n+  const added = compute();\n";
    let anchors = parse_change_anchors(renamed);
    assert_eq!(anchors.len(), 1);
    assert_eq!(anchors[0].file, "src/new.ts");
    let previous = anchors[0]
        .previous_change_anchor
        .clone()
        .expect("rename yields a previous anchor");
    let old_diff = "diff --git a/src/old.ts b/src/old.ts\n--- a/src/old.ts\n+++ b/src/old.ts\n@@ -1,0 +2,1 @@\n+  const added = compute();\n";
    let old_anchors = parse_change_anchors(old_diff);
    assert_eq!(previous, old_anchors[0].change_anchor);
    let allow = change_anchor_allowlist(&anchors);
    assert!(allow.contains(&previous), "pre-rename id is in the allowlist");
    assert!(allow.contains(&anchors[0].change_anchor));
}

#[test]
fn identical_hunks_in_one_file_get_distinct_ordinals() {
    let diff = "+++ b/src/x.ts\r\n@@ -1 +1 @@\r\n+same\r\n@@ -9 +9,2 @@\n+same\ndiff --git a/src/y.ts b/src/y.ts\n--- a/src/y.ts\n+++ /dev/null\n@@ -1 +1 @@\n+ignored";
    let anchors = parse_change_anchors(diff);
    assert_eq!(anchors.len(), 2);
    assert_eq!(anchors[0].start_line, 1);
    assert_eq!(anchors[1].start_line, 9);
    assert_ne!(anchors[0].change_anchor, anchors[1].change_anchor);
    assert_eq!(anchors[0].change_anchor, derive_change_anchor_id("src/x.ts", "same", 0));
    assert_eq!(anchors[1].change_anchor, derive_change_anchor_id("src/x.ts", "same", 1));
    let allow = change_anchor_allowlist(&anchors);
    assert_eq!(allow.len(), 2);
}

#[test]
fn out_of_diff_groups_sorts_and_dedups_consumers() {
    let gap = |c: &str, d: &str| CoordinationGap { changed_file: c.to_string(), consumer_file: d.to_string() };
    let gaps = vec![
        gap("src/a.ts", "src/z.ts"),
        gap("src/b.ts", "src/y.ts"),
        gap("src/a.ts", "src/m.ts"),
        gap("src/a.ts", "src/z.ts"),
    ];
    let out = out_of_diff_by_file(&gaps);
    assert_eq!(out.len(), 2);
    assert_eq!(out[0].file, "src/a.ts");
    assert_eq!(out[0].consumers, vec!["src/m.ts", "src/z.ts"]);
    assert_eq!(out[1].file, "src/b.ts");
    assert_eq!(out[1].consumers, vec!["src/y.ts"]);
    assert!(out_of_diff_by_file(&vec![]).is_empty());
}

#[test]
fn added_lines_starting_with_plus_plus_stay_in_the_hunk() {
    let diff = "diff --git a/src/x.ts b/src/x.ts\n--- a/src/x.ts\n+++ b/src/x.ts\n@@ -1,0 +2,1 @@\n+++i;\n";
    let anchors = parse_change_anchors(diff);
    assert_eq!(anchors.len(), 1);
    assert_eq!(anchors[0].file, "src/x.ts");
    assert_eq!(anchors[0].start_line, 2);
    assert_eq!(anchors[0].line_count, 1);

    // A later file's headers still start a new file once a `diff --git`
    // line has closed the hunk.
    let two = "diff --git a/a.ts b/a.ts\n--- a/a.ts\n+++ b/a.ts\n@@ -1,0 +1,2 @@\n+++a;\n+x\ndiff --git a/b.ts b/b.ts\n--- a/b.ts\n+++ b/b.ts\n@@ -3,0 +4,1 @@\n+y\n";
    let anchors = parse_change_anchors(two);
    assert_eq!(anchors.len(), 2);
    assert_eq!((anchors[0].file.as_str(), anchors[0].line_count), ("a.ts", 2));
    assert_eq!((anchors[1].file.as_str(), anchors[1].start_line), ("b.ts", 4));
}

#[test]
fn file_headers_inside_a_hunk_start_the_next_file() {
    let diff = "--- a/x\n+++ b/x\n@@ -1,0 +1,1 @@\n+a\n--- a/y\n+++ b/y\n@@ -1,0 +1,1 @@\n+b\n";
    let anchors = parse_change_anchors(diff);
    assert_eq!(anchors.len(), 2);
    assert_eq!(anchors[0].file, "x");
    assert_eq!(anchors[0].change_anchor, derive_change_anchor_id("x", "a", 0));
    assert_eq!(anchors[1].file, "y");
    assert_eq!(anchors[1].change_anchor, derive_change_anchor_id("y", "b", 0));

    let deleted = "--- a/x\n+++ b/x\n@@ -1,0 +1,1 @@\n+a\n--- a/z\n+++ /dev/null\n@@ -1,1 +0,0 @@\n+dropped\n";
    let anchors = parse_change_anchors(deleted);
    assert_eq!(anchors.len(), 1);
    assert_eq!(anchors[0].line_count, 1);
}
