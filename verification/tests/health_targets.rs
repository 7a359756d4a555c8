use plow_logic::health_targets::{
    generated_recommendation_tag, recommendation_mentions_generated, refactoring_effort_summary,
    render_direct_import_symbol, render_target_evidence, CloneSibling, DirectCaller,
    DirectCallerSymbolEvidence, EffortEstimate, TargetEvidence,
};

#[test]
fn generated_validator_names_are_detected() {
    assert!(recommendation_mentions_generated("Split validate12 into smaller checks"));
    assert!(recommendation_mentions_generated("validate7"));
    assert!(recommendation_mentions_generated("see validateX then validate3."));
    assert!(!recommendation_mentions_generated("validate the input"));
    assert!(!recommendation_mentions_generated("validate12abc"));
    assert!(!recommendation_mentions_generated("validate12_x"));
    assert!(!recommendation_mentions_generated("validate12é"));
    assert!(!recommendation_mentions_generated(""));
}

#[test]
fn generated_tag_is_empty_for_hand_written_code() {
    assert_eq!(generated_recommendation_tag("Extract helper"), "");
    let tag = generated_recommendation_tag("inline validate3");
    assert!(tag.starts_with(' '));
    assert!(tag.contains("(generated)"));
}

#[test]
fn direct_import_symbols_render_alias_and_side_effects() {
    let sym = |i: &str, l: &str| DirectCallerSymbolEvidence { imported: i.to_string(), local: l.to_string() };
    assert_eq!(render_direct_import_symbol(&sym("foo", "")), "foo");
    assert_eq!(render_direct_import_symbol(&sym("foo", "foo")), "foo");
    assert_eq!(render_direct_import_symbol(&sym("foo", "bar")), "foo as bar");
    assert_eq!(render_direct_import_symbol(&sym("side-effect", "")), "side effect");
}

#[test]
fn effort_summary_counts_and_skips_empty_buckets() {
    assert_eq!(
        refactoring_effort_summary(&vec![EffortEstimate::Low, EffortEstimate::High, EffortEstimate::Low, EffortEstimate::Medium]),
        "2 low effort \u{00b7} 1 medium \u{00b7} 1 high"
    );
    assert_eq!(refactoring_effort_summary(&vec![EffortEstimate::High, EffortEstimate::High]), "2 high");
    assert_eq!(refactoring_effort_summary(&vec![]), "");
}

fn undim(s: &str) -> String {
    s.replace("\u{1b}[2m", "").replace("\u{1b}[0m", "")
}

#[test]
fn evidence_lists_importers_and_clones() {
    let evidence = TargetEvidence {
        direct_callers: vec![
            DirectCaller { path: "/repo/src/a.ts".to_string(), symbols: vec![] },
            DirectCaller {
                path: "/repo/src/b.ts".to_string(),
                symbols: vec![
                    DirectCallerSymbolEvidence { imported: "x".to_string(), local: "y".to_string() },
                    DirectCallerSymbolEvidence {
                        imported: "side-effect".to_string(),
                        local: String::new(),
                    },
                ],
            },
        ],
        clone_siblings: vec![CloneSibling {
            path: "/elsewhere/c.ts".to_string(),
            start_line: 3,
            end_line: 17,
            fingerprint: "ab12".to_string(),
        }],
    };
    let mut lines = vec!["head".to_string()];
    render_target_evidence(&mut lines, &Some(evidence), "/repo");
    assert_eq!(lines.len(), 3);
    assert_eq!(lines[0], "head");
    assert!(lines[1].starts_with("         "));
    assert_eq!(
        undim(&lines[1]),
        "         importers: src/a.ts; src/b.ts (x as y, side effect)"
    );
    assert_eq!(undim(&lines[2]), "         clones: /elsewhere/c.ts:3-17 ab12");
}

#[test]
fn evidence_without_entries_adds_nothing() {
    let mut lines: Vec<String> = vec![];
    render_target_evidence(&mut lines, &None, "/repo");
    assert!(lines.is_empty());
    render_target_evidence(
        &mut lines,
        &Some(TargetEvidence { direct_callers: vec![], clone_siblings: vec![] }),
        "/repo",
    );
    assert!(lines.is_empty());
}

#[test]
fn generated_names_on_ascii_literals() {
    assert!(recommendation_mentions_generated("run validate2 first"));
    assert!(recommendation_mentions_generated("validate12x then validate3."));
    for s in ["validate", "validated", "validate12x", "validate_1"] {
        assert!(!recommendation_mentions_generated(s), "{s}");
    }
}
