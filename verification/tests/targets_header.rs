use plow_logic::health_targets::{push_refactoring_targets_header, EffortEstimate};

#[test]
fn refactoring_targets_header_lines_plain_and_colored() {
    let efforts = vec![EffortEstimate::Low, EffortEstimate::High, EffortEstimate::Low];

    colored::control::set_override(false);
    let mut lines = vec!["before".to_string()];
    push_refactoring_targets_header(&mut lines, &efforts);
    assert_eq!(
        lines,
        vec![
            "before".to_string(),
            "\u{25cf} Refactoring targets (3)".to_string(),
            "  2 low effort \u{b7} 1 high".to_string(),
            "    score = quick-win ROI (higher = better) \u{b7} pri = absolute priority".to_string(),
            String::new(),
        ]
    );

    colored::control::set_override(true);
    let mut lines = Vec::new();
    push_refactoring_targets_header(&mut lines, &efforts);
    assert_eq!(
        lines[0],
        "\x1B[36m\u{25cf}\x1B[0m \x1B[1;36mRefactoring targets (3)\x1B[0m"
    );
    assert_eq!(lines[1], "  \x1B[2m2 low effort \u{b7} 1 high\x1B[0m");
    assert_eq!(lines.len(), 4);
    colored::control::unset_override();
}
