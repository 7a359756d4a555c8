use plow_logic::runtime_filter::{
    build_runtime_coverage_signals, pick_primary_verdict, RuntimeCoverageReportVerdict as V,
    RuntimeCoverageSignal as S,
};

#[test]
fn license_grace_dominates_verdict() {
    for cold in [false, true] {
        for hot in [false, true] {
            for pr in [false, true] {
                assert_eq!(pick_primary_verdict(true, cold, hot, pr), V::LicenseExpiredGrace);
            }
        }
    }
}

#[test]
fn review_context_ranks_hot_path_over_cold_code() {
    assert_eq!(pick_primary_verdict(false, true, true, true), V::HotPathTouched);
    assert_eq!(pick_primary_verdict(false, true, true, false), V::ColdCodeDetected);
    assert_eq!(pick_primary_verdict(false, true, false, true), V::ColdCodeDetected);
    assert_eq!(pick_primary_verdict(false, false, false, true), V::Clean);
}

#[test]
fn signals_are_listed_in_fixed_order() {
    assert_eq!(
        build_runtime_coverage_signals(true, true, true),
        vec![S::LicenseExpiredGrace, S::ColdCodeDetected, S::HotPathTouched]
    );
    assert_eq!(build_runtime_coverage_signals(false, true, false), vec![S::ColdCodeDetected]);
    assert!(build_runtime_coverage_signals(false, false, false).is_empty());
}

#[test]
fn clean_exactly_when_no_signal() {
    for g in [false, true] {
        for c in [false, true] {
            for h in [false, true] {
                for pr in [false, true] {
                    let v = pick_primary_verdict(g, c, h, pr);
                    let s = build_runtime_coverage_signals(g, c, h);
                    assert_eq!(v == V::Clean, s.is_empty());
                }
            }
        }
    }
}

use plow_logic::runtime_filter::{
    apply_runtime_coverage_filters, refresh_runtime_coverage_verdict, relative_to_root,
    retain_hot_paths_in_change_scope, ChangeScope, DiffFile, RuntimeCoverageReport,
    is_cold, RuntimeCoverageVerdict, RuntimeFinding, RuntimeHotPath,
};

fn hot(path: &str, line: u32, end_line: u32) -> RuntimeHotPath {
    RuntimeHotPath { path: path.to_string(), line, end_line }
}

fn report(cold: &[bool], hot_paths: Vec<RuntimeHotPath>) -> RuntimeCoverageReport {
    RuntimeCoverageReport {
        findings: cold
            .iter()
            .enumerate()
            .map(|(id, c)| RuntimeFinding {
                id,
                verdict: if *c { RuntimeCoverageVerdict::SafeToDelete } else { RuntimeCoverageVerdict::Other },
            })
            .collect(),
        hot_paths,
        verdict: V::Clean,
        watermark_license_grace: false,
        signals: vec![],
    }
}

fn no_scope() -> ChangeScope {
    ChangeScope { root: "/repo".to_string(), changed_files: None, diff: None }
}

#[test]
fn relative_paths_strip_the_root_by_components() {
    assert_eq!(relative_to_root("/repo/src/a.ts", "/repo"), Some("src/a.ts".to_string()));
    assert_eq!(relative_to_root("/repo/src/a.ts", "/repo/"), Some("src/a.ts".to_string()));
    assert_eq!(relative_to_root("/other/a.ts", "/repo"), None);
    assert_eq!(relative_to_root("C:\\x\\a.ts", "/repo"), None);
    assert_eq!(relative_to_root("src\\a.ts", "/repo"), Some("src/a.ts".to_string()));
    assert_eq!(relative_to_root("/repository/a.ts", "/repo"), None);
}

#[test]
fn diff_scope_keeps_hot_paths_overlapping_added_lines() {
    let mut r = report(&[], vec![hot("/repo/src/a.ts", 10, 20), hot("/repo/src/a.ts", 30, 0), hot("/repo/src/b.ts", 1, 5)]);
    let scope = ChangeScope {
        root: "/repo".to_string(),
        changed_files: None,
        diff: Some(vec![
            DiffFile { path: "src/a.ts".to_string(), added_lines: Some(vec![15, 31]) },
            DiffFile { path: "src/b.ts".to_string(), added_lines: None },
        ]),
    };
    assert!(retain_hot_paths_in_change_scope(&mut r, &scope));
    let kept: Vec<(u32, u32)> = r.hot_paths.iter().map(|h| (h.line, h.end_line)).collect();
    assert_eq!(kept, vec![(10, 20)]);
}

#[test]
fn changed_files_scope_matches_absolute_or_relative_paths() {
    let mut r = report(&[], vec![hot("src/a.ts", 1, 2), hot("/repo/src/b.ts", 1, 2), hot("src/c.ts", 1, 2)]);
    let scope = ChangeScope {
        root: "/repo".to_string(),
        changed_files: Some(vec!["/repo/src/a.ts".to_string(), "/repo/src/b.ts".to_string()]),
        diff: None,
    };
    assert!(retain_hot_paths_in_change_scope(&mut r, &scope));
    let kept: Vec<&str> = r.hot_paths.iter().map(|h| h.path.as_str()).collect();
    assert_eq!(kept, vec!["src/a.ts", "/repo/src/b.ts"]);
}

#[test]
fn without_change_scope_hot_paths_stay() {
    let mut r = report(&[], vec![hot("/repo/a.ts", 1, 1)]);
    assert!(!retain_hot_paths_in_change_scope(&mut r, &no_scope()));
    assert_eq!(r.hot_paths.len(), 1);
}

#[test]
fn refreshed_verdict_reads_findings_grace_and_hot_paths() {
    let mut r = report(&[false, true], vec![]);
    refresh_runtime_coverage_verdict(&mut r, true);
    assert_eq!(r.verdict, V::ColdCodeDetected);
    assert_eq!(r.signals, vec![S::ColdCodeDetected]);

    let mut r = report(&[false], vec![hot("/repo/a.ts", 1, 1)]);
    refresh_runtime_coverage_verdict(&mut r, true);
    assert_eq!(r.verdict, V::HotPathTouched);
    refresh_runtime_coverage_verdict(&mut r, false);
    assert_eq!(r.verdict, V::Clean);
    assert!(r.signals.is_empty());

    let mut r = report(&[true], vec![]);
    r.watermark_license_grace = true;
    refresh_runtime_coverage_verdict(&mut r, false);
    assert_eq!(r.verdict, V::LicenseExpiredGrace);
    assert_eq!(r.signals, vec![S::LicenseExpiredGrace, S::ColdCodeDetected]);
}

#[test]
fn filters_apply_scope_verdict_and_top() {
    let mut r = report(&[true, false, true], vec![hot("/repo/a.ts", 1, 1), hot("/repo/b.ts", 1, 1)]);
    let scope = ChangeScope {
        root: "/repo".to_string(),
        changed_files: Some(vec!["/repo/b.ts".to_string()]),
        diff: None,
    };
    apply_runtime_coverage_filters(&mut r, &scope, Some(1));
    assert_eq!(r.verdict, V::HotPathTouched);
    assert_eq!(r.signals, vec![S::ColdCodeDetected, S::HotPathTouched]);
    assert_eq!(r.findings.len(), 1);
    assert_eq!(r.findings[0].id, 0);
    assert_eq!(r.hot_paths.len(), 1);
    assert_eq!(r.hot_paths[0].path, "/repo/b.ts");

    let mut r = report(&[false], vec![hot("/repo/a.ts", 1, 1)]);
    apply_runtime_coverage_filters(&mut r, &no_scope(), None);
    assert_eq!(r.verdict, V::Clean);
    assert_eq!(r.hot_paths.len(), 1);
}

#[test]
fn cold_verdicts_are_safe_to_delete_review_required_and_low_traffic() {
    assert!(is_cold(RuntimeCoverageVerdict::SafeToDelete));
    assert!(is_cold(RuntimeCoverageVerdict::ReviewRequired));
    assert!(is_cold(RuntimeCoverageVerdict::LowTraffic));
    assert!(!is_cold(RuntimeCoverageVerdict::Other));
    for v in [RuntimeCoverageVerdict::ReviewRequired, RuntimeCoverageVerdict::LowTraffic] {
        let mut r = report(&[], vec![]);
        r.findings.push(RuntimeFinding { id: 0, verdict: v });
        refresh_runtime_coverage_verdict(&mut r, false);
        assert_eq!(r.verdict, V::ColdCodeDetected);
    }
    let mut r = report(&[], vec![]);
    r.findings.push(RuntimeFinding { id: 0, verdict: RuntimeCoverageVerdict::Other });
    refresh_runtime_coverage_verdict(&mut r, false);
    assert_eq!(r.verdict, V::Clean);
}
