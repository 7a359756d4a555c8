use plow_logic::grouping::{
    bucket_paths, build_group, build_health_grouping, contains_path, select_in, FindingPaths,
    GroupBucket, ResolvedPath,
};

fn resolved(path: &str, key: &str, owners: Option<&[&str]>) -> ResolvedPath {
    ResolvedPath {
        path: path.to_string(),
        key: key.to_string(),
        owners: owners.map(|o| o.iter().map(|s| s.to_string()).collect()),
    }
}

fn strings(items: &[&str]) -> Vec<String> {
    items.iter().map(|s| s.to_string()).collect()
}

#[test]
fn buckets_sort_by_size_then_key_with_unowned_last() {
    let input = vec![
        resolved("/p/x.ts", "(unowned)", None),
        resolved("/p/y.ts", "(unowned)", None),
        resolved("/p/z.ts", "(unowned)", None),
        resolved("/p/a/1.ts", "@team-b", Some(&["@team-b"])),
        resolved("/p/a/2.ts", "@team-a", Some(&["@team-a", "@lead"])),
        resolved("/p/b/1.ts", "@team-b", Some(&["@team-b"])),
        resolved("/p/c/1.ts", "@team-c", None),
        resolved("/p/c/2.ts", "@team-c", None),
    ];
    let buckets = bucket_paths(&input);
    let keys: Vec<&str> = buckets.iter().map(|b| b.key.as_str()).collect();
    assert_eq!(keys, vec!["@team-b", "@team-c", "@team-a", "(unowned)"]);
    assert_eq!(buckets[0].paths, strings(&["/p/a/1.ts", "/p/b/1.ts"]));
    assert_eq!(buckets[0].owners, Some(strings(&["@team-b"])));
    assert_eq!(buckets[2].owners, Some(strings(&["@team-a", "@lead"])));
    assert_eq!(buckets[3].paths.len(), 3);
}

#[test]
fn a_path_is_counted_once_per_bucket() {
    let input = vec![
        resolved("/p/a.ts", "k", None),
        resolved("/p//a.ts", "k", None),
        resolved("/p/b.ts", "k", None),
    ];
    let buckets = bucket_paths(&input);
    assert_eq!(buckets.len(), 1);
    assert_eq!(buckets[0].paths, strings(&["/p/a.ts", "/p/b.ts"]));
}

#[test]
fn group_selects_findings_of_its_files() {
    let bucket = GroupBucket {
        key: "@team".to_string(),
        owners: None,
        paths: strings(&["/p/a.ts", "/p/b.ts"]),
    };
    let items = FindingPaths {
        findings: strings(&["/p/a.ts", "/p/c.ts", "/p/b.ts", "/p/a.ts"]),
        file_scores: strings(&["/p/c.ts"]),
        hotspots: strings(&["/p/b.ts"]),
        large_functions: vec![],
        targets: strings(&["/p/./a.ts"]),
    };
    let g = build_group(bucket, &items, true, None);
    assert_eq!(g.key, "@team");
    assert_eq!(g.files_analyzed, 2);
    assert_eq!(g.findings, vec![0, 2, 3]);
    assert_eq!(g.functions_above_threshold, 3);
    assert!(g.file_scores.is_empty());
    assert_eq!(g.hotspots, vec![0]);
    assert!(g.large_functions.is_empty());
    assert_eq!(g.targets, vec![0]);
    let meta = g.actions_meta.expect("omitted suppression lines are reported");
    assert!(meta.suppression_hints_omitted);
    assert_eq!(meta.reason, "unspecified");
    assert_eq!(meta.scope, "health-findings");
}

#[test]
fn group_without_omission_has_no_actions_meta() {
    let bucket = GroupBucket { key: "k".to_string(), owners: None, paths: strings(&["/a"]) };
    let items = FindingPaths {
        findings: vec![],
        file_scores: vec![],
        hotspots: vec![],
        large_functions: vec![],
        targets: vec![],
    };
    assert!(build_group(bucket.clone(), &items, false, Some("x")).actions_meta.is_none());
    let meta = build_group(bucket, &items, true, Some("ci")).actions_meta.unwrap();
    assert_eq!(meta.reason, "ci");
}

#[test]
fn grouping_builds_one_group_per_bucket_in_order() {
    let input = vec![
        resolved("/p/a.ts", "(unowned)", None),
        resolved("/p/b.ts", "@x", None),
    ];
    let items = FindingPaths {
        findings: strings(&["/p/a.ts", "/p/b.ts"]),
        file_scores: vec![],
        hotspots: vec![],
        large_functions: vec![],
        targets: vec![],
    };
    let groups = build_health_grouping(&input, &items, false, None);
    assert_eq!(groups.len(), 2);
    assert_eq!(groups[0].key, "@x");
    assert_eq!(groups[0].findings, vec![1]);
    assert_eq!(groups[1].key, "(unowned)");
    assert_eq!(groups[1].findings, vec![0]);
}

#[test]
fn path_membership_compares_components() {
    let paths = strings(&["/p/a.ts"]);
    assert!(contains_path(&paths, "/p/./a.ts"));
    assert!(!contains_path(&paths, "/p/a.tsx"));
    assert_eq!(select_in(&paths, &strings(&["/q", "/p/a.ts/"])), vec![1]);
}
