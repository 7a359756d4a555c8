use plow_logic::boundary_coverage::{find_boundary_coverage_violations, BoundaryModule};

fn module(path: &str, reachable: bool, entry_point: bool, suppressed: bool, zoned: bool) -> BoundaryModule {
    BoundaryModule { path: path.to_string(), reachable, entry_point, suppressed, zoned }
}

#[test]
fn unzoned_reachable_files_are_violations() {
    let modules = vec![
        module("/repo/src/ui/a.ts", true, false, false, true),
        module("/repo/src/misc/b.ts", true, false, false, false),
        module("/repo/src/main.ts", false, true, false, false),
        module("/repo/src/dead.ts", false, false, false, false),
        module("/repo/src/quiet.ts", true, false, true, false),
        module("/other/c.ts", true, false, false, false),
    ];
    let v = find_boundary_coverage_violations(true, "/repo", &modules);
    let paths: Vec<&str> = v.iter().map(|x| x.path.as_str()).collect();
    assert_eq!(paths, vec!["/repo/src/misc/b.ts", "/repo/src/main.ts"]);
    assert!(v.iter().all(|x| x.line == 1 && x.col == 0));
}

#[test]
fn coverage_check_is_off_unless_required() {
    let modules = vec![module("/repo/src/misc/b.ts", true, false, false, false)];
    assert!(find_boundary_coverage_violations(false, "/repo", &modules).is_empty());
}
