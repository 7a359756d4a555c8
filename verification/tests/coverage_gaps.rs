use plow_logic::coverage_gaps::{compute_coverage_gaps, is_style_file, GraphExport, GraphModule};
use plow_logic::path_order::{path_eq, path_lt};

fn export(name: &str, type_only: bool, from: &[usize], line: u32, col: u32) -> GraphExport {
    GraphExport {
        name: name.to_string(),
        is_type_only: type_only,
        referenced_from: from.to_vec(),
        line,
        col,
    }
}

fn module(path: &str, runtime: bool, test: bool, exports: Vec<GraphExport>) -> GraphModule {
    GraphModule {
        runtime_reachable: runtime,
        test_reachable: test,
        path: Some(path.to_string()),
        coverage_gaps_suppressed: Some(false),
        exports,
    }
}

#[test]
fn untested_runtime_files_and_exports_are_reported_sorted() {
    let modules = vec![
        module(
            "/p/src/z.ts",
            true,
            false,
            vec![
                export("zeta", false, &[], 4, 1),
                export("alpha", false, &[], 9, 1),
                export("Kind", true, &[], 1, 1),
            ],
        ),
        module("/p/src/a.ts", true, true, vec![export("helper", false, &[2], 2, 8)]),
        module("/p/tests/a.test.ts", false, true, vec![]),
        module("/p/src/style.css", true, false, vec![]),
        module("/p/src/m.ts", true, false, vec![export("used", false, &[2], 3, 0)]),
    ];
    let gaps = compute_coverage_gaps(&modules, &vec![]);
    assert_eq!(gaps.runtime_files, 3);
    assert_eq!(gaps.covered_files, 1);
    assert_eq!(gaps.runtime_paths, vec!["/p/src/z.ts", "/p/src/a.ts", "/p/src/m.ts"]);
    let files: Vec<(String, usize)> =
        gaps.files.iter().map(|f| (f.path.clone(), f.value_export_count)).collect();
    assert_eq!(
        files,
        vec![("/p/src/m.ts".to_string(), 1), ("/p/src/z.ts".to_string(), 2)]
    );
    let exports: Vec<(String, String, u32)> = gaps
        .exports
        .iter()
        .map(|e| (e.path.clone(), e.export_name.clone(), e.line))
        .collect();
    assert_eq!(
        exports,
        vec![
            ("/p/src/z.ts".to_string(), "alpha".to_string(), 9),
            ("/p/src/z.ts".to_string(), "zeta".to_string(), 4),
        ]
    );
}

#[test]
fn unused_exports_suppressed_files_and_unknown_modules_are_skipped() {
    let mut suppressed = module("/p/src/s.ts", true, false, vec![export("s", false, &[], 1, 0)]);
    suppressed.coverage_gaps_suppressed = Some(true);
    let mut no_facts = module("/p/src/n.ts", true, false, vec![export("n", false, &[], 1, 0)]);
    no_facts.coverage_gaps_suppressed = None;
    let mut no_path = module("/p/src/x.ts", true, false, vec![]);
    no_path.path = None;
    let modules = vec![
        suppressed,
        no_facts,
        no_path,
        module(
            "/p/src/u.ts",
            true,
            true,
            vec![export("dead", false, &[], 5, 0), export("live", false, &[99], 6, 0)],
        ),
    ];
    let unused = vec![("/p/src//u.ts".to_string(), "dead".to_string())];
    let gaps = compute_coverage_gaps(&modules, &unused);
    assert_eq!(gaps.runtime_files, 2);
    assert_eq!(gaps.covered_files, 1);
    assert_eq!(gaps.files.len(), 1);
    assert_eq!(gaps.files[0].path, "/p/src/n.ts");
    assert_eq!(gaps.exports.len(), 1);
    assert_eq!(gaps.exports[0].export_name, "live");
    assert_eq!(gaps.exports[0].line, 6);
}

#[test]
fn no_runtime_files_means_no_gaps() {
    let gaps = compute_coverage_gaps(&vec![module("/p/a.ts", false, false, vec![])], &vec![]);
    assert_eq!(gaps.runtime_files, 0);
    assert_eq!(gaps.covered_files, 0);
    assert!(gaps.files.is_empty() && gaps.exports.is_empty() && gaps.runtime_paths.is_empty());
}

#[test]
fn stylesheet_extensions_are_recognised() {
    assert!(is_style_file("a/b.css"));
    assert!(is_style_file("b.scss"));
    assert!(is_style_file("b.less"));
    assert!(is_style_file("b.sass"));
    assert!(!is_style_file("b.CSS"));
    assert!(!is_style_file(".css"));
    assert!(!is_style_file("b.ts"));
}

#[test]
fn paths_order_by_components() {
    // A separator sorts before `.` by components, though not by text.
    assert!(path_lt("a/b", "a.b"));
    assert!(!path_lt("a.b", "a/b"));
    assert!(path_lt("/z", "a"));
    assert!(path_lt("./x", "../x"));
    assert!(path_lt("../x", "a"));
    assert!(path_eq("/a//b/./c/", "/a/b/c"));
    assert!(!path_eq("a/b", "a/b/c"));
    assert!(path_lt("a/b", "a/b/c"));
}
