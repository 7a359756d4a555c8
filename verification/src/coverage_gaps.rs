//! Coverage gaps: the runtime-reachable files that no test reaches, and the
//! value exports of runtime files that no test-reachable module imports.
use vstd::prelude::*;

use crate::path_order::{path_before, path_eq, path_lt, same_path};
use crate::stable_sort::{in_order, insert_by, lemma_insert_at, sorted_by, strict_order};
use crate::text::{chars_before, chars_lt, chars_of, str_eq, string_of, string_views};
use crate::walkthrough::{extension_of, file_name_of};

verus! {

/// One export of a module of the graph, as the extractor saw it.
#[derive(Clone, Debug)]
pub struct GraphExport {
    pub name: String,
    pub is_type_only: bool,
    /// Positions in the graph's module list of the modules that import it.
    pub referenced_from: Vec<usize>,
    /// Line and column of the export's name.
    pub line: u32,
    pub col: u32,
}

/// One module of the graph, with what the file table and the extractor know
/// of it.
#[derive(Clone, Debug)]
pub struct GraphModule {
    pub runtime_reachable: bool,
    pub test_reachable: bool,
    /// The module's path, when the file table knows it.
    pub path: Option<String>,
    /// Whether the file's suppressions silence coverage gaps for the whole
    /// file; `None` when no extracted module exists for it.
    pub coverage_gaps_suppressed: Option<bool>,
    pub exports: Vec<GraphExport>,
}

/// A runtime file that no test reaches.
#[derive(Clone, Debug, PartialEq, Eq)]
pub struct UntestedFile {
    pub path: String,
    pub value_export_count: usize,
}

/// A value export of a runtime file that no test-reachable module imports.
#[derive(Clone, Debug, PartialEq, Eq)]
pub struct UntestedExport {
    pub path: String,
    pub export_name: String,
    pub line: u32,
    pub col: u32,
}

/// What the coverage-gap pass finds.
#[derive(Clone, Debug)]
pub struct CoverageGapData {
    pub runtime_files: usize,
    pub covered_files: usize,
    pub files: Vec<UntestedFile>,
    pub exports: Vec<UntestedExport>,
    /// The runtime files, in graph order.
    pub runtime_paths: Vec<String>,
}

pub type FileView = (Seq<char>, nat);

pub type ExportView = (Seq<char>, Seq<char>, u32, u32);

pub open spec fn file_view(f: UntestedFile) -> FileView {
    (f.path@, f.value_export_count as nat)
}

pub open spec fn export_view(e: UntestedExport) -> ExportView {
    (e.path@, e.export_name@, e.line, e.col)
}

pub open spec fn export_views(es: Seq<UntestedExport>) -> Seq<ExportView> {
    es.map_values(|x: UntestedExport| export_view(x))
}

/// A stylesheet: its extension is `css`, `scss`, `less` or `sass`.
pub open spec fn is_style_path(p: Seq<char>) -> bool {
    file_name_of(p) matches Some(n) && (extension_of(n) matches Some(e) && (e == "css"@ || e
        == "scss"@ || e == "less"@ || e == "sass"@))
}

/// A module counts as a runtime file: runtime-reachable, with a known path
/// that is no stylesheet, and not suppressed.
pub open spec fn counts_as_runtime(m: GraphModule) -> bool {
    &&& m.runtime_reachable
    &&& m.path is Some
    &&& !is_style_path(m.path.unwrap()@)
    &&& m.coverage_gaps_suppressed != Some(true)
}

/// The paths of the runtime files, in module order.
pub open spec fn runtime_paths_of(ms: Seq<GraphModule>) -> Seq<Seq<char>>
    decreases ms.len(),
{
    if ms.len() == 0 {
        Seq::empty()
    } else {
        let init = runtime_paths_of(ms.drop_last());
        if counts_as_runtime(ms.last()) {
            init.push(ms.last().path.unwrap()@)
        } else {
            init
        }
    }
}

/// How many runtime files a test reaches.
pub open spec fn covered_count(ms: Seq<GraphModule>) -> nat
    decreases ms.len(),
{
    if ms.len() == 0 {
        0
    } else {
        covered_count(ms.drop_last()) + if counts_as_runtime(ms.last())
            && ms.last().test_reachable {
            1nat
        } else {
            0nat
        }
    }
}

/// How many exports are values, not types.
pub open spec fn value_export_count(es: Seq<GraphExport>) -> nat
    decreases es.len(),
{
    if es.len() == 0 {
        0
    } else {
        value_export_count(es.drop_last()) + if es.last().is_type_only {
            0nat
        } else {
            1nat
        }
    }
}

/// The runtime files that no test reaches, in module order.
pub open spec fn untested_files_of(ms: Seq<GraphModule>) -> Seq<FileView>
    decreases ms.len(),
{
    if ms.len() == 0 {
        Seq::empty()
    } else {
        let init = untested_files_of(ms.drop_last());
        let m = ms.last();
        if counts_as_runtime(m) && !m.test_reachable {
            init.push((m.path.unwrap()@, value_export_count(m.exports@)))
        } else {
            init
        }
    }
}

/// `(path, name)` is listed among the unused exports.
pub open spec fn listed_unused(unused: Seq<(String, String)>, path: Seq<char>, name: Seq<char>) -> bool {
    exists|k: int| 0 <= k < unused.len() && same_path(#[trigger] unused[k].0@, path) && unused[k].1@ == name
}

/// Some test-reachable module of `all` imports the export.
pub open spec fn has_test_importer(all: Seq<GraphModule>, e: GraphExport) -> bool {
    exists|k: int|
        0 <= k < e.referenced_from@.len() && #[trigger] e.referenced_from@[k] < all.len()
            && all[e.referenced_from@[k] as int].test_reachable
}

/// The export is a value that is neither unused nor imported by a test.
pub open spec fn is_untested_export(
    all: Seq<GraphModule>,
    unused: Seq<(String, String)>,
    path: Seq<char>,
    e: GraphExport,
) -> bool {
    !e.is_type_only && !listed_unused(unused, path, e.name@) && !has_test_importer(all, e)
}

/// The untested exports among `es`, all of the file `path`.
pub open spec fn untested_exports_in(
    all: Seq<GraphModule>,
    unused: Seq<(String, String)>,
    path: Seq<char>,
    es: Seq<GraphExport>,
) -> Seq<ExportView>
    decreases es.len(),
{
    if es.len() == 0 {
        Seq::empty()
    } else {
        let init = untested_exports_in(all, unused, path, es.drop_last());
        let e = es.last();
        if is_untested_export(all, unused, path, e) {
            init.push((path, e.name@, e.line, e.col))
        } else {
            init
        }
    }
}

/// The untested exports of the runtime files among `ms` that have extracted
/// facts, in module order.
pub open spec fn untested_exports_of(
    all: Seq<GraphModule>,
    unused: Seq<(String, String)>,
    ms: Seq<GraphModule>,
) -> Seq<ExportView>
    decreases ms.len(),
{
    if ms.len() == 0 {
        Seq::empty()
    } else {
        let init = untested_exports_of(all, unused, ms.drop_last());
        let m = ms.last();
        if counts_as_runtime(m) && m.coverage_gaps_suppressed is Some {
            init + untested_exports_in(all, unused, m.path.unwrap()@, m.exports@)
        } else {
            init
        }
    }
}

/// Files go by path.
pub open spec fn file_order() -> spec_fn(FileView, FileView) -> bool {
    |a: FileView, b: FileView| path_before(a.0, b.0)
}

/// Exports go by path, then name, then line.
pub open spec fn export_order() -> spec_fn(ExportView, ExportView) -> bool {
    |a: ExportView, b: ExportView|
        path_before(a.0, b.0) || (same_path(a.0, b.0) && (chars_before(a.1, b.1) || (a.1 == b.1
            && a.2 < b.2)))
}

fn copy_string(s: &String) -> (r: String)
    ensures
        r@ == s@,
{
    string_of(s.as_str())
}

/// Whether a path names a stylesheet.
pub fn is_style_file(path: &str) -> (b: bool)
    ensures
        b == is_style_path(path@),
{
    match crate::walkthrough::file_extension(path) {
        Some(e) => str_eq(e.as_str(), "css") || str_eq(e.as_str(), "scss") || str_eq(
            e.as_str(),
            "less",
        ) || str_eq(e.as_str(), "sass"),
        None => false,
    }
}

fn count_value_exports(es: &Vec<GraphExport>) -> (n: usize)
    ensures
        n == value_export_count(es@),
{
    let mut n: usize = 0;
    let mut i: usize = 0;
    while i < es.len()
        invariant
            i <= es@.len(),
            n == value_export_count(es@.take(i as int)),
            n <= i,
        decreases es@.len() - i,
    {
        assert(es@.take(i + 1).drop_last() =~= es@.take(i as int));
        if !es[i].is_type_only {
            n = n + 1;
        }
        i = i + 1;
    }
    assert(es@.take(i as int) =~= es@);
    n
}

fn is_listed_unused(unused: &Vec<(String, String)>, path: &str, name: &str) -> (b: bool)
    ensures
        b == listed_unused(unused@, path@, name@),
{
    let mut k: usize = 0;
    while k < unused.len()
        invariant
            k <= unused@.len(),
            forall|q: int| 0 <= q < k ==> !(same_path(#[trigger] unused@[q].0@, path@) && unused@[q].1@ == name@),
        decreases unused@.len() - k,
    {
        if path_eq(unused[k].0.as_str(), path) && str_eq(unused[k].1.as_str(), name) {
            return true;
        }
        k = k + 1;
    }
    false
}

fn imported_by_test(all: &Vec<GraphModule>, e: &GraphExport) -> (b: bool)
    ensures
        b == has_test_importer(all@, *e),
{
    let mut k: usize = 0;
    while k < e.referenced_from.len()
        invariant
            k <= e.referenced_from@.len(),
            forall|q: int|
                0 <= q < k ==> !(#[trigger] e.referenced_from@[q] < all@.len()
                    && all@[e.referenced_from@[q] as int].test_reachable),
        decreases e.referenced_from@.len() - k,
    {
        let r = e.referenced_from[k];
        if r < all.len() && all[r].test_reachable {
            return true;
        }
        k = k + 1;
    }
    false
}

fn push_untested_exports(
    all: &Vec<GraphModule>,
    unused: &Vec<(String, String)>,
    path: &String,
    es: &Vec<GraphExport>,
    out: &mut Vec<UntestedExport>,
)
    ensures
        final(out)@.map_values(|x: UntestedExport| export_view(x)) == old(out)@.map_values(
            |x: UntestedExport| export_view(x),
        ) + untested_exports_in(all@, unused@, path@, es@),
{
    let ghost start = out@.map_values(|x: UntestedExport| export_view(x));
    let mut i: usize = 0;
    assert(start + untested_exports_in(all@, unused@, path@, es@.take(0)) =~= start);
    while i < es.len()
        invariant
            i <= es@.len(),
            out@.map_values(|x: UntestedExport| export_view(x)) == start + untested_exports_in(
                all@,
                unused@,
                path@,
                es@.take(i as int),
            ),
        decreases es@.len() - i,
    {
        let e = &es[i];
        assert(es@.take(i + 1).drop_last() =~= es@.take(i as int));
        assert(es@.take(i + 1).last() == *e);
        let untested = !e.is_type_only && !is_listed_unused(unused, path.as_str(), e.name.as_str())
            && !imported_by_test(all, e);
        if untested {
            let ghost before = out@.map_values(|x: UntestedExport| export_view(x));
            let item = UntestedExport {
                path: copy_string(path),
                export_name: copy_string(&e.name),
                line: e.line,
                col: e.col,
            };
            out.push(item);
            assert(out@.map_values(|x: UntestedExport| export_view(x)) =~= before.push(
                (path@, e.name@, e.line, e.col),
            ));
        }
        i = i + 1;
    }
    assert(es@.take(i as int) =~= es@);
}

fn file_lt(a: &UntestedFile, b: &UntestedFile) -> (r: bool)
    ensures
        r == (file_order())(file_view(*a), file_view(*b)),
{
    path_lt(a.path.as_str(), b.path.as_str())
}

fn export_lt(a: &UntestedExport, b: &UntestedExport) -> (r: bool)
    ensures
        r == (export_order())(export_view(*a), export_view(*b)),
{
    if path_lt(a.path.as_str(), b.path.as_str()) {
        return true;
    }
    if !path_eq(a.path.as_str(), b.path.as_str()) {
        return false;
    }
    let na = chars_of(a.export_name.as_str());
    let nb = chars_of(b.export_name.as_str());
    if chars_lt(&na, &nb) {
        return true;
    }
    str_eq(a.export_name.as_str(), b.export_name.as_str()) && a.line < b.line
}

/// Sorts untested files by path, keeping ties in their order.
fn sort_files(items: Vec<UntestedFile>) -> (out: Vec<UntestedFile>)
    ensures
        out@.map_values(|x: UntestedFile| file_view(x)) == sorted_by(
            items@.map_values(|x: UntestedFile| file_view(x)),
            file_order(),
        ),
{
    let ghost input = items@.map_values(|x: UntestedFile| file_view(x));
    let mut out: Vec<UntestedFile> = Vec::new();
    let mut i: usize = 0;
    assert(input.take(0) =~= Seq::<FileView>::empty());
    while i < items.len()
        invariant
            i <= items@.len(),
            input == items@.map_values(|x: UntestedFile| file_view(x)),
            out@.map_values(|x: UntestedFile| file_view(x)) == sorted_by(
                input.take(i as int),
                file_order(),
            ),
        decreases items@.len() - i,
    {
        let x = UntestedFile {
            path: copy_string(&items[i].path),
            value_export_count: items[i].value_export_count,
        };
        let ghost before_out = out@.map_values(|y: UntestedFile| file_view(y));
        assert(input.take(i + 1).drop_last() =~= input.take(i as int));
        assert(input.take(i + 1).last() == file_view(x));
        let mut p = out.len();
        while p > 0 && file_lt(&x, &out[p - 1])
            invariant
                p <= out@.len(),
                before_out == out@.map_values(|y: UntestedFile| file_view(y)),
                forall|q: int|
                    p <= q < before_out.len() ==> (file_order())(file_view(x), #[trigger] before_out[q]),
            decreases p,
        {
            p = p - 1;
        }
        proof {
            if p > 0 {
                assert(before_out[p - 1] == file_view(out@[p - 1]));
            }
            lemma_insert_at(before_out, file_view(x), p as int, file_order());
        }
        let ghost xv = file_view(x);
        out.insert(p, x);
        assert(out@.map_values(|y: UntestedFile| file_view(y)) =~= before_out.take(p as int).push(xv)
            + before_out.skip(p as int));
        i = i + 1;
    }
    assert(input.take(i as int) =~= input);
    out
}

/// Sorts untested exports by path, name and line, keeping ties in their
/// order.
fn sort_exports(items: Vec<UntestedExport>) -> (out: Vec<UntestedExport>)
    ensures
        out@.map_values(|x: UntestedExport| export_view(x)) == sorted_by(
            items@.map_values(|x: UntestedExport| export_view(x)),
            export_order(),
        ),
{
    let ghost input = items@.map_values(|x: UntestedExport| export_view(x));
    let mut out: Vec<UntestedExport> = Vec::new();
    let mut i: usize = 0;
    assert(input.take(0) =~= Seq::<ExportView>::empty());
    while i < items.len()
        invariant
            i <= items@.len(),
            input == items@.map_values(|x: UntestedExport| export_view(x)),
            out@.map_values(|x: UntestedExport| export_view(x)) == sorted_by(
                input.take(i as int),
                export_order(),
            ),
        decreases items@.len() - i,
    {
        let x = UntestedExport {
            path: copy_string(&items[i].path),
            export_name: copy_string(&items[i].export_name),
            line: items[i].line,
            col: items[i].col,
        };
        let ghost before_out = out@.map_values(|y: UntestedExport| export_view(y));
        assert(input.take(i + 1).drop_last() =~= input.take(i as int));
        assert(input.take(i + 1).last() == export_view(x));
        let mut p = out.len();
        while p > 0 && export_lt(&x, &out[p - 1])
            invariant
                p <= out@.len(),
                before_out == out@.map_values(|y: UntestedExport| export_view(y)),
                forall|q: int|
                    p <= q < before_out.len() ==> (export_order())(
                        export_view(x),
                        #[trigger] before_out[q],
                    ),
            decreases p,
        {
            p = p - 1;
        }
        proof {
            if p > 0 {
                assert(before_out[p - 1] == export_view(out@[p - 1]));
            }
            lemma_insert_at(before_out, export_view(x), p as int, export_order());
        }
        let ghost xv = export_view(x);
        out.insert(p, x);
        assert(out@.map_values(|y: UntestedExport| export_view(y)) =~= before_out.take(
            p as int,
        ).push(xv) + before_out.skip(p as int));
        i = i + 1;
    }
    assert(input.take(i as int) =~= input);
    out
}

/// Finds the coverage gaps of a module graph: the runtime files (reachable
/// at runtime, with a known path, not stylesheets, not suppressed), how many
/// of them a test reaches, the others sorted by path, and the value exports
/// of runtime files with extracted facts that are neither listed in
/// `unused_exports` nor imported by a test-reachable module, sorted by path,
/// name and line.
pub fn compute_coverage_gaps(
    modules: &Vec<GraphModule>,
    unused_exports: &Vec<(String, String)>,
) -> (r: CoverageGapData)
    ensures
        string_views(r.runtime_paths@) == runtime_paths_of(modules@),
        r.runtime_files == runtime_paths_of(modules@).len(),
        r.covered_files == covered_count(modules@),
        r.files@.map_values(|x: UntestedFile| file_view(x)) == sorted_by(
            untested_files_of(modules@),
            file_order(),
        ),
        r.exports@.map_values(|x: UntestedExport| export_view(x)) == sorted_by(
            untested_exports_of(modules@, unused_exports@, modules@),
            export_order(),
        ),
        forall|x: ExportView|
            #[trigger] export_views(r.exports@).contains(x) <==> exists|i: int, j: int|
                0 <= i < modules@.len() && #[trigger] reports_export(modules@, unused_exports@, modules@[i], j, x),
{
    let ghost all = modules@;
    let mut runtime_files: usize = 0;
    let mut covered_files: usize = 0;
    let mut runtime_paths: Vec<String> = Vec::new();
    let mut files: Vec<UntestedFile> = Vec::new();
    let mut exports: Vec<UntestedExport> = Vec::new();
    let mut i: usize = 0;
    assert(all.take(0) =~= Seq::<GraphModule>::empty());
    while i < modules.len()
        invariant
            i <= all.len(),
            all == modules@,
            string_views(runtime_paths@) == runtime_paths_of(all.take(i as int)),
            runtime_files == runtime_paths@.len(),
            runtime_files <= i,
            covered_files == covered_count(all.take(i as int)),
            covered_files <= i,
            files@.map_values(|x: UntestedFile| file_view(x)) == untested_files_of(all.take(i as int)),
            exports@.map_values(|x: UntestedExport| export_view(x)) == untested_exports_of(
                all,
                unused_exports@,
                all.take(i as int),
            ),
        decreases all.len() - i,
    {
        let m = &modules[i];
        let ghost prefix = all.take(i as int);
        assert(all.take(i + 1).drop_last() =~= prefix);
        assert(all.take(i + 1).last() == *m);
        proof {
            lemma_covered_at_most(prefix);
        }
        if m.runtime_reachable {
            if let Some(path) = &m.path {
                let suppressed = match m.coverage_gaps_suppressed {
                    Some(s) => s,
                    None => false,
                };
                if !is_style_file(path.as_str()) && !suppressed {
                    let ghost paths_before = string_views(runtime_paths@);
                    runtime_paths.push(copy_string(path));
                    assert(string_views(runtime_paths@) =~= paths_before.push(path@));
                    runtime_files = runtime_files + 1;
                    if m.test_reachable {
                        covered_files = covered_files + 1;
                    } else {
                        let ghost files_before = files@.map_values(|x: UntestedFile| file_view(x));
                        let n = count_value_exports(&m.exports);
                        files.push(UntestedFile { path: copy_string(path), value_export_count: n });
                        assert(files@.map_values(|x: UntestedFile| file_view(x)) =~= files_before.push(
                            (path@, value_export_count(m.exports@)),
                        ));
                    }
                    if m.coverage_gaps_suppressed.is_some() {
                        push_untested_exports(modules, unused_exports, path, &m.exports, &mut exports);
                    }
                }
            }
        }
        i = i + 1;
    }
    assert(all.take(i as int) =~= all);
    let files = sort_files(files);
    let exports = sort_exports(exports);
    proof {
        assert forall|x: ExportView|
            #[trigger] export_views(exports@).contains(x) <==> exists|i: int, j: int|
                0 <= i < modules@.len() && #[trigger] reports_export(modules@, unused_exports@, modules@[i], j, x) by {
            lemma_untested_exports_members(modules@, unused_exports@, x);
        }
    }
    CoverageGapData { runtime_files, covered_files, files, exports, runtime_paths }
}

proof fn lemma_covered_at_most(ms: Seq<GraphModule>)
    ensures
        covered_count(ms) <= runtime_paths_of(ms).len(),
        runtime_paths_of(ms).len() <= ms.len(),
    decreases ms.len(),
{
    if ms.len() > 0 {
        lemma_covered_at_most(ms.drop_last());
    }
}

/// Every runtime file is either reached by a test or listed as untested.
pub proof fn lemma_runtime_files_are_covered_or_untested(ms: Seq<GraphModule>)
    ensures
        covered_count(ms) + untested_files_of(ms).len() == runtime_paths_of(ms).len(),
    decreases ms.len(),
{
    if ms.len() > 0 {
        lemma_runtime_files_are_covered_or_untested(ms.drop_last());
    }
}

/// Ordering files by path is a strict weak order.
pub proof fn lemma_file_order_is_strict()
    ensures
        strict_order(file_order()),
{
    assert forall|a: FileView, b: FileView| #[trigger] (file_order())(a, b) implies !(file_order())(b, a) by {
        if (file_order())(b, a) {
            crate::path_order::lemma_codes_before_transitive(
                crate::path_order::path_code(a.0),
                crate::path_order::path_code(b.0),
                crate::path_order::path_code(a.0),
            );
            crate::path_order::lemma_codes_before_irreflexive(crate::path_order::path_code(a.0));
        }
    }
    assert forall|a: FileView, b: FileView, c: FileView|
        #![trigger (file_order())(a, c), (file_order())(b, c)]
        #![trigger (file_order())(a, c), (file_order())(a, b)]
        (file_order())(a, c) implies (file_order())(a, b) || (file_order())(b, c) by {
        let (pa, pb, pc) = (
            crate::path_order::path_code(a.0),
            crate::path_order::path_code(b.0),
            crate::path_order::path_code(c.0),
        );
        crate::path_order::lemma_codes_before_total(pa, pb);
        crate::path_order::lemma_codes_before_total(pb, pc);
        if crate::path_order::codes_before(pb, pa) && crate::path_order::codes_before(pc, pb) {
            crate::path_order::lemma_codes_before_transitive(pc, pb, pa);
            crate::path_order::lemma_codes_before_transitive(pa, pc, pa);
            crate::path_order::lemma_codes_before_irreflexive(pa);
        }
    }
}

/// The untested files come out in path order, exactly those that were found.
pub proof fn lemma_untested_files_sorted(ms: Seq<GraphModule>)
    ensures
        in_order(sorted_by(untested_files_of(ms), file_order()), file_order()),
        sorted_by(untested_files_of(ms), file_order()).to_multiset() == untested_files_of(
            ms,
        ).to_multiset(),
{
    lemma_file_order_is_strict();
    crate::stable_sort::lemma_sorted_by_is_ordered_permutation(untested_files_of(ms), file_order());
}

/// Ordering exports by path, name and line is a strict weak order.
pub proof fn lemma_export_order_is_strict()
    ensures
        strict_order(export_order()),
{
    assert forall|a: ExportView, b: ExportView| #[trigger] (export_order())(a, b) implies !(
    export_order())(b, a) by {
        let (pa, pb) = (crate::path_order::path_code(a.0), crate::path_order::path_code(b.0));
        crate::path_order::lemma_codes_before_irreflexive(pa);
        if crate::path_order::codes_before(pa, pb) && crate::path_order::codes_before(pb, pa) {
            crate::path_order::lemma_codes_before_transitive(pa, pb, pa);
        }
        crate::text::lemma_chars_before_irreflexive(a.1);
        if chars_before(a.1, b.1) && chars_before(b.1, a.1) {
            crate::text::lemma_chars_before_transitive(a.1, b.1, a.1);
        }
    }
    assert forall|a: ExportView, b: ExportView, c: ExportView|
        #![trigger (export_order())(a, c), (export_order())(b, c)]
        #![trigger (export_order())(a, c), (export_order())(a, b)]
        (export_order())(a, c) implies (export_order())(a, b) || (export_order())(b, c) by {
        let (pa, pb, pc) = (
            crate::path_order::path_code(a.0),
            crate::path_order::path_code(b.0),
            crate::path_order::path_code(c.0),
        );
        crate::path_order::lemma_codes_before_total(pa, pb);
        crate::path_order::lemma_codes_before_total(pb, pc);
        crate::path_order::lemma_codes_before_total(pa, pc);
        crate::text::lemma_chars_before_total(a.1, b.1);
        crate::text::lemma_chars_before_total(b.1, c.1);
        crate::path_order::lemma_codes_before_irreflexive(pa);
        crate::path_order::lemma_codes_before_irreflexive(pb);
        crate::text::lemma_chars_before_irreflexive(a.1);
        if crate::path_order::codes_before(pb, pa) && crate::path_order::codes_before(pc, pb) {
            crate::path_order::lemma_codes_before_transitive(pc, pb, pa);
        }
        if crate::path_order::codes_before(pb, pa) && crate::path_order::codes_before(pa, pc) {
            crate::path_order::lemma_codes_before_transitive(pb, pa, pc);
        }
        if crate::path_order::codes_before(pa, pc) && crate::path_order::codes_before(pc, pb) {
            crate::path_order::lemma_codes_before_transitive(pa, pc, pb);
        }
        if crate::path_order::codes_before(pc, pb) && crate::path_order::codes_before(pb, pa) {
            crate::path_order::lemma_codes_before_transitive(pc, pb, pa);
        }
        if chars_before(b.1, a.1) && chars_before(c.1, b.1) {
            crate::text::lemma_chars_before_transitive(c.1, b.1, a.1);
        }
        if chars_before(b.1, a.1) && chars_before(a.1, c.1) {
            crate::text::lemma_chars_before_transitive(b.1, a.1, c.1);
        }
        if chars_before(a.1, c.1) && chars_before(c.1, b.1) {
            crate::text::lemma_chars_before_transitive(a.1, c.1, b.1);
        }
        if chars_before(b.1, c.1) && chars_before(c.1, a.1) {
            crate::text::lemma_chars_before_transitive(b.1, c.1, a.1);
        }
        crate::text::lemma_chars_before_total(a.1, c.1);
        if chars_before(c.1, a.1) && chars_before(a.1, b.1) {
            crate::text::lemma_chars_before_transitive(c.1, a.1, b.1);
        }
    }
}

/// The untested exports come out in order of path, name and line, exactly
/// those that were found.
pub proof fn lemma_untested_exports_sorted(
    all: Seq<GraphModule>,
    unused: Seq<(String, String)>,
)
    ensures
        in_order(sorted_by(untested_exports_of(all, unused, all), export_order()), export_order()),
        sorted_by(untested_exports_of(all, unused, all), export_order()).to_multiset()
            == untested_exports_of(all, unused, all).to_multiset(),
{
    lemma_export_order_is_strict();
    crate::stable_sort::lemma_sorted_by_is_ordered_permutation(
        untested_exports_of(all, unused, all),
        export_order(),
    );
}


/// No module that imports the export is test-reachable (an importer index
/// outside the module list names no module).
pub open spec fn no_importer_is_test_reachable(all: Seq<GraphModule>, e: GraphExport) -> bool {
    forall|k: int|
        0 <= k < e.referenced_from@.len() && #[trigger] e.referenced_from@[k] < all.len()
            ==> !all[e.referenced_from@[k] as int].test_reachable
}

/// `x` is an untested export of the `j`-th export of the module `m`, a
/// runtime file with extracted facts: a value export, not listed as unused,
/// that no test-reachable module imports.
pub open spec fn reports_export(
    all: Seq<GraphModule>,
    unused: Seq<(String, String)>,
    m: GraphModule,
    j: int,
    x: ExportView,
) -> bool {
    &&& m.runtime_reachable
    &&& m.path is Some
    &&& !is_style_path(m.path.unwrap()@)
    &&& m.coverage_gaps_suppressed == Some(false)
    &&& 0 <= j < m.exports@.len()
    &&& !m.exports@[j].is_type_only
    &&& !listed_unused(unused, m.path.unwrap()@, m.exports@[j].name@)
    &&& no_importer_is_test_reachable(all, m.exports@[j])
    &&& x == (m.path.unwrap()@, m.exports@[j].name@, m.exports@[j].line, m.exports@[j].col)
}

proof fn lemma_untested_in_members(
    all: Seq<GraphModule>,
    unused: Seq<(String, String)>,
    path: Seq<char>,
    es: Seq<GraphExport>,
    x: ExportView,
)
    ensures
        untested_exports_in(all, unused, path, es).contains(x) <==> exists|j: int|
            0 <= j < es.len() && !(#[trigger] es[j]).is_type_only && !listed_unused(unused, path, es[j].name@)
                && no_importer_is_test_reachable(all, es[j]) && x == (path, es[j].name@, es[j].line, es[j].col),
    decreases es.len(),
{
    if es.len() > 0 {
        let d = es.drop_last();
        let e = es.last();
        lemma_untested_in_members(all, unused, path, d, x);
        let r = untested_exports_in(all, unused, path, d);
        assert(has_test_importer(all, e) <==> !no_importer_is_test_reachable(all, e));
        if exists|j: int|
            0 <= j < d.len() && !(#[trigger] d[j]).is_type_only && !listed_unused(unused, path, d[j].name@)
                && no_importer_is_test_reachable(all, d[j]) && x == (path, d[j].name@, d[j].line, d[j].col) {
            let j = choose|j: int|
                0 <= j < d.len() && !(#[trigger] d[j]).is_type_only && !listed_unused(unused, path, d[j].name@)
                    && no_importer_is_test_reachable(all, d[j]) && x == (path, d[j].name@, d[j].line, d[j].col);
            assert(es[j] == d[j]);
        }
        if exists|j: int|
            0 <= j < es.len() && !(#[trigger] es[j]).is_type_only && !listed_unused(unused, path, es[j].name@)
                && no_importer_is_test_reachable(all, es[j]) && x == (path, es[j].name@, es[j].line, es[j].col) {
            let j = choose|j: int|
                0 <= j < es.len() && !(#[trigger] es[j]).is_type_only && !listed_unused(unused, path, es[j].name@)
                    && no_importer_is_test_reachable(all, es[j]) && x == (path, es[j].name@, es[j].line, es[j].col);
            if j < d.len() {
                assert(d[j] == es[j]);
            }
        }
        if is_untested_export(all, unused, path, e) {
            let v = (path, e.name@, e.line, e.col);
            assert(untested_exports_in(all, unused, path, es) == r.push(v));
            if r.push(v).contains(x) && x != v {
                let k = choose|k: int| 0 <= k < r.push(v).len() && r.push(v)[k] == x;
                assert(r[k] == x);
            }
            if r.contains(x) {
                let k = choose|k: int| 0 <= k < r.len() && r[k] == x;
                assert(r.push(v)[k] == x);
            }
            assert(r.push(v)[r.len() as int] == v);
        }
    }
}

proof fn lemma_untested_of_members(
    all: Seq<GraphModule>,
    unused: Seq<(String, String)>,
    ms: Seq<GraphModule>,
    x: ExportView,
)
    ensures
        untested_exports_of(all, unused, ms).contains(x) <==> exists|i: int, j: int|
            0 <= i < ms.len() && #[trigger] reports_export(all, unused, ms[i], j, x),
    decreases ms.len(),
{
    if ms.len() > 0 {
        let d = ms.drop_last();
        let m = ms.last();
        lemma_untested_of_members(all, unused, d, x);
        let r = untested_exports_of(all, unused, d);
        let here = counts_as_runtime(m) && m.coverage_gaps_suppressed is Some;
        match m.coverage_gaps_suppressed {
            Some(b) => {
                if !b {
                    assert(m.coverage_gaps_suppressed == Some(false));
                } else {
                    assert(m.coverage_gaps_suppressed == Some(true));
                }
            },
            None => {},
        }
        assert(here <==> (m.runtime_reachable && m.path is Some && !is_style_path(m.path.unwrap()@)
            && m.coverage_gaps_suppressed == Some(false)));
        if here {
            let es = untested_exports_in(all, unused, m.path.unwrap()@, m.exports@);
            lemma_untested_in_members(all, unused, m.path.unwrap()@, m.exports@, x);
            assert(untested_exports_of(all, unused, ms) == r + es);
            if (r + es).contains(x) {
                let k = choose|k: int| 0 <= k < (r + es).len() && (r + es)[k] == x;
                if k < r.len() {
                    assert(r[k] == x);
                } else {
                    assert(es[k - r.len()] == x);
                }
            }
            if r.contains(x) {
                let k = choose|k: int| 0 <= k < r.len() && r[k] == x;
                assert((r + es)[k] == x);
            }
            if es.contains(x) {
                let k = choose|k: int| 0 <= k < es.len() && es[k] == x;
                assert((r + es)[r.len() + k] == x);
                let p = m.path.unwrap()@;
                let es0 = m.exports@;
                let j = choose|j: int|
                    0 <= j < es0.len() && !(#[trigger] es0[j]).is_type_only && !listed_unused(unused, p, es0[j].name@)
                        && no_importer_is_test_reachable(all, es0[j]) && x == (p, es0[j].name@, es0[j].line, es0[j].col);
                assert(ms[ms.len() - 1] == m);
                assert(reports_export(all, unused, ms[ms.len() - 1], j, x));
            }
        } else {
            assert(untested_exports_of(all, unused, ms) == r);
        }
        if exists|i: int, j: int| 0 <= i < d.len() && #[trigger] reports_export(all, unused, d[i], j, x) {
            let (i, j) = choose|i: int, j: int| 0 <= i < d.len() && #[trigger] reports_export(all, unused, d[i], j, x);
            assert(ms[i] == d[i]);
            assert(reports_export(all, unused, ms[i], j, x));
        }
        if exists|i: int, j: int| 0 <= i < ms.len() && #[trigger] reports_export(all, unused, ms[i], j, x) {
            let (i, j) = choose|i: int, j: int| 0 <= i < ms.len() && #[trigger] reports_export(all, unused, ms[i], j, x);
            if i < d.len() {
                assert(d[i] == ms[i]);
                assert(reports_export(all, unused, d[i], j, x));
            } else {
                assert(ms[i] == m);
                assert(here);
                assert(0 <= j < m.exports@.len() && !(m.exports@[j]).is_type_only);
                let es = untested_exports_in(all, unused, m.path.unwrap()@, m.exports@);
                assert(es.contains(x));
            }
        }
    }
}

/// An export is reported untested exactly when it is a value export of a
/// runtime file with extracted facts (runtime-reachable, with a known path
/// that is no stylesheet, not suppressed), is not listed as unused, and no
/// module importing it is test-reachable: an importer that no test reaches
/// never hides the finding.
pub proof fn lemma_untested_exports_members(all: Seq<GraphModule>, unused: Seq<(String, String)>, x: ExportView)
    ensures
        sorted_by(untested_exports_of(all, unused, all), export_order()).contains(x) <==> exists|i: int, j: int|
            0 <= i < all.len() && #[trigger] reports_export(all, unused, all[i], j, x),
{
    broadcast use vstd::seq_lib::group_to_multiset_ensures;

    lemma_untested_exports_sorted(all, unused);
    lemma_untested_of_members(all, unused, all, x);
    let u = untested_exports_of(all, unused, all);
    let sr = sorted_by(u, export_order());
    assert(sr.contains(x) <==> sr.to_multiset().count(x) > 0);
    assert(u.contains(x) <==> u.to_multiset().count(x) > 0);
}

} // verus!
