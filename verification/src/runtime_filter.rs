//! The verdict and signals of a runtime-coverage report.
//!
//! Three facts decide them: whether the license is in its expiry grace period,
//! whether some finding is cold (safe to delete, review required, or low
//! traffic), and whether a pull request touched a hot path.
use vstd::prelude::*;

use crate::grouping::{contains_path, has_same_path};
use crate::path_order::{strip_root, stripped};
use crate::text::{chars_of, str_eq, string_from_chars, string_views};

verus! {

/// A fact a runtime-coverage report raises.
#[derive(Clone, Copy, Debug, PartialEq, Eq, Structural)]
pub enum RuntimeCoverageSignal {
    LicenseExpiredGrace,
    ColdCodeDetected,
    HotPathTouched,
}

/// The headline verdict of a runtime-coverage report.
#[derive(Clone, Copy, Debug, PartialEq, Eq, Structural)]
pub enum RuntimeCoverageReportVerdict {
    Clean,
    HotPathTouched,
    ColdCodeDetected,
    LicenseExpiredGrace,
}

/// The signals raised, in a fixed order: grace, cold code, touched hot path.
pub open spec fn signals_of(
    has_license_grace: bool,
    has_cold_signal: bool,
    has_changed_hot_path: bool,
) -> Seq<RuntimeCoverageSignal> {
    (if has_license_grace {
        seq![RuntimeCoverageSignal::LicenseExpiredGrace]
    } else {
        Seq::empty()
    }) + (if has_cold_signal {
        seq![RuntimeCoverageSignal::ColdCodeDetected]
    } else {
        Seq::empty()
    }) + (if has_changed_hot_path {
        seq![RuntimeCoverageSignal::HotPathTouched]
    } else {
        Seq::empty()
    })
}

/// The headline verdict. An active license grace period wins. In a pull
/// request a touched hot path ranks above cold code; elsewhere cold code ranks
/// above a touched hot path. With none of them the report is clean.
pub open spec fn verdict_of(
    has_license_grace: bool,
    has_cold_signal: bool,
    has_changed_hot_path: bool,
    pr_context: bool,
) -> RuntimeCoverageReportVerdict {
    if has_license_grace {
        RuntimeCoverageReportVerdict::LicenseExpiredGrace
    } else if pr_context && has_changed_hot_path {
        RuntimeCoverageReportVerdict::HotPathTouched
    } else if has_cold_signal {
        RuntimeCoverageReportVerdict::ColdCodeDetected
    } else if has_changed_hot_path {
        RuntimeCoverageReportVerdict::HotPathTouched
    } else {
        RuntimeCoverageReportVerdict::Clean
    }
}

/// The signals a report raises.
pub fn build_runtime_coverage_signals(
    has_license_grace: bool,
    has_cold_signal: bool,
    has_changed_hot_path: bool,
) -> (signals: Vec<RuntimeCoverageSignal>)
    ensures
        signals@ == signals_of(has_license_grace, has_cold_signal, has_changed_hot_path),
{
    let mut signals: Vec<RuntimeCoverageSignal> = Vec::new();
    if has_license_grace {
        signals.push(RuntimeCoverageSignal::LicenseExpiredGrace);
    }
    if has_cold_signal {
        signals.push(RuntimeCoverageSignal::ColdCodeDetected);
    }
    if has_changed_hot_path {
        signals.push(RuntimeCoverageSignal::HotPathTouched);
    }
    assert(signals@ =~= signals_of(has_license_grace, has_cold_signal, has_changed_hot_path));
    signals
}

/// The primary verdict of a report.
pub fn pick_primary_verdict(
    has_license_grace: bool,
    has_cold_signal: bool,
    has_changed_hot_path: bool,
    pr_context: bool,
) -> (v: RuntimeCoverageReportVerdict)
    ensures
        v == verdict_of(has_license_grace, has_cold_signal, has_changed_hot_path, pr_context),
{
    if has_license_grace {
        return RuntimeCoverageReportVerdict::LicenseExpiredGrace;
    }
    if pr_context {
        if has_changed_hot_path {
            return RuntimeCoverageReportVerdict::HotPathTouched;
        }
        if has_cold_signal {
            return RuntimeCoverageReportVerdict::ColdCodeDetected;
        }
    } else {
        if has_cold_signal {
            return RuntimeCoverageReportVerdict::ColdCodeDetected;
        }
        if has_changed_hot_path {
            return RuntimeCoverageReportVerdict::HotPathTouched;
        }
    }
    RuntimeCoverageReportVerdict::Clean
}

/// The signal that corresponds to a verdict other than clean.
pub open spec fn signal_for(v: RuntimeCoverageReportVerdict) -> Option<RuntimeCoverageSignal> {
    match v {
        RuntimeCoverageReportVerdict::Clean => None,
        RuntimeCoverageReportVerdict::HotPathTouched => Some(RuntimeCoverageSignal::HotPathTouched),
        RuntimeCoverageReportVerdict::ColdCodeDetected => Some(
            RuntimeCoverageSignal::ColdCodeDetected,
        ),
        RuntimeCoverageReportVerdict::LicenseExpiredGrace => Some(
            RuntimeCoverageSignal::LicenseExpiredGrace,
        ),
    }
}

/// The verdict and the signals agree: the report is clean exactly when it
/// raises no signal, a verdict other than clean is always among the signals
/// raised, and license grace, when raised, is the verdict.
pub proof fn lemma_verdict_agrees_with_signals(
    has_license_grace: bool,
    has_cold_signal: bool,
    has_changed_hot_path: bool,
    pr_context: bool,
)
    ensures
        ({
            let v = verdict_of(has_license_grace, has_cold_signal, has_changed_hot_path, pr_context);
            let s = signals_of(has_license_grace, has_cold_signal, has_changed_hot_path);
            &&& (v == RuntimeCoverageReportVerdict::Clean <==> s.len() == 0)
            &&& (signal_for(v) matches Some(sig) ==> s.contains(sig))
            &&& (has_license_grace ==> v == RuntimeCoverageReportVerdict::LicenseExpiredGrace
                && s[0] == RuntimeCoverageSignal::LicenseExpiredGrace)
        }),
{
    let v = verdict_of(has_license_grace, has_cold_signal, has_changed_hot_path, pr_context);
    let s = signals_of(has_license_grace, has_cold_signal, has_changed_hot_path);
    if let Some(sig) = signal_for(v) {
        if sig == RuntimeCoverageSignal::LicenseExpiredGrace {
            assert(s[0] == sig);
        } else if sig == RuntimeCoverageSignal::ColdCodeDetected {
            let k: int = if has_license_grace { 1 } else { 0 };
            assert(s[k] == sig);
        } else {
            let k: int = (if has_license_grace { 1int } else { 0int }) + (if has_cold_signal {
                1int
            } else {
                0int
            });
            assert(s[k] == sig);
        }
    }
}

/// The verdict of one runtime-coverage finding, as far as the verdict of
/// the report reads it.
#[derive(Clone, Copy, Debug, PartialEq, Eq, Structural)]
pub enum RuntimeCoverageVerdict {
    SafeToDelete,
    ReviewRequired,
    LowTraffic,
    /// Every other outcome: the function is in use.
    Other,
}

/// A cold outcome: safe to delete, needing a human look, or low traffic.
pub open spec fn is_cold_verdict(v: RuntimeCoverageVerdict) -> bool {
    v == RuntimeCoverageVerdict::SafeToDelete || v == RuntimeCoverageVerdict::ReviewRequired || v
        == RuntimeCoverageVerdict::LowTraffic
}

/// Whether a finding's verdict is a cold one.
pub fn is_cold(v: RuntimeCoverageVerdict) -> (b: bool)
    ensures
        b == is_cold_verdict(v),
{
    match v {
        RuntimeCoverageVerdict::SafeToDelete | RuntimeCoverageVerdict::ReviewRequired
        | RuntimeCoverageVerdict::LowTraffic => true,
        RuntimeCoverageVerdict::Other => false,
    }
}

/// A finding of a runtime-coverage report, by its position in the report
/// and its verdict.
#[derive(Clone, Copy, Debug, PartialEq, Eq)]
pub struct RuntimeFinding {
    pub id: usize,
    pub verdict: RuntimeCoverageVerdict,
}

/// A hot path: a function of a file, by its first and last line (`0` for
/// the last line when unknown).
#[derive(Clone, Debug)]
pub struct RuntimeHotPath {
    pub path: String,
    pub line: u32,
    pub end_line: u32,
}

/// What the post-processing of a runtime-coverage report reads and changes.
#[derive(Clone, Debug)]
pub struct RuntimeCoverageReport {
    pub findings: Vec<RuntimeFinding>,
    pub hot_paths: Vec<RuntimeHotPath>,
    pub verdict: RuntimeCoverageReportVerdict,
    /// The report's watermark is the license grace period.
    pub watermark_license_grace: bool,
    pub signals: Vec<RuntimeCoverageSignal>,
}

/// A file of the diff under review: its root-relative path, and the new
/// line numbers it adds (none when the diff gives no line information).
#[derive(Clone, Debug)]
pub struct DiffFile {
    pub path: String,
    pub added_lines: Option<Vec<u64>>,
}

/// What a change scope knows: the project root, the changed files, and the
/// diff under review.
#[derive(Clone, Debug)]
pub struct ChangeScope {
    pub root: String,
    pub changed_files: Option<Vec<String>>,
    pub diff: Option<Vec<DiffFile>>,
}

pub open spec fn hot_path_view(h: RuntimeHotPath) -> (Seq<char>, u32, u32) {
    (h.path@, h.line, h.end_line)
}

/// Some finding is cold.
pub open spec fn has_cold(fs: Seq<RuntimeFinding>) -> bool {
    exists|i: int| 0 <= i < fs.len() && is_cold_verdict((#[trigger] fs[i]).verdict)
}

/// The report is in the license grace period, by its verdict or watermark.
pub open spec fn in_license_grace(r: RuntimeCoverageReport) -> bool {
    r.verdict == RuntimeCoverageReportVerdict::LicenseExpiredGrace || r.watermark_license_grace
}

/// `/` in place of each `\`.
pub open spec fn forward_slashes(s: Seq<char>) -> Seq<char> {
    s.map_values(|c: char| if c == '\\' { '/' } else { c })
}

/// Absolute on some platform: a leading `/` or `\`, or a drive letter, a
/// colon and a separator.
pub open spec fn absolute_any_platform(p: Seq<char>) -> bool {
    ||| p.len() > 0 && (p[0] == '/' || p[0] == '\\')
    ||| p.len() >= 3 && (('a' <= p[0] <= 'z') || ('A' <= p[0] <= 'Z')) && p[1] == ':' && (p[2]
        == '\\' || p[2] == '/')
}

/// A path relative to the root, with forward slashes: the path without the
/// root's components when they lead it, none for another absolute path, and
/// a relative path as it is.
pub open spec fn relative_to_root_of(path: Seq<char>, root: Seq<char>) -> Option<Seq<char>> {
    match stripped(path, root) {
        Some(r) => Some(forward_slashes(r)),
        None => if absolute_any_platform(path) {
            None
        } else {
            Some(forward_slashes(path))
        },
    }
}

/// The first diff entry for `rel`.
pub open spec fn diff_entry(d: Seq<DiffFile>, rel: Seq<char>) -> Option<int>
    decreases d.len(),
{
    if d.len() == 0 {
        None
    } else {
        match diff_entry(d.drop_last(), rel) {
            Some(k) => Some(k),
            None => if d.last().path@ == rel {
                Some(d.len() - 1)
            } else {
                None
            },
        }
    }
}

/// `path` joined onto `root`, as `Path::join` does: an absolute `path`
/// replaces the root.
pub open spec fn joined_onto(root: Seq<char>, path: Seq<char>) -> Seq<char> {
    if path.len() > 0 && path[0] == '/' {
        path
    } else if root.len() > 0 && root.last() != '/' {
        root + seq!['/'] + path
    } else {
        root + path
    }
}

/// The added lines of the diff entry of a hot path's file, when the diff
/// touches that file.
pub open spec fn diff_lines_for(h: (Seq<char>, u32, u32), scope: ChangeScope) -> Option<Option<Seq<u64>>> {
    match scope.diff {
        Some(d) => match relative_to_root_of(h.0, scope.root@) {
            Some(rel) => match diff_entry(d@, rel) {
                Some(k) => Some(
                    match d@[k].added_lines {
                        Some(l) => Some(l@),
                        None => None,
                    },
                ),
                None => None,
            },
            None => None,
        },
        None => None,
    }
}

/// Whether a hot path stays in the change scope: in a file the diff touches,
/// when one of the diff's added lines falls in its line range; otherwise,
/// when its file is among the changed files.
pub open spec fn hot_path_in_scope(h: (Seq<char>, u32, u32), scope: ChangeScope) -> bool {
    let start = h.1;
    let end = if h.2 == 0 {
        h.1
    } else {
        h.2
    };
    if diff_lines_for(h, scope) is Some {
        diff_lines_for(h, scope).unwrap() is Some && exists|k: int|
            0 <= k < diff_lines_for(h, scope).unwrap().unwrap().len() && start
                <= #[trigger] diff_lines_for(h, scope).unwrap().unwrap()[k] <= end
    } else {
        match scope.changed_files {
            Some(cf) => {
                let absolute = if absolute_any_platform(h.0) {
                    h.0
                } else {
                    joined_onto(scope.root@, h.0)
                };
                has_same_path(string_views(cf@), absolute) || has_same_path(string_views(cf@), h.0)
            },
            None => false,
        }
    }
}

/// The hot paths that stay in the change scope, in order.
pub open spec fn retained(hs: Seq<(Seq<char>, u32, u32)>, scope: ChangeScope) -> Seq<(Seq<char>, u32, u32)>
    decreases hs.len(),
{
    if hs.len() == 0 {
        Seq::empty()
    } else {
        let init = retained(hs.drop_last(), scope);
        if hot_path_in_scope(hs.last(), scope) {
            init.push(hs.last())
        } else {
            init
        }
    }
}

pub(crate) fn forward_slashes_of(s: &Vec<char>) -> (r: String)
    ensures
        r@ == forward_slashes(s@),
{
    let mut out: Vec<char> = Vec::new();
    let mut i: usize = 0;
    while i < s.len()
        invariant
            i <= s@.len(),
            out@ == forward_slashes(s@.take(i as int)),
        decreases s@.len() - i,
    {
        let c = s[i];
        out.push(if c == '\\' { '/' } else { c });
        assert(forward_slashes(s@.take(i + 1)) =~= forward_slashes(s@.take(i as int)).push(
            if c == '\\' { '/' } else { c },
        ));
        i = i + 1;
    }
    assert(s@.take(i as int) =~= s@);
    string_from_chars(&out)
}

fn is_absolute_any_platform(p: &Vec<char>) -> (b: bool)
    ensures
        b == absolute_any_platform(p@),
{
    if p.len() > 0 && (p[0] == '/' || p[0] == '\\') {
        return true;
    }
    p.len() >= 3 && (('a' <= p[0] && p[0] <= 'z') || ('A' <= p[0] && p[0] <= 'Z')) && p[1] == ':'
        && (p[2] == '\\' || p[2] == '/')
}

/// A path relative to the project root, with forward slashes; none for an
/// absolute path outside the root.
pub fn relative_to_root(path: &str, root: &str) -> (r: Option<String>)
    ensures
        match r {
            Some(s) => relative_to_root_of(path@, root@) == Some(s@),
            None => relative_to_root_of(path@, root@) is None,
        },
{
    match strip_root(path, root) {
        Some(s) => {
            let c = chars_of(s.as_str());
            Some(forward_slashes_of(&c))
        },
        None => {
            let c = chars_of(path);
            if is_absolute_any_platform(&c) {
                None
            } else {
                Some(forward_slashes_of(&c))
            }
        },
    }
}

fn find_diff_entry(d: &Vec<DiffFile>, rel: &str) -> (r: Option<usize>)
    ensures
        match r {
            Some(k) => k < d@.len() && diff_entry(d@, rel@) == Some(k as int),
            None => diff_entry(d@, rel@) is None,
        },
{
    let mut i: usize = 0;
    while i < d.len()
        invariant
            i <= d@.len(),
            diff_entry(d@.take(i as int), rel@) is None,
        decreases d@.len() - i,
    {
        assert(d@.take(i + 1).drop_last() =~= d@.take(i as int));
        if str_eq(d[i].path.as_str(), rel) {
            proof {
                lemma_diff_entry_prefix(d@, i as int + 1, rel@);
            }
            return Some(i);
        }
        i = i + 1;
    }
    assert(d@.take(i as int) =~= d@);
    None
}

proof fn lemma_diff_entry_prefix(d: Seq<DiffFile>, n: int, rel: Seq<char>)
    requires
        0 <= n <= d.len(),
        diff_entry(d.take(n), rel) is Some,
    ensures
        diff_entry(d, rel) == diff_entry(d.take(n), rel),
    decreases d.len() - n,
{
    if n < d.len() {
        assert(d.take(n + 1).drop_last() =~= d.take(n));
        lemma_diff_entry_prefix(d, n + 1, rel);
    } else {
        assert(d.take(n) =~= d);
    }
}

/// `path` joined onto `root`, as `Path::join` does.
pub fn join_onto(root: &str, path: &str) -> (r: String)
    ensures
        r@ == joined_onto(root@, path@),
{
    let p = chars_of(path);
    if p.len() > 0 && p[0] == '/' {
        return string_from_chars(&p);
    }
    let mut out = chars_of(root);
    if out.len() > 0 && out[out.len() - 1] != '/' {
        out.push('/');
    }
    crate::text::push_chars(&mut out, &p);
    string_from_chars(&out)
}

fn in_scope(h: &RuntimeHotPath, scope: &ChangeScope) -> (b: bool)
    ensures
        b == hot_path_in_scope(hot_path_view(*h), *scope),
{
    let start = h.line as u64;
    let end = if h.end_line == 0 {
        h.line as u64
    } else {
        h.end_line as u64
    };
    if let Some(d) = &scope.diff {
        if let Some(rel) = relative_to_root(h.path.as_str(), scope.root.as_str()) {
            if let Some(k) = find_diff_entry(d, rel.as_str()) {
                return match &d[k].added_lines {
                    None => false,
                    Some(lines) => {
                        assert(diff_lines_for(hot_path_view(*h), *scope) == Some(Some(lines@)));
                        let mut j: usize = 0;
                        while j < lines.len()
                            invariant
                                j <= lines@.len(),
                                diff_lines_for(hot_path_view(*h), *scope) == Some(Some(lines@)),
                                start == h.line,
                                end == (if h.end_line == 0 {
                                    h.line
                                } else {
                                    h.end_line
                                }),
                                forall|q: int| 0 <= q < j ==> !(start <= #[trigger] lines@[q] <= end),
                            decreases lines@.len() - j,
                        {
                            if start <= lines[j] && lines[j] <= end {
                                assert(start <= lines@[j as int] <= end);
                                let ghost hv = hot_path_view(*h);
                                assert(diff_lines_for(hv, *scope).unwrap().unwrap() == lines@);
                                return true;
                            }
                            j = j + 1;
                        }
                        false
                    },
                };
            }
        }
    }
    match &scope.changed_files {
        Some(cf) => {
            let c = chars_of(h.path.as_str());
            let absolute = if is_absolute_any_platform(&c) {
                crate::text::string_of(h.path.as_str())
            } else {
                join_onto(scope.root.as_str(), h.path.as_str())
            };
            contains_path(cf, absolute.as_str()) || contains_path(cf, h.path.as_str())
        },
        None => false,
    }
}

/// Keeps the hot paths that the change scope touches, when there is a
/// change scope, and says whether there was one.
pub fn retain_hot_paths_in_change_scope(report: &mut RuntimeCoverageReport, scope: &ChangeScope) -> (changed_review: bool)
    ensures
        changed_review == (scope.diff is Some || scope.changed_files is Some),
        changed_review ==> final(report).hot_paths@.map_values(|h: RuntimeHotPath| hot_path_view(h))
            == retained(old(report).hot_paths@.map_values(|h: RuntimeHotPath| hot_path_view(h)), *scope),
        !changed_review ==> final(report).hot_paths@.map_values(|h: RuntimeHotPath| hot_path_view(h))
            == old(report).hot_paths@.map_values(|h: RuntimeHotPath| hot_path_view(h)),
        forall|h: (Seq<char>, u32, u32)|
            changed_review && old(report).hot_paths@.map_values(|x: RuntimeHotPath| hot_path_view(x)).contains(h)
                && #[trigger] diff_lines_for(h, *scope) is Some && diff_lines_for(h, *scope).unwrap() is Some
                ==> (final(report).hot_paths@.map_values(|x: RuntimeHotPath| hot_path_view(x)).contains(h)
                <==> exists|k: int|
                0 <= k < diff_lines_for(h, *scope).unwrap().unwrap().len() && h.1
                    <= #[trigger] diff_lines_for(h, *scope).unwrap().unwrap()[k]
                    && diff_lines_for(h, *scope).unwrap().unwrap()[k] <= (if h.2 == 0 {
                    h.1
                } else {
                    h.2
                })),
        final(report).findings@ == old(report).findings@,
        final(report).verdict == old(report).verdict,
        final(report).watermark_license_grace == old(report).watermark_license_grace,
        final(report).signals@ == old(report).signals@,
{
    if scope.diff.is_none() && scope.changed_files.is_none() {
        return false;
    }
    let ghost hs = report.hot_paths@.map_values(|h: RuntimeHotPath| hot_path_view(h));
    let mut kept: Vec<RuntimeHotPath> = Vec::new();
    let mut i: usize = 0;
    assert(hs.take(0) =~= Seq::<(Seq<char>, u32, u32)>::empty());
    while i < report.hot_paths.len()
        invariant
            i <= report.hot_paths@.len(),
            hs == report.hot_paths@.map_values(|h: RuntimeHotPath| hot_path_view(h)),
            kept@.map_values(|h: RuntimeHotPath| hot_path_view(h)) == retained(hs.take(i as int), *scope),
        decreases report.hot_paths@.len() - i,
    {
        let h = &report.hot_paths[i];
        assert(hs.take(i + 1).drop_last() =~= hs.take(i as int));
        assert(hs.take(i + 1).last() == hot_path_view(*h));
        if in_scope(h, scope) {
            let ghost before = kept@.map_values(|x: RuntimeHotPath| hot_path_view(x));
            kept.push(RuntimeHotPath {
                path: crate::text::string_of(h.path.as_str()),
                line: h.line,
                end_line: h.end_line,
            });
            assert(kept@.map_values(|x: RuntimeHotPath| hot_path_view(x)) =~= before.push(hot_path_view(*h)));
        }
        i = i + 1;
    }
    assert(hs.take(i as int) =~= hs);
    report.hot_paths = kept;
    proof {
        assert forall|h: (Seq<char>, u32, u32)|
            hs.contains(h) && #[trigger] diff_lines_for(h, *scope) is Some && diff_lines_for(h, *scope).unwrap() is Some
            implies (report.hot_paths@.map_values(|x: RuntimeHotPath| hot_path_view(x)).contains(h)
            <==> exists|k: int|
                0 <= k < diff_lines_for(h, *scope).unwrap().unwrap().len() && h.1
                    <= #[trigger] diff_lines_for(h, *scope).unwrap().unwrap()[k]
                    && diff_lines_for(h, *scope).unwrap().unwrap()[k] <= (if h.2 == 0 {
                    h.1
                } else {
                    h.2
                })) by {
            lemma_retained_members(hs, *scope, h);
            lemma_hot_path_line_range(h, *scope, diff_lines_for(h, *scope).unwrap().unwrap());
        }
    }
    true
}

/// Sets the report's signals and verdict anew from three facts: the license
/// grace period (by verdict or watermark), a cold finding, and, in
/// pull-request context, a remaining hot path.
pub fn refresh_runtime_coverage_verdict(report: &mut RuntimeCoverageReport, pr_context: bool)
    ensures
        final(report).signals@ == signals_of(
            in_license_grace(*old(report)),
            has_cold(old(report).findings@),
            pr_context && old(report).hot_paths@.len() > 0,
        ),
        final(report).verdict == verdict_of(
            in_license_grace(*old(report)),
            has_cold(old(report).findings@),
            pr_context && old(report).hot_paths@.len() > 0,
            pr_context,
        ),
        final(report).findings@ == old(report).findings@,
        final(report).hot_paths@ == old(report).hot_paths@,
        final(report).watermark_license_grace == old(report).watermark_license_grace,
{
    let mut has_cold_signal = false;
    let mut i: usize = 0;
    while i < report.findings.len()
        invariant
            i <= report.findings@.len(),
            has_cold_signal == exists|q: int| 0 <= q < i && is_cold_verdict((#[trigger] report.findings@[q]).verdict),
        decreases report.findings@.len() - i,
    {
        if is_cold(report.findings[i].verdict) {
            has_cold_signal = true;
        }
        i = i + 1;
    }
    let has_changed_hot_path = pr_context && report.hot_paths.len() > 0;
    let has_license_grace = match report.verdict {
        RuntimeCoverageReportVerdict::LicenseExpiredGrace => true,
        _ => false,
    } || report.watermark_license_grace;
    report.signals = build_runtime_coverage_signals(has_license_grace, has_cold_signal, has_changed_hot_path);
    report.verdict = pick_primary_verdict(
        has_license_grace,
        has_cold_signal,
        has_changed_hot_path,
        pr_context,
    );
}

/// Post-processes a runtime-coverage report whose findings the baseline has
/// already filtered: keeps the hot paths in the change scope, recomputes the
/// verdict and signals (in review context when there is a change scope),
/// then keeps at most `top` findings and hot paths.
pub fn apply_runtime_coverage_filters(
    report: &mut RuntimeCoverageReport,
    scope: &ChangeScope,
    top: Option<usize>,
)
    ensures
        ({
            let review = scope.diff is Some || scope.changed_files is Some;
            let hs = old(report).hot_paths@.map_values(|h: RuntimeHotPath| hot_path_view(h));
            let kept = if review {
                retained(hs, *scope)
            } else {
                hs
            };
            let limit = |n: nat|
                match top {
                    Some(t) => if t < n {
                        t as nat
                    } else {
                        n
                    },
                    None => n,
                };
            &&& final(report).signals@ == signals_of(
                in_license_grace(*old(report)),
                has_cold(old(report).findings@),
                review && kept.len() > 0,
            )
            &&& final(report).verdict == verdict_of(
                in_license_grace(*old(report)),
                has_cold(old(report).findings@),
                review && kept.len() > 0,
                review,
            )
            &&& final(report).findings@ == old(report).findings@.take(
                limit(old(report).findings@.len()) as int,
            )
            &&& final(report).hot_paths@.map_values(|h: RuntimeHotPath| hot_path_view(h)) == kept.take(
                limit(kept.len()) as int,
            )
        }),
{
    let changed_review = retain_hot_paths_in_change_scope(report, scope);
    refresh_runtime_coverage_verdict(report, changed_review);
    if let Some(t) = top {
        let ghost hp = report.hot_paths@.map_values(|h: RuntimeHotPath| hot_path_view(h));
        report.findings.truncate(t);
        report.hot_paths.truncate(t);
        assert(report.hot_paths@.map_values(|h: RuntimeHotPath| hot_path_view(h)) =~= hp.take(
            if t < hp.len() { t as int } else { hp.len() as int },
        ));
    }
    proof {
        if top is None {
            assert(report.findings@ =~= report.findings@.take(report.findings@.len() as int));
        }
    }
}


/// A hot path stays exactly when it is in the change scope.
pub proof fn lemma_retained_members(hs: Seq<(Seq<char>, u32, u32)>, scope: ChangeScope, h: (Seq<char>, u32, u32))
    ensures
        retained(hs, scope).contains(h) <==> (hs.contains(h) && hot_path_in_scope(h, scope)),
    decreases hs.len(),
{
    if hs.len() > 0 {
        let d = hs.drop_last();
        lemma_retained_members(d, scope, h);
        assert(hs =~= d.push(hs.last()));
        if hs.contains(h) && h != hs.last() {
            let k = choose|k: int| 0 <= k < hs.len() && hs[k] == h;
            assert(d[k] == h);
        }
        if d.contains(h) {
            let k = choose|k: int| 0 <= k < d.len() && d[k] == h;
            assert(hs[k] == h);
        }
        let r = retained(d, scope);
        if hot_path_in_scope(hs.last(), scope) {
            assert(retained(hs, scope) == r.push(hs.last()));
            if retained(hs, scope).contains(h) && h != hs.last() {
                let k = choose|k: int| 0 <= k < r.push(hs.last()).len() && r.push(hs.last())[k] == h;
                assert(r[k] == h);
            }
            if r.contains(h) {
                let k = choose|k: int| 0 <= k < r.len() && r[k] == h;
                assert(r.push(hs.last())[k] == h);
            }
            assert(r.push(hs.last())[r.len() as int] == hs.last());
        }
    }
}

/// In a file the diff touches with line information, a hot path stays in
/// the change scope exactly when the diff adds a line `L` with
/// `line <= L <= end`, where `end` is its last line, or its first line when
/// the last one is unknown (`0`); both ends of the range count.
pub proof fn lemma_hot_path_line_range(h: (Seq<char>, u32, u32), scope: ChangeScope, added: Seq<u64>)
    requires
        diff_lines_for(h, scope) == Some(Some(added)),
    ensures
        hot_path_in_scope(h, scope) <==> exists|k: int|
            0 <= k < added.len() && h.1 <= #[trigger] added[k] && added[k] <= (if h.2 == 0 {
                h.1
            } else {
                h.2
            }),
{
    let end = if h.2 == 0 {
        h.1
    } else {
        h.2
    };
    assert(diff_lines_for(h, scope).unwrap().unwrap() == added);
    if hot_path_in_scope(h, scope) {
        let k = choose|k: int|
            0 <= k < diff_lines_for(h, scope).unwrap().unwrap().len() && h.1
                <= #[trigger] diff_lines_for(h, scope).unwrap().unwrap()[k] <= end;
        assert(h.1 <= added[k] && added[k] <= end);
    }
    if exists|k: int| 0 <= k < added.len() && h.1 <= #[trigger] added[k] && added[k] <= end {
        let k = choose|k: int| 0 <= k < added.len() && h.1 <= #[trigger] added[k] && added[k] <= end;
        assert(h.1 <= diff_lines_for(h, scope).unwrap().unwrap()[k] <= end);
    }
}

} // verus!
