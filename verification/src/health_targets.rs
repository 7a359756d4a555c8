//! Text of the refactoring-targets section of the human health report.
use vstd::prelude::*;

use colored::Colorize;

use crate::plugins::nx::replaced;
use crate::text::{
    chars_of, decimal, decimal_chars, is_digit, occurs_at, push_str, str_eq, string_from_chars,
};

verus! {

/// ANSI reset sequence.
pub open spec fn ansi_reset() -> Seq<char> {
    "\x1B[0m"@
}

/// What `colored` prints for `s` under the style `code`: `s` itself when
/// coloring is off, else the style, `s` with the style re-applied after each
/// reset inside it, and a reset.
pub open spec fn painted(s: Seq<char>, code: Seq<char>, out: Seq<char>) -> bool {
    out == s || out == code + replaced(s, ansi_reset(), ansi_reset() + code) + ansi_reset()
}

/// `s` dimmed, as `colored` renders `s.dimmed()`.
///
/// Calls `colored::Colorize::dimmed` and formats the result. Whether codes
/// are emitted depends on the process's color setting (environment and
/// terminal), so the contract admits both outcomes.
#[verifier::external_body]
fn dimmed(s: &str) -> (r: String)
    ensures
        painted(s@, "\x1B[2m"@, r@),
{
    s.dimmed().to_string()
}

/// Whether a character is alphanumeric in Unicode (`char::is_alphanumeric`).
pub uninterp spec fn unicode_alphanumeric(c: char) -> bool;

/// Calls `char::is_alphanumeric`. Its documentation makes the ASCII letters
/// and digits alphanumeric and no other ASCII character; beyond ASCII the
/// answer comes from the Unicode tables and is left to the named result.
#[verifier::external_body]
fn is_alphanumeric(c: char) -> (b: bool)
    ensures
        b == unicode_alphanumeric(c),
        (c as u32) < 0x80 ==> (b <==> crate::text::is_alnum(c)),
{
    c.is_alphanumeric()
}

/// End of the run of ASCII digits of `s` from `k`.
pub open spec fn digits_end(s: Seq<char>, k: int) -> int
    decreases s.len() - k,
{
    if k < 0 || k >= s.len() {
        s.len() as int
    } else if is_digit(s[k]) {
        digits_end(s, k + 1)
    } else {
        k
    }
}

/// At `p`, `validate` is followed by one or more digits that do not run on
/// into a word character (as in a generated `validate12` function).
pub open spec fn generated_marker_at(s: Seq<char>, p: int) -> bool {
    let e = digits_end(s, p + 8);
    &&& occurs_at(s, p, "validate"@)
    &&& e > p + 8
    &&& (e >= s.len() || !(unicode_alphanumeric(s[e]) || s[e] == '_'))
}

/// The recommendation names a generated validator (`validate` and digits).
pub open spec fn mentions_generated(s: Seq<char>) -> bool {
    exists|p: int| 0 <= p < s.len() && #[trigger] generated_marker_at(s, p)
}

/// `generated_marker_at` with the ASCII meaning of "alphanumeric", which
/// is the Unicode one on ASCII text.
pub open spec fn ascii_marker_at(s: Seq<char>, p: int) -> bool {
    let e = digits_end(s, p + 8);
    &&& occurs_at(s, p, "validate"@)
    &&& e > p + 8
    &&& (e >= s.len() || !(crate::text::is_alnum(s[e]) || s[e] == '_'))
}

/// `mentions_generated` on ASCII text, spelled out with ASCII classes.
pub open spec fn mentions_generated_ascii(s: Seq<char>) -> bool {
    exists|p: int| 0 <= p < s.len() && #[trigger] ascii_marker_at(s, p)
}

/// Every character of `s` is ASCII.
pub open spec fn all_ascii(s: Seq<char>) -> bool {
    forall|i: int| 0 <= i < s.len() ==> (#[trigger] s[i] as u32) < 0x80
}

proof fn lemma_digits_end(s: Seq<char>, k: int)
    requires
        0 <= k <= s.len(),
    ensures
        k <= digits_end(s, k) <= s.len(),
    decreases s.len() - k,
{
    if k < s.len() {
        lemma_digits_end(s, k + 1);
    }
}

/// Whether a recommendation names a generated validator.
pub fn recommendation_mentions_generated(recommendation: &str) -> (b: bool)
    ensures
        b == mentions_generated(recommendation@),
        all_ascii(recommendation@) ==> b == mentions_generated_ascii(recommendation@),
{
    let s = chars_of(recommendation);
    let word = chars_of("validate");
    proof {
        reveal_strlit("validate");
        assert("validate"@.len() == 8);
    }
    let mut p: usize = 0;
    while p < s.len()
        invariant
            p <= s@.len(),
            s@ == recommendation@,
            word@ == "validate"@,
            word@.len() == 8,
            forall|q: int| 0 <= q < p ==> !#[trigger] generated_marker_at(s@, q),
            all_ascii(s@) ==> forall|q: int| 0 <= q < p ==> !#[trigger] ascii_marker_at(s@, q),
        decreases s@.len() - p,
    {
        if crate::text::matches_at(&s, p, &word) {
            assert(p + 8 <= s@.len());
            let start = p + 8;
            let mut e = start;
            while e < s.len() && '0' <= s[e] && s[e] <= '9'
                invariant
                    start <= e <= s@.len(),
                    digits_end(s@, e as int) == digits_end(s@, start as int),
                decreases s@.len() - e,
            {
                e = e + 1;
            }
            let ends = if e >= s.len() {
                true
            } else {
                let c = s[e];
                proof {
                    if all_ascii(s@) {
                        assert((s@[e as int] as u32) < 0x80);
                    }
                }
                !(is_alphanumeric(c) || c == '_')
            };
            if e > start && ends {
                assert(generated_marker_at(s@, p as int));
                assert(all_ascii(s@) ==> ascii_marker_at(s@, p as int));
                return true;
            }
            assert(!generated_marker_at(s@, p as int));
            assert(all_ascii(s@) ==> !ascii_marker_at(s@, p as int));
        } else {
            assert(!occurs_at(s@, p as int, "validate"@));
        }
        p = p + 1;
    }
    false
}

/// ` (generated)`, dimmed, after a recommendation that names a generated
/// validator; nothing otherwise.
pub fn generated_recommendation_tag(recommendation: &str) -> (tag: String)
    ensures
        mentions_generated(recommendation@) ==> exists|d: Seq<char>|
            painted("(generated)"@, "\x1B[2m"@, d) && tag@ == seq![' '] + d,
        !mentions_generated(recommendation@) ==> tag@.len() == 0,
{
    if recommendation_mentions_generated(recommendation) {
        let d = dimmed("(generated)");
        let mut out: Vec<char> = Vec::new();
        out.push(' ');
        push_str(&mut out, d.as_str());
        assert(out@ =~= seq![' '] + d@);
        string_from_chars(&out)
    } else {
        String::new()
    }
}

/// How an imported name appears in the importers list.
pub struct DirectCallerSymbolEvidence {
    pub imported: String,
    pub local: String,
}

/// `imported`, or `imported as local` when the local name differs; a
/// side-effect import reads `side effect`.
pub open spec fn symbol_text(imported: Seq<char>, local: Seq<char>) -> Seq<char> {
    let shown = if imported == "side-effect"@ {
        "side effect"@
    } else {
        imported
    };
    if local.len() == 0 || imported == local {
        shown
    } else {
        shown + " as "@ + local
    }
}

/// The text of one imported symbol.
pub fn render_direct_import_symbol(symbol: &DirectCallerSymbolEvidence) -> (r: String)
    ensures
        r@ == symbol_text(symbol.imported@, symbol.local@),
{
    let side = str_eq(symbol.imported.as_str(), "side-effect");
    let mut out = if side {
        chars_of("side effect")
    } else {
        chars_of(symbol.imported.as_str())
    };
    if symbol.local.as_str().is_empty() || str_eq(symbol.imported.as_str(), symbol.local.as_str()) {
        return string_from_chars(&out);
    }
    push_str(&mut out, " as ");
    push_str(&mut out, symbol.local.as_str());
    string_from_chars(&out)
}

/// How much work a refactoring target takes.
#[derive(Clone, Copy, Debug, PartialEq, Eq, Structural)]
pub enum EffortEstimate {
    Low,
    Medium,
    High,
}

/// Number of targets of effort `e`.
pub open spec fn effort_count(efforts: Seq<EffortEstimate>, e: EffortEstimate) -> nat
    decreases efforts.len(),
{
    if efforts.len() == 0 {
        0
    } else {
        effort_count(efforts.drop_last(), e) + if efforts.last() == e {
            1nat
        } else {
            0nat
        }
    }
}

/// `N low effort · N medium · N high`, leaving out the efforts with no target.
pub open spec fn effort_summary(efforts: Seq<EffortEstimate>) -> Seq<char> {
    let parts = (if effort_count(efforts, EffortEstimate::Low) > 0 {
        seq![decimal(effort_count(efforts, EffortEstimate::Low)) + " low effort"@]
    } else {
        Seq::empty()
    }) + (if effort_count(efforts, EffortEstimate::Medium) > 0 {
        seq![decimal(effort_count(efforts, EffortEstimate::Medium)) + " medium"@]
    } else {
        Seq::empty()
    }) + (if effort_count(efforts, EffortEstimate::High) > 0 {
        seq![decimal(effort_count(efforts, EffortEstimate::High)) + " high"@]
    } else {
        Seq::empty()
    });
    crate::text::joined_str(parts, " \u{b7} "@)
}

/// The effort line of the refactoring-targets header, from the targets'
/// effort estimates.
pub fn refactoring_effort_summary(efforts: &Vec<EffortEstimate>) -> (s: String)
    ensures
        s@ == effort_summary(efforts@),
{
    let mut low: usize = 0;
    let mut medium: usize = 0;
    let mut high: usize = 0;
    let mut i: usize = 0;
    while i < efforts.len()
        invariant
            i <= efforts@.len(),
            low == effort_count(efforts@.take(i as int), EffortEstimate::Low),
            medium == effort_count(efforts@.take(i as int), EffortEstimate::Medium),
            high == effort_count(efforts@.take(i as int), EffortEstimate::High),
            low + medium + high == i,
        decreases efforts@.len() - i,
    {
        assert(efforts@.take(i + 1).drop_last() =~= efforts@.take(i as int));
        match efforts[i] {
            EffortEstimate::Low => {
                low = low + 1;
            },
            EffortEstimate::Medium => {
                medium = medium + 1;
            },
            EffortEstimate::High => {
                high = high + 1;
            },
        }
        i = i + 1;
    }
    assert(efforts@.take(i as int) =~= efforts@);
    let mut parts: Vec<Vec<char>> = Vec::new();
    if low > 0 {
        let mut p = decimal_chars(low as u64);
        push_str(&mut p, " low effort");
        parts.push(p);
    }
    if medium > 0 {
        let mut p = decimal_chars(medium as u64);
        push_str(&mut p, " medium");
        parts.push(p);
    }
    if high > 0 {
        let mut p = decimal_chars(high as u64);
        push_str(&mut p, " high");
        parts.push(p);
    }
    let sep = chars_of(" \u{b7} ");
    let joined = crate::text::join_with(&parts, &sep);
    assert(crate::text::vec_views(parts@) =~= (if effort_count(efforts@, EffortEstimate::Low) > 0 {
        seq![decimal(effort_count(efforts@, EffortEstimate::Low)) + " low effort"@]
    } else {
        Seq::empty()
    }) + (if effort_count(efforts@, EffortEstimate::Medium) > 0 {
        seq![decimal(effort_count(efforts@, EffortEstimate::Medium)) + " medium"@]
    } else {
        Seq::empty()
    }) + (if effort_count(efforts@, EffortEstimate::High) > 0 {
        seq![decimal(effort_count(efforts@, EffortEstimate::High)) + " high"@]
    } else {
        Seq::empty()
    }));
    string_from_chars(&joined)
}

/// `s` in cyan, as `colored` renders `s.cyan()`.
///
/// Calls `colored::Colorize::cyan` and formats the result; whether codes are
/// emitted depends on the process's color setting, so both outcomes are
/// admitted.
#[verifier::external_body]
fn cyan(s: &str) -> (r: String)
    ensures
        painted(s@, "\x1B[36m"@, r@),
{
    s.cyan().to_string()
}

/// `s` in bold cyan, as `colored` renders `s.cyan().bold()`.
///
/// Calls `colored::Colorize::cyan`, then `bold` on its result, and formats
/// it; both outcomes of the color setting are admitted.
#[verifier::external_body]
fn bold_cyan(s: &str) -> (r: String)
    ensures
        painted(s@, "\x1B[1;36m"@, r@),
{
    s.cyan().bold().to_string()
}

/// The legend line under the refactoring-targets title.
pub open spec fn targets_legend() -> Seq<char> {
    "  score = quick-win ROI (higher = better) \u{b7} pri = absolute priority"@
}

/// The four lines that open the refactoring-targets section for targets of
/// the given efforts: a cyan bullet and the bold cyan title with the count,
/// the dimmed effort summary, the dimmed legend, and an empty line.
pub open spec fn targets_header(efforts: Seq<EffortEstimate>, lines: Seq<Seq<char>>) -> bool {
    &&& lines.len() == 4
    &&& exists|dot: Seq<char>, title: Seq<char>|
        #![trigger painted("\u{25cf}"@, "\x1B[36m"@, dot), painted("Refactoring targets ("@ + decimal(efforts.len()) + ")"@, "\x1B[1;36m"@, title)]
        painted("\u{25cf}"@, "\x1B[36m"@, dot) && painted(
            "Refactoring targets ("@ + decimal(efforts.len()) + ")"@,
            "\x1B[1;36m"@,
            title,
        ) && lines[0] == dot + " "@ + title
    &&& exists|d: Seq<char>|
        #![trigger painted(effort_summary(efforts), "\x1B[2m"@, d)]
        painted(effort_summary(efforts), "\x1B[2m"@, d) && lines[1] == "  "@ + d
    &&& exists|d: Seq<char>|
        #![trigger painted(targets_legend(), "\x1B[2m"@, d)]
        painted(targets_legend(), "\x1B[2m"@, d) && lines[2] == "  "@ + d
    &&& lines[3] == Seq::<char>::empty()
}

/// Appends the header of the refactoring-targets section for targets of the
/// given efforts (one per target).
pub fn push_refactoring_targets_header(lines: &mut Vec<String>, efforts: &Vec<EffortEstimate>)
    ensures
        final(lines)@.len() == old(lines)@.len() + 4,
        final(lines)@.take(old(lines)@.len() as int) == old(lines)@,
        targets_header(efforts@, crate::text::string_views(final(lines)@.skip(old(lines)@.len() as int))),
{
    proof {
        reveal_strlit("\u{25cf}");
        reveal_strlit("Refactoring targets (");
        reveal_strlit(")");
        reveal_strlit(" ");
        reveal_strlit("  ");
        reveal_strlit("  score = quick-win ROI (higher = better) \u{b7} pri = absolute priority");
    }
    let ghost start = lines@;
    let dot = cyan("\u{25cf}");
    let mut title_chars = chars_of("Refactoring targets (");
    let count = decimal_chars(efforts.len() as u64);
    crate::text::push_chars(&mut title_chars, &count);
    push_str(&mut title_chars, ")");
    let title_text = string_from_chars(&title_chars);
    let title = bold_cyan(title_text.as_str());
    let mut first = chars_of(dot.as_str());
    push_str(&mut first, " ");
    push_str(&mut first, title.as_str());
    let first_line = string_from_chars(&first);
    let summary = refactoring_effort_summary(efforts);
    let dim_summary = dimmed(summary.as_str());
    let mut second = chars_of("  ");
    push_str(&mut second, dim_summary.as_str());
    let second_line = string_from_chars(&second);
    let legend = dimmed("  score = quick-win ROI (higher = better) \u{b7} pri = absolute priority");
    let mut third = chars_of("  ");
    push_str(&mut third, legend.as_str());
    let third_line = string_from_chars(&third);
    let blank = crate::text::string_of("");
    proof {
        reveal_strlit("");
        assert(blank@ =~= Seq::<char>::empty());
    }
    let ghost added = seq![first_line, second_line, third_line, blank];
    lines.push(first_line);
    lines.push(second_line);
    lines.push(third_line);
    lines.push(blank);
    proof {
        assert(lines@ =~= start + added);
        assert(lines@.skip(start.len() as int) =~= added);
        let tail = crate::text::string_views(lines@.skip(start.len() as int));
        assert(tail =~= seq![added[0]@, added[1]@, added[2]@, Seq::<char>::empty()]);
        assert(lines@.take(start.len() as int) =~= start);
        assert(title_text@ == "Refactoring targets ("@ + decimal(efforts@.len()) + ")"@);
        assert(painted("\u{25cf}"@, "\x1B[36m"@, dot@));
        assert(painted(title_text@, "\x1B[1;36m"@, title@));
        assert(painted(effort_summary(efforts@), "\x1B[2m"@, dim_summary@));
        assert(painted(targets_legend(), "\x1B[2m"@, legend@));
    }
}

/// A module that imports a refactoring target, with the names it imports.
/// The report shows the path relative to the project root.
pub struct DirectCaller {
    pub path: String,
    pub symbols: Vec<DirectCallerSymbolEvidence>,
}

/// A clone of the target's code elsewhere. The report shows the path
/// relative to the project root.
pub struct CloneSibling {
    pub path: String,
    pub start_line: u32,
    pub end_line: u32,
    pub fingerprint: String,
}

/// Why a file is a refactoring target: who imports it, and where its code
/// is cloned.
pub struct TargetEvidence {
    pub direct_callers: Vec<DirectCaller>,
    pub clone_siblings: Vec<CloneSibling>,
}

pub open spec fn symbol_texts(ss: Seq<DirectCallerSymbolEvidence>) -> Seq<Seq<char>> {
    ss.map_values(|x: DirectCallerSymbolEvidence| symbol_text(x.imported@, x.local@))
}

/// `path`, or `path (symbols)` with the imported names joined by `, `.
/// A path as the report shows it: relative to the root when the root leads
/// it, else as it is.
pub open spec fn shown_path(path: Seq<char>, root: Seq<char>) -> Seq<char> {
    match crate::path_order::stripped(path, root) {
        Some(r) => r,
        None => path,
    }
}

/// A path as the report shows it.
fn show_path(path: &str, root: &str) -> (r: String)
    ensures
        r@ == shown_path(path@, root@),
{
    match crate::path_order::strip_root(path, root) {
        Some(r) => r,
        None => crate::text::string_of(path),
    }
}

pub open spec fn caller_text(c: DirectCaller, root: Seq<char>) -> Seq<char> {
    if c.symbols@.len() == 0 {
        shown_path(c.path@, root)
    } else {
        shown_path(c.path@, root) + " ("@ + crate::text::joined_str(symbol_texts(c.symbols@), ", "@) + ")"@
    }
}

/// `path:start-end fingerprint`.
pub open spec fn sibling_text(s: CloneSibling, root: Seq<char>) -> Seq<char> {
    shown_path(s.path@, root) + ":"@ + decimal(s.start_line as nat) + "-"@ + decimal(s.end_line as nat) + " "@
        + s.fingerprint@
}

/// The evidence line `label` + the parts joined by `; `, dimmed and indented.
pub open spec fn evidence_line(label: Seq<char>, parts: Seq<Seq<char>>, line: Seq<char>) -> bool {
    exists|d: Seq<char>|
        painted(label + crate::text::joined_str(parts, "; "@), "\x1B[2m"@, d) && line
            == "         "@ + d
}

fn join_strings(parts: &Vec<String>, sep: &str) -> (r: Vec<char>)
    ensures
        r@ == crate::text::joined_str(crate::text::string_views(parts@), sep@),
{
    let mut vs: Vec<Vec<char>> = Vec::new();
    let mut i: usize = 0;
    while i < parts.len()
        invariant
            i <= parts@.len(),
            crate::text::vec_views(vs@) == crate::text::string_views(parts@).take(i as int),
        decreases parts@.len() - i,
    {
        let ghost before = crate::text::vec_views(vs@);
        vs.push(chars_of(parts[i].as_str()));
        assert(crate::text::vec_views(vs@) =~= before.push(parts@[i as int]@));
        assert(crate::text::string_views(parts@).take(i + 1) =~= crate::text::string_views(
            parts@,
        ).take(i as int).push(parts@[i as int]@));
        i = i + 1;
    }
    assert(crate::text::string_views(parts@).take(i as int) =~= crate::text::string_views(parts@));
    let sep_chars = chars_of(sep);
    crate::text::join_with(&vs, &sep_chars)
}

fn render_caller(c: &DirectCaller, root: &str) -> (r: String)
    ensures
        r@ == caller_text(*c, root@),
{
    let path = show_path(c.path.as_str(), root);
    if c.symbols.len() == 0 {
        return path;
    }
    let mut texts: Vec<String> = Vec::new();
    let mut i: usize = 0;
    while i < c.symbols.len()
        invariant
            i <= c.symbols@.len(),
            crate::text::string_views(texts@) == symbol_texts(c.symbols@).take(i as int),
        decreases c.symbols@.len() - i,
    {
        let ghost before = crate::text::string_views(texts@);
        let t = render_direct_import_symbol(&c.symbols[i]);
        texts.push(t);
        assert(crate::text::string_views(texts@) =~= before.push(t@));
        assert(symbol_texts(c.symbols@).take(i + 1) =~= symbol_texts(c.symbols@).take(i as int).push(
            symbol_texts(c.symbols@)[i as int],
        ));
        i = i + 1;
    }
    assert(symbol_texts(c.symbols@).take(i as int) =~= symbol_texts(c.symbols@));
    let mut out = chars_of(path.as_str());
    push_str(&mut out, " (");
    let joined = join_strings(&texts, ", ");
    crate::text::push_chars(&mut out, &joined);
    push_str(&mut out, ")");
    string_from_chars(&out)
}

fn render_sibling(s: &CloneSibling, root: &str) -> (r: String)
    ensures
        r@ == sibling_text(*s, root@),
{
    let path = show_path(s.path.as_str(), root);
    let mut out = chars_of(path.as_str());
    push_str(&mut out, ":");
    let a = decimal_chars(s.start_line as u64);
    crate::text::push_chars(&mut out, &a);
    push_str(&mut out, "-");
    let b = decimal_chars(s.end_line as u64);
    crate::text::push_chars(&mut out, &b);
    push_str(&mut out, " ");
    push_str(&mut out, s.fingerprint.as_str());
    string_from_chars(&out)
}

fn evidence_row(label: &str, parts: &Vec<String>) -> (line: String)
    ensures
        evidence_line(label@, crate::text::string_views(parts@), line@),
{
    let mut text = chars_of(label);
    let joined = join_strings(parts, "; ");
    crate::text::push_chars(&mut text, &joined);
    let body = string_from_chars(&text);
    let d = dimmed(body.as_str());
    let mut out = chars_of("         ");
    push_str(&mut out, d.as_str());
    string_from_chars(&out)
}

/// Appends the evidence lines of a refactoring target: its importers, then
/// its clones, each line only when there is something to list, with paths
/// shown relative to `root`.
pub fn render_target_evidence(lines: &mut Vec<String>, evidence: &Option<TargetEvidence>, root: &str)
    ensures
        ({
            let callers = match evidence {
                Some(e) => e.direct_callers@.map_values(|c: DirectCaller| caller_text(c, root@)),
                None => Seq::empty(),
            };
            let siblings = match evidence {
                Some(e) => e.clone_siblings@.map_values(|s: CloneSibling| sibling_text(s, root@)),
                None => Seq::empty(),
            };
            let n = old(lines)@.len();
            let c = if callers.len() > 0 {
                1int
            } else {
                0int
            };
            &&& final(lines)@.len() == n + c + if siblings.len() > 0 {
                1int
            } else {
                0int
            }
            &&& final(lines)@.take(n as int) == old(lines)@
            &&& callers.len() > 0 ==> evidence_line("importers: "@, callers, final(lines)@[n as int]@)
            &&& siblings.len() > 0 ==> evidence_line("clones: "@, siblings, final(lines)@[n + c]@)
        }),
{
    let ghost start = lines@;
    let e = match evidence {
        Some(e) => e,
        None => {
            assert(lines@.take(start.len() as int) =~= start);
            return;
        },
    };
    if e.direct_callers.len() > 0 {
        let mut texts: Vec<String> = Vec::new();
        let mut i: usize = 0;
        while i < e.direct_callers.len()
            invariant
                i <= e.direct_callers@.len(),
                crate::text::string_views(texts@) == e.direct_callers@.map_values(
                    |c: DirectCaller| caller_text(c, root@),
                ).take(i as int),
            decreases e.direct_callers@.len() - i,
        {
            let ghost before = crate::text::string_views(texts@);
            let ghost all = e.direct_callers@.map_values(|c: DirectCaller| caller_text(c, root@));
            let t = render_caller(&e.direct_callers[i], root);
            texts.push(t);
            assert(crate::text::string_views(texts@) =~= before.push(t@));
            assert(all.take(i + 1) =~= all.take(i as int).push(all[i as int]));
            i = i + 1;
        }
        assert(e.direct_callers@.map_values(|c: DirectCaller| caller_text(c, root@)).take(i as int)
            =~= e.direct_callers@.map_values(|c: DirectCaller| caller_text(c, root@)));
        let row = evidence_row("importers: ", &texts);
        lines.push(row);
    }
    let ghost mid = lines@;
    if e.clone_siblings.len() > 0 {
        let mut texts: Vec<String> = Vec::new();
        let mut i: usize = 0;
        while i < e.clone_siblings.len()
            invariant
                i <= e.clone_siblings@.len(),
                crate::text::string_views(texts@) == e.clone_siblings@.map_values(
                    |s: CloneSibling| sibling_text(s, root@),
                ).take(i as int),
            decreases e.clone_siblings@.len() - i,
        {
            let ghost before = crate::text::string_views(texts@);
            let ghost all = e.clone_siblings@.map_values(|s: CloneSibling| sibling_text(s, root@));
            let t = render_sibling(&e.clone_siblings[i], root);
            texts.push(t);
            assert(crate::text::string_views(texts@) =~= before.push(t@));
            assert(all.take(i + 1) =~= all.take(i as int).push(all[i as int]));
            i = i + 1;
        }
        assert(e.clone_siblings@.map_values(|s: CloneSibling| sibling_text(s, root@)).take(i as int)
            =~= e.clone_siblings@.map_values(|s: CloneSibling| sibling_text(s, root@)));
        let row = evidence_row("clones: ", &texts);
        lines.push(row);
        assert(lines@[mid.len() as int] == row);
    }
    assert(lines@.take(start.len() as int) =~= start);
}

} // verus!
