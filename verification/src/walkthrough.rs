//! Validation of an agent's walkthrough judgments against the live graph.
//!
//! Every judgment must cite an id this tool emitted: a decision's `signal_id`
//! (the strong anchor) or a changed region's `change_anchor` (the weaker one).
//! A judgment that cites neither is rejected. And if the agent echoes a graph
//! snapshot hash other than the current one, the tree moved since the guide
//! was built, so the whole payload is refused as stale.
use vstd::prelude::*;

use xxhash_rust::xxh3::xxh3_64;

use crate::lexical::{find_chars, find_from, lemma_find_from};
use crate::pr_comment::{all_digits, digits_value, hex_digit_lower, hex_lower};
use crate::text::{
    lemma_chars_before_irreflexive, lemma_chars_before_total, lemma_chars_before_transitive,
    chars_before, chars_eq_str, chars_lt, split_chars, split_on, chars_of, is_digit, joined_seq, join_char_vecs, push_chars, str_eq, string_from_chars,
    sorted_chars, sorted_unique_strings, string_of, string_views, trim, trim_chars, utf8_encode,
    utf8_encode_chars, vec_views,
};

verus! {

/// One judgment of the agent.
#[derive(Clone, Debug)]
pub struct AgentJudgment {
    pub signal_id: String,
    pub change_anchor: String,
    pub framing: String,
    pub concern: Option<String>,
}

/// The agent's reply: the snapshot hash it was given, and its judgments.
#[derive(Clone, Debug)]
pub struct AgentWalkthrough {
    pub graph_snapshot_hash: String,
    pub judgments: Vec<AgentJudgment>,
}

/// A judgment that cites an emitted id, with the agent's framing fenced as
/// non-deterministic.
#[derive(Clone, Debug)]
pub struct AcceptedJudgment {
    pub signal_id: String,
    pub change_anchor: String,
    pub anchor_kind: String,
    pub agent_framing: String,
    pub concern: Option<String>,
    pub deterministic: bool,
}

/// A judgment that was refused, and why.
#[derive(Clone, Debug)]
pub struct RejectedJudgment {
    pub signal_id: String,
    pub change_anchor: String,
    pub reason: String,
}

/// The schema version of the review-brief family of payloads that a
/// validation belongs to.
#[derive(Clone, Copy, Debug, PartialEq, Eq, Structural)]
pub enum ReviewBriefSchemaVersion {
    /// The version this tool writes.
    Current,
}

impl Default for ReviewBriefSchemaVersion {
    fn default() -> (v: Self)
        ensures
            v == ReviewBriefSchemaVersion::Current,
    {
        ReviewBriefSchemaVersion::Current
    }
}

/// The outcome of validating a walkthrough.
#[derive(Clone, Debug)]
pub struct WalkthroughValidation {
    pub schema_version: ReviewBriefSchemaVersion,
    pub command: String,
    pub graph_snapshot_hash: String,
    pub stale: bool,
    pub accepted: Vec<AcceptedJudgment>,
    pub rejected: Vec<RejectedJudgment>,
    pub accepted_count: usize,
    pub rejected_count: usize,
    pub unanchored_count: usize,
}

/// The decisions this tool emitted, by signal id.
#[derive(Clone, Debug)]
pub struct DecisionSurface {
    pub signal_ids: Vec<String>,
}

impl DecisionSurface {
    /// Whether `id` is one of the emitted signal ids.
    pub fn accept_signal_id(&self, id: &str) -> (b: bool)
        ensures
            b == string_views(self.signal_ids@).contains(id@),
    {
        contains_str(&self.signal_ids, id)
    }
}

/// Whether `set` holds a string equal to `s`.
pub fn contains_str(set: &Vec<String>, s: &str) -> (b: bool)
    ensures
        b == string_views(set@).contains(s@),
{
    let mut i: usize = 0;
    while i < set.len()
        invariant
            i <= set@.len(),
            forall|k: int| 0 <= k < i ==> set@[k]@ != s@,
        decreases set@.len() - i,
    {
        if str_eq(set[i].as_str(), s) {
            assert(string_views(set@)[i as int] == s@);
            return true;
        }
        i = i + 1;
    }
    assert(!string_views(set@).contains(s@)) by {
        if string_views(set@).contains(s@) {
            let k = choose|k: int| 0 <= k < string_views(set@).len() && string_views(set@)[k] == s@;
            assert(set@[k]@ == s@);
        }
    }
    false
}

pub ghost struct AcceptedView {
    pub signal_id: Seq<char>,
    pub change_anchor: Seq<char>,
    pub anchor_kind: Seq<char>,
    pub agent_framing: Seq<char>,
    pub concern: Option<Seq<char>>,
    pub deterministic: bool,
}

pub ghost struct RejectedView {
    pub signal_id: Seq<char>,
    pub change_anchor: Seq<char>,
    pub reason: Seq<char>,
}

pub open spec fn opt_string_view(o: Option<String>) -> Option<Seq<char>> {
    match o {
        Some(s) => Some(s@),
        None => None,
    }
}

pub open spec fn accepted_view(a: AcceptedJudgment) -> AcceptedView {
    AcceptedView {
        signal_id: a.signal_id@,
        change_anchor: a.change_anchor@,
        anchor_kind: a.anchor_kind@,
        agent_framing: a.agent_framing@,
        concern: opt_string_view(a.concern),
        deterministic: a.deterministic,
    }
}

pub open spec fn rejected_view(r: RejectedJudgment) -> RejectedView {
    RejectedView { signal_id: r.signal_id@, change_anchor: r.change_anchor@, reason: r.reason@ }
}

/// The judgment is anchored by an emitted signal id.
pub open spec fn signal_anchored(j: AgentJudgment, signal_ids: Seq<Seq<char>>) -> bool {
    j.signal_id@.len() > 0 && signal_ids.contains(j.signal_id@)
}

/// The judgment is anchored by an emitted change anchor (and not by a signal).
pub open spec fn change_anchored(
    j: AgentJudgment,
    signal_ids: Seq<Seq<char>>,
    anchors: Seq<Seq<char>>,
) -> bool {
    !signal_anchored(j, signal_ids) && j.change_anchor@.len() > 0 && anchors.contains(
        j.change_anchor@,
    )
}

/// The accepted form of an anchored judgment: the signal id alone for a
/// signal, the change anchor alone for a change; the framing is never
/// deterministic.
pub open spec fn accepted_of(j: AgentJudgment, by_signal: bool) -> AcceptedView {
    AcceptedView {
        signal_id: if by_signal {
            j.signal_id@
        } else {
            Seq::empty()
        },
        change_anchor: if by_signal {
            Seq::empty()
        } else {
            j.change_anchor@
        },
        anchor_kind: if by_signal {
            "signal"@
        } else {
            "change"@
        },
        agent_framing: j.framing@,
        concern: opt_string_view(j.concern),
        deterministic: false,
    }
}

/// Why an unanchored judgment is rejected: an unknown change anchor when it
/// cited only a change anchor, else an unanchored signal id.
pub open spec fn rejection_reason(j: AgentJudgment) -> Seq<char> {
    if j.signal_id@.len() == 0 && j.change_anchor@.len() > 0 {
        "unknown-change-anchor"@
    } else {
        "unanchored-signal-id"@
    }
}

/// The accepted judgments among the first `n`, in order (none when stale).
pub open spec fn accepted_among(
    js: Seq<AgentJudgment>,
    n: int,
    signal_ids: Seq<Seq<char>>,
    anchors: Seq<Seq<char>>,
    stale: bool,
) -> Seq<AcceptedView>
    decreases n,
{
    if n <= 0 {
        Seq::empty()
    } else {
        let init = accepted_among(js, n - 1, signal_ids, anchors, stale);
        let j = js[n - 1];
        if stale {
            init
        } else if signal_anchored(j, signal_ids) {
            init.push(accepted_of(j, true))
        } else if change_anchored(j, signal_ids, anchors) {
            init.push(accepted_of(j, false))
        } else {
            init
        }
    }
}

/// The rejected judgments among the first `n`, in order: all of them, as
/// stale, when stale; else the unanchored ones with their reason.
pub open spec fn rejected_among(
    js: Seq<AgentJudgment>,
    n: int,
    signal_ids: Seq<Seq<char>>,
    anchors: Seq<Seq<char>>,
    stale: bool,
) -> Seq<RejectedView>
    decreases n,
{
    if n <= 0 {
        Seq::empty()
    } else {
        let init = rejected_among(js, n - 1, signal_ids, anchors, stale);
        let j = js[n - 1];
        if stale {
            init.push(
                RejectedView {
                    signal_id: j.signal_id@,
                    change_anchor: j.change_anchor@,
                    reason: "stale-snapshot"@,
                },
            )
        } else if signal_anchored(j, signal_ids) || change_anchored(j, signal_ids, anchors) {
            init
        } else {
            init.push(
                RejectedView {
                    signal_id: j.signal_id@,
                    change_anchor: j.change_anchor@,
                    reason: rejection_reason(j),
                },
            )
        }
    }
}

proof fn lemma_partition(
    js: Seq<AgentJudgment>,
    n: int,
    signal_ids: Seq<Seq<char>>,
    anchors: Seq<Seq<char>>,
    stale: bool,
)
    requires
        0 <= n <= js.len(),
    ensures
        accepted_among(js, n, signal_ids, anchors, stale).len() + rejected_among(
            js,
            n,
            signal_ids,
            anchors,
            stale,
        ).len() == n,
        stale ==> accepted_among(js, n, signal_ids, anchors, stale).len() == 0,
        forall|k: int|
            0 <= k < accepted_among(js, n, signal_ids, anchors, stale).len() ==> ({
                let a = #[trigger] accepted_among(js, n, signal_ids, anchors, stale)[k];
                (a.anchor_kind == "signal"@ && signal_ids.contains(a.signal_id)) || (a.anchor_kind
                    == "change"@ && anchors.contains(a.change_anchor))
            }),
    decreases n,
{
    if n > 0 {
        lemma_partition(js, n - 1, signal_ids, anchors, stale);
    }
}

/// Validates the agent's judgments: refuses all of them when the echoed hash
/// is not `current_hash`, else accepts exactly those that cite an emitted
/// signal id or change anchor.
pub fn validate_walkthrough(
    agent: &AgentWalkthrough,
    surface: &DecisionSurface,
    change_anchor_ids: &Vec<String>,
    current_hash: &str,
) -> (v: WalkthroughValidation)
    ensures
        v.stale == (agent.graph_snapshot_hash@ != current_hash@),
        v.graph_snapshot_hash@ == current_hash@,
        v.schema_version == ReviewBriefSchemaVersion::Current,
        v.command@ == "review-walkthrough-validation"@,
        v.accepted@.map_values(|a: AcceptedJudgment| accepted_view(a)) == accepted_among(
            agent.judgments@,
            agent.judgments@.len() as int,
            string_views(surface.signal_ids@),
            string_views(change_anchor_ids@),
            v.stale,
        ),
        v.rejected@.map_values(|r: RejectedJudgment| rejected_view(r)) == rejected_among(
            agent.judgments@,
            agent.judgments@.len() as int,
            string_views(surface.signal_ids@),
            string_views(change_anchor_ids@),
            v.stale,
        ),
        v.accepted_count == v.accepted@.len(),
        v.rejected_count == v.rejected@.len(),
        v.accepted_count + v.rejected_count == agent.judgments@.len(),
        v.unanchored_count == 0,
{
    let stale = !str_eq(agent.graph_snapshot_hash.as_str(), current_hash);
    let ghost js = agent.judgments@;
    let ghost ids = string_views(surface.signal_ids@);
    let ghost anchors = string_views(change_anchor_ids@);
    let mut accepted: Vec<AcceptedJudgment> = Vec::new();
    let mut rejected: Vec<RejectedJudgment> = Vec::new();
    let mut i: usize = 0;
    while i < agent.judgments.len()
        invariant
            i <= js.len(),
            js == agent.judgments@,
            ids == string_views(surface.signal_ids@),
            anchors == string_views(change_anchor_ids@),
            accepted@.map_values(|a: AcceptedJudgment| accepted_view(a)) == accepted_among(
                js,
                i as int,
                ids,
                anchors,
                stale,
            ),
            rejected@.map_values(|r: RejectedJudgment| rejected_view(r)) == rejected_among(
                js,
                i as int,
                ids,
                anchors,
                stale,
            ),
        decreases js.len() - i,
    {
        let judgment = &agent.judgments[i];
        let ghost acc0 = accepted@.map_values(|a: AcceptedJudgment| accepted_view(a));
        let ghost rej0 = rejected@.map_values(|r: RejectedJudgment| rejected_view(r));
        if stale {
            let r = RejectedJudgment {
                signal_id: judgment.signal_id.clone(),
                change_anchor: judgment.change_anchor.clone(),
                reason: string_of("stale-snapshot"),
            };
            let ghost rv = rejected_view(r);
            rejected.push(r);
            assert(rejected@.map_values(|r: RejectedJudgment| rejected_view(r)) =~= rej0.push(rv));
        } else {
            let sig_present = !judgment.signal_id.as_str().is_empty();
            let by_signal = sig_present && surface.accept_signal_id(judgment.signal_id.as_str());
            let anchor_present = !judgment.change_anchor.as_str().is_empty();
            if by_signal {
                let a = AcceptedJudgment {
                    signal_id: judgment.signal_id.clone(),
                    change_anchor: String::new(),
                    anchor_kind: string_of("signal"),
                    agent_framing: judgment.framing.clone(),
                    concern: judgment.concern.clone(),
                    deterministic: false,
                };
                let ghost av = accepted_view(a);
                accepted.push(a);
                assert(av == accepted_of(*judgment, true));
                assert(accepted@.map_values(|a: AcceptedJudgment| accepted_view(a)) =~= acc0.push(
                    av,
                ));
            } else if anchor_present && contains_str(change_anchor_ids, judgment.change_anchor.as_str()) {
                let a = AcceptedJudgment {
                    signal_id: String::new(),
                    change_anchor: judgment.change_anchor.clone(),
                    anchor_kind: string_of("change"),
                    agent_framing: judgment.framing.clone(),
                    concern: judgment.concern.clone(),
                    deterministic: false,
                };
                let ghost av = accepted_view(a);
                accepted.push(a);
                assert(av == accepted_of(*judgment, false));
                assert(accepted@.map_values(|a: AcceptedJudgment| accepted_view(a)) =~= acc0.push(
                    av,
                ));
            } else {
                let reason = if !sig_present && anchor_present {
                    string_of("unknown-change-anchor")
                } else {
                    string_of("unanchored-signal-id")
                };
                let r = RejectedJudgment {
                    signal_id: judgment.signal_id.clone(),
                    change_anchor: judgment.change_anchor.clone(),
                    reason,
                };
                let ghost rv = rejected_view(r);
                rejected.push(r);
                assert(rejected@.map_values(|r: RejectedJudgment| rejected_view(r)) =~= rej0.push(
                    rv,
                ));
            }
        }
        i = i + 1;
    }
    proof {
        lemma_partition(js, js.len() as int, ids, anchors, stale);
    }
    let accepted_count = accepted.len();
    let rejected_count = rejected.len();
    WalkthroughValidation {
        schema_version: ReviewBriefSchemaVersion::default(),
        command: string_of("review-walkthrough-validation"),
        graph_snapshot_hash: string_of(current_hash),
        stale,
        accepted,
        rejected,
        accepted_count,
        rejected_count,
        unanchored_count: 0,
    }
}

/// What validation guarantees: nothing is accepted from a stale payload; every
/// accepted judgment cites an emitted signal id or change anchor; and every
/// judgment is either accepted or rejected.
pub proof fn lemma_validation_is_anchored(
    js: Seq<AgentJudgment>,
    signal_ids: Seq<Seq<char>>,
    anchors: Seq<Seq<char>>,
    stale: bool,
)
    ensures
        stale ==> accepted_among(js, js.len() as int, signal_ids, anchors, stale).len() == 0,
        forall|k: int|
            0 <= k < accepted_among(js, js.len() as int, signal_ids, anchors, stale).len() ==> ({
                let a = #[trigger] accepted_among(js, js.len() as int, signal_ids, anchors, stale)[k];
                (a.anchor_kind == "signal"@ && signal_ids.contains(a.signal_id)) || (a.anchor_kind
                    == "change"@ && anchors.contains(a.change_anchor))
            }),
        accepted_among(js, js.len() as int, signal_ids, anchors, stale).len() + rejected_among(
            js,
            js.len() as int,
            signal_ids,
            anchors,
            stale,
        ).len() == js.len(),
{
    lemma_partition(js, js.len() as int, signal_ids, anchors, stale);
}

// ---------------------------------------------------------------------------
// Change anchors
// ---------------------------------------------------------------------------

/// A changed region of the diff, with its content-addressed id.
#[derive(Clone, Debug)]
pub struct ChangeAnchor {
    pub change_anchor: String,
    pub file: String,
    pub start_line: u32,
    pub line_count: u32,
    pub previous_change_anchor: Option<String>,
}

/// The lines, each trimmed, joined with newlines: a reflow or a
/// whitespace-only edit does not change it.
pub open spec fn normalized_text(lines: Seq<Seq<char>>) -> Seq<char> {
    joined_seq(lines.map_values(|l: Seq<char>| trim(l)), '\n')
}

/// Trims each added line and joins them with `\n`.
pub fn normalize_added_text(lines: &[String]) -> (r: String)
    ensures
        r@ == normalized_text(string_views(lines@)),
{
    let mut trimmed: Vec<Vec<char>> = Vec::new();
    let mut i: usize = 0;
    while i < lines.len()
        invariant
            i <= lines@.len(),
            trimmed@.len() == i,
            forall|k: int| 0 <= k < i ==> (#[trigger] trimmed@[k])@ == trim(lines@[k]@),
        decreases lines@.len() - i,
    {
        let t = trim_chars(&chars_of(lines[i].as_str()));
        trimmed.push(t);
        i = i + 1;
    }
    assert(vec_views(trimmed@) =~= string_views(lines@).map_values(|l: Seq<char>| trim(l)));
    let joined = join_char_vecs(&trimmed, '\n');
    string_from_chars(&joined)
}

/// The XXH3 64-bit hash of `bytes`.
pub uninterp spec fn xxh3_64_of(bytes: Seq<u8>) -> u64;

/// Calls `xxhash_rust::xxh3::xxh3_64`, a fixed function of the bytes.
#[verifier::external_body]
fn xxh3_hash(bytes: &[u8]) -> (h: u64)
    ensures
        h == xxh3_64_of(bytes@),
{
    xxh3_64(bytes)
}

/// The little-endian bytes of `n`.
pub open spec fn le_bytes(n: u32) -> Seq<u8> {
    seq![
        (n % 256) as u8,
        ((n / 256) % 256) as u8,
        ((n / 65536) % 256) as u8,
        (n / 16777216) as u8,
    ]
}

/// `h` as `n` lower-case hex digits (the low `4n` bits), zero-padded.
pub open spec fn hex_fixed(h: nat, n: nat) -> Seq<char>
    decreases n,
{
    if n == 0 {
        Seq::empty()
    } else {
        hex_fixed(h / 16, (n - 1) as nat).push(hex_lower((h % 16) as int))
    }
}

/// The hashed bytes of an anchor: path, a zero byte, the normalized text, a
/// zero byte, and the little-endian ordinal.
pub open spec fn anchor_bytes(path: Seq<char>, text: Seq<char>, ordinal: u32) -> Seq<u8> {
    utf8_encode(path) + seq![0u8] + utf8_encode(text) + seq![0u8] + le_bytes(ordinal)
}

/// The id of a change anchor: `chg:` and the 16-digit hex XXH3 of its bytes.
pub open spec fn change_anchor_id(path: Seq<char>, text: Seq<char>, ordinal: u32) -> Seq<char> {
    "chg:"@ + hex_fixed(xxh3_64_of(anchor_bytes(path, text, ordinal)) as nat, 16)
}

fn hex_fixed_chars(h: u64, n: usize) -> (r: Vec<char>)
    ensures
        r@ == hex_fixed(h as nat, n as nat),
    decreases n,
{
    if n == 0 {
        Vec::new()
    } else {
        let mut v = hex_fixed_chars(h / 16, n - 1);
        v.push(hex_digit_lower(h % 16));
        v
    }
}

/// The stable, content-addressed id of a change: it hashes the file path, the
/// normalized added text and an occurrence ordinal (which tells apart
/// identical hunks in one file), never a line number.
pub fn derive_change_anchor_id(path: &str, normalized_added_text: &str, ordinal: u32) -> (id: String)
    ensures
        id@ == change_anchor_id(path@, normalized_added_text@, ordinal),
{
    let mut bytes = utf8_encode_chars(&chars_of(path));
    bytes.push(0u8);
    let text = utf8_encode_chars(&chars_of(normalized_added_text));
    let mut k: usize = 0;
    let ghost start = bytes@;
    while k < text.len()
        invariant
            k <= text@.len(),
            bytes@ == start + text@.take(k as int),
        decreases text@.len() - k,
    {
        bytes.push(text[k]);
        k = k + 1;
        assert(text@.take(k as int) =~= text@.take(k - 1).push(text@[k - 1]));
    }
    assert(text@.take(k as int) =~= text@);
    bytes.push(0u8);
    bytes.push((ordinal % 256) as u8);
    bytes.push(((ordinal / 256) % 256) as u8);
    bytes.push(((ordinal / 65536) % 256) as u8);
    bytes.push((ordinal / 16777216) as u8);
    assert(bytes@ =~= anchor_bytes(path@, normalized_added_text@, ordinal));
    let h = xxh3_hash(bytes.as_slice());
    let mut out = chars_of("chg:");
    let hex = hex_fixed_chars(h, 16);
    push_chars(&mut out, &hex);
    string_from_chars(&out)
}

/// `s` with `x` added unless already present.
pub open spec fn insert_unique(s: Seq<Seq<char>>, x: Seq<char>) -> Seq<Seq<char>> {
    if s.contains(x) {
        s
    } else {
        s.push(x)
    }
}

/// The allowlist of the first `n` anchors: each current id, then its
/// pre-rename id, each kept once.
pub open spec fn allowlist_of(anchors: Seq<ChangeAnchor>, n: int) -> Seq<Seq<char>>
    decreases n,
{
    if n <= 0 {
        Seq::empty()
    } else {
        let init = insert_unique(allowlist_of(anchors, n - 1), anchors[n - 1].change_anchor@);
        match anchors[n - 1].previous_change_anchor {
            Some(p) => insert_unique(init, p@),
            None => init,
        }
    }
}

fn insert_unique_string(set: &mut Vec<String>, s: &String)
    ensures
        string_views(final(set)@) == insert_unique(string_views(old(set)@), s@),
{
    if !contains_str(set, s.as_str()) {
        let ghost before = string_views(set@);
        set.push(s.clone());
        assert(string_views(set@) =~= before.push(s@));
    }
}

/// The change-anchor allowlist: every current id and every pre-rename id
/// (so a judgment citing an anchor under the old path still resolves).
pub fn change_anchor_allowlist(anchors: &Vec<ChangeAnchor>) -> (set: Vec<String>)
    ensures
        string_views(set@) == allowlist_of(anchors@, anchors@.len() as int),
{
    let mut set: Vec<String> = Vec::new();
    let mut i: usize = 0;
    while i < anchors.len()
        invariant
            i <= anchors@.len(),
            string_views(set@) == allowlist_of(anchors@, i as int),
        decreases anchors@.len() - i,
    {
        insert_unique_string(&mut set, &anchors[i].change_anchor);
        if let Some(previous) = &anchors[i].previous_change_anchor {
            insert_unique_string(&mut set, previous);
        }
        i = i + 1;
    }
    set
}

/// `x` is the current or the pre-rename id of `a`.
pub open spec fn anchor_has_id(a: ChangeAnchor, x: Seq<char>) -> bool {
    a.change_anchor@ == x || (a.previous_change_anchor matches Some(p) && p@ == x)
}

/// The allowlist holds each id at most once, and holds exactly the current and
/// pre-rename ids of the anchors.
pub proof fn lemma_allowlist_is_the_id_set(anchors: Seq<ChangeAnchor>, n: int)
    requires
        0 <= n <= anchors.len(),
    ensures
        allowlist_of(anchors, n).no_duplicates(),
        forall|x: Seq<char>|
            #[trigger] allowlist_of(anchors, n).contains(x) <==> exists|k: int|
                0 <= k < n && #[trigger] anchor_has_id(anchors[k], x),
    decreases n,
{
    if n > 0 {
        lemma_allowlist_is_the_id_set(anchors, n - 1);
        let a = anchors[n - 1];
        let s0 = allowlist_of(anchors, n - 1);
        let s1 = insert_unique(s0, a.change_anchor@);
        assert(s1.no_duplicates());
        assert forall|x: Seq<char>| s1.contains(x) <==> (s0.contains(x) || x == a.change_anchor@) by {
            if s1.contains(x) && !s0.contains(x) {
                let k = choose|k: int| 0 <= k < s1.len() && s1[k] == x;
                assert(k == s0.len());
            }
            if x == a.change_anchor@ && !s0.contains(x) {
                assert(s1[s0.len() as int] == x);
            }
            if s0.contains(x) && !s0.contains(a.change_anchor@) {
                let k = choose|k: int| 0 <= k < s0.len() && s0[k] == x;
                assert(s1[k] == x);
            }
        }
        match a.previous_change_anchor {
            Some(p) => {
                let s2 = insert_unique(s1, p@);
                assert(s2.no_duplicates());
                assert forall|x: Seq<char>| s2.contains(x) <==> (s1.contains(x) || x == p@) by {
                    if s2.contains(x) && !s1.contains(x) {
                        let k = choose|k: int| 0 <= k < s2.len() && s2[k] == x;
                        assert(k == s1.len());
                    }
                    if x == p@ && !s1.contains(x) {
                        assert(s2[s1.len() as int] == x);
                    }
                    if s1.contains(x) && !s1.contains(p@) {
                        let k = choose|k: int| 0 <= k < s1.len() && s1[k] == x;
                        assert(s2[k] == x);
                    }
                }
            },
            None => {},
        }
        assert forall|x: Seq<char>|
            #[trigger] allowlist_of(anchors, n).contains(x) <==> exists|k: int|
                0 <= k < n && #[trigger] anchor_has_id(anchors[k], x) by {
            if allowlist_of(anchors, n).contains(x) {
                if !s0.contains(x) {
                    assert(anchor_has_id(anchors[n - 1], x));
                }
            }
            if exists|k: int|
                0 <= k < n && #[trigger] anchor_has_id(anchors[k], x) {
                let k = choose|k: int|
                    0 <= k < n && #[trigger] anchor_has_id(anchors[k], x);
                if k < n - 1 {
                    assert(s0.contains(x));
                }
            }
        }
    }
}

// ---------------------------------------------------------------------------
// Counts read back from a focus reason
// ---------------------------------------------------------------------------

/// End of the run of ASCII digits of `s` from `k`.
pub open spec fn digit_run_end(s: Seq<char>, k: int) -> int
    decreases s.len() - k,
{
    if k < 0 || k >= s.len() {
        s.len() as int
    } else if is_digit(s[k]) {
        digit_run_end(s, k + 1)
    } else {
        k
    }
}

/// The number right after the first occurrence of `marker` in `text`: `0`
/// when the marker is absent, no digit follows it, or the digits overflow a
/// `u32`.
pub open spec fn count_after(text: Seq<char>, marker: Seq<char>) -> u32 {
    match find_from(text, 0, marker) {
        None => 0,
        Some(i) => {
            let start = i + marker.len();
            let d = text.subrange(start, digit_run_end(text, start));
            if d.len() > 0 && digits_value(d) <= u32::MAX {
                digits_value(d) as u32
            } else {
                0
            }
        },
    }
}

proof fn lemma_digit_run_end(s: Seq<char>, k: int)
    requires
        0 <= k <= s.len(),
    ensures
        k <= digit_run_end(s, k) <= s.len(),
        forall|a: int| k <= a < digit_run_end(s, k) ==> #[trigger] is_digit(s[a]),
    decreases s.len() - k,
{
    if k < s.len() {
        lemma_digit_run_end(s, k + 1);
    }
}

/// The leading digits right after `marker` in `text`, as a number (`0` when
/// there are none).
pub fn extract_count(text: &str, marker: &str) -> (n: u32)
    ensures
        n == count_after(text@, marker@),
{
    let t = chars_of(text);
    let m = chars_of(marker);
    proof {
        lemma_find_from(t@, 0, m@);
    }
    let pos = match find_chars(&t, 0, &m) {
        Some(i) => i,
        None => {
            return 0;
        },
    };
    assert(pos + m@.len() <= t@.len());
    assert(t@.len() == t.len());
    let start = pos + m.len();
    let mut end = start;
    while end < t.len() && '0' <= t[end] && t[end] <= '9'
        invariant
            start <= end <= t@.len(),
            digit_run_end(t@, end as int) == digit_run_end(t@, start as int),
        decreases t@.len() - end,
    {
        end = end + 1;
    }
    proof {
        lemma_digit_run_end(t@, start as int);
    }
    if end == start {
        return 0;
    }
    let ghost d = t@.subrange(start as int, end as int);
    let mut value: u64 = 0;
    let mut k = start;
    while k < end
        invariant
            start <= k <= end <= t@.len(),
            t@ == text@,
            m@ == marker@,
            find_from(t@, 0, m@) == Some(pos as int),
            start == pos + m@.len(),
            end == digit_run_end(t@, start as int),
            d == t@.subrange(start as int, end as int),
            forall|a: int| start <= a < end ==> #[trigger] is_digit(t@[a]),
            value == digits_value(t@.subrange(start as int, k as int)),
            value <= u32::MAX,
        decreases end - k,
    {
        assert(is_digit(t@[k as int]));
        let digit = (t[k] as u32 - 48) as u64;
        assert(t@.subrange(start as int, k + 1).drop_last() =~= t@.subrange(start as int, k as int));
        let next = value * 10 + digit;
        if next > 0xFFFF_FFFF {
            proof {
                assert(digits_value(t@.subrange(start as int, k + 1)) > u32::MAX);
                lemma_prefix_value_bound(d, k + 1 - start);
                assert(d.take(k + 1 - start) =~= t@.subrange(start as int, k + 1));
            }
            return 0;
        }
        value = next;
        k = k + 1;
    }
    (value as u32)
}

proof fn lemma_prefix_value_bound(d: Seq<char>, k: int)
    requires
        0 <= k <= d.len(),
        forall|a: int| 0 <= a < d.len() ==> #[trigger] is_digit(d[a]),
    ensures
        digits_value(d.take(k)) <= digits_value(d),
    decreases d.len() - k,
{
    if k < d.len() {
        lemma_prefix_value_bound(d, k + 1);
        assert(d.take(k + 1).drop_last() =~= d.take(k));
        assert(is_digit(d[k]));
    } else {
        assert(d.take(k) =~= d);
    }
}

/// The displayed importer count and fan-out of a focus reason.
pub fn parse_fan_counts(reason: &str) -> (r: (u32, u32))
    ensures
        r == (count_after(reason@, "high fan-in ("@), count_after(reason@, "fan-out "@)),
{
    let fan_in = extract_count(reason, "high fan-in (");
    let fan_out = extract_count(reason, "fan-out ");
    (fan_in, fan_out)
}

// ---------------------------------------------------------------------------
// Review direction
// ---------------------------------------------------------------------------

/// The path components that name something: not empty and not `.`.
pub open spec fn named_pieces(ps: Seq<Seq<char>>) -> Seq<Seq<char>>
    decreases ps.len(),
{
    if ps.len() == 0 {
        Seq::empty()
    } else {
        let init = named_pieces(ps.drop_last());
        if ps.last().len() == 0 || ps.last() == "."@ {
            init
        } else {
            init.push(ps.last())
        }
    }
}

/// The file name of a path, as `Path::file_name` gives it: its last
/// component, unless there is none or it is `..`.
pub open spec fn file_name_of(p: Seq<char>) -> Option<Seq<char>> {
    let n = named_pieces(split_on(p, '/'));
    if n.len() == 0 || n.last() == ".."@ {
        None
    } else {
        Some(n.last())
    }
}

/// Index of the last `.` of `s` at or before `k - 1`.
pub open spec fn last_dot_before(s: Seq<char>, k: int) -> Option<int>
    decreases k,
{
    if k <= 0 {
        None
    } else if s[k - 1] == '.' {
        Some(k - 1)
    } else {
        last_dot_before(s, k - 1)
    }
}

/// The extension of a file name, as `Path::extension` gives it: what follows
/// the last `.`, unless the name starts with that dot.
pub open spec fn extension_of(name: Seq<char>) -> Option<Seq<char>> {
    match last_dot_before(name, name.len() as int) {
        Some(k) => if k > 0 {
            Some(name.skip(k + 1))
        } else {
            None
        },
        None => None,
    }
}

/// The file name of a path, as `Path::file_name` gives it.
pub fn file_name(path: &str) -> (r: Option<String>)
    ensures
        match r {
            Some(n) => file_name_of(path@) == Some(n@),
            None => file_name_of(path@) is None,
        },
{
    let p = chars_of(path);
    match file_name_chars(&p) {
        Some(n) => Some(string_from_chars(&n)),
        None => None,
    }
}

/// The extension of a path's file name, as `Path::extension` gives it.
pub fn file_extension(path: &str) -> (r: Option<String>)
    ensures
        match r {
            Some(e) => file_name_of(path@) matches Some(n) && extension_of(n) == Some(e@),
            None => !(file_name_of(path@) matches Some(n) && extension_of(n) is Some),
        },
{
    let p = chars_of(path);
    let name = match file_name_chars(&p) {
        Some(n) => n,
        None => {
            return None;
        },
    };
    match extension_chars(&name) {
        Some(e) => Some(string_from_chars(&e)),
        None => None,
    }
}

/// Extensions of the source files a review walks through.
pub open spec fn source_extensions() -> Seq<Seq<char>> {
    seq![
        "ts"@,
        "tsx"@,
        "js"@,
        "jsx"@,
        "mjs"@,
        "cjs"@,
        "mts"@,
        "cts"@,
        "gts"@,
        "gjs"@,
        "vue"@,
        "svelte"@,
        "astro"@,
    ]
}

/// The source extensions a review walks through: TypeScript and JavaScript
/// in their module flavours, Glimmer, and Vue, Svelte and Astro components.
pub open spec fn is_listed_source_extension(e: Seq<char>) -> bool {
    ||| e == "ts"@ || e == "tsx"@ || e == "js"@ || e == "jsx"@
    ||| e == "mjs"@ || e == "cjs"@ || e == "mts"@ || e == "cts"@
    ||| e == "gts"@ || e == "gjs"@
    ||| e == "vue"@ || e == "svelte"@ || e == "astro"@
}

/// A file is a reviewable source unit exactly when its file name's extension
/// is one of the listed source extensions (so an `.astro`, `.vue` or
/// `.svelte` component is one, and a `.md` or `.json` file is not).
pub proof fn lemma_reviewable_extensions(file: Seq<char>)
    ensures
        reviewable(file) <==> (file_name_of(file) matches Some(n) && (extension_of(n) matches Some(e)
            && is_listed_source_extension(e))),
{
    let xs = source_extensions();
    assert forall|e: Seq<char>| xs.contains(e) <==> is_listed_source_extension(e) by {
        if is_listed_source_extension(e) {
            if e == "ts"@ { assert(xs[0] == e); }
            if e == "tsx"@ { assert(xs[1] == e); }
            if e == "js"@ { assert(xs[2] == e); }
            if e == "jsx"@ { assert(xs[3] == e); }
            if e == "mjs"@ { assert(xs[4] == e); }
            if e == "cjs"@ { assert(xs[5] == e); }
            if e == "mts"@ { assert(xs[6] == e); }
            if e == "cts"@ { assert(xs[7] == e); }
            if e == "gts"@ { assert(xs[8] == e); }
            if e == "gjs"@ { assert(xs[9] == e); }
            if e == "vue"@ { assert(xs[10] == e); }
            if e == "svelte"@ { assert(xs[11] == e); }
            if e == "astro"@ { assert(xs[12] == e); }
        }
        if xs.contains(e) {
            let k = choose|k: int| 0 <= k < xs.len() && xs[k] == e;
            assert(0 <= k < 13);
        }
    }
}

/// The file is an analyzable source file (not docs, config or lockfiles).
pub open spec fn reviewable(file: Seq<char>) -> bool {
    file_name_of(file) matches Some(n) && (extension_of(n) matches Some(e)
        && source_extensions().contains(e))
}

fn file_name_chars(p: &Vec<char>) -> (r: Option<Vec<char>>)
    ensures
        match r {
            Some(n) => file_name_of(p@) == Some(n@),
            None => file_name_of(p@) is None,
        },
{
    let pieces = split_chars(p, '/');
    let ghost ps = vec_views(pieces@);
    let mut last: Option<Vec<char>> = None;
    let mut i: usize = 0;
    while i < pieces.len()
        invariant
            i <= pieces@.len(),
            ps == vec_views(pieces@),
            match last {
                Some(l) => named_pieces(ps.take(i as int)).len() > 0 && named_pieces(
                    ps.take(i as int),
                ).last() == l@,
                None => named_pieces(ps.take(i as int)).len() == 0,
            },
        decreases pieces@.len() - i,
    {
        assert(ps.take(i + 1).drop_last() =~= ps.take(i as int));
        assert(ps[i as int] == pieces@[i as int]@);
        let piece = &pieces[i];
        if piece.len() > 0 && !chars_eq_str(piece, ".") {
            last = Some(piece.clone());
        }
        i = i + 1;
    }
    assert(ps.take(i as int) =~= ps);
    match last {
        Some(l) => {
            if chars_eq_str(&l, "..") {
                None
            } else {
                Some(l)
            }
        },
        None => None,
    }
}

fn extension_chars(name: &Vec<char>) -> (r: Option<Vec<char>>)
    ensures
        match r {
            Some(e) => extension_of(name@) == Some(e@),
            None => extension_of(name@) is None,
        },
{
    let mut k = name.len();
    while k > 0 && name[k - 1] != '.'
        invariant
            k <= name@.len(),
            last_dot_before(name@, k as int) == last_dot_before(name@, name@.len() as int),
        decreases k,
    {
        k = k - 1;
    }
    if k == 0 {
        return None;
    }
    let dot = k - 1;
    if dot == 0 {
        return None;
    }
    Some(crate::text::copy_range(name, dot + 1, name.len()))
}

/// Whether a file is an analyzable source file worth walking through;
/// non-code churn (licenses, docs, config, lockfiles) is not.
pub fn is_reviewable_source_unit(file: &str) -> (b: bool)
    ensures
        b == reviewable(file@),
        b <==> (file_name_of(file@) matches Some(n) && (extension_of(n) matches Some(e)
            && is_listed_source_extension(e))),
{
    proof {
        lemma_reviewable_extensions(file@);
    }
    let p = chars_of(file);
    let name = match file_name_chars(&p) {
        Some(n) => n,
        None => {
            return false;
        },
    };
    let ext = match extension_chars(&name) {
        Some(e) => e,
        None => {
            return false;
        },
    };
    let exts: [&str; 13] = [
        "ts",
        "tsx",
        "js",
        "jsx",
        "mjs",
        "cjs",
        "mts",
        "cts",
        "gts",
        "gjs",
        "vue",
        "svelte",
        "astro",
    ];
    assert(exts@.map_values(|e: &str| e@) =~= source_extensions());
    let mut i: usize = 0;
    while i < 13
        invariant
            i <= 13,
            exts@.map_values(|e: &str| e@) == source_extensions(),
            forall|k: int| 0 <= k < i ==> source_extensions()[k] != ext@,
            p@ == file@,
            file_name_of(p@) == Some(name@),
            extension_of(name@) == Some(ext@),
        decreases 13 - i,
    {
        assert(exts@[i as int]@ == source_extensions()[i as int]);
        if chars_eq_str(&ext, exts[i]) {
            assert(source_extensions()[i as int] == ext@);
            assert(source_extensions().contains(ext@));
            assert(p@ == file@);
            return true;
        }
        i = i + 1;
    }
    false
}

/// A changed file to look at, with the reason shown for it and its score.
#[derive(Clone, Debug)]
pub struct FocusUnit {
    pub file: String,
    pub reason: String,
    pub score_total: u32,
}

/// The units to review, and those to review last.
#[derive(Clone, Debug)]
pub struct FocusMap {
    pub review_here: Vec<FocusUnit>,
    pub deprioritized: Vec<FocusUnit>,
}

/// Who knows a file.
#[derive(Clone, Debug)]
pub struct RoutingUnit {
    pub file: String,
    pub expert: Vec<String>,
    pub bus_factor_one: bool,
}

#[derive(Clone, Debug)]
pub struct RoutingFacts {
    pub units: Vec<RoutingUnit>,
}

/// A step of the review direction.
#[derive(Clone, Debug)]
pub struct DirectionUnit {
    pub file: String,
    pub concern_lens: String,
    pub scoring_budget: u32,
    pub out_of_diff: Vec<String>,
    pub expert: Vec<String>,
}

/// The order in which to review the changed files, with the unit of each.
#[derive(Clone, Debug)]
pub struct ReviewDirection {
    pub order: Vec<String>,
    pub units: Vec<DirectionUnit>,
}

/// The consumers outside the diff of one changed file.
#[derive(Clone, Debug)]
pub struct OutOfDiff {
    pub file: String,
    pub consumers: Vec<String>,
}

pub ghost struct UnitView {
    pub file: Seq<char>,
    pub concern_lens: Seq<char>,
    pub scoring_budget: u32,
    pub out_of_diff: Seq<Seq<char>>,
    pub expert: Seq<Seq<char>>,
}

pub open spec fn unit_view(u: DirectionUnit) -> UnitView {
    UnitView {
        file: u.file@,
        concern_lens: u.concern_lens@,
        scoring_budget: u.scoring_budget,
        out_of_diff: string_views(u.out_of_diff@),
        expert: string_views(u.expert@),
    }
}

/// The consumers of `file` outside the diff, from the first entry for it.
pub open spec fn out_of_diff_of(m: Seq<OutOfDiff>, file: Seq<char>) -> Seq<Seq<char>>
    decreases m.len(),
{
    if m.len() == 0 {
        Seq::empty()
    } else if m[0].file@ == file {
        string_views(m[0].consumers@)
    } else {
        out_of_diff_of(m.drop_first(), file)
    }
}

/// The experts of `file`, from the last routing unit for it.
pub open spec fn experts_of(r: Seq<RoutingUnit>, file: Seq<char>) -> Seq<Seq<char>>
    decreases r.len(),
{
    if r.len() == 0 {
        Seq::empty()
    } else if r.last().file@ == file {
        string_views(r.last().expert@)
    } else {
        experts_of(r.drop_last(), file)
    }
}

/// The displayed fan-in and fan-out of `file`, from the last focus unit for it.
pub open spec fn fans_of(fs: Seq<FocusUnit>, file: Seq<char>) -> (u32, u32)
    decreases fs.len(),
{
    if fs.len() == 0 {
        (0, 0)
    } else if fs.last().file@ == file {
        (count_after(fs.last().reason@, "high fan-in ("@), count_after(fs.last().reason@, "fan-out "@))
    } else {
        fans_of(fs.drop_last(), file)
    }
}

pub open spec fn all_focus(f: FocusMap) -> Seq<FocusUnit> {
    f.review_here@ + f.deprioritized@
}

/// The direction unit of a focus unit: its consumers outside the diff (the
/// contract-break lens when there are some, else orientation), its score as
/// the budget, and its experts.
pub open spec fn unit_of(fu: FocusUnit, m: Seq<OutOfDiff>, r: Seq<RoutingUnit>) -> UnitView {
    let ood = out_of_diff_of(m, fu.file@);
    UnitView {
        file: fu.file@,
        concern_lens: if ood.len() == 0 {
            "orientation"@
        } else {
            "contract-break"@
        },
        scoring_budget: fu.score_total,
        out_of_diff: ood,
        expert: experts_of(r, fu.file@),
    }
}

/// A unit with its sort keys: displayed fan-in and fan-out.
pub type Keyed = (UnitView, u32, u32);

/// The reviewable focus units among the first `n`, in order, with their keys.
pub open spec fn keyed_units(f: FocusMap, m: Seq<OutOfDiff>, r: Seq<RoutingUnit>, n: int) -> Seq<Keyed>
    decreases n,
{
    if n <= 0 {
        Seq::empty()
    } else {
        let init = keyed_units(f, m, r, n - 1);
        let fu = all_focus(f)[n - 1];
        if reviewable(fu.file@) {
            let fans = fans_of(all_focus(f), fu.file@);
            init.push((unit_of(fu, m, r), fans.0, fans.1))
        } else {
            init
        }
    }
}

/// `a` goes before `b`: more consumers outside the diff, then more
/// importers, then more fan-out, then the smaller path.
pub open spec fn goes_before(a: Keyed, b: Keyed) -> bool {
    let la = a.0.out_of_diff.len();
    let lb = b.0.out_of_diff.len();
    la > lb || (la == lb && (a.1 > b.1 || (a.1 == b.1 && (a.2 > b.2 || (a.2 == b.2
        && chars_before(a.0.file, b.0.file))))))
}

/// `x` placed into `t` after every element it does not go before (stable).
pub open spec fn insert_stable(t: Seq<Keyed>, x: Keyed) -> Seq<Keyed>
    decreases t.len(),
{
    if t.len() == 0 {
        seq![x]
    } else if goes_before(x, t.last()) {
        insert_stable(t.drop_last(), x).push(t.last())
    } else {
        t.push(x)
    }
}

/// `s` in review order; units that tie keep their order (a stable sort).
pub open spec fn stable_sorted(s: Seq<Keyed>) -> Seq<Keyed>
    decreases s.len(),
{
    if s.len() == 0 {
        s
    } else {
        insert_stable(stable_sorted(s.drop_last()), s.last())
    }
}

/// The direction of a focus map: its reviewable units in review order.
pub open spec fn direction_of(f: FocusMap, m: Seq<OutOfDiff>, r: Seq<RoutingUnit>) -> Seq<Keyed> {
    stable_sorted(keyed_units(f, m, r, all_focus(f).len() as int))
}

pub open spec fn keyed_view(k: (DirectionUnit, u32, u32)) -> Keyed {
    (unit_view(k.0), k.1, k.2)
}

proof fn lemma_insert_at(t: Seq<Keyed>, x: Keyed, p: int)
    requires
        0 <= p <= t.len(),
        forall|q: int| p <= q < t.len() ==> goes_before(x, #[trigger] t[q]),
        p > 0 ==> !goes_before(x, t[p - 1]),
    ensures
        insert_stable(t, x) == t.take(p).push(x) + t.skip(p),
    decreases t.len(),
{
    if t.len() == 0 {
        assert(t.take(p).push(x) + t.skip(p) =~= seq![x]);
    } else if p == t.len() {
        assert(t.take(p).push(x) + t.skip(p) =~= t.push(x));
    } else {
        let t0 = t.drop_last();
        assert(goes_before(x, t[t.len() - 1]));
        assert forall|q: int| p <= q < t0.len() implies goes_before(x, #[trigger] t0[q]) by {
            assert(t0[q] == t[q]);
        }
        if p > 0 {
            assert(t0[p - 1] == t[p - 1]);
        }
        lemma_insert_at(t0, x, p);
        assert(t.take(p).push(x) + t.skip(p) =~= (t0.take(p).push(x) + t0.skip(p)).push(t.last()));
    }
}

fn goes_before_exec(a: &(DirectionUnit, u32, u32), b: &(DirectionUnit, u32, u32)) -> (r: bool)
    ensures
        r == goes_before(keyed_view(*a), keyed_view(*b)),
{
    let la = a.0.out_of_diff.len();
    let lb = b.0.out_of_diff.len();
    if la != lb {
        return la > lb;
    }
    if a.1 != b.1 {
        return a.1 > b.1;
    }
    if a.2 != b.2 {
        return a.2 > b.2;
    }
    let fa = chars_of(a.0.file.as_str());
    let fb = chars_of(b.0.file.as_str());
    chars_lt(&fa, &fb)
}

/// Sorts keyed units into review order, keeping ties in their order.
fn sort_stable(units: Vec<(DirectionUnit, u32, u32)>) -> (out: Vec<(DirectionUnit, u32, u32)>)
    ensures
        out@.map_values(|k: (DirectionUnit, u32, u32)| keyed_view(k)) == stable_sorted(
            units@.map_values(|k: (DirectionUnit, u32, u32)| keyed_view(k)),
        ),
{
    let ghost input = units@.map_values(|k: (DirectionUnit, u32, u32)| keyed_view(k));
    let mut out: Vec<(DirectionUnit, u32, u32)> = Vec::new();
    let mut rest = units;
    let n = rest.len();
    assert(input.take(0) =~= Seq::<Keyed>::empty());
    while rest.len() > 0
        invariant
            rest@.len() <= n,
            n == input.len(),
            input.skip(0) == input,
            rest@.map_values(|k: (DirectionUnit, u32, u32)| keyed_view(k)) == input.skip(
                (n - rest@.len()) as int,
            ),
            out@.map_values(|k: (DirectionUnit, u32, u32)| keyed_view(k)) == stable_sorted(
                input.take((n - rest@.len()) as int),
            ),
        decreases rest@.len(),
    {
        let ghost i = (n - rest@.len()) as int;
        let ghost before_out = out@.map_values(|k: (DirectionUnit, u32, u32)| keyed_view(k));
        let ghost old_rest = rest@;
        let x = rest.remove(0);
        proof {
            assert(x == old_rest[0]);
            assert(rest@ =~= old_rest.remove(0));
            assert(old_rest.map_values(|k: (DirectionUnit, u32, u32)| keyed_view(k))[0] == input.skip(i)[0]);
            assert(keyed_view(x) == input[i]);
            let ov = old_rest.map_values(|k: (DirectionUnit, u32, u32)| keyed_view(k));
            assert(ov == input.skip(i));
            assert(rest@.map_values(|k: (DirectionUnit, u32, u32)| keyed_view(k)) =~= ov.skip(1));
            assert(ov.skip(1) =~= input.skip(i + 1));
            assert(input.take(i + 1).drop_last() =~= input.take(i));
        }
        let mut p = out.len();
        while p > 0 && goes_before_exec(&x, &out[p - 1])
            invariant
                p <= out@.len(),
                before_out == out@.map_values(|k: (DirectionUnit, u32, u32)| keyed_view(k)),
                forall|q: int| p <= q < before_out.len() ==> goes_before(keyed_view(x), #[trigger] before_out[q]),
            decreases p,
        {
            p = p - 1;
        }
        proof {
            if p > 0 {
                assert(before_out[p - 1] == keyed_view(out@[p - 1]));
            }
            lemma_insert_at(before_out, keyed_view(x), p as int);
        }
        let ghost xv = keyed_view(x);
        out.insert(p, x);
        assert(out@.map_values(|k: (DirectionUnit, u32, u32)| keyed_view(k)) =~= before_out.take(
            p as int,
        ).push(xv) + before_out.skip(p as int));
    }
    assert(input.take(n as int) =~= input);
    out
}

fn lookup_out_of_diff(m: &Vec<OutOfDiff>, file: &str) -> (r: Vec<String>)
    ensures
        string_views(r@) == out_of_diff_of(m@, file@),
{
    let mut i: usize = 0;
    assert(m@.skip(0) =~= m@);
    while i < m.len()
        invariant
            i <= m@.len(),
            out_of_diff_of(m@.skip(i as int), file@) == out_of_diff_of(m@, file@),
        decreases m@.len() - i,
    {
        assert(m@.skip(i as int).drop_first() =~= m@.skip(i + 1));
        if str_eq(m[i].file.as_str(), file) {
            return m[i].consumers.clone();
        }
        i = i + 1;
    }
    Vec::new()
}

fn lookup_experts(r: &Vec<RoutingUnit>, file: &str) -> (out: Vec<String>)
    ensures
        string_views(out@) == experts_of(r@, file@),
{
    let mut k = r.len();
    assert(r@.take(r@.len() as int) =~= r@);
    while k > 0
        invariant
            k <= r@.len(),
            experts_of(r@.take(k as int), file@) == experts_of(r@, file@),
        decreases k,
    {
        assert(r@.take(k as int).drop_last() =~= r@.take(k - 1));
        if str_eq(r[k - 1].file.as_str(), file) {
            return r[k - 1].expert.clone();
        }
        k = k - 1;
    }
    Vec::new()
}

fn lookup_fans(fs: &Vec<FocusUnit>, file: &str) -> (out: (u32, u32))
    ensures
        out == fans_of(fs@, file@),
{
    let mut k = fs.len();
    assert(fs@.take(fs@.len() as int) =~= fs@);
    while k > 0
        invariant
            k <= fs@.len(),
            fans_of(fs@.take(k as int), file@) == fans_of(fs@, file@),
        decreases k,
    {
        assert(fs@.take(k as int).drop_last() =~= fs@.take(k - 1));
        if str_eq(fs[k - 1].file.as_str(), file) {
            return parse_fan_counts(fs[k - 1].reason.as_str());
        }
        k = k - 1;
    }
    (0, 0)
}

fn copy_strings(v: &Vec<String>) -> (c: Vec<String>)
    ensures
        c@ == v@,
{
    let mut c: Vec<String> = Vec::new();
    let mut i: usize = 0;
    while i < v.len()
        invariant
            i <= v@.len(),
            c@ == v@.take(i as int),
        decreases v@.len() - i,
    {
        c.push(v[i].clone());
        i = i + 1;
        assert(v@.take(i as int) =~= v@.take(i - 1).push(v@[i - 1]));
    }
    assert(v@.take(i as int) =~= v@);
    c
}

fn copy_focus_unit(u: &FocusUnit) -> (c: FocusUnit)
    ensures
        c == *u,
{
    FocusUnit { file: u.file.clone(), reason: u.reason.clone(), score_total: u.score_total }
}

fn copy_direction_unit(u: &DirectionUnit) -> (c: DirectionUnit)
    ensures
        unit_view(c) == unit_view(*u),
{
    DirectionUnit {
        file: u.file.clone(),
        concern_lens: u.concern_lens.clone(),
        scoring_budget: u.scoring_budget,
        out_of_diff: copy_strings(&u.out_of_diff),
        expert: copy_strings(&u.expert),
    }
}

/// Builds the review direction: every reviewable focus unit (those to review
/// and the deprioritized ones), with its consumers outside the diff and its
/// experts; units with outside consumers first, then by displayed fan-in,
/// fan-out and path.
pub fn build_direction(focus: &FocusMap, out_of_diff_by_file: &Vec<OutOfDiff>, routing: &RoutingFacts) -> (d: ReviewDirection)
    ensures
        d.units@.len() == d.order@.len(),
        d.units@.map_values(|u: DirectionUnit| unit_view(u)) == direction_of(
            *focus,
            out_of_diff_by_file@,
            routing.units@,
        ).map_values(|k: Keyed| k.0),
        forall|i: int| 0 <= i < d.order@.len() ==> #[trigger] d.order@[i]@ == d.units@[i].file@,
{
    let mut all: Vec<FocusUnit> = Vec::new();
    let mut j: usize = 0;
    while j < focus.review_here.len()
        invariant
            j <= focus.review_here@.len(),
            all@ == focus.review_here@.take(j as int),
        decreases focus.review_here@.len() - j,
    {
        all.push(copy_focus_unit(&focus.review_here[j]));
        j = j + 1;
        assert(focus.review_here@.take(j as int) =~= focus.review_here@.take(j - 1).push(
            focus.review_here@[j - 1],
        ));
    }
    assert(focus.review_here@.take(j as int) =~= focus.review_here@);
    let ghost base = all@;
    let mut j: usize = 0;
    while j < focus.deprioritized.len()
        invariant
            j <= focus.deprioritized@.len(),
            all@ == base + focus.deprioritized@.take(j as int),
        decreases focus.deprioritized@.len() - j,
    {
        all.push(copy_focus_unit(&focus.deprioritized[j]));
        j = j + 1;
        assert(focus.deprioritized@.take(j as int) =~= focus.deprioritized@.take(j - 1).push(
            focus.deprioritized@[j - 1],
        ));
    }
    assert(all@ =~= all_focus(*focus));
    let mut keyed: Vec<(DirectionUnit, u32, u32)> = Vec::new();
    let mut i: usize = 0;
    while i < all.len()
        invariant
            i <= all@.len(),
            all@ == all_focus(*focus),
            keyed@.map_values(|k: (DirectionUnit, u32, u32)| keyed_view(k)) == keyed_units(
                *focus,
                out_of_diff_by_file@,
                routing.units@,
                i as int,
            ),
        decreases all@.len() - i,
    {
        let fu = &all[i];
        if is_reviewable_source_unit(fu.file.as_str()) {
            let ood = lookup_out_of_diff(out_of_diff_by_file, fu.file.as_str());
            let lens = if ood.len() == 0 {
                string_of("orientation")
            } else {
                string_of("contract-break")
            };
            let unit = DirectionUnit {
                file: fu.file.clone(),
                concern_lens: lens,
                scoring_budget: fu.score_total,
                out_of_diff: ood,
                expert: lookup_experts(&routing.units, fu.file.as_str()),
            };
            let fans = lookup_fans(&all, fu.file.as_str());
            let ghost before = keyed@.map_values(|k: (DirectionUnit, u32, u32)| keyed_view(k));
            let entry = (unit, fans.0, fans.1);
            let ghost ev = keyed_view(entry);
            keyed.push(entry);
            assert(keyed@.map_values(|k: (DirectionUnit, u32, u32)| keyed_view(k)) =~= before.push(ev));
        }
        i = i + 1;
    }
    let sorted = sort_stable(keyed);
    let mut order: Vec<String> = Vec::new();
    let mut units: Vec<DirectionUnit> = Vec::new();
    let mut k: usize = 0;
    while k < sorted.len()
        invariant
            k <= sorted@.len(),
            order@.len() == k,
            units@.len() == k,
            forall|q: int| 0 <= q < k ==> #[trigger] unit_view(units@[q]) == unit_view(sorted@[q].0),
            forall|q: int| 0 <= q < k ==> #[trigger] order@[q]@ == sorted@[q].0.file@,
        decreases sorted@.len() - k,
    {
        order.push(sorted[k].0.file.clone());
        units.push(copy_direction_unit(&sorted[k].0));
        k = k + 1;
    }
    assert forall|i: int| 0 <= i < order@.len() implies #[trigger] order@[i]@ == units@[i].file@ by {
        assert(unit_view(units@[i]) == unit_view(sorted@[i].0));
    }
    assert(units@.map_values(|u: DirectionUnit| unit_view(u)) =~= sorted@.map_values(
        |k: (DirectionUnit, u32, u32)| keyed_view(k),
    ).map_values(|k: Keyed| k.0));
    ReviewDirection { order, units }
}

// ---------------------------------------------------------------------------
// Laws of the review order
// ---------------------------------------------------------------------------

/// No unit goes before a unit placed ahead of it.
pub open spec fn in_review_order(s: Seq<Keyed>) -> bool {
    forall|i: int, j: int| 0 <= i < j < s.len() ==> !goes_before(#[trigger] s[j], #[trigger] s[i])
}

proof fn lemma_goes_before_order(x: Keyed, y: Keyed, z: Keyed)
    ensures
        !goes_before(x, x),
        goes_before(x, y) ==> !goes_before(y, x),
        goes_before(x, y) && !goes_before(z, y) ==> goes_before(x, z),
{
    lemma_chars_before_irreflexive(x.0.file);
    if goes_before(x, y) && goes_before(y, x) {
        if x.0.out_of_diff.len() == y.0.out_of_diff.len() && x.1 == y.1 && x.2 == y.2 {
            lemma_chars_before_transitive(x.0.file, y.0.file, x.0.file);
        }
    }
    if goes_before(x, y) && !goes_before(z, y) {
        lemma_chars_before_total(z.0.file, y.0.file);
        if x.0.out_of_diff.len() == y.0.out_of_diff.len() && x.1 == y.1 && x.2 == y.2 {
            if y.0.out_of_diff.len() == z.0.out_of_diff.len() && y.1 == z.1 && y.2 == z.2 {
                if chars_before(y.0.file, z.0.file) {
                    lemma_chars_before_transitive(x.0.file, y.0.file, z.0.file);
                }
            }
        }
    }
}

proof fn lemma_insert_stable_sorted(t: Seq<Keyed>, x: Keyed)
    requires
        in_review_order(t),
    ensures
        in_review_order(insert_stable(t, x)),
        insert_stable(t, x).to_multiset() == t.to_multiset().insert(x),
    decreases t.len(),
{
    broadcast use vstd::seq_lib::group_to_multiset_ensures;
    broadcast use vstd::multiset::group_multiset_axioms;
    if t.len() == 0 {
        assert(insert_stable(t, x) =~= seq![x]);
        assert(seq![x] =~= Seq::<Keyed>::empty().push(x));
        vstd::seq_lib::to_multiset_build(Seq::<Keyed>::empty(), x);
    } else if goes_before(x, t.last()) {
        let t0 = t.drop_last();
        assert(in_review_order(t0)) by {
            assert forall|i: int, j: int| 0 <= i < j < t0.len() implies !goes_before(
                #[trigger] t0[j],
                #[trigger] t0[i],
            ) by {
                assert(t0[i] == t[i] && t0[j] == t[j]);
            }
        }
        lemma_insert_stable_sorted(t0, x);
        let r0 = insert_stable(t0, x);
        let r = r0.push(t.last());
        vstd::seq_lib::to_multiset_build(r0, t.last());
        vstd::seq_lib::to_multiset_build(t0, t.last());
        assert(t0.push(t.last()) =~= t);
        assert(r.to_multiset() =~= t.to_multiset().insert(x));
        assert forall|i: int, j: int| 0 <= i < j < r.len() implies !goes_before(
            #[trigger] r[j],
            #[trigger] r[i],
        ) by {
            if j == r.len() - 1 {
                // r[i] is x or an element of t0, none of which the last of t precedes.
                assert(r0.to_multiset().count(r[i]) > 0) by {
                    vstd::seq_lib::to_multiset_contains(r0, r[i]);
                    assert(r0[i] == r[i]);
                }
                assert(t0.to_multiset().insert(x).count(r[i]) > 0);
                if r[i] == x {
                    lemma_goes_before_order(x, t.last(), x);
                } else {
                    assert(t0.to_multiset().count(r[i]) > 0);
                    vstd::seq_lib::to_multiset_contains(t0, r[i]);
                    let k = choose|k: int| 0 <= k < t0.len() && t0[k] == r[i];
                    assert(t[k] == r[i]);
                    assert(!goes_before(t[t.len() - 1], t[k]));
                }
            } else {
                assert(r[i] == r0[i] && r[j] == r0[j]);
            }
        }
    } else {
        let r = t.push(x);
        vstd::seq_lib::to_multiset_build(t, x);
        assert forall|i: int, j: int| 0 <= i < j < r.len() implies !goes_before(
            #[trigger] r[j],
            #[trigger] r[i],
        ) by {
            if j == r.len() - 1 {
                if i < t.len() - 1 {
                    assert(!goes_before(t[t.len() - 1], t[i]));
                    if goes_before(x, t[i]) {
                        lemma_goes_before_order(x, t[i], t[t.len() - 1]);
                    }
                }
            } else {
                assert(r[i] == t[i] && r[j] == t[j]);
            }
        }
    }
}

/// The review order sorts: no unit comes after one it goes before, and the
/// direction holds exactly the units it was given.
pub proof fn lemma_stable_sorted_is_sorted_permutation(s: Seq<Keyed>)
    ensures
        in_review_order(stable_sorted(s)),
        stable_sorted(s).to_multiset() == s.to_multiset(),
    decreases s.len(),
{
    broadcast use vstd::seq_lib::group_to_multiset_ensures;
    if s.len() > 0 {
        lemma_stable_sorted_is_sorted_permutation(s.drop_last());
        lemma_insert_stable_sorted(stable_sorted(s.drop_last()), s.last());
        vstd::seq_lib::to_multiset_build(s.drop_last(), s.last());
        assert(s.drop_last().push(s.last()) =~= s);
    } else {
        assert(stable_sorted(s).to_multiset() =~= s.to_multiset());
    }
}

// ---------------------------------------------------------------------------
// Change anchors from a unified diff
// ---------------------------------------------------------------------------

/// The lines of `s` as `str::lines` yields them: split at `\n`, a `\r`
/// before a `\n` dropped, and no empty last line after a final `\n`.
pub open spec fn text_lines(s: Seq<char>) -> Seq<Seq<char>> {
    let pieces = split_on(s, '\n');
    let kept = if pieces.last().len() == 0 {
        pieces.drop_last()
    } else {
        pieces
    };
    Seq::new(
        kept.len(),
        |i: int|
            if i < pieces.len() - 1 && kept[i].len() > 0 && kept[i].last() == '\r' {
                kept[i].drop_last()
            } else {
                kept[i]
            },
    )
}

/// The new-file start line of a hunk header (the text after `@@ `): the
/// digits right after its first `+`, when there are some and they fit.
pub open spec fn hunk_start_of(header: Seq<char>) -> Option<u64> {
    match find_from(header, 0, "+"@) {
        None => None,
        Some(i) => {
            let e = digit_run_end(header, i + 1);
            let d = header.subrange(i + 1, e);
            if d.len() > 0 && digits_value(d) <= u64::MAX {
                Some(digits_value(d) as u64)
            } else {
                None
            }
        },
    }
}

/// The new-file start line of a hunk header, if it has one.
pub fn parse_new_hunk_start(header: &Vec<char>) -> (r: Option<u64>)
    ensures
        r == hunk_start_of(header@),
{
    let plus = chars_of("+");
    proof {
        lemma_find_from(header@, 0, plus@);
        reveal_strlit("+");
    }
    let pos = match find_chars(header, 0, &plus) {
        Some(i) => i,
        None => {
            return None;
        },
    };
    assert(pos + 1 <= header@.len());
    assert(header@.len() == header.len());
    let start = pos + 1;
    let mut end = start;
    while end < header.len() && '0' <= header[end] && header[end] <= '9'
        invariant
            start <= end <= header@.len(),
            digit_run_end(header@, end as int) == digit_run_end(header@, start as int),
        decreases header@.len() - end,
    {
        end = end + 1;
    }
    proof {
        lemma_digit_run_end(header@, start as int);
    }
    if end == start {
        return None;
    }
    let ghost d = header@.subrange(start as int, end as int);
    let mut value: u64 = 0;
    let mut k = start;
    while k < end
        invariant
            start <= k <= end <= header@.len(),
            plus@ == "+"@,
            find_from(header@, 0, plus@) == Some(pos as int),
            start == pos + 1,
            end == digit_run_end(header@, start as int),
            d == header@.subrange(start as int, end as int),
            forall|a: int| start <= a < end ==> #[trigger] is_digit(header@[a]),
            value == digits_value(header@.subrange(start as int, k as int)),
        decreases end - k,
    {
        assert(is_digit(header@[k as int]));
        let digit = (header[k] as u32 - 48) as u64;
        assert(header@.subrange(start as int, k + 1).drop_last() =~= header@.subrange(
            start as int,
            k as int,
        ));
        let next = match value.checked_mul(10) {
            Some(v) => v.checked_add(digit),
            None => None,
        };
        match next {
            Some(v) => {
                value = v;
            },
            None => {
                proof {
                    assert(digits_value(header@.subrange(start as int, k + 1)) > u64::MAX);
                    lemma_prefix_value_bound(d, k + 1 - start);
                    assert(d.take(k + 1 - start) =~= header@.subrange(start as int, k + 1));
                }
                return None;
            },
        }
        k = k + 1;
    }
    Some(value)
}

pub ghost struct AnchorView {
    pub change_anchor: Seq<char>,
    pub file: Seq<char>,
    pub start_line: u32,
    pub line_count: u32,
    pub previous_change_anchor: Option<Seq<char>>,
}

pub open spec fn anchor_view(a: ChangeAnchor) -> AnchorView {
    AnchorView {
        change_anchor: a.change_anchor@,
        file: a.file@,
        start_line: a.start_line,
        line_count: a.line_count,
        previous_change_anchor: opt_string_view(a.previous_change_anchor),
    }
}

/// The state of the diff walk: anchors so far, the (file, text) of each, the
/// current file and its rename provenance, and the hunk being read.
pub ghost struct ParserModel {
    pub anchors: Seq<AnchorView>,
    pub seen: Seq<(Seq<char>, Seq<char>)>,
    pub current_file: Option<Seq<char>>,
    pub rename_from: Option<Seq<char>>,
    pub pending_rename_from: Option<Seq<char>>,
    pub start_line: u64,
    pub hunk_lines: Seq<Seq<char>>,
    pub in_hunk: bool,
}

/// How many times `key` occurs in `seen`.
pub open spec fn key_count(seen: Seq<(Seq<char>, Seq<char>)>, key: (Seq<char>, Seq<char>)) -> nat
    decreases seen.len(),
{
    if seen.len() == 0 {
        0
    } else {
        key_count(seen.drop_last(), key) + if seen.last() == key {
            1nat
        } else {
            0nat
        }
    }
}

pub open spec fn saturate_u32(n: int) -> u32 {
    if n > u32::MAX {
        u32::MAX
    } else {
        n as u32
    }
}

pub open spec fn with_hunk(m: ParserModel, anchors: Seq<AnchorView>, seen: Seq<(Seq<char>, Seq<char>)>, hunk: Seq<Seq<char>>) -> ParserModel {
    ParserModel {
        anchors,
        seen,
        current_file: m.current_file,
        rename_from: m.rename_from,
        pending_rename_from: m.pending_rename_from,
        start_line: m.start_line,
        hunk_lines: hunk,
        in_hunk: m.in_hunk,
    }
}

/// The hunk read so far becomes an anchor (when there is a current file and
/// at least one added line), its ordinal counting the earlier anchors with
/// the same file and text; the hunk is then cleared.
pub open spec fn flushed(m: ParserModel) -> ParserModel {
    match m.current_file {
        Some(file) => if m.hunk_lines.len() > 0 {
            let text = normalized_text(m.hunk_lines);
            let ord = key_count(m.seen, (file, text)) as u32;
            let a = AnchorView {
                change_anchor: change_anchor_id(file, text, ord),
                file,
                start_line: saturate_u32(m.start_line as int),
                line_count: saturate_u32(m.hunk_lines.len() as int),
                previous_change_anchor: match m.rename_from {
                    Some(old) => Some(change_anchor_id(old, text, ord)),
                    None => None,
                },
            };
            with_hunk(m, m.anchors.push(a), m.seen.push((file, text)), Seq::empty())
        } else {
            with_hunk(m, m.anchors, m.seen, Seq::empty())
        },
        None => with_hunk(m, m.anchors, m.seen, Seq::empty()),
    }
}

pub open spec fn with_file(
    m: ParserModel,
    current_file: Option<Seq<char>>,
    rename_from: Option<Seq<char>>,
    pending: Option<Seq<char>>,
    start_line: u64,
    in_hunk: bool,
) -> ParserModel {
    ParserModel {
        anchors: m.anchors,
        seen: m.seen,
        current_file,
        rename_from,
        pending_rename_from: pending,
        start_line,
        hunk_lines: m.hunk_lines,
        in_hunk,
    }
}

/// One step of the diff walk. A structural line (`diff --git `, `+++ b/`,
/// `+++ /dev/null`, `@@ `) first turns the pending hunk into an anchor;
/// rename headers record the old path; inside a hunk of a known file, every
/// other `+` line is an added line (so an added `++i;` is kept).
pub open spec fn consumed(m: ParserModel, line: Seq<char>) -> ParserModel {
    if crate::text::starts_with(line, "diff --git "@) {
        let f = flushed(m);
        with_file(f, None, None, None, f.start_line, false)
    } else if crate::text::starts_with(line, "rename from "@) {
        with_file(m, m.current_file, m.rename_from, Some(line.skip(12)), m.start_line, m.in_hunk)
    } else if crate::text::starts_with(line, "rename to "@) {
        match m.pending_rename_from {
            Some(from) => with_file(m, Some(line.skip(10)), Some(from), None, m.start_line, m.in_hunk),
            None => m,
        }
    } else if crate::text::starts_with(line, "+++ b/"@) {
        let f = flushed(m);
        with_file(f, Some(line.skip(6)), f.rename_from, f.pending_rename_from, f.start_line, false)
    } else if crate::text::starts_with(line, "+++ /dev/null"@) {
        let f = flushed(m);
        with_file(f, None, f.rename_from, f.pending_rename_from, f.start_line, false)
    } else if crate::text::starts_with(line, "@@ "@) {
        let f = flushed(m);
        let start = match hunk_start_of(line.skip(3)) {
            Some(n) => n,
            None => 0,
        };
        with_file(f, f.current_file, f.rename_from, f.pending_rename_from, start, true)
    } else if m.in_hunk && m.current_file is Some && crate::text::starts_with(line, "+"@) {
        with_hunk(m, m.anchors, m.seen, m.hunk_lines.push(line.skip(1)))
    } else {
        m
    }
}

/// The walk over the first `n` lines.
pub open spec fn consumed_all(m: ParserModel, lines: Seq<Seq<char>>, n: int) -> ParserModel
    decreases n,
{
    if n <= 0 {
        m
    } else {
        consumed(consumed_all(m, lines, n - 1), lines[n - 1])
    }
}

pub open spec fn initial_model() -> ParserModel {
    ParserModel {
        anchors: Seq::empty(),
        seen: Seq::empty(),
        current_file: None,
        rename_from: None,
        pending_rename_from: None,
        start_line: 0,
        hunk_lines: Seq::empty(),
        in_hunk: false,
    }
}

/// The anchors of a zero-context unified diff: one per hunk with added lines.
pub open spec fn diff_anchors(diff: Seq<char>) -> Seq<AnchorView> {
    let lines = text_lines(diff);
    flushed(consumed_all(initial_model(), lines, lines.len() as int)).anchors
}

/// The accumulator of the diff walk.
struct AnchorParser {
    anchors: Vec<ChangeAnchor>,
    seen: Vec<(Vec<char>, Vec<char>)>,
    current_file: Option<Vec<char>>,
    rename_from: Option<Vec<char>>,
    pending_rename_from: Option<Vec<char>>,
    start_line: u64,
    hunk_lines: Vec<Vec<char>>,
    in_hunk: bool,
}

pub open spec fn opt_chars_view(o: Option<Vec<char>>) -> Option<Seq<char>> {
    match o {
        Some(v) => Some(v@),
        None => None,
    }
}

impl AnchorParser {
    spec fn model(&self) -> ParserModel {
        ParserModel {
            anchors: self.anchors@.map_values(|a: ChangeAnchor| anchor_view(a)),
            seen: self.seen@.map_values(|k: (Vec<char>, Vec<char>)| (k.0@, k.1@)),
            current_file: opt_chars_view(self.current_file),
            rename_from: opt_chars_view(self.rename_from),
            pending_rename_from: opt_chars_view(self.pending_rename_from),
            start_line: self.start_line,
            hunk_lines: vec_views(self.hunk_lines@),
            in_hunk: self.in_hunk,
        }
    }

    fn new() -> (p: Self)
        ensures
            p.model() == initial_model(),
    {
        let p = AnchorParser {
            anchors: Vec::new(),
            seen: Vec::new(),
            current_file: None,
            rename_from: None,
            pending_rename_from: None,
            start_line: 0,
            hunk_lines: Vec::new(),
            in_hunk: false,
        };
        assert(p.model().anchors =~= Seq::<AnchorView>::empty());
        assert(p.model().seen =~= Seq::<(Seq<char>, Seq<char>)>::empty());
        assert(p.model().hunk_lines =~= Seq::<Seq<char>>::empty());
        p
    }

    fn count_seen(&self, file: &Vec<char>, text: &Vec<char>) -> (n: usize)
        ensures
            n == key_count(self.model().seen, (file@, text@)),
    {
        let ghost seen = self.model().seen;
        let mut n: usize = 0;
        let mut i: usize = 0;
        while i < self.seen.len()
            invariant
                i <= self.seen@.len(),
                seen == self.model().seen,
                n == key_count(seen.take(i as int), (file@, text@)),
                n <= i,
            decreases self.seen@.len() - i,
        {
            assert(seen.take(i + 1).drop_last() =~= seen.take(i as int));
            assert(seen[i as int] == (self.seen@[i as int].0@, self.seen@[i as int].1@));
            if vec_chars_eq(&self.seen[i].0, file) && vec_chars_eq(&self.seen[i].1, text) {
                n = n + 1;
            }
            i = i + 1;
        }
        assert(seen.take(i as int) =~= seen);
        n
    }

    fn flush(&mut self)
        requires
            old(self).model().anchors.len() < u32::MAX,
        ensures
            final(self).model() == flushed(old(self).model()),
    {
        let ghost m = self.model();
        match &self.current_file {
            Some(file) => {
                if self.hunk_lines.len() > 0 {
                    let file = file.clone();
                    assert(vec_views(self.hunk_lines@) == m.hunk_lines);
                    let norm = normalize_lines(&self.hunk_lines);
                    let count = self.count_seen(&file, &norm);
                    proof {
                        lemma_key_count_bound(m.seen, (file@, norm@));
                    }
                    let ord = count as u32;
                    let file_s = string_from_chars(&file);
                    let norm_s = string_from_chars(&norm);
                    let change_anchor = derive_change_anchor_id(file_s.as_str(), norm_s.as_str(), ord);
                    let previous = match &self.rename_from {
                        Some(old) => {
                            let old_s = string_from_chars(old);
                            Some(derive_change_anchor_id(old_s.as_str(), norm_s.as_str(), ord))
                        },
                        None => None,
                    };
                    let start_line = if self.start_line > 0xFFFF_FFFF {
                        0xFFFF_FFFFu32
                    } else {
                        self.start_line as u32
                    };
                    let line_count = if self.hunk_lines.len() > 0xFFFF_FFFF {
                        0xFFFF_FFFFu32
                    } else {
                        self.hunk_lines.len() as u32
                    };
                    let anchor = ChangeAnchor {
                        change_anchor,
                        file: file_s,
                        start_line,
                        line_count,
                        previous_change_anchor: previous,
                    };
                    let ghost av = anchor_view(anchor);
                    let ghost old_anchors = self.model().anchors;
                    let ghost old_seen = self.model().seen;
                    self.anchors.push(anchor);
                    self.seen.push((file, norm));
                    self.hunk_lines = Vec::new();
                    assert(self.model().anchors =~= old_anchors.push(av));
                    assert(self.model().seen =~= old_seen.push((m.current_file->0, normalized_text(m.hunk_lines))));
                    assert(self.model().hunk_lines =~= Seq::<Seq<char>>::empty());
                    return;
                }
            },
            None => {},
        }
        self.hunk_lines = Vec::new();
        assert(self.model().hunk_lines =~= Seq::<Seq<char>>::empty());
    }
}

proof fn lemma_key_count_bound(seen: Seq<(Seq<char>, Seq<char>)>, key: (Seq<char>, Seq<char>))
    ensures
        key_count(seen, key) <= seen.len(),
    decreases seen.len(),
{
    if seen.len() > 0 {
        lemma_key_count_bound(seen.drop_last(), key);
    }
}

/// Whether two character vectors are equal.
fn vec_chars_eq(a: &Vec<char>, b: &Vec<char>) -> (r: bool)
    ensures
        r == (a@ == b@),
{
    if a.len() != b.len() {
        return false;
    }
    let r = crate::text::matches_at(a, 0, b);
    proof {
        if r {
            assert(a@ =~= a@.subrange(0, b@.len() as int));
        }
    }
    r
}

/// The lines trimmed and joined with newlines.
fn normalize_lines(lines: &Vec<Vec<char>>) -> (r: Vec<char>)
    ensures
        r@ == normalized_text(vec_views(lines@)),
{
    let mut trimmed: Vec<Vec<char>> = Vec::new();
    let mut i: usize = 0;
    while i < lines.len()
        invariant
            i <= lines@.len(),
            trimmed@.len() == i,
            forall|k: int| 0 <= k < i ==> (#[trigger] trimmed@[k])@ == trim(lines@[k]@),
        decreases lines@.len() - i,
    {
        trimmed.push(trim_chars(&lines[i]));
        i = i + 1;
    }
    assert(vec_views(trimmed@) =~= vec_views(lines@).map_values(|l: Seq<char>| trim(l)));
    join_char_vecs(&trimmed, '\n')
}

impl AnchorParser {
    /// Takes one diff line.
    fn consume(&mut self, line: &Vec<char>)
        requires
            old(self).model().anchors.len() < u32::MAX,
        ensures
            final(self).model() == consumed(old(self).model(), line@),
    {
        let ghost m = self.model();
        if crate::text::chars_start_with_str(line, "diff --git ") {
            self.flush();
            self.in_hunk = false;
            self.current_file = None;
            self.rename_from = None;
            self.pending_rename_from = None;
            return;
        }
        if crate::text::chars_start_with_str(line, "rename from ") {
            proof {
                reveal_strlit("rename from ");
            }
            self.pending_rename_from = Some(crate::text::copy_range(line, 12, line.len()));
            assert(line@.subrange(12, line@.len() as int) =~= line@.skip(12));
            return;
        }
        if crate::text::chars_start_with_str(line, "rename to ") {
            proof {
                reveal_strlit("rename to ");
            }
            let pending = self.pending_rename_from.take();
            if let Some(from) = pending {
                self.current_file = Some(crate::text::copy_range(line, 10, line.len()));
                self.rename_from = Some(from);
                assert(line@.subrange(10, line@.len() as int) =~= line@.skip(10));
            } else {
                assert(self.model() == m);
            }
            return;
        }
        if crate::text::chars_start_with_str(line, "+++ b/") {
            proof {
                reveal_strlit("+++ b/");
            }
            self.flush();
            self.in_hunk = false;
            self.current_file = Some(crate::text::copy_range(line, 6, line.len()));
            assert(line@.subrange(6, line@.len() as int) =~= line@.skip(6));
            return;
        }
        if crate::text::chars_start_with_str(line, "+++ /dev/null") {
            self.flush();
            self.in_hunk = false;
            self.current_file = None;
            return;
        }
        if crate::text::chars_start_with_str(line, "@@ ") {
            proof {
                reveal_strlit("@@ ");
            }
            self.flush();
            let header = crate::text::copy_range(line, 3, line.len());
            assert(header@ =~= line@.skip(3));
            self.start_line = match parse_new_hunk_start(&header) {
                Some(n) => n,
                None => 0,
            };
            self.in_hunk = true;
            return;
        }
        if self.in_hunk && self.current_file.is_some() && crate::text::chars_start_with_str(line, "+") {
            proof {
                reveal_strlit("+");
            }
            let added = crate::text::copy_range(line, 1, line.len());
            assert(added@ =~= line@.skip(1));
            let ghost before = vec_views(self.hunk_lines@);
            self.hunk_lines.push(added);
            assert(vec_views(self.hunk_lines@) =~= before.push(line@.skip(1)));
        }
    }
}

/// The lines of `s`, as `str::lines` yields them.
fn lines_of(s: &Vec<char>) -> (out: Vec<Vec<char>>)
    ensures
        vec_views(out@) == text_lines(s@),
        out@.len() <= s@.len() + 1,
{
    let pieces = split_chars(s, '\n');
    let ghost ps = vec_views(pieces@);
    proof {
        crate::text::lemma_split_on_nonempty(s@, '\n');
        lemma_split_on_len(s@, '\n');
    }
    let kept_len = if pieces[pieces.len() - 1].len() == 0 {
        pieces.len() - 1
    } else {
        pieces.len()
    };
    let ghost kept = if ps.last().len() == 0 {
        ps.drop_last()
    } else {
        ps
    };
    let mut out: Vec<Vec<char>> = Vec::new();
    let mut i: usize = 0;
    while i < kept_len
        invariant
            i <= kept_len <= pieces@.len(),
            ps == vec_views(pieces@),
            kept_len == kept.len(),
            kept == (if ps.last().len() == 0 {
                ps.drop_last()
            } else {
                ps
            }),
            out@.len() == i,
            forall|k: int|
                0 <= k < i ==> (#[trigger] out@[k])@ == text_lines(s@)[k],
            ps == split_on(s@, '\n'),
            pieces@.len() >= 1,
        decreases kept_len - i,
    {
        let piece = &pieces[i];
        assert(kept[i as int] == piece@);
        if i < pieces.len() - 1 && piece.len() > 0 && piece[piece.len() - 1] == '\r' {
            out.push(crate::text::copy_range(piece, 0, piece.len() - 1));
            assert(piece@.subrange(0, piece@.len() - 1) =~= piece@.drop_last());
        } else {
            out.push(crate::text::copy_range(piece, 0, piece.len()));
            assert(piece@.subrange(0, piece@.len() as int) =~= piece@);
        }
        i = i + 1;
    }
    assert(vec_views(out@) =~= text_lines(s@));
    out
}

proof fn lemma_split_on_len(s: Seq<char>, sep: char)
    ensures
        split_on(s, sep).len() <= s.len() + 1,
    decreases s.len(),
{
    if s.len() > 0 {
        lemma_split_on_len(s.drop_last(), sep);
        crate::text::lemma_split_on_nonempty(s.drop_last(), sep);
    }
}

/// Each step adds at most one anchor or added line, and a flush turns added
/// lines into at most one anchor.
proof fn lemma_consumed_grows_slowly(m: ParserModel, line: Seq<char>)
    ensures
        flushed(m).anchors.len() + flushed(m).hunk_lines.len() <= m.anchors.len() + m.hunk_lines.len(),
        consumed(m, line).anchors.len() + consumed(m, line).hunk_lines.len() <= m.anchors.len()
            + m.hunk_lines.len() + 1,
{
}

/// Parses a zero-context unified diff (`git diff --unified=0`) into one change
/// anchor per hunk of added lines. Rename headers make an anchor
/// rename-durable through its pre-rename id. The same diff always gives the
/// same anchors.
pub fn parse_change_anchors(diff: &str) -> (anchors: Vec<ChangeAnchor>)
    requires
        diff@.len() < u32::MAX - 1,
    ensures
        anchors@.map_values(|a: ChangeAnchor| anchor_view(a)) == diff_anchors(diff@),
{
    let chars = chars_of(diff);
    let lines = lines_of(&chars);
    let ghost ls = vec_views(lines@);
    let mut parser = AnchorParser::new();
    let mut i: usize = 0;
    while i < lines.len()
        invariant
            i <= lines@.len(),
            lines@.len() <= diff@.len() + 1,
            diff@.len() < u32::MAX - 1,
            ls == vec_views(lines@),
            parser.model() == consumed_all(initial_model(), ls, i as int),
            parser.model().anchors.len() + parser.model().hunk_lines.len() <= i,
        decreases lines@.len() - i,
    {
        proof {
            lemma_consumed_grows_slowly(parser.model(), ls[i as int]);
        }
        assert(ls[i as int] == lines@[i as int]@);
        parser.consume(&lines[i]);
        i = i + 1;
    }
    proof {
        lemma_consumed_grows_slowly(parser.model(), Seq::empty());
    }
    parser.flush();
    parser.anchors
}

/// A consumer outside the diff that a changed file affects.
#[derive(Clone, Debug)]
pub struct CoordinationGap {
    pub changed_file: String,
    pub consumer_file: String,
}

/// Some gap links `file` to `consumer`.
pub open spec fn gap_links(gaps: Seq<CoordinationGap>, file: Seq<char>, consumer: Seq<char>) -> bool {
    exists|k: int|
        0 <= k < gaps.len() && (#[trigger] gaps[k]).changed_file@ == file && gaps[k].consumer_file@
            == consumer
}

/// Some entry of `r` is for the file `f`.
#[verifier::opaque]
pub open spec fn lists_file(r: Seq<OutOfDiff>, f: Seq<char>) -> bool {
    exists|a: int| 0 <= a < r.len() && (#[trigger] r[a]).file@ == f
}

/// Some gap is for the changed file `f`.
#[verifier::opaque]
pub open spec fn gap_file(gaps: Seq<CoordinationGap>, f: Seq<char>) -> bool {
    exists|k: int| 0 <= k < gaps.len() && (#[trigger] gaps[k]).changed_file@ == f
}

fn gap_consumers(gaps: &Vec<CoordinationGap>, file: &str) -> (r: Vec<Vec<char>>)
    ensures
        forall|c: Seq<char>| #[trigger] vec_views(r@).contains(c) <==> gap_links(gaps@, file@, c),
{
    let mut r: Vec<Vec<char>> = Vec::new();
    let mut i: usize = 0;
    while i < gaps.len()
        invariant
            i <= gaps@.len(),
            forall|c: Seq<char>|
                #[trigger] vec_views(r@).contains(c) <==> gap_links(gaps@.take(i as int), file@, c),
        decreases gaps@.len() - i,
    {
        let ghost before = vec_views(r@);
        let g = &gaps[i];
        let hit = str_eq(g.changed_file.as_str(), file);
        if hit {
            r.push(chars_of(g.consumer_file.as_str()));
            assert(vec_views(r@) =~= before.push(g.consumer_file@));
        }
        assert forall|c: Seq<char>| #[trigger] vec_views(r@).contains(c) <==> gap_links(gaps@.take(i + 1), file@, c) by {
            let t0 = gaps@.take(i as int);
            let t1 = gaps@.take(i + 1);
            if gap_links(t1, file@, c) {
                let k = choose|k: int|
                    0 <= k < t1.len() && (#[trigger] t1[k]).changed_file@ == file@ && t1[k].consumer_file@ == c;
                if k < i {
                    assert(t0[k] == t1[k]);
                    assert(gap_links(t0, file@, c));
                    assert(before.contains(c));
                    let x = choose|x: int| 0 <= x < before.len() && before[x] == c;
                    assert(vec_views(r@)[x] == c);
                } else {
                    assert(vec_views(r@)[before.len() as int] == c);
                }
            }
            if vec_views(r@).contains(c) {
                let x = choose|x: int| 0 <= x < vec_views(r@).len() && vec_views(r@)[x] == c;
                if x < before.len() {
                    assert(before[x] == c);
                    assert(before.contains(c));
                    let k = choose|k: int|
                        0 <= k < t0.len() && (#[trigger] t0[k]).changed_file@ == file@ && t0[k].consumer_file@ == c;
                    assert(t1[k] == t0[k]);
                } else {
                    assert(t1[i as int] == *g);
                }
            }
        }
        i = i + 1;
    }
    assert(gaps@.take(i as int) =~= gaps@);
    r
}

/// Each changed file of the gaps, once, with the consumers outside the diff
/// that it affects, sorted and without repeats.
pub fn out_of_diff_by_file(gaps: &Vec<CoordinationGap>) -> (r: Vec<OutOfDiff>)
    ensures
        forall|i: int, j: int| 0 <= i < j < r@.len() ==> (#[trigger] r@[i]).file@ != (#[trigger] r@[j]).file@,
        forall|k: int| 0 <= k < gaps@.len() ==> lists_file(r@, (#[trigger] gaps@[k]).changed_file@),
        forall|a: int| 0 <= a < r@.len() ==> gap_file(gaps@, (#[trigger] r@[a]).file@),
        forall|i: int|
            0 <= i < r@.len() ==> sorted_chars(string_views((#[trigger] r@[i]).consumers@))
                && string_views(r@[i].consumers@).no_duplicates(),
        forall|i: int, c: Seq<char>|
            0 <= i < r@.len() ==> (#[trigger] string_views(r@[i].consumers@).contains(c)
                <==> gap_links(gaps@, r@[i].file@, c)),
{
    let mut r: Vec<OutOfDiff> = Vec::new();
    let mut i: usize = 0;
    while i < gaps.len()
        invariant
            i <= gaps@.len(),
            forall|a: int, b: int| 0 <= a < b < r@.len() ==> (#[trigger] r@[a]).file@ != (#[trigger] r@[b]).file@,
            forall|k: int| 0 <= k < i ==> lists_file(r@, (#[trigger] gaps@[k]).changed_file@),
            forall|a: int| 0 <= a < r@.len() ==> gap_file(gaps@, (#[trigger] r@[a]).file@),
            forall|a: int|
                0 <= a < r@.len() ==> sorted_chars(string_views((#[trigger] r@[a]).consumers@))
                    && string_views(r@[a].consumers@).no_duplicates(),
            forall|a: int, c: Seq<char>|
                0 <= a < r@.len() ==> (#[trigger] string_views(r@[a].consumers@).contains(c)
                    <==> gap_links(gaps@, r@[a].file@, c)),
        decreases gaps@.len() - i,
    {
        let file = &gaps[i].changed_file;
        let mut seen: Option<usize> = None;
        let mut j: usize = 0;
        while j < r.len()
            invariant
                j <= r@.len(),
                match seen {
                    Some(a) => a < r@.len() && r@[a as int].file@ == file@,
                    None => forall|q: int| 0 <= q < j ==> (#[trigger] r@[q]).file@ != file@,
                },
            decreases r@.len() - j,
        {
            if seen.is_none() && str_eq(r[j].file.as_str(), file.as_str()) {
                seen = Some(j);
            }
            j = j + 1;
        }
        match seen {
            Some(a) => {
                assert(r@[a as int].file@ == gaps@[i as int].changed_file@);
                assert(lists_file(r@, gaps@[i as int].changed_file@)) by {
                    reveal(lists_file);
                }
            },
            None => {
                let consumers = sorted_unique_strings(gap_consumers(gaps, file.as_str()));
                let ghost before = r@;
                r.push(OutOfDiff { file: string_of(file.as_str()), consumers });
                assert(r@[before.len() as int].file@ == gaps@[i as int].changed_file@);
                assert forall|k: int| 0 <= k < i + 1 implies lists_file(r@, (#[trigger] gaps@[k]).changed_file@) by {
                    reveal(lists_file);
                    if k < i {
                        assert(lists_file(before, gaps@[k].changed_file@));
                        let a = choose|a: int|
                            0 <= a < before.len() && (#[trigger] before[a]).file@ == gaps@[k].changed_file@;
                        assert(r@[a] == before[a]);
                    } else {
                        assert(r@[before.len() as int].file@ == gaps@[k].changed_file@);
                    }
                }
                assert forall|a: int| 0 <= a < r@.len() implies gap_file(gaps@, (#[trigger] r@[a]).file@) by {
                    if a < before.len() {
                        assert(r@[a] == before[a]);
                    } else {
                        reveal(gap_file);
                        assert(r@[a].file@ == gaps@[i as int].changed_file@);
                    }
                }
            },
        }
        i = i + 1;
    }
    r
}

} // verus!
