//! The sticky PR/MR comment's marker id and comment limit.
//!
//! The marker is `plow-results`, suffixed per workspace when the run was scoped
//! with `--workspace`, so that parallel per-workspace jobs do not overwrite each
//! other's comment. An explicit `PLOW_COMMENT_ID` wins over both. The caller
//! reads the environment and hands the values in.
use vstd::prelude::*;

use crate::text::{
    chars_before, chars_of, is_alnum, push_chars, push_str, sort_char_vecs, sorted_chars,
    string_from_chars, string_of, trim, trim_chars, utf8_encode, utf8_encode_chars, vec_views,
};

verus! {

pub const FNV_OFFSET_BASIS: u64 = 0xcbf2_9ce4_8422_2325;

pub const FNV_PRIME: u64 = 0x0100_0000_01b3;

/// FNV-1a over `bytes`, with wrapping multiplication.
pub open spec fn fnv1a(bytes: Seq<u8>) -> u64
    decreases bytes.len(),
{
    if bytes.len() == 0 {
        FNV_OFFSET_BASIS
    } else {
        (fnv1a(bytes.drop_last()) ^ (bytes.last() as u64)).wrapping_mul(FNV_PRIME)
    }
}

/// The lower-case hex digit of `d` (`0 <= d < 16`).
pub open spec fn hex_lower(d: int) -> char {
    if d < 10 {
        (48 + d) as char
    } else {
        (87 + d) as char
    }
}

/// The low 24 bits of `h` as six lower-case hex digits.
pub open spec fn hex6(h: u64) -> Seq<char> {
    let v = h as int % 0x100_0000;
    seq![
        hex_lower((v / 0x10_0000) % 16),
        hex_lower((v / 0x1_0000) % 16),
        hex_lower((v / 0x1000) % 16),
        hex_lower((v / 0x100) % 16),
        hex_lower((v / 0x10) % 16),
        hex_lower(v % 16),
    ]
}

/// The six-digit hash of a string: FNV-1a of its UTF-8 bytes, low 24 bits.
pub open spec fn short_hash_of(s: Seq<char>) -> Seq<char> {
    hex6(fnv1a(utf8_encode(s)))
}

pub fn hex_digit_lower(d: u64) -> (c: char)
    requires
        d < 16,
    ensures
        c == hex_lower(d as int),
{
    match d {
        0 => '0',
        1 => '1',
        2 => '2',
        3 => '3',
        4 => '4',
        5 => '5',
        6 => '6',
        7 => '7',
        8 => '8',
        9 => '9',
        10 => 'a',
        11 => 'b',
        12 => 'c',
        13 => 'd',
        14 => 'e',
        _ => 'f',
    }
}

fn short_hex_hash_chars(value: &Vec<char>) -> (r: Vec<char>)
    ensures
        r@ == short_hash_of(value@),
{
    let bytes = utf8_encode_chars(value);
    let mut hash: u64 = FNV_OFFSET_BASIS;
    let mut i: usize = 0;
    while i < bytes.len()
        invariant
            i <= bytes@.len(),
            hash == fnv1a(bytes@.take(i as int)),
        decreases bytes@.len() - i,
    {
        hash = hash ^ (bytes[i] as u64);
        hash = hash.wrapping_mul(FNV_PRIME);
        i = i + 1;
        assert(bytes@.take(i as int).drop_last() =~= bytes@.take(i - 1));
    }
    assert(bytes@.take(i as int) =~= bytes@);
    let v = hash % 0x100_0000;
    let mut out: Vec<char> = Vec::new();
    out.push(hex_digit_lower((v / 0x10_0000) % 16));
    out.push(hex_digit_lower((v / 0x1_0000) % 16));
    out.push(hex_digit_lower((v / 0x1000) % 16));
    out.push(hex_digit_lower((v / 0x100) % 16));
    out.push(hex_digit_lower((v / 0x10) % 16));
    out.push(hex_digit_lower(v % 16));
    assert(out@ =~= hex6(hash));
    out
}

/// A six-character FNV-1a hex digest of `value`: stable across runs and
/// versions, short enough for a marker suffix.
pub fn short_hex_hash(value: &str) -> (r: String)
    ensures
        r@ == short_hash_of(value@),
{
    let chars = chars_of(value);
    let h = short_hex_hash_chars(&chars);
    string_from_chars(&h)
}

/// Characters that may stand in a marker id.
pub open spec fn marker_safe(c: char) -> bool {
    is_alnum(c) || c == '-' || c == '_' || c == '.'
}

/// `s` with each unsafe character replaced by `-`.
pub open spec fn dashed(s: Seq<char>) -> Seq<char> {
    s.map_values(|c: char|
        if marker_safe(c) {
            c
        } else {
            '-'
        })
}

/// `s` without leading `-`.
pub open spec fn strip_leading_dashes(s: Seq<char>) -> Seq<char>
    decreases s.len(),
{
    if s.len() > 0 && s[0] == '-' {
        strip_leading_dashes(s.drop_first())
    } else {
        s
    }
}

/// `s` without trailing `-`.
pub open spec fn strip_trailing_dashes(s: Seq<char>) -> Seq<char>
    decreases s.len(),
{
    if s.len() > 0 && s.last() == '-' {
        strip_trailing_dashes(s.drop_last())
    } else {
        s
    }
}

/// `s` with every run of `-` shortened to one `-`.
pub open spec fn collapsed(s: Seq<char>) -> Seq<char>
    decreases s.len(),
{
    if s.len() == 0 {
        s
    } else {
        let init = collapsed(s.drop_last());
        if s.last() == '-' && init.len() > 0 && init.last() == '-' {
            init
        } else {
            init.push(s.last())
        }
    }
}

/// A marker segment: unsafe characters become `-`, each run of `-` becomes
/// one `-` (the marker grammar reserves `--`), and the dashes at both ends
/// go.
pub open spec fn sanitized(s: Seq<char>) -> Seq<char> {
    strip_trailing_dashes(strip_leading_dashes(collapsed(dashed(s))))
}

fn is_marker_safe(c: char) -> (b: bool)
    ensures
        b == marker_safe(c),
{
    ('A' <= c && c <= 'Z') || ('a' <= c && c <= 'z') || ('0' <= c && c <= '9') || c == '-' || c
        == '_' || c == '.'
}

fn sanitize_chars(value: &Vec<char>) -> (r: Vec<char>)
    ensures
        r@ == sanitized(value@),
{
    let mut mapped: Vec<char> = Vec::new();
    let mut i: usize = 0;
    while i < value.len()
        invariant
            i <= value@.len(),
            mapped@ == collapsed(dashed(value@.take(i as int))),
        decreases value@.len() - i,
    {
        let c = value[i];
        let m = if is_marker_safe(c) {
            c
        } else {
            '-'
        };
        let ghost before = dashed(value@.take(i as int));
        assert(dashed(value@.take(i + 1)) =~= before.push(m));
        assert(before.push(m).drop_last() =~= before);
        if !(m == '-' && mapped.len() > 0 && mapped[mapped.len() - 1] == '-') {
            mapped.push(m);
        }
        i = i + 1;
    }
    assert(value@.take(i as int) =~= value@);
    let n = mapped.len();
    let mut lo: usize = 0;
    assert(mapped@.skip(0) =~= mapped@);
    while lo < n && mapped[lo] == '-'
        invariant
            lo <= n == mapped@.len(),
            strip_leading_dashes(mapped@.skip(lo as int)) == strip_leading_dashes(mapped@),
        decreases n - lo,
    {
        assert(mapped@.skip(lo as int).drop_first() =~= mapped@.skip(lo + 1));
        lo = lo + 1;
    }
    assert(strip_leading_dashes(mapped@) == mapped@.skip(lo as int));
    let mut hi: usize = n;
    while hi > lo && mapped[hi - 1] == '-'
        invariant
            lo <= hi <= n == mapped@.len(),
            strip_trailing_dashes(mapped@.subrange(lo as int, hi as int)) == strip_trailing_dashes(
                mapped@.skip(lo as int),
            ),
        decreases hi - lo,
    {
        assert(mapped@.subrange(lo as int, hi as int).drop_last() =~= mapped@.subrange(
            lo as int,
            hi - 1,
        ));
        hi = hi - 1;
    }
    assert(mapped@.subrange(lo as int, n as int) =~= mapped@.skip(lo as int));
    let mut out: Vec<char> = Vec::new();
    let mut k = lo;
    while k < hi
        invariant
            lo <= k <= hi <= n == mapped@.len(),
            out@ == mapped@.subrange(lo as int, k as int),
        decreases hi - k,
    {
        out.push(mapped[k]);
        k = k + 1;
        assert(out@ =~= mapped@.subrange(lo as int, k as int));
    }
    out
}

/// Replaces the characters that would break the HTML-comment marker
/// (`<!-- plow-id: <id> -->`) with `-`, shortens each run of `-` to one (so
/// no reserved `--` is left), then drops the dashes at both ends.
pub fn sanitize_marker_segment(value: &str) -> (r: String)
    ensures
        r@ == sanitized(value@),
{
    let chars = chars_of(value);
    let s = sanitize_chars(&chars);
    string_from_chars(&s)
}

/// The non-blank values, trimmed, in order.
pub open spec fn trimmed_nonblank(values: Seq<Seq<char>>) -> Seq<Seq<char>>
    decreases values.len(),
{
    if values.len() == 0 {
        Seq::<Seq<char>>::empty()
    } else {
        let init = trimmed_nonblank(values.drop_last());
        if trim(values.last()).len() > 0 {
            init.push(trim(values.last()))
        } else {
            init
        }
    }
}

pub open spec fn string_seq_views(v: Seq<String>) -> Seq<Seq<char>> {
    v.map_values(|x: String| x@)
}

/// The marker a `--workspace` selection gives: none for an empty selection,
/// the single name itself, or `w-` and the short hash of the sorted names
/// joined with `,`.
pub open spec fn is_marker_for(values: Seq<Seq<char>>, marker: Option<Seq<char>>) -> bool {
    let t = trimmed_nonblank(values);
    if t.len() == 0 {
        marker is None
    } else if t.len() == 1 {
        marker == Some(t[0])
    } else {
        exists|p: Seq<Seq<char>>|
            #![trigger sorted_chars(p)]
            p.to_multiset() == t.to_multiset() && sorted_chars(p) && marker == Some(
                "w-"@ + short_hash_of(crate::text::joined_seq(p, ',')),
            )
    }
}

/// The workspace marker, set at most once per run.
pub struct WorkspaceMarker {
    pub value: Option<String>,
}

impl WorkspaceMarker {
    /// No marker set yet.
    pub fn new() -> (m: Self)
        ensures
            m.value is None,
    {
        WorkspaceMarker { value: None }
    }

    /// Sets the marker from a `--workspace` selection list, unless it is set
    /// already or the selection is empty.
    pub fn set_workspace_marker_from_list(&mut self, values: &Vec<String>)
        ensures
            old(self).value is Some ==> final(self).value == old(self).value,
            old(self).value is None ==> is_marker_for(
                string_seq_views(values@),
                match final(self).value {
                    Some(v) => Some(v@),
                    None => None,
                },
            ),
    {
        if self.value.is_some() {
            return;
        }
        let ghost views = string_seq_views(values@);
        let mut trimmed: Vec<Vec<char>> = Vec::new();
        let mut i: usize = 0;
        while i < values.len()
            invariant
                i <= values@.len(),
                views == string_seq_views(values@),
                vec_views(trimmed@) == trimmed_nonblank(views.take(i as int)),
            decreases values@.len() - i,
        {
            let t = trim_chars(&chars_of(values[i].as_str()));
            let ghost before = vec_views(trimmed@);
            proof {
                assert(views.take(i + 1).drop_last() =~= views.take(i as int));
                assert(views.take(i + 1).last() == values@[i as int]@);
            }
            if t.len() > 0 {
                let ghost tv = t@;
                trimmed.push(t);
                assert(vec_views(trimmed@) =~= before.push(tv));
            }
            i = i + 1;
        }
        assert(views.take(i as int) =~= views);
        if trimmed.len() == 0 {
            return;
        }
        if trimmed.len() == 1 {
            self.value = Some(string_from_chars(&trimmed[0]));
            return;
        }
        let sorted = sort_char_vecs(trimmed);
        let joined = crate::text::join_char_vecs(&sorted, ',');
        let hash = short_hex_hash_chars(&joined);
        let mut marker = chars_of("w-");
        push_chars(&mut marker, &hash);
        self.value = Some(string_from_chars(&marker));
        assert(sorted_chars(vec_views(sorted@)));
    }

    /// The sticky-comment marker id. An explicit, non-blank comment id wins;
    /// else `plow-results`, suffixed with the sanitised workspace marker when
    /// one is set and not blank.
    pub fn sticky_marker_id(&self, comment_id: Option<&str>) -> (id: String)
        ensures
            id@ == sticky_marker_of(
                match comment_id {
                    Some(c) => Some(c@),
                    None => None,
                },
                match self.value {
                    Some(v) => Some(v@),
                    None => None,
                },
            ),
    {
        if let Some(v) = comment_id {
            let t = trim_chars(&chars_of(v));
            if t.len() > 0 {
                return string_of(v);
            }
        }
        if let Some(w) = &self.value {
            let t = trim_chars(&chars_of(w.as_str()));
            if t.len() > 0 {
                let s = sanitize_chars(&t);
                let mut out = chars_of("plow-results-");
                push_chars(&mut out, &s);
                return string_from_chars(&out);
            }
        }
        string_of("plow-results")
    }
}

/// The sticky-comment marker id, from an explicit comment id and the
/// workspace marker.
pub open spec fn sticky_marker_of(comment_id: Option<Seq<char>>, workspace: Option<Seq<char>>) -> Seq<
    char,
> {
    if comment_id is Some && trim(comment_id->0).len() > 0 {
        comment_id->0
    } else if workspace is Some && trim(workspace->0).len() > 0 {
        "plow-results-"@ + sanitized(trim(workspace->0))
    } else {
        "plow-results"@
    }
}

/// The value of a run of decimal digits.
pub open spec fn digits_value(d: Seq<char>) -> nat
    decreases d.len(),
{
    if d.len() == 0 {
        0
    } else {
        digits_value(d.drop_last()) * 10 + (d.last() as int - 48) as nat
    }
}

pub open spec fn all_digits(d: Seq<char>) -> bool {
    forall|k: int| 0 <= k < d.len() ==> #[trigger] crate::text::is_digit(d[k])
}

/// What `usize::from_str` accepts: an optional `+`, then one or more ASCII
/// digits whose value fits in `usize`.
pub open spec fn parsed_usize(s: Seq<char>) -> Option<nat> {
    let d = if s.len() > 0 && s[0] == '+' {
        s.drop_first()
    } else {
        s
    };
    if d.len() > 0 && all_digits(d) && digits_value(d) <= usize::MAX {
        Some(digits_value(d))
    } else {
        None
    }
}

proof fn lemma_digits_value_grows(d: Seq<char>, k: int)
    requires
        0 <= k <= d.len(),
        all_digits(d),
    ensures
        digits_value(d.take(k)) <= digits_value(d),
    decreases d.len() - k,
{
    if k < d.len() {
        lemma_digits_value_grows(d, k + 1);
        assert(d.take(k + 1).drop_last() =~= d.take(k));
        assert(crate::text::is_digit(d[k]));
    } else {
        assert(d.take(k) =~= d);
    }
}

/// Parses an unsigned decimal as `usize::from_str` does.
pub fn parse_usize(s: &str) -> (r: Option<usize>)
    ensures
        match r {
            Some(v) => parsed_usize(s@) == Some(v as nat),
            None => parsed_usize(s@) is None,
        },
{
    let c = chars_of(s);
    let start: usize = if c.len() > 0 && c[0] == '+' {
        1
    } else {
        0
    };
    let ghost d = if s@.len() > 0 && s@[0] == '+' {
        s@.drop_first()
    } else {
        s@
    };
    assert(d =~= c@.skip(start as int));
    if start >= c.len() {
        return None;
    }
    let mut value: usize = 0;
    let mut k = start;
    while k < c.len()
        invariant
            start <= k <= c@.len(),
            c@ == s@,
            d == c@.skip(start as int),
            d == (if s@.len() > 0 && s@[0] == '+' {
                s@.drop_first()
            } else {
                s@
            }),
            all_digits(c@.subrange(start as int, k as int)),
            value == digits_value(c@.subrange(start as int, k as int)),
        decreases c@.len() - k,
    {
        let ch = c[k];
        assert(c@.subrange(start as int, k + 1).drop_last() =~= c@.subrange(start as int, k as int));
        if !('0' <= ch && ch <= '9') {
            assert(d[k - start] == ch);
            assert(!crate::text::is_digit(d[k - start]));
            return None;
        }
        let digit = (ch as u32 - 48) as usize;
        let next = match value.checked_mul(10) {
            Some(v) => v.checked_add(digit),
            None => None,
        };
        match next {
            Some(v) => {
                value = v;
            },
            None => {
                proof {
                    let p = c@.subrange(start as int, k + 1);
                    assert(p.drop_last() =~= c@.subrange(start as int, k as int));
                    assert(p.last() == ch);
                    assert(digits_value(p) == value * 10 + (ch as int - 48));
                    assert(digits_value(p) > usize::MAX);
                    if all_digits(d) {
                        assert(d.take(k + 1 - start) =~= p);
                        lemma_digits_value_grows(d, k + 1 - start);
                    }
                }
                return None;
            },
        }
        k = k + 1;
    }
    assert(c@.subrange(start as int, k as int) =~= d);
    Some(value)
}

/// The most inline comments to post: the configured value when it parses,
/// else 50.
pub fn max_comments(configured: Option<&str>) -> (n: usize)
    ensures
        n == match configured {
            Some(v) => match parsed_usize(v@) {
                Some(x) => x,
                None => 50,
            },
            None => 50,
        },
{
    match configured {
        Some(v) => match parse_usize(v) {
            Some(x) => x,
            None => 50,
        },
        None => 50,
    }
}


/// Whether `c` is a lower-case hex digit.
pub open spec fn is_lower_hex(c: char) -> bool {
    (48 <= c as int <= 57) || (97 <= c as int <= 102)
}

proof fn lemma_hex_lower_digit(d: int)
    requires
        0 <= d < 16,
    ensures
        is_lower_hex(hex_lower(d)),
{
}

/// A short hash is six lower-case hex digits, whatever the input.
pub proof fn lemma_short_hash_is_six_hex_digits(s: Seq<char>)
    ensures
        short_hash_of(s).len() == 6,
        forall|i: int| 0 <= i < 6 ==> is_lower_hex(#[trigger] short_hash_of(s)[i]),
{
    let v = fnv1a(utf8_encode(s)) as int % 0x100_0000;
    lemma_hex_lower_digit((v / 0x10_0000) % 16);
    lemma_hex_lower_digit((v / 0x1_0000) % 16);
    lemma_hex_lower_digit((v / 0x1000) % 16);
    lemma_hex_lower_digit((v / 0x100) % 16);
    lemma_hex_lower_digit((v / 0x10) % 16);
    lemma_hex_lower_digit(v % 16);
}

proof fn lemma_strip_leading(t: Seq<char>)
    ensures
        exists|k: int| 0 <= k <= t.len() && strip_leading_dashes(t) == #[trigger] t.skip(k),
        strip_leading_dashes(t).len() > 0 ==> strip_leading_dashes(t)[0] != '-',
    decreases t.len(),
{
    if t.len() > 0 && t[0] == '-' {
        lemma_strip_leading(t.drop_first());
        let k = choose|k: int| 0 <= k <= t.drop_first().len() && strip_leading_dashes(t.drop_first()) == #[trigger] t.drop_first().skip(k);
        assert(t.drop_first().skip(k) =~= t.skip(k + 1));
    } else {
        assert(t.skip(0) =~= t);
    }
}

proof fn lemma_strip_trailing(t: Seq<char>)
    ensures
        exists|k: int| 0 <= k <= t.len() && strip_trailing_dashes(t) == #[trigger] t.take(k),
        strip_trailing_dashes(t).len() > 0 ==> strip_trailing_dashes(t).last() != '-',
    decreases t.len(),
{
    if t.len() > 0 && t.last() == '-' {
        lemma_strip_trailing(t.drop_last());
        let k = choose|k: int| 0 <= k <= t.drop_last().len() && strip_trailing_dashes(t.drop_last()) == #[trigger] t.drop_last().take(k);
        assert(t.drop_last().take(k) =~= t.take(k));
    } else {
        assert(t.take(t.len() as int) =~= t);
    }
}

proof fn lemma_collapsed(t: Seq<char>)
    requires
        forall|i: int| 0 <= i < t.len() ==> marker_safe(#[trigger] t[i]),
    ensures
        forall|i: int| 0 <= i < collapsed(t).len() ==> marker_safe(#[trigger] collapsed(t)[i]),
        forall|i: int| 0 <= i < collapsed(t).len() - 1 ==> !(#[trigger] collapsed(t)[i] == '-' && collapsed(t)[i + 1] == '-'),
    decreases t.len(),
{
    if t.len() > 0 {
        let init = t.drop_last();
        assert forall|i: int| 0 <= i < init.len() implies marker_safe(#[trigger] init[i]) by {
            assert(init[i] == t[i]);
        }
        lemma_collapsed(init);
        let ci = collapsed(init);
        let c = t.last();
        assert(marker_safe(c));
        if !(c == '-' && ci.len() > 0 && ci.last() == '-') {
            let r = ci.push(c);
            assert(collapsed(t) == r);
            assert forall|i: int| 0 <= i < r.len() implies marker_safe(#[trigger] r[i]) by {
                if i < ci.len() {
                    assert(r[i] == ci[i]);
                }
            }
            assert forall|i: int| 0 <= i < r.len() - 1 implies !(#[trigger] r[i] == '-' && r[i + 1] == '-') by {
                assert(r[i] == ci[i]);
                if i + 1 < ci.len() {
                    assert(r[i + 1] == ci[i + 1]);
                } else {
                    assert(i == ci.len() - 1);
                }
            }
        } else {
            assert(collapsed(t) == ci);
        }
    }
}

/// A sanitized marker segment holds only marker-safe characters, holds no
/// `--`, and neither begins nor ends with `-`.
pub proof fn lemma_sanitized_is_marker_safe(s: Seq<char>)
    ensures
        forall|i: int| 0 <= i < sanitized(s).len() ==> marker_safe(#[trigger] sanitized(s)[i]),
        forall|i: int| 0 <= i < sanitized(s).len() - 1 ==> !(#[trigger] sanitized(s)[i] == '-' && sanitized(s)[i + 1] == '-'),
        sanitized(s).len() > 0 ==> sanitized(s)[0] != '-' && sanitized(s).last() != '-',
{
    let dd = dashed(s);
    assert forall|i: int| 0 <= i < dd.len() implies marker_safe(#[trigger] dd[i]) by {}
    lemma_collapsed(dd);
    let d = collapsed(dd);
    let l = strip_leading_dashes(d);
    lemma_strip_leading(d);
    lemma_strip_trailing(l);
    let k1 = choose|k: int| 0 <= k <= d.len() && l == #[trigger] d.skip(k);
    let k2 = choose|k: int| 0 <= k <= l.len() && sanitized(s) == #[trigger] l.take(k);
    assert forall|i: int| 0 <= i < sanitized(s).len() implies marker_safe(#[trigger] sanitized(s)[i]) by {
        assert(sanitized(s)[i] == d[i + k1]);
    }
    assert forall|i: int| 0 <= i < sanitized(s).len() - 1 implies !(#[trigger] sanitized(s)[i] == '-' && sanitized(s)[i + 1] == '-') by {
        assert(sanitized(s)[i] == d[i + k1]);
        assert(sanitized(s)[i + 1] == d[i + 1 + k1]);
    }
    if sanitized(s).len() > 0 {
        assert(sanitized(s)[0] == l[0]);
    }
}


proof fn lemma_sorted_chars_unique(p: Seq<Seq<char>>, q: Seq<Seq<char>>)
    requires
        sorted_chars(p),
        sorted_chars(q),
        p.to_multiset() == q.to_multiset(),
    ensures
        p == q,
    decreases p.len(),
{
    broadcast use vstd::seq_lib::group_to_multiset_ensures;

    assert(p.len() == p.to_multiset().len());
    assert(q.len() == q.to_multiset().len());
    if p.len() > 0 {
        assert(p.contains(p[0]));
        assert(p.to_multiset().count(p[0]) > 0);
        assert(q.contains(p[0]));
        let j = choose|j: int| 0 <= j < q.len() && q[j] == p[0];
        assert(q.contains(q[0]));
        assert(q.to_multiset().count(q[0]) > 0);
        assert(p.contains(q[0]));
        let i = choose|i: int| 0 <= i < p.len() && p[i] == q[0];
        crate::text::lemma_chars_before_irreflexive(p[0]);
        crate::text::lemma_chars_before_irreflexive(q[0]);
        if j > 0 {
            assert(!chars_before(q[j], q[0]));
        }
        if i > 0 {
            assert(!chars_before(p[i], p[0]));
        }
        crate::text::lemma_chars_before_total(p[0], q[0]);
        assert(p.remove(0) =~= p.drop_first());
        assert(q.remove(0) =~= q.drop_first());
        assert(p.remove(0).to_multiset() == p.to_multiset().remove(p[0]));
        assert(q.remove(0).to_multiset() == q.to_multiset().remove(q[0]));
        let pd = p.drop_first();
        let qd = q.drop_first();
        assert(sorted_chars(pd)) by {
            assert forall|a: int, b: int| 0 <= a < b < pd.len() implies !chars_before(#[trigger] pd[b], #[trigger] pd[a]) by {
                assert(pd[a] == p[a + 1] && pd[b] == p[b + 1]);
            }
        }
        assert(sorted_chars(qd)) by {
            assert forall|a: int, b: int| 0 <= a < b < qd.len() implies !chars_before(#[trigger] qd[b], #[trigger] qd[a]) by {
                assert(qd[a] == q[a + 1] && qd[b] == q[b + 1]);
            }
        }
        lemma_sorted_chars_unique(pd, qd);
        assert(p =~= q) by {
            assert forall|k: int| 0 <= k < p.len() implies p[k] == q[k] by {
                if k > 0 {
                    assert(p[k] == pd[k - 1] && q[k] == qd[k - 1]);
                }
            }
        }
    } else {
        assert(p =~= q);
    }
}

/// The workspace marker depends on which names were selected, not on the
/// order they were given in: selections whose trimmed, non-blank names form
/// the same multiset give the same marker.
pub proof fn lemma_marker_ignores_selection_order(
    v1: Seq<Seq<char>>,
    v2: Seq<Seq<char>>,
    m1: Option<Seq<char>>,
    m2: Option<Seq<char>>,
)
    requires
        trimmed_nonblank(v1).to_multiset() == trimmed_nonblank(v2).to_multiset(),
        is_marker_for(v1, m1),
        is_marker_for(v2, m2),
    ensures
        m1 == m2,
{
    let t1 = trimmed_nonblank(v1);
    let t2 = trimmed_nonblank(v2);
    vstd::seq_lib::to_multiset_len(t1);
    vstd::seq_lib::to_multiset_len(t2);
    if t1.len() == 1 {
        assert(t1.contains(t1[0]));
        vstd::seq_lib::to_multiset_contains(t1, t1[0]);
        vstd::seq_lib::to_multiset_contains(t2, t1[0]);
        assert(t2.contains(t1[0]));
    } else if t1.len() > 1 {
        let p1 = choose|p: Seq<Seq<char>>|
            #![trigger sorted_chars(p)]
            p.to_multiset() == t1.to_multiset() && sorted_chars(p) && m1 == Some(
                "w-"@ + short_hash_of(crate::text::joined_seq(p, ',')),
            );
        let p2 = choose|p: Seq<Seq<char>>|
            #![trigger sorted_chars(p)]
            p.to_multiset() == t2.to_multiset() && sorted_chars(p) && m2 == Some(
                "w-"@ + short_hash_of(crate::text::joined_seq(p, ',')),
            );
        lemma_sorted_chars_unique(p1, p2);
    }
}

} // verus!
