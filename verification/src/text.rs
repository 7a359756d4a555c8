//! Character-level text helpers shared by the scanners and parsers.
use vstd::prelude::*;

verus! {

/// Collects the characters of `s` in order.
pub fn chars_of(s: &str) -> (out: Vec<char>)
    ensures
        out@ == s@,
{
    let mut out: Vec<char> = Vec::new();
    for c in it: s.chars()
        invariant
            out@ == it.seq().take(it.index() as int),
            it.seq() == s@,
    {
        out.push(c);
    }
    out
}

/// Builds a `String` holding exactly `chars`.
///
/// Calls `String::from_iter`; assumed to yield the characters in order.
#[verifier::external_body]
pub(crate) fn string_from_chars(chars: &Vec<char>) -> (s: String)
    ensures
        s@ == chars@,
{
    String::from_iter(chars.iter())
}

/// Copies `s` into a `String` (vstd specifies `String::from_str`).
pub fn string_of(s: &str) -> (out: String)
    ensures
        out@ == s@,
{
    String::from_str(s)
}

/// Unicode `White_Space`, the set that `char::is_whitespace` tests.
pub open spec fn is_ws(c: char) -> bool {
    ||| '\u{9}' <= c <= '\u{d}'
    ||| c == ' '
    ||| c == '\u{85}'
    ||| c == '\u{a0}'
    ||| c == '\u{1680}'
    ||| '\u{2000}' <= c <= '\u{200a}'
    ||| c == '\u{2028}'
    ||| c == '\u{2029}'
    ||| c == '\u{202f}'
    ||| c == '\u{205f}'
    ||| c == '\u{3000}'
}

pub fn is_whitespace(c: char) -> (b: bool)
    ensures
        b == is_ws(c),
{
    ('\u{9}' <= c && c <= '\u{d}') || c == ' ' || c == '\u{85}' || c == '\u{a0}' || c
        == '\u{1680}' || ('\u{2000}' <= c && c <= '\u{200a}') || c == '\u{2028}' || c
        == '\u{2029}' || c == '\u{202f}' || c == '\u{205f}' || c == '\u{3000}'
}

pub open spec fn is_digit(c: char) -> bool {
    '0' <= c <= '9'
}

pub open spec fn is_upper(c: char) -> bool {
    'A' <= c <= 'Z'
}

pub open spec fn is_lower(c: char) -> bool {
    'a' <= c <= 'z'
}

pub open spec fn is_alpha(c: char) -> bool {
    is_upper(c) || is_lower(c)
}

pub open spec fn is_alnum(c: char) -> bool {
    is_alpha(c) || is_digit(c)
}

pub open spec fn is_hex(c: char) -> bool {
    is_digit(c) || ('a' <= c <= 'f') || ('A' <= c <= 'F')
}

pub fn is_ascii_digit(c: char) -> (b: bool)
    ensures
        b == is_digit(c),
{
    '0' <= c && c <= '9'
}

pub fn is_ascii_alpha(c: char) -> (b: bool)
    ensures
        b == is_alpha(c),
{
    ('A' <= c && c <= 'Z') || ('a' <= c && c <= 'z')
}

pub fn is_ascii_alnum(c: char) -> (b: bool)
    ensures
        b == is_alnum(c),
{
    is_ascii_alpha(c) || is_ascii_digit(c)
}

pub fn is_ascii_hex(c: char) -> (b: bool)
    ensures
        b == is_hex(c),
{
    is_ascii_digit(c) || ('a' <= c && c <= 'f') || ('A' <= c && c <= 'F')
}

/// ASCII lower-casing of one character; other characters are unchanged.
pub open spec fn lower(c: char) -> char {
    if is_upper(c) {
        ((c as u32) + 32) as char
    } else {
        c
    }
}

pub open spec fn lower_seq(s: Seq<char>) -> Seq<char> {
    s.map_values(|c: char| lower(c))
}

pub fn to_lower(c: char) -> (r: char)
    ensures
        r == lower(c),
{
    if 'A' <= c && c <= 'Z' {
        let v = (c as u32) + 32;
        assert(0x61 <= v <= 0x7a);
        char_from_ascii(v)
    } else {
        c
    }
}

/// The character with the given ASCII code.
fn char_from_ascii(v: u32) -> (c: char)
    requires
        v < 0x80,
    ensures
        c == v as char,
{
    let b: u8 = v as u8;
    b as char
}

/// Lower-cases the ASCII letters of `s[from..to]`.
pub fn lower_range(s: &Vec<char>, from: usize, to: usize) -> (out: Vec<char>)
    requires
        from <= to <= s@.len(),
    ensures
        out@ == lower_seq(s@.subrange(from as int, to as int)),
{
    let mut out: Vec<char> = Vec::new();
    let mut i = from;
    while i < to
        invariant
            from <= i <= to <= s@.len(),
            out@ == lower_seq(s@.subrange(from as int, i as int)),
        decreases to - i,
    {
        out.push(to_lower(s[i]));
        i = i + 1;
        assert(lower_seq(s@.subrange(from as int, i as int)) =~= lower_seq(
            s@.subrange(from as int, i - 1),
        ).push(lower(s@[i - 1])));
    }
    out
}

/// Copies `s[from..to]`.
pub fn copy_range(s: &Vec<char>, from: usize, to: usize) -> (out: Vec<char>)
    requires
        from <= to <= s@.len(),
    ensures
        out@ == s@.subrange(from as int, to as int),
{
    let mut out: Vec<char> = Vec::new();
    let mut i = from;
    while i < to
        invariant
            from <= i <= to <= s@.len(),
            out@ == s@.subrange(from as int, i as int),
        decreases to - i,
    {
        out.push(s[i]);
        i = i + 1;
        assert(s@.subrange(from as int, i as int) =~= s@.subrange(from as int, i - 1).push(
            s@[i - 1],
        ));
    }
    out
}

/// `p` occurs in `s` at position `i`.
pub open spec fn occurs_at(s: Seq<char>, i: int, p: Seq<char>) -> bool {
    0 <= i && i + p.len() <= s.len() && s.subrange(i, i + p.len()) =~= p
}

pub open spec fn starts_with(s: Seq<char>, p: Seq<char>) -> bool {
    occurs_at(s, 0, p)
}

pub open spec fn ends_with(s: Seq<char>, p: Seq<char>) -> bool {
    p.len() <= s.len() && occurs_at(s, s.len() - p.len(), p)
}

pub open spec fn contains_seq(s: Seq<char>, p: Seq<char>) -> bool {
    exists|i: int| #[trigger] occurs_at(s, i, p)
}

pub fn matches_at(s: &Vec<char>, i: usize, p: &Vec<char>) -> (b: bool)
    ensures
        b == occurs_at(s@, i as int, p@),
{
    if i > s.len() || p.len() > s.len() - i {
        return false;
    }
    let mut j: usize = 0;
    while j < p.len()
        invariant
            i + p.len() <= s.len(),
            j <= p@.len(),
            forall|x: int| 0 <= x < j ==> s@[i + x] == p@[x],
        decreases p@.len() - j,
    {
        let k: usize = i + j;
        if s[k] != p[j] {
            assert(s@.subrange(i as int, i + p@.len())[j as int] != p@[j as int]);
            return false;
        }
        j = j + 1;
    }
    assert(s@.subrange(i as int, i + p@.len()) =~= p@);
    true
}

pub fn has_prefix(s: &Vec<char>, p: &Vec<char>) -> (b: bool)
    ensures
        b == starts_with(s@, p@),
{
    matches_at(s, 0, p)
}

pub fn has_suffix(s: &Vec<char>, p: &Vec<char>) -> (b: bool)
    ensures
        b == ends_with(s@, p@),
{
    if p.len() > s.len() {
        return false;
    }
    matches_at(s, s.len() - p.len(), p)
}

pub fn has_infix(s: &Vec<char>, p: &Vec<char>) -> (b: bool)
    ensures
        b == contains_seq(s@, p@),
{
    if p.len() > s.len() {
        assert forall|i: int| !occurs_at(s@, i, p@) by {}
        return false;
    }
    let mut i: usize = 0;
    while i <= s.len() - p.len()
        invariant
            p@.len() <= s@.len(),
            i <= s@.len() - p@.len() + 1,
            forall|x: int| 0 <= x < i ==> !occurs_at(s@, x, p@),
        decreases s@.len() - p@.len() + 1 - i,
    {
        if matches_at(s, i, p) {
            return true;
        }
        i = i + 1;
    }
    assert forall|x: int| !occurs_at(s@, x, p@) by {
        if 0 <= x < i {
        }
    }
    false
}

/// Whether `c` occurs in `s`.
pub fn has_char(s: &Vec<char>, c: char) -> (b: bool)
    ensures
        b == s@.contains(c),
{
    let mut i: usize = 0;
    while i < s.len()
        invariant
            i <= s@.len(),
            forall|x: int| 0 <= x < i ==> s@[x] != c,
        decreases s@.len() - i,
    {
        if s[i] == c {
            return true;
        }
        i = i + 1;
    }
    false
}

/// The character views of a sequence of string slices.
pub open spec fn views(s: Seq<&str>) -> Seq<Seq<char>> {
    s.map_values(|x: &str| x@)
}

/// The character views of a sequence of owned strings.
pub open spec fn string_views(s: Seq<String>) -> Seq<Seq<char>> {
    s.map_values(|x: String| x@)
}

/// Owned copies of `items`, in order.
pub fn strings_of(items: &[&str]) -> (out: Vec<String>)
    ensures
        string_views(out@) == views(items@),
{
    let mut out: Vec<String> = Vec::new();
    let mut i: usize = 0;
    while i < items.len()
        invariant
            i <= items@.len(),
            out@.len() == i,
            forall|k: int| 0 <= k < i ==> (#[trigger] out@[k])@ == items@[k]@,
        decreases items@.len() - i,
    {
        out.push(String::from_str(items[i]));
        i = i + 1;
    }
    assert(string_views(out@) =~= views(items@));
    out
}

/// Whether `s` begins with `p`.
pub fn str_starts_with(s: &str, p: &str) -> (b: bool)
    ensures
        b == starts_with(s@, p@),
{
    let sc = chars_of(s);
    let pc = chars_of(p);
    has_prefix(&sc, &pc)
}

/// Whether `s` ends with `p`.
pub fn str_ends_with(s: &str, p: &str) -> (b: bool)
    ensures
        b == ends_with(s@, p@),
{
    let sc = chars_of(s);
    let pc = chars_of(p);
    has_suffix(&sc, &pc)
}

/// Whether `p` occurs somewhere in `s`.
pub fn str_contains(s: &str, p: &str) -> (b: bool)
    ensures
        b == contains_seq(s@, p@),
{
    let sc = chars_of(s);
    let pc = chars_of(p);
    has_infix(&sc, &pc)
}

/// Whether `a` and `b` hold the same characters.
pub fn str_eq(a: &str, b: &str) -> (r: bool)
    ensures
        r == (a@ == b@),
{
    let ac = chars_of(a);
    let bc = chars_of(b);
    if ac.len() != bc.len() {
        return false;
    }
    let r = matches_at(&ac, 0, &bc);
    proof {
        if r {
            assert(ac@ =~= ac@.subrange(0, bc@.len() as int));
        }
    }
    r
}


/// Whether `a` holds exactly the characters of `b`.
pub fn chars_eq_str(a: &Vec<char>, b: &str) -> (r: bool)
    ensures
        r == (a@ == b@),
{
    let bc = chars_of(b);
    if a.len() != bc.len() {
        return false;
    }
    let r = matches_at(a, 0, &bc);
    proof {
        if r {
            assert(a@ =~= a@.subrange(0, bc@.len() as int));
        }
    }
    r
}

/// Whether `a` ends with the characters of `p`.
pub fn chars_end_with_str(a: &Vec<char>, p: &str) -> (r: bool)
    ensures
        r == ends_with(a@, p@),
{
    let pc = chars_of(p);
    has_suffix(a, &pc)
}

/// Whether `a` begins with the characters of `p`.
pub fn chars_start_with_str(a: &Vec<char>, p: &str) -> (r: bool)
    ensures
        r == starts_with(a@, p@),
{
    let pc = chars_of(p);
    has_prefix(a, &pc)
}

/// Whether `p` occurs in `a`.
pub fn chars_contain_str(a: &Vec<char>, p: &str) -> (r: bool)
    ensures
        r == contains_seq(a@, p@),
{
    let pc = chars_of(p);
    has_infix(a, &pc)
}

/// Number of leading whitespace characters of `s`.
pub open spec fn lead_ws(s: Seq<char>) -> int
    decreases s.len(),
{
    if s.len() > 0 && is_ws(s[0]) {
        1 + lead_ws(s.drop_first())
    } else {
        0
    }
}

/// Number of trailing whitespace characters of `s`.
pub open spec fn trail_ws(s: Seq<char>) -> int
    decreases s.len(),
{
    if s.len() > 0 && is_ws(s.last()) {
        1 + trail_ws(s.drop_last())
    } else {
        0
    }
}

/// `s` without leading and trailing whitespace, as `str::trim` returns it.
pub open spec fn trim(s: Seq<char>) -> Seq<char> {
    let t = s.skip(lead_ws(s));
    t.take(t.len() - trail_ws(t))
}

pub proof fn lemma_lead_ws(s: Seq<char>)
    ensures
        0 <= lead_ws(s) <= s.len(),
        forall|i: int| 0 <= i < lead_ws(s) ==> is_ws(#[trigger] s[i]),
        lead_ws(s) < s.len() ==> !is_ws(s[lead_ws(s)]),
    decreases s.len(),
{
    if s.len() > 0 && is_ws(s[0]) {
        lemma_lead_ws(s.drop_first());
        assert forall|i: int| 0 <= i < lead_ws(s) implies is_ws(#[trigger] s[i]) by {
            if i > 0 {
                assert(s[i] == s.drop_first()[i - 1]);
            }
        }
    }
}

pub proof fn lemma_trail_ws(s: Seq<char>)
    ensures
        0 <= trail_ws(s) <= s.len(),
        forall|i: int| s.len() - trail_ws(s) <= i < s.len() ==> is_ws(#[trigger] s[i]),
        trail_ws(s) < s.len() ==> !is_ws(s[s.len() - 1 - trail_ws(s)]),
    decreases s.len(),
{
    if s.len() > 0 && is_ws(s.last()) {
        lemma_trail_ws(s.drop_last());
        assert forall|i: int| s.len() - trail_ws(s) <= i < s.len() implies is_ws(
            #[trigger] s[i],
        ) by {
            if i < s.len() - 1 {
                assert(s[i] == s.drop_last()[i]);
            }
        }
    }
}

/// Bounds `[lo, hi)` of the trimmed part of `s[from..to]`.
pub fn trim_bounds(s: &Vec<char>, from: usize, to: usize) -> (r: (usize, usize))
    requires
        from <= to <= s@.len(),
    ensures
        from <= r.0 <= r.1 <= to,
        s@.subrange(r.0 as int, r.1 as int) == trim(s@.subrange(from as int, to as int)),
{
    let ghost seg = s@.subrange(from as int, to as int);
    let mut lo = from;
    while lo < to && is_whitespace(s[lo])
        invariant
            from <= lo <= to <= s@.len(),
            seg == s@.subrange(from as int, to as int),
            forall|i: int| from <= i < lo ==> is_ws(#[trigger] s@[i]),
        decreases to - lo,
    {
        lo = lo + 1;
    }
    proof {
        lemma_lead_ws(seg);
        let l = lead_ws(seg);
        if l < lo - from {
            assert(seg[l] == s@[from + l]);
        }
        if l > lo - from {
            assert(seg[lo - from] == s@[lo as int]);
        }
        assert(l == lo - from);
    }
    let ghost t = seg.skip(lo - from);
    assert(t =~= s@.subrange(lo as int, to as int));
    let mut hi = to;
    while hi > lo && is_whitespace(s[hi - 1])
        invariant
            from <= lo <= hi <= to <= s@.len(),
            forall|i: int| hi <= i < to ==> is_ws(#[trigger] s@[i]),
        decreases hi - lo,
    {
        hi = hi - 1;
    }
    proof {
        lemma_trail_ws(t);
        let tr = trail_ws(t);
        let len = t.len();
        if tr < to - hi {
            assert(t[len - 1 - tr] == s@[to - 1 - tr]);
        }
        if tr > to - hi {
            assert(t[len - 1 - (to - hi)] == s@[hi - 1]);
        }
        assert(tr == to - hi);
        assert(s@.subrange(lo as int, hi as int) =~= t.take(t.len() - tr));
    }
    (lo, hi)
}

/// Appends the characters of `s` to `out`.
pub fn push_str(out: &mut Vec<char>, s: &str)
    ensures
        final(out)@ == old(out)@ + s@,
{
    let c = chars_of(s);
    push_chars(out, &c);
}

/// Appends `s` to `out`.
pub fn push_chars(out: &mut Vec<char>, s: &Vec<char>)
    ensures
        final(out)@ == old(out)@ + s@,
{
    let ghost start = out@;
    let mut i: usize = 0;
    while i < s.len()
        invariant
            i <= s@.len(),
            out@ == start + s@.take(i as int),
        decreases s@.len() - i,
    {
        out.push(s[i]);
        i = i + 1;
        assert(s@.take(i as int) =~= s@.take(i - 1).push(s@[i - 1]));
    }
    assert(s@.take(i as int) =~= s@);
}

/// `s` without its leading and trailing whitespace.
pub fn trim_chars(s: &Vec<char>) -> (r: Vec<char>)
    ensures
        r@ == trim(s@),
{
    let (lo, hi) = trim_bounds(s, 0, s.len());
    assert(s@.subrange(0, s@.len() as int) =~= s@);
    copy_range(s, lo, hi)
}

/// The character of the decimal digit `d`.
pub open spec fn digit_char(d: int) -> char {
    (48 + d) as char
}

/// The decimal numeral of `n`, without leading zeros.
pub open spec fn decimal(n: nat) -> Seq<char>
    decreases n,
{
    if n < 10 {
        seq![digit_char(n as int)]
    } else {
        decimal(n / 10).push(digit_char((n % 10) as int))
    }
}

/// The character of the decimal digit `d`.
fn digit(d: u64) -> (c: char)
    requires
        d < 10,
    ensures
        c == digit_char(d as int),
{
    match d {
        0 => '0',
        1 => '1',
        2 => '2',
        3 => '3',
        4 => '4',
        5 => '5',
        6 => '6',
        7 => '7',
        8 => '8',
        _ => '9',
    }
}

/// The decimal numeral of `n`.
pub fn decimal_chars(n: u64) -> (r: Vec<char>)
    ensures
        r@ == decimal(n as nat),
    decreases n,
{
    if n < 10 {
        let mut v: Vec<char> = Vec::new();
        v.push(digit(n));
        assert(v@ =~= seq![digit_char(n as int)]);
        v
    } else {
        let mut v = decimal_chars(n / 10);
        v.push(digit(n % 10));
        v
    }
}

/// The UTF-8 bytes of `c`.
pub open spec fn utf8_bytes(c: char) -> Seq<u8> {
    let v = c as u32 as int;
    if v < 0x80 {
        seq![v as u8]
    } else if v < 0x800 {
        seq![(0xC0 + v / 64) as u8, (0x80 + v % 64) as u8]
    } else if v < 0x10000 {
        seq![(0xE0 + v / 4096) as u8, (0x80 + (v / 64) % 64) as u8, (0x80 + v % 64) as u8]
    } else {
        seq![
            (0xF0 + v / 262144) as u8,
            (0x80 + (v / 4096) % 64) as u8,
            (0x80 + (v / 64) % 64) as u8,
            (0x80 + v % 64) as u8,
        ]
    }
}

/// The UTF-8 bytes of `c`.
pub fn utf8_bytes_of(c: char) -> (bs: Vec<u8>)
    ensures
        bs@ == utf8_bytes(c),
{
    let v = c as u32;
    let mut bs: Vec<u8> = Vec::new();
    if v < 0x80 {
        bs.push(v as u8);
    } else if v < 0x800 {
        bs.push((0xC0 + v / 64) as u8);
        bs.push((0x80 + v % 64) as u8);
    } else if v < 0x10000 {
        bs.push((0xE0 + v / 4096) as u8);
        bs.push((0x80 + (v / 64) % 64) as u8);
        bs.push((0x80 + v % 64) as u8);
    } else {
        assert(v <= 0x10FFFF);
        bs.push((0xF0 + v / 262144) as u8);
        bs.push((0x80 + (v / 4096) % 64) as u8);
        bs.push((0x80 + (v / 64) % 64) as u8);
        bs.push((0x80 + v % 64) as u8);
    }
    assert(bs@ =~= utf8_bytes(c));
    bs
}

/// The UTF-8 encoding of `s`.
pub open spec fn utf8_encode(s: Seq<char>) -> Seq<u8>
    decreases s.len(),
{
    if s.len() == 0 {
        Seq::<u8>::empty()
    } else {
        utf8_encode(s.drop_last()) + utf8_bytes(s.last())
    }
}

/// The UTF-8 encoding of `s`.
pub fn utf8_encode_chars(s: &Vec<char>) -> (bs: Vec<u8>)
    ensures
        bs@ == utf8_encode(s@),
{
    let mut out: Vec<u8> = Vec::new();
    let mut i: usize = 0;
    while i < s.len()
        invariant
            i <= s@.len(),
            out@ == utf8_encode(s@.take(i as int)),
        decreases s@.len() - i,
    {
        let b = utf8_bytes_of(s[i]);
        let ghost before = out@;
        let mut k: usize = 0;
        while k < b.len()
            invariant
                k <= b@.len(),
                out@ == before + b@.take(k as int),
            decreases b@.len() - k,
        {
            out.push(b[k]);
            k = k + 1;
            assert(b@.take(k as int) =~= b@.take(k - 1).push(b@[k - 1]));
        }
        assert(b@.take(k as int) =~= b@);
        i = i + 1;
        assert(s@.take(i as int).drop_last() =~= s@.take(i - 1));
    }
    assert(s@.take(i as int) =~= s@);
    out
}

/// `a` orders strictly before `b`, comparing characters in turn, a proper
/// prefix first (the order of `str`).
pub open spec fn chars_before(a: Seq<char>, b: Seq<char>) -> bool
    decreases a.len(),
{
    if a.len() == 0 {
        b.len() > 0
    } else if b.len() == 0 {
        false
    } else if a[0] != b[0] {
        a[0] < b[0]
    } else {
        chars_before(a.drop_first(), b.drop_first())
    }
}

/// Whether `a` orders strictly before `b`.
pub fn chars_lt(a: &Vec<char>, b: &Vec<char>) -> (r: bool)
    ensures
        r == chars_before(a@, b@),
{
    let mut i: usize = 0;
    assert(a@.skip(0) =~= a@);
    assert(b@.skip(0) =~= b@);
    while i < a.len() && i < b.len() && a[i] == b[i]
        invariant
            i <= a@.len(),
            i <= b@.len(),
            chars_before(a@.skip(i as int), b@.skip(i as int)) == chars_before(a@, b@),
        decreases a@.len() - i,
    {
        assert(a@.skip(i as int).drop_first() =~= a@.skip(i + 1));
        assert(b@.skip(i as int).drop_first() =~= b@.skip(i + 1));
        i = i + 1;
    }
    if i == a.len() {
        i < b.len()
    } else if i == b.len() {
        false
    } else {
        a[i] < b[i]
    }
}

/// The views of a sequence of character vectors.
pub open spec fn vec_views(v: Seq<Vec<char>>) -> Seq<Seq<char>> {
    v.map_values(|x: Vec<char>| x@)
}

/// No element orders strictly before an earlier one.
pub open spec fn sorted_chars(s: Seq<Seq<char>>) -> bool {
    forall|i: int, j: int| 0 <= i < j < s.len() ==> !chars_before(#[trigger] s[j], #[trigger] s[i])
}

/// Sorts `v` in the order of `str`.
pub fn sort_char_vecs(v: Vec<Vec<char>>) -> (out: Vec<Vec<char>>)
    ensures
        vec_views(out@).to_multiset() == vec_views(v@).to_multiset(),
        sorted_chars(vec_views(out@)),
{
    broadcast use vstd::seq_lib::group_to_multiset_ensures;
    let mut rem = v;
    let mut out: Vec<Vec<char>> = Vec::new();
    while rem.len() > 0
        invariant
            vec_views(out@).to_multiset().add(vec_views(rem@).to_multiset()) == vec_views(
                v@,
            ).to_multiset(),
            sorted_chars(vec_views(out@)),
            forall|i: int, r: int|
                0 <= i < out@.len() && 0 <= r < rem@.len() ==> !chars_before(
                    #[trigger] rem@[r]@,
                    #[trigger] out@[i]@,
                ),
        decreases rem@.len(),
    {
        let mut m: usize = 0;
        let mut k: usize = 1;
        proof {
            lemma_chars_before_irreflexive(rem@[0]@);
        }
        while k < rem.len()
            invariant
                0 < rem@.len(),
                m < rem@.len(),
                1 <= k <= rem@.len(),
                forall|r: int| 0 <= r < k ==> !chars_before(#[trigger] rem@[r]@, rem@[m as int]@),
            decreases rem@.len() - k,
        {
            if chars_lt(&rem[k], &rem[m]) {
                proof {
                    lemma_chars_before_transitive_not(rem@, k as int, m as int);
                }
                m = k;
            }
            k = k + 1;
        }
        let ghost old_rem = rem@;
        let ghost old_out = out@;
        let x = rem.remove(m);
        proof {
            assert(vec_views(rem@) =~= vec_views(old_rem).remove(m as int));
            vstd::seq_lib::to_multiset_remove(vec_views(old_rem), m as int);
        }
        out.push(x);
        proof {
            assert(vec_views(out@) =~= vec_views(old_out).push(x@));
            assert(vec_views(old_rem)[m as int] == x@);
            assert(vec_views(old_rem).contains(x@));
            vstd::seq_lib::to_multiset_contains(vec_views(old_rem), x@);
            vstd::seq_lib::to_multiset_build(vec_views(old_out), x@);
            broadcast use vstd::multiset::group_multiset_axioms;
            assert(vec_views(out@).to_multiset().add(vec_views(rem@).to_multiset()) =~= vec_views(
                old_out,
            ).to_multiset().add(vec_views(old_rem).to_multiset()));
            assert forall|i: int, j: int|
                0 <= i < j < vec_views(out@).len() implies !chars_before(
                #[trigger] vec_views(out@)[j],
                #[trigger] vec_views(out@)[i],
            ) by {
                if j == out@.len() - 1 && i < j {
                    assert(old_rem[m as int] == x);
                    assert(!chars_before(old_rem[m as int]@, old_out[i]@));
                } else {
                    assert(vec_views(old_out)[j] == vec_views(out@)[j]);
                }
            }
            assert forall|i: int, r: int|
                0 <= i < out@.len() && 0 <= r < rem@.len() implies !chars_before(
                #[trigger] rem@[r]@,
                #[trigger] out@[i]@,
            ) by {
                let r0 = if r < m { r } else { r + 1 };
                assert(rem@[r] == old_rem[r0]);
                if i == out@.len() - 1 {
                    assert(!chars_before(old_rem[r0]@, old_rem[m as int]@));
                } else {
                    assert(out@[i] == old_out[i]);
                }
            }
        }
    }
    assert(vec_views(rem@).to_multiset() =~= vstd::multiset::Multiset::empty());
    assert(vec_views(out@).to_multiset().add(vstd::multiset::Multiset::empty()) =~= vec_views(out@).to_multiset());
    out
}

/// If `b` is before `a` and every earlier element is not before `a`, no
/// earlier element is before `b` either.
proof fn lemma_chars_before_transitive_not(s: Seq<Vec<char>>, k: int, m: int)
    requires
        0 <= k < s.len(),
        0 <= m < s.len(),
        chars_before(s[k]@, s[m]@),
        forall|r: int| 0 <= r < k ==> !chars_before(#[trigger] s[r]@, s[m]@),
    ensures
        forall|r: int| 0 <= r < k + 1 ==> !chars_before(#[trigger] s[r]@, s[k]@),
{
    assert forall|r: int| 0 <= r < k + 1 implies !chars_before(#[trigger] s[r]@, s[k]@) by {
        if r == k {
            lemma_chars_before_irreflexive(s[k]@);
        } else if chars_before(s[r]@, s[k]@) {
            lemma_chars_before_transitive(s[r]@, s[k]@, s[m]@);
        }
    }
}

pub proof fn lemma_chars_before_irreflexive(a: Seq<char>)
    ensures
        !chars_before(a, a),
    decreases a.len(),
{
    if a.len() > 0 {
        lemma_chars_before_irreflexive(a.drop_first());
    }
}

pub proof fn lemma_chars_before_transitive(a: Seq<char>, b: Seq<char>, c: Seq<char>)
    requires
        chars_before(a, b),
        chars_before(b, c),
    ensures
        chars_before(a, c),
    decreases a.len(),
{
    if a.len() > 0 && b.len() > 0 && c.len() > 0 && a[0] == b[0] && b[0] == c[0] {
        lemma_chars_before_transitive(a.drop_first(), b.drop_first(), c.drop_first());
    }
}

/// The parts of `ps` joined with `sep`.
pub open spec fn joined_seq(ps: Seq<Seq<char>>, sep: char) -> Seq<char>
    decreases ps.len(),
{
    if ps.len() == 0 {
        Seq::<char>::empty()
    } else if ps.len() == 1 {
        ps[0]
    } else {
        joined_seq(ps.drop_last(), sep) + seq![sep] + ps.last()
    }
}

/// The parts of `ps` joined with `sep`.
pub fn join_char_vecs(ps: &Vec<Vec<char>>, sep: char) -> (r: Vec<char>)
    ensures
        r@ == joined_seq(vec_views(ps@), sep),
{
    let ghost views = vec_views(ps@);
    let mut out: Vec<char> = Vec::new();
    let mut i: usize = 0;
    while i < ps.len()
        invariant
            i <= ps@.len(),
            views == vec_views(ps@),
            out@ == joined_seq(views.take(i as int), sep),
        decreases ps@.len() - i,
    {
        let ghost before = out@;
        if i > 0 {
            out.push(sep);
        }
        push_chars(&mut out, &ps[i]);
        i = i + 1;
        assert(views.take(i as int).drop_last() =~= views.take(i - 1));
        if i == 1 {
            assert(before =~= Seq::<char>::empty());
            assert(out@ =~= views.take(1)[0]);
        }
    }
    assert(views.take(i as int) =~= views);
    out
}

/// The parts of `ps` joined with the separator `sep`.
pub open spec fn joined_str(ps: Seq<Seq<char>>, sep: Seq<char>) -> Seq<char>
    decreases ps.len(),
{
    if ps.len() == 0 {
        Seq::<char>::empty()
    } else if ps.len() == 1 {
        ps[0]
    } else {
        joined_str(ps.drop_last(), sep) + sep + ps.last()
    }
}

/// The parts of `ps` joined with the separator `sep`.
pub fn join_with(ps: &Vec<Vec<char>>, sep: &Vec<char>) -> (r: Vec<char>)
    ensures
        r@ == joined_str(vec_views(ps@), sep@),
{
    let ghost views = vec_views(ps@);
    let mut out: Vec<char> = Vec::new();
    let mut i: usize = 0;
    while i < ps.len()
        invariant
            i <= ps@.len(),
            views == vec_views(ps@),
            out@ == joined_str(views.take(i as int), sep@),
        decreases ps@.len() - i,
    {
        let ghost before = out@;
        if i > 0 {
            push_chars(&mut out, sep);
        }
        push_chars(&mut out, &ps[i]);
        i = i + 1;
        assert(views.take(i as int).drop_last() =~= views.take(i - 1));
        if i == 1 {
            assert(before =~= Seq::<char>::empty());
            assert(out@ =~= views.take(1)[0]);
        }
    }
    assert(views.take(i as int) =~= views);
    out
}

/// The pieces of `s` between occurrences of `sep`, empty ones included, as
/// `str::split` yields them.
pub open spec fn split_on(s: Seq<char>, sep: char) -> Seq<Seq<char>>
    decreases s.len(),
{
    if s.len() == 0 {
        seq![Seq::<char>::empty()]
    } else {
        let init = split_on(s.drop_last(), sep);
        if s.last() == sep {
            init.push(Seq::<char>::empty())
        } else {
            init.update(init.len() - 1, init.last().push(s.last()))
        }
    }
}

pub proof fn lemma_split_on_nonempty(s: Seq<char>, sep: char)
    ensures
        split_on(s, sep).len() >= 1,
    decreases s.len(),
{
    if s.len() > 0 {
        lemma_split_on_nonempty(s.drop_last(), sep);
    }
}

/// Cuts `s` at each `sep`.
pub fn split_chars(s: &Vec<char>, sep: char) -> (out: Vec<Vec<char>>)
    ensures
        vec_views(out@) == split_on(s@, sep),
{
    let mut out: Vec<Vec<char>> = Vec::new();
    let mut cur: Vec<char> = Vec::new();
    let mut i: usize = 0;
    while i < s.len()
        invariant
            i <= s@.len(),
            vec_views(out@).push(cur@) == split_on(s@.take(i as int), sep),
        decreases s@.len() - i,
    {
        let c = s[i];
        proof {
            lemma_split_on_nonempty(s@.take(i as int), sep);
            assert(s@.take(i + 1).drop_last() =~= s@.take(i as int));
        }
        let ghost before = vec_views(out@).push(cur@);
        if c == sep {
            let done = cur;
            out.push(done);
            cur = Vec::new();
            assert(vec_views(out@).push(cur@) =~= before.push(Seq::<char>::empty()));
        } else {
            cur.push(c);
            assert(vec_views(out@).push(cur@) =~= before.update(before.len() - 1, before.last().push(c)));
        }
        i = i + 1;
    }
    assert(s@.take(i as int) =~= s@);
    let ghost all = vec_views(out@).push(cur@);
    out.push(cur);
    assert(vec_views(out@) =~= all);
    out
}

/// Two strings neither of which orders before the other are equal.
pub proof fn lemma_chars_before_total(a: Seq<char>, b: Seq<char>)
    ensures
        !chars_before(a, b) && !chars_before(b, a) ==> a == b,
    decreases a.len(),
{
    if a.len() > 0 && b.len() > 0 && a[0] == b[0] {
        lemma_chars_before_total(a.drop_first(), b.drop_first());
        if !chars_before(a, b) && !chars_before(b, a) {
            assert(a =~= seq![a[0]] + a.drop_first());
            assert(b =~= seq![b[0]] + b.drop_first());
        }
    } else if a.len() == 0 && b.len() == 0 {
        assert(a =~= b);
    }
}

/// `s` without any leading `c`.
pub open spec fn strip_leading(s: Seq<char>, c: char) -> Seq<char>
    decreases s.len(),
{
    if s.len() > 0 && s[0] == c {
        strip_leading(s.drop_first(), c)
    } else {
        s
    }
}

/// `s` without any trailing `c`.
pub open spec fn strip_trailing(s: Seq<char>, c: char) -> Seq<char>
    decreases s.len(),
{
    if s.len() > 0 && s.last() == c {
        strip_trailing(s.drop_last(), c)
    } else {
        s
    }
}

/// `s` with the suffix `suf` removed as many times as it ends it
/// (`str::trim_end_matches` with a string pattern).
pub open spec fn strip_suffix_all(s: Seq<char>, suf: Seq<char>) -> Seq<char>
    decreases s.len(),
{
    if suf.len() > 0 && ends_with(s, suf) {
        strip_suffix_all(s.take(s.len() - suf.len()), suf)
    } else {
        s
    }
}

/// `s` with the prefix `pre` removed as many times as it starts it.
pub open spec fn strip_prefix_all(s: Seq<char>, pre: Seq<char>) -> Seq<char>
    decreases s.len(),
{
    if pre.len() > 0 && starts_with(s, pre) {
        strip_prefix_all(s.skip(pre.len() as int), pre)
    } else {
        s
    }
}

/// `s` without any leading `c`.
pub fn strip_leading_chars(s: &Vec<char>, c: char) -> (r: Vec<char>)
    ensures
        r@ == strip_leading(s@, c),
{
    let mut lo: usize = 0;
    assert(s@.skip(0) =~= s@);
    while lo < s.len() && s[lo] == c
        invariant
            lo <= s@.len(),
            strip_leading(s@.skip(lo as int), c) == strip_leading(s@, c),
        decreases s@.len() - lo,
    {
        assert(s@.skip(lo as int).drop_first() =~= s@.skip(lo + 1));
        lo = lo + 1;
    }
    assert(s@.subrange(lo as int, s@.len() as int) =~= s@.skip(lo as int));
    copy_range(s, lo, s.len())
}

/// `s` without any trailing `c`.
pub fn strip_trailing_chars(s: &Vec<char>, c: char) -> (r: Vec<char>)
    ensures
        r@ == strip_trailing(s@, c),
{
    let mut hi: usize = s.len();
    assert(s@.take(s@.len() as int) =~= s@);
    while hi > 0 && s[hi - 1] == c
        invariant
            hi <= s@.len(),
            strip_trailing(s@.take(hi as int), c) == strip_trailing(s@, c),
        decreases hi,
    {
        assert(s@.take(hi as int).drop_last() =~= s@.take(hi - 1));
        hi = hi - 1;
    }
    assert(s@.subrange(0, hi as int) =~= s@.take(hi as int));
    copy_range(s, 0, hi)
}

/// `s` with the suffix `suf` removed as many times as it ends it.
pub fn strip_suffix_all_chars(s: &Vec<char>, suf: &str) -> (r: Vec<char>)
    ensures
        r@ == strip_suffix_all(s@, suf@),
{
    let p = chars_of(suf);
    let mut hi: usize = s.len();
    assert(s@.take(s@.len() as int) =~= s@);
    if p.len() == 0 {
        return copy_range(s, 0, s.len());
    }
    loop
        invariant
            hi <= s@.len(),
            p@ == suf@,
            p@.len() > 0,
            strip_suffix_all(s@.take(hi as int), suf@) == strip_suffix_all(s@, suf@),
        decreases hi,
    {
        let cur = copy_range(s, 0, hi);
        assert(cur@ =~= s@.take(hi as int));
        if !has_suffix(&cur, &p) {
            return cur;
        }
        assert(s@.take(hi as int).take(hi - p@.len()) =~= s@.take(hi - p@.len()));
        hi = hi - p.len();
    }
}

/// `s` with the prefix `pre` removed as many times as it starts it.
pub fn strip_prefix_all_chars(s: &Vec<char>, pre: &str) -> (r: Vec<char>)
    ensures
        r@ == strip_prefix_all(s@, pre@),
{
    let p = chars_of(pre);
    let mut lo: usize = 0;
    assert(s@.skip(0) =~= s@);
    if p.len() == 0 {
        return copy_range(s, 0, s.len());
    }
    loop
        invariant
            lo <= s@.len(),
            p@ == pre@,
            p@.len() > 0,
            strip_prefix_all(s@.skip(lo as int), pre@) == strip_prefix_all(s@, pre@),
        decreases s@.len() - lo,
    {
        let cur = copy_range(s, lo, s.len());
        assert(cur@ =~= s@.skip(lo as int));
        if !has_prefix(&cur, &p) {
            return cur;
        }
        assert(s@.skip(lo as int).skip(p@.len() as int) =~= s@.skip(lo + p@.len()));
        lo = lo + p.len();
    }
}

/// The distinct texts of `found`, sorted in the order of `str`.
pub fn sorted_unique_strings(found: Vec<Vec<char>>) -> (out: Vec<String>)
    ensures
        sorted_chars(string_views(out@)),
        string_views(out@).no_duplicates(),
        forall|d: Seq<char>| #[trigger] string_views(out@).contains(d) <==> vec_views(found@).contains(d),
{
    let sorted = sort_char_vecs(found);
    proof {
        assert forall|d: Seq<char>| vec_views(sorted@).contains(d) <==> vec_views(found@).contains(d) by {
            vstd::seq_lib::to_multiset_contains(vec_views(sorted@), d);
            vstd::seq_lib::to_multiset_contains(vec_views(found@), d);
        }
    }
    let mut out: Vec<String> = Vec::new();
    let mut k: usize = 0;
    while k < sorted.len()
        invariant
            k <= sorted@.len(),
            sorted_chars(vec_views(sorted@)),
            sorted_chars(string_views(out@)),
            string_views(out@).no_duplicates(),
            forall|d: Seq<char>| #[trigger] string_views(out@).contains(d) <==> vec_views(sorted@).take(k as int).contains(d),
            out@.len() <= k,
            out@.len() > 0 ==> string_views(out@).last() == vec_views(sorted@)[k - 1],
        decreases sorted@.len() - k,
    {
        let ghost before = string_views(out@);
        let ghost sv = vec_views(sorted@);
        let fresh = if out.len() == 0 {
            true
        } else {
            !chars_eq_str(&sorted[k], out[out.len() - 1].as_str())
        };
        if fresh {
            let s = string_from_chars(&sorted[k]);
            out.push(s);
            proof {
                assert(string_views(out@) =~= before.push(sv[k as int]));
                if before.len() > 0 {
                    assert(before.last() == sv[k - 1]);
                    assert(!chars_before(sv[k as int], sv[k - 1]));
                    crate::text::lemma_chars_before_total(sv[k as int], sv[k - 1]);
                    assert(chars_before(sv[k - 1], sv[k as int]));
                }
                assert forall|a: int, b: int| 0 <= a < b < string_views(out@).len() implies !chars_before(
                    #[trigger] string_views(out@)[b],
                    #[trigger] string_views(out@)[a],
                ) by {
                    if b == string_views(out@).len() - 1 && a < b {
                        if a < before.len() - 1 {
                            assert(!chars_before(before.last(), before[a]));
                        }
                        if chars_before(sv[k as int], before[a]) {
                            if a < before.len() - 1 {
                                crate::text::lemma_chars_before_transitive(sv[k - 1], sv[k as int], before[a]);
                                crate::text::lemma_chars_before_irreflexive(before[a]);
                                crate::text::lemma_chars_before_total(before.last(), before[a]);
                                if chars_before(before[a], before.last()) {
                                    crate::text::lemma_chars_before_transitive(before[a], before.last(), before[a]);
                                }
                            } else {
                                crate::text::lemma_chars_before_transitive(sv[k - 1], sv[k as int], sv[k - 1]);
                                crate::text::lemma_chars_before_irreflexive(sv[k - 1]);
                            }
                        }
                    } else {
                        assert(string_views(out@)[a] == before[a] && string_views(out@)[b] == before[b]);
                    }
                }
                assert(string_views(out@).no_duplicates()) by {
                    assert forall|a: int, b: int| 0 <= a < b < string_views(out@).len() implies string_views(out@)[a] != string_views(out@)[b] by {
                        if b == string_views(out@).len() - 1 && before.len() > 0 {
                            if a < before.len() - 1 {
                                assert(!chars_before(before.last(), before[a]));
                                if before[a] == sv[k as int] {
                                    crate::text::lemma_chars_before_transitive(before[a], before.last(), before[a]);
                                    crate::text::lemma_chars_before_irreflexive(before[a]);
                                }
                            } else {
                                crate::text::lemma_chars_before_irreflexive(sv[k as int]);
                            }
                        }
                    }
                }
                assert(sv.take(k + 1) =~= sv.take(k as int).push(sv[k as int]));
                assert forall|d: Seq<char>| #[trigger] string_views(out@).contains(d) <==> sv.take(k + 1).contains(d) by {
                    if string_views(out@).contains(d) {
                        let x = choose|x: int| 0 <= x < string_views(out@).len() && #[trigger] string_views(out@)[x] == d;
                        if x < before.len() {
                            assert(before[x] == d);
                            assert(before.contains(d));
                            assert(sv.take(k as int).contains(d));
                            let y = choose|y: int| 0 <= y < sv.take(k as int).len() && #[trigger] sv.take(k as int)[y] == d;
                            assert(sv.take(k + 1)[y] == d);
                        } else {
                            assert(sv.take(k + 1)[k as int] == d);
                        }
                    }
                    if sv.take(k + 1).contains(d) {
                        let y = choose|y: int| 0 <= y < sv.take(k + 1).len() && #[trigger] sv.take(k + 1)[y] == d;
                        if y < k {
                            assert(sv.take(k as int)[y] == d);
                            assert(before.contains(d));
                            let x = choose|x: int| 0 <= x < before.len() && #[trigger] before[x] == d;
                            assert(string_views(out@)[x] == d);
                        } else {
                            assert(string_views(out@)[before.len() as int] == d);
                        }
                    }
                }
            }
        } else {
            proof {
                assert(sv[k as int] == before.last());
                assert(sv.take(k + 1) =~= sv.take(k as int).push(sv[k as int]));
                assert(before[before.len() - 1] == sv[k as int]);
                assert(before.contains(sv[k as int]));
                assert forall|d: Seq<char>| #[trigger] string_views(out@).contains(d) <==> sv.take(k + 1).contains(d) by {
                    if sv.take(k + 1).contains(d) {
                        let y = choose|y: int| 0 <= y < sv.take(k + 1).len() && #[trigger] sv.take(k + 1)[y] == d;
                        if y < k {
                            assert(sv.take(k as int)[y] == d);
                        }
                    }
                    if string_views(out@).contains(d) {
                        assert(sv.take(k as int).contains(d));
                        let y = choose|y: int| 0 <= y < sv.take(k as int).len() && #[trigger] sv.take(k as int)[y] == d;
                        assert(sv.take(k + 1)[y] == d);
                    }
                }
            }
        }
        k = k + 1;
    }
    assert(vec_views(sorted@).take(k as int) =~= vec_views(sorted@));
    out
}


} // verus!
