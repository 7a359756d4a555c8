//! Tokenizer for authored non-JS regions: CSS-family source and markup.
//!
//! The region is read as a sequence of characters. Whitespace and `/* */` and
//! `//` comments are skipped; strings, numbers, identifiers, punctuation and
//! operators become tokens; any other character is skipped. Spans are byte
//! offsets (UTF-8) shifted by the region's offset in its file.
//!
//! In CSS mode values are canonicalized so that semantically equal CSS hashes
//! equal: a zero-valued number drops its unit (`0px`, `0em`, `0%`, `0.0` all
//! become `0`) and a hex color takes its long lower-case form (`#FFF` becomes
//! `#ffffff`, `#abcd` becomes `#aabbccdd`).
use vstd::prelude::*;

use crate::text::{
    chars_of, copy_range, is_alnum, is_alpha, is_ascii_alnum, is_ascii_alpha, is_ascii_digit,
    is_ascii_hex, is_digit, is_hex, is_whitespace, is_ws, lower_range, lower_seq, matches_at,
    occurs_at, string_from_chars, string_of,
};

verus! {

/// Punctuation tokens.
#[derive(Clone, Copy, Debug, PartialEq, Eq, Structural)]
pub enum PunctuationType {
    OpenParen,
    CloseParen,
    OpenBrace,
    CloseBrace,
    OpenBracket,
    CloseBracket,
    Semicolon,
    Colon,
    Dot,
}

/// Operator tokens.
#[derive(Clone, Copy, Debug, PartialEq, Eq, Structural)]
pub enum OperatorType {
    Assign,
    Add,
    Sub,
    Mul,
    Div,
    Mod,
    Lt,
    Gt,
    Not,
    BitwiseAnd,
    BitwiseOr,
    Comma,
    Ternary,
}

/// What a token is, with the text it carries.
#[derive(Clone, Debug)]
pub enum TokenKind {
    Identifier(String),
    StringLiteral(String),
    NumericLiteral(String),
    Punctuation(PunctuationType),
    Operator(OperatorType),
    Boundary(String),
}

/// A token kind with its text as characters.
pub ghost enum KindView {
    Identifier(Seq<char>),
    StringLiteral(Seq<char>),
    NumericLiteral(Seq<char>),
    Punctuation(PunctuationType),
    Operator(OperatorType),
    Boundary(Seq<char>),
}

impl View for TokenKind {
    type V = KindView;

    open spec fn view(&self) -> KindView {
        match self {
            TokenKind::Identifier(s) => KindView::Identifier(s@),
            TokenKind::StringLiteral(s) => KindView::StringLiteral(s@),
            TokenKind::NumericLiteral(s) => KindView::NumericLiteral(s@),
            TokenKind::Punctuation(p) => KindView::Punctuation(*p),
            TokenKind::Operator(o) => KindView::Operator(*o),
            TokenKind::Boundary(s) => KindView::Boundary(s@),
        }
    }
}

/// A byte range `[start, end)` in a source file.
#[derive(Clone, Copy, Debug, PartialEq, Eq, Structural)]
pub struct Span {
    pub start: u32,
    pub end: u32,
}

/// A token and where it stands in its file.
#[derive(Clone, Debug)]
pub struct SourceToken {
    pub kind: TokenKind,
    pub span: Span,
}

// ---------------------------------------------------------------------------
// Model
// ---------------------------------------------------------------------------

/// Number of bytes of `c` in UTF-8.
pub open spec fn utf8_width(c: char) -> int {
    if (c as u32) < 0x80 {
        1
    } else if (c as u32) < 0x800 {
        2
    } else if (c as u32) < 0x10000 {
        3
    } else {
        4
    }
}

/// Byte offset in UTF-8 of the character at index `i` of `s`.
pub open spec fn byte_pos(s: Seq<char>, i: int) -> int
    decreases i,
{
    if i <= 0 {
        0
    } else {
        byte_pos(s, i - 1) + utf8_width(s[i - 1])
    }
}

/// The first index `k >= i` at which `p` occurs in `s`.
pub open spec fn find_from(s: Seq<char>, i: int, p: Seq<char>) -> Option<int>
    decreases s.len() - i,
{
    if i < 0 || i + p.len() > s.len() {
        None
    } else if occurs_at(s, i, p) {
        Some(i)
    } else if i < s.len() {
        find_from(s, i + 1, p)
    } else {
        None
    }
}

/// Where the trivia (whitespace or a comment) at `i` ends, or `None` when `i`
/// begins a real token. A block comment without its `*/`, and a line comment
/// without a newline, run to the end; the newline itself is left.
pub open spec fn trivia_end(s: Seq<char>, i: int) -> Option<int> {
    if is_ws(s[i]) {
        Some(i + 1)
    } else if occurs_at(s, i, "/*"@) {
        match find_from(s, i + 2, "*/"@) {
            Some(k) => Some(k + 2),
            None => Some(s.len() as int),
        }
    } else if occurs_at(s, i, "//"@) {
        match find_from(s, i, "\n"@) {
            Some(k) => Some(k),
            None => Some(s.len() as int),
        }
    } else {
        None
    }
}

/// Contents and end of a string literal whose body starts at `k`, closed by
/// `quote`. A backslash makes the next character literal and is dropped; an
/// unterminated literal runs to the end.
pub open spec fn string_from(s: Seq<char>, k: int, quote: char, escaped: bool) -> (Seq<char>, int)
    decreases s.len() - k,
{
    if k < 0 || k >= s.len() {
        (Seq::<char>::empty(), s.len() as int)
    } else {
        let c = s[k];
        if escaped {
            let r = string_from(s, k + 1, quote, false);
            (seq![c] + r.0, r.1)
        } else if c == '\\' {
            string_from(s, k + 1, quote, true)
        } else if c == quote {
            (Seq::<char>::empty(), k + 1)
        } else {
            let r = string_from(s, k + 1, quote, false);
            (seq![c] + r.0, r.1)
        }
    }
}

pub open spec fn is_number_char(c: char) -> bool {
    is_digit(c) || c == '.' || c == '%' || is_alpha(c)
}

pub open spec fn is_identifier_char(c: char) -> bool {
    is_alnum(c) || c == '_' || c == '-' || c == '$' || c == '@' || c == '#'
}

/// End of the run of number characters (digits, `.`, `%`, letters) from `k`.
pub open spec fn number_end(s: Seq<char>, k: int) -> int
    decreases s.len() - k,
{
    if k < 0 || k >= s.len() {
        s.len() as int
    } else if is_number_char(s[k]) {
        number_end(s, k + 1)
    } else {
        k
    }
}

/// End of the run of identifier characters from `k`.
pub open spec fn identifier_end(s: Seq<char>, k: int) -> int
    decreases s.len() - k,
{
    if k < 0 || k >= s.len() {
        s.len() as int
    } else if is_identifier_char(s[k]) {
        identifier_end(s, k + 1)
    } else {
        k
    }
}

/// End of the run of hex digits from `k`.
pub open spec fn hex_end(s: Seq<char>, k: int) -> int
    decreases s.len() - k,
{
    if k < 0 || k >= s.len() {
        s.len() as int
    } else if is_hex(s[k]) {
        hex_end(s, k + 1)
    } else {
        k
    }
}

/// End of the leading run of digits and dots of `s`, from `k`.
pub open spec fn decimal_end(s: Seq<char>, k: int) -> int
    decreases s.len() - k,
{
    if k < 0 || k >= s.len() {
        s.len() as int
    } else if is_digit(s[k]) || s[k] == '.' {
        decimal_end(s, k + 1)
    } else {
        k
    }
}

/// Number of decimal digits in `p`.
pub open spec fn digit_count(p: Seq<char>) -> nat
    decreases p.len(),
{
    if p.len() == 0 {
        0
    } else {
        digit_count(p.drop_last()) + if is_digit(p.last()) {
            1nat
        } else {
            0nat
        }
    }
}

/// Number of dots in `p`.
pub open spec fn dot_count(p: Seq<char>) -> nat
    decreases p.len(),
{
    if p.len() == 0 {
        0
    } else {
        dot_count(p.drop_last()) + if p.last() == '.' {
            1nat
        } else {
            0nat
        }
    }
}

/// Number of digits other than `0` in `p`.
pub open spec fn nonzero_digit_count(p: Seq<char>) -> nat
    decreases p.len(),
{
    if p.len() == 0 {
        0
    } else {
        nonzero_digit_count(p.drop_last()) + if is_digit(p.last()) && p.last() != '0' {
            1nat
        } else {
            0nat
        }
    }
}

/// A run of digits and dots that reads as a decimal number equal to zero:
/// at least one digit, at most one dot, and no digit other than `0`.
pub open spec fn is_zero_decimal(p: Seq<char>) -> bool {
    digit_count(p) >= 1 && dot_count(p) <= 1 && nonzero_digit_count(p) == 0
}

/// The CSS form of a number token: a zero value, whatever its unit, is `0`;
/// anything else is kept as written.
pub open spec fn canonical_number(raw: Seq<char>) -> Seq<char> {
    if is_zero_decimal(raw.take(decimal_end(raw, 0))) {
        seq!['0']
    } else {
        raw
    }
}

/// Each character of `x` twice: `fab` becomes `ffaabb`.
pub open spec fn doubled(x: Seq<char>) -> Seq<char> {
    Seq::new(2 * x.len(), |k: int| x[k / 2])
}

/// The canonical hex color at `i` (where `s[i]` is `#`) and its end: `#`
/// followed by exactly 3, 4, 6 or 8 hex digits that do not run on into an
/// identifier. Short forms are doubled; all of it is lower-cased.
pub open spec fn hex_color_at(s: Seq<char>, i: int) -> Option<(Seq<char>, int)> {
    let end = hex_end(s, i + 1);
    let n = end - (i + 1);
    if end < s.len() && is_identifier_char(s[end]) {
        None
    } else if !(n == 3 || n == 4 || n == 6 || n == 8) {
        None
    } else {
        let digits = lower_seq(s.subrange(i + 1, end));
        Some(
            (
                seq!['#'] + if n == 3 || n == 4 {
                    doubled(digits)
                } else {
                    digits
                },
                end,
            ),
        )
    }
}

/// Whether an identifier begins at `i`.
pub open spec fn identifier_start(s: Seq<char>, i: int) -> bool {
    let c = s[i];
    is_alpha(c) || c == '_' || c == '$' || c == '@' || occurs_at(s, i, "--"@)
}

pub open spec fn is_quote(c: char) -> bool {
    c == '"' || c == '\'' || c == '`'
}

/// The string, hex color, number or identifier token at `i`, with its end.
pub open spec fn value_token_at(s: Seq<char>, i: int, css: bool) -> Option<(KindView, int)> {
    let c = s[i];
    if is_quote(c) {
        let r = string_from(s, i + 1, c, false);
        Some((KindView::StringLiteral(r.0), r.1))
    } else if css && c == '#' && hex_color_at(s, i) is Some {
        let h = hex_color_at(s, i)->0;
        Some((KindView::Identifier(h.0), h.1))
    } else if is_digit(c) {
        let e = number_end(s, i);
        let raw = s.subrange(i, e);
        Some(
            (
                KindView::NumericLiteral(
                    if css {
                        canonical_number(raw)
                    } else {
                        raw
                    },
                ),
                e,
            ),
        )
    } else if identifier_start(s, i) {
        let e = identifier_end(s, i);
        Some((KindView::Identifier(lower_seq(s.subrange(i, e))), e))
    } else {
        None
    }
}

pub open spec fn punctuation_of(c: char) -> Option<PunctuationType> {
    if c == '(' {
        Some(PunctuationType::OpenParen)
    } else if c == ')' {
        Some(PunctuationType::CloseParen)
    } else if c == '{' {
        Some(PunctuationType::OpenBrace)
    } else if c == '}' {
        Some(PunctuationType::CloseBrace)
    } else if c == '[' {
        Some(PunctuationType::OpenBracket)
    } else if c == ']' {
        Some(PunctuationType::CloseBracket)
    } else if c == ';' {
        Some(PunctuationType::Semicolon)
    } else if c == ':' {
        Some(PunctuationType::Colon)
    } else if c == '.' {
        Some(PunctuationType::Dot)
    } else {
        None
    }
}

pub open spec fn operator_of(c: char) -> Option<OperatorType> {
    if c == '=' {
        Some(OperatorType::Assign)
    } else if c == '+' {
        Some(OperatorType::Add)
    } else if c == '-' {
        Some(OperatorType::Sub)
    } else if c == '*' {
        Some(OperatorType::Mul)
    } else if c == '/' {
        Some(OperatorType::Div)
    } else if c == '%' {
        Some(OperatorType::Mod)
    } else if c == '<' {
        Some(OperatorType::Lt)
    } else if c == '>' {
        Some(OperatorType::Gt)
    } else if c == '!' {
        Some(OperatorType::Not)
    } else if c == '&' {
        Some(OperatorType::BitwiseAnd)
    } else if c == '|' {
        Some(OperatorType::BitwiseOr)
    } else if c == ',' {
        Some(OperatorType::Comma)
    } else if c == '?' {
        Some(OperatorType::Ternary)
    } else {
        None
    }
}

/// The token at `i` and its end: a value token, else one punctuation or
/// operator character.
pub open spec fn token_at(s: Seq<char>, i: int, css: bool) -> Option<(KindView, int)> {
    match value_token_at(s, i, css) {
        Some(t) => Some(t),
        None => match punctuation_of(s[i]) {
            Some(p) => Some((KindView::Punctuation(p), i + 1)),
            None => match operator_of(s[i]) {
                Some(o) => Some((KindView::Operator(o), i + 1)),
                None => None,
            },
        },
    }
}

/// A token as found in the character sequence: its kind and character range.
pub ghost struct Lexeme {
    pub kind: KindView,
    pub start: int,
    pub end: int,
}

/// The tokens of `s` from index `i` on. (Each scan ends past where it began
/// and within `s`; see `lemma_progress`.)
pub open spec fn lexemes_from(s: Seq<char>, i: int, css: bool) -> Seq<Lexeme>
    decreases s.len() - i,
{
    if i < 0 || i >= s.len() {
        Seq::<Lexeme>::empty()
    } else {
        match trivia_end(s, i) {
            Some(j) => if i < j <= s.len() {
                lexemes_from(s, j, css)
            } else {
                Seq::<Lexeme>::empty()
            },
            None => match token_at(s, i, css) {
                Some(t) => if i < t.1 <= s.len() {
                    seq![Lexeme { kind: t.0, start: i, end: t.1 }] + lexemes_from(s, t.1, css)
                } else {
                    Seq::<Lexeme>::empty()
                },
                None => lexemes_from(s, i + 1, css),
            },
        }
    }
}

/// `tok` is the lexeme `lx` of `s`, placed at byte offset `offset`.
pub open spec fn token_is(tok: SourceToken, lx: Lexeme, s: Seq<char>, offset: int) -> bool {
    &&& tok.kind@ == lx.kind
    &&& tok.span.start == (offset + byte_pos(s, lx.start)) as u32
    &&& tok.span.end == (offset + byte_pos(s, lx.end)) as u32
}

/// The tokens of a region: those of its characters from the first on.
pub open spec fn region_tokens(s: Seq<char>, css: bool) -> Seq<Lexeme> {
    lexemes_from(s, 0, css)
}


// ---------------------------------------------------------------------------
// Facts about the model
// ---------------------------------------------------------------------------

proof fn lemma_byte_pos_mono(s: Seq<char>, i: int, j: int)
    requires
        0 <= i <= j,
    ensures
        byte_pos(s, i) <= byte_pos(s, j),
    decreases j - i,
{
    if i < j {
        lemma_byte_pos_mono(s, i, j - 1);
    }
}

pub proof fn lemma_find_from(s: Seq<char>, i: int, p: Seq<char>)
    ensures
        find_from(s, i, p) matches Some(k) ==> i <= k && k + p.len() <= s.len() && occurs_at(s, k, p),
    decreases s.len() - i,
{
    if !(i < 0 || i + p.len() > s.len()) && !occurs_at(s, i, p) && i < s.len() {
        lemma_find_from(s, i + 1, p);
    }
}

proof fn lemma_string_from(s: Seq<char>, k: int, quote: char, escaped: bool)
    requires
        0 <= k <= s.len(),
    ensures
        k <= string_from(s, k, quote, escaped).1 <= s.len(),
    decreases s.len() - k,
{
    if k < s.len() {
        lemma_string_from(s, k + 1, quote, false);
        lemma_string_from(s, k + 1, quote, true);
    }
}

proof fn lemma_number_end(s: Seq<char>, k: int)
    requires
        0 <= k <= s.len(),
    ensures
        k <= number_end(s, k) <= s.len(),
        k < s.len() && is_number_char(s[k]) ==> k < number_end(s, k),
    decreases s.len() - k,
{
    if k < s.len() {
        lemma_number_end(s, k + 1);
    }
}

proof fn lemma_identifier_end(s: Seq<char>, k: int)
    requires
        0 <= k <= s.len(),
    ensures
        k <= identifier_end(s, k) <= s.len(),
        k < s.len() && is_identifier_char(s[k]) ==> k < identifier_end(s, k),
    decreases s.len() - k,
{
    if k < s.len() {
        lemma_identifier_end(s, k + 1);
    }
}

proof fn lemma_hex_end(s: Seq<char>, k: int)
    requires
        0 <= k <= s.len(),
    ensures
        k <= hex_end(s, k) <= s.len(),
        forall|a: int| k <= a < hex_end(s, k) ==> #[trigger] is_hex(s[a]),
    decreases s.len() - k,
{
    if k < s.len() {
        lemma_hex_end(s, k + 1);
    }
}

proof fn lemma_decimal_end(s: Seq<char>, k: int)
    requires
        0 <= k <= s.len(),
    ensures
        k <= decimal_end(s, k) <= s.len(),
        forall|a: int| k <= a < decimal_end(s, k) ==> is_digit(#[trigger] s[a]) || s[a] == '.',
    decreases s.len() - k,
{
    if k < s.len() {
        lemma_decimal_end(s, k + 1);
    }
}

/// Every scan moves past its start and stays within the region.
proof fn lemma_progress(s: Seq<char>, i: int, css: bool)
    requires
        0 <= i < s.len(),
    ensures
        trivia_end(s, i) matches Some(j) ==> i < j <= s.len(),
        trivia_end(s, i) is None ==> (token_at(s, i, css) matches Some(t) ==> i < t.1 <= s.len()),
{
    reveal_strlit("*/");
    reveal_strlit("/*");
    reveal_strlit("//");
    reveal_strlit("\n");
    reveal_strlit("--");
    lemma_find_from(s, i + 2, "*/"@);
    lemma_find_from(s, i, "\n"@);
    if trivia_end(s, i) is Some && !is_ws(s[i]) && !occurs_at(s, i, "/*"@) {
        assert(occurs_at(s, i, "//"@));
        assert(s[i] == s.subrange(i, i + 2)[0]);
        if let Some(k) = find_from(s, i, "\n"@) {
            assert(s[k] == s.subrange(k, k + 1)[0]);
        }
    }
    if i + 1 <= s.len() {
        lemma_string_from(s, i + 1, s[i], false);
    }
    lemma_number_end(s, i);
    lemma_identifier_end(s, i);
    lemma_hex_end(s, i + 1);
    if occurs_at(s, i, "--"@) {
        assert(s[i] == s.subrange(i, i + 2)[0]);
    }
}

// ---------------------------------------------------------------------------
// Scanners
// ---------------------------------------------------------------------------

/// Number of bytes of `c` in UTF-8.
pub fn len_utf8(c: char) -> (w: usize)
    ensures
        w == utf8_width(c),
{
    let v = c as u32;
    if v < 0x80 {
        1
    } else if v < 0x800 {
        2
    } else if v < 0x10000 {
        3
    } else {
        4
    }
}

/// The byte offset of index `to`, given that of index `from`.
fn advance_bytes(s: &Vec<char>, from: usize, to: usize, b: usize) -> (r: usize)
    requires
        from <= to <= s@.len(),
        b == byte_pos(s@, from as int),
        byte_pos(s@, s@.len() as int) <= usize::MAX,
    ensures
        r == byte_pos(s@, to as int),
{
    let mut k = from;
    let mut r = b;
    while k < to
        invariant
            from <= k <= to <= s@.len(),
            r == byte_pos(s@, k as int),
            byte_pos(s@, s@.len() as int) <= usize::MAX,
        decreases to - k,
    {
        proof {
            lemma_byte_pos_mono(s@, k + 1, s@.len() as int);
        }
        r = r + len_utf8(s[k]);
        k = k + 1;
    }
    r
}

/// The first index from `i` at which `p` occurs in `s`.
pub fn find_chars(s: &Vec<char>, i: usize, p: &Vec<char>) -> (r: Option<usize>)
    ensures
        match r {
            Some(k) => find_from(s@, i as int, p@) == Some(k as int),
            None => find_from(s@, i as int, p@) is None,
        },
{
    let mut k = i;
    loop
        invariant
            i <= k,
            find_from(s@, k as int, p@) == find_from(s@, i as int, p@),
        decreases s@.len() - k,
    {
        if k > s.len() || p.len() > s.len() - k {
            return None;
        }
        if matches_at(s, k, p) {
            return Some(k);
        }
        if k >= s.len() {
            return None;
        }
        k = k + 1;
    }
}

/// Where the trivia at `i` ends, or `None` when `i` begins a real token.
fn skip_trivia(s: &Vec<char>, i: usize) -> (r: Option<usize>)
    requires
        i < s.len(),
    ensures
        match r {
            Some(j) => trivia_end(s@, i as int) == Some(j as int),
            None => trivia_end(s@, i as int) is None,
        },
{
    if is_whitespace(s[i]) {
        return Some(i + 1);
    }
    let open = chars_of("/*");
    if matches_at(s, i, &open) {
        let close = chars_of("*/");
        proof {
            reveal_strlit("/*");
            reveal_strlit("*/");
            lemma_find_from(s@, i + 2, close@);
            assert(s@.len() == s.len());
        }
        return match find_chars(s, i + 2, &close) {
            Some(k) => Some(k + 2),
            None => Some(s.len()),
        };
    }
    let line = chars_of("//");
    if matches_at(s, i, &line) {
        let nl = chars_of("\n");
        return match find_chars(s, i, &nl) {
            Some(k) => Some(k),
            None => Some(s.len()),
        };
    }
    None
}

/// Scans a string literal whose body starts at `start`, closed by `quote`:
/// its contents and the index past its end.
fn scan_string(s: &Vec<char>, start: usize, quote: char) -> (r: (Vec<char>, usize))
    requires
        start <= s@.len(),
    ensures
        (r.0@, r.1 as int) == string_from(s@, start as int, quote, false),
{
    let mut out: Vec<char> = Vec::new();
    let mut escaped = false;
    let mut k = start;
    while k < s.len()
        invariant
            start <= k <= s@.len(),
            out@ + string_from(s@, k as int, quote, escaped).0 == string_from(
                s@,
                start as int,
                quote,
                false,
            ).0,
            string_from(s@, k as int, quote, escaped).1 == string_from(
                s@,
                start as int,
                quote,
                false,
            ).1,
        decreases s@.len() - k,
    {
        let c = s[k];
        let ghost old_out = out@;
        if escaped {
            out.push(c);
            escaped = false;
            assert(old_out + (seq![c] + string_from(s@, k + 1, quote, false).0) =~= out@
                + string_from(s@, k + 1, quote, false).0);
        } else if c == '\\' {
            escaped = true;
        } else if c == quote {
            assert(out@ + Seq::<char>::empty() =~= out@);
            return (out, k + 1);
        } else {
            out.push(c);
            assert(old_out + (seq![c] + string_from(s@, k + 1, quote, false).0) =~= out@
                + string_from(s@, k + 1, quote, false).0);
        }
        k = k + 1;
    }
    assert(out@ + Seq::<char>::empty() =~= out@);
    (out, s.len())
}

fn is_number_char_exec(c: char) -> (b: bool)
    ensures
        b == is_number_char(c),
{
    is_ascii_digit(c) || c == '.' || c == '%' || is_ascii_alpha(c)
}

/// End of the number that starts at `start`: digits, dots, `%` and letters
/// (so a unit such as `px` belongs to it).
fn scan_number(s: &Vec<char>, start: usize) -> (r: usize)
    requires
        start <= s@.len(),
    ensures
        r == number_end(s@, start as int),
{
    let mut k = start;
    while k < s.len() && is_number_char_exec(s[k])
        invariant
            start <= k <= s@.len(),
            number_end(s@, k as int) == number_end(s@, start as int),
        decreases s@.len() - k,
    {
        k = k + 1;
    }
    k
}

/// Whether `c` can continue an identifier.
fn is_identifier_continue(c: char) -> (b: bool)
    ensures
        b == is_identifier_char(c),
{
    is_ascii_alnum(c) || c == '_' || c == '-' || c == '$' || c == '@' || c == '#'
}

/// Whether an identifier begins at `i`.
fn is_identifier_start(s: &Vec<char>, i: usize) -> (b: bool)
    requires
        i < s@.len(),
    ensures
        b == identifier_start(s@, i as int),
{
    let c = s[i];
    let dashes = chars_of("--");
    is_ascii_alpha(c) || c == '_' || c == '$' || c == '@' || matches_at(s, i, &dashes)
}

/// End of the identifier that starts at `start`.
fn scan_identifier(s: &Vec<char>, start: usize) -> (r: usize)
    requires
        start <= s@.len(),
    ensures
        r == identifier_end(s@, start as int),
{
    let mut k = start;
    while k < s.len() && is_identifier_continue(s[k])
        invariant
            start <= k <= s@.len(),
            identifier_end(s@, k as int) == identifier_end(s@, start as int),
        decreases s@.len() - k,
    {
        k = k + 1;
    }
    k
}

fn scan_hex_digits(s: &Vec<char>, start: usize) -> (r: usize)
    requires
        start <= s@.len(),
    ensures
        r == hex_end(s@, start as int),
{
    let mut k = start;
    while k < s.len() && is_ascii_hex(s[k])
        invariant
            start <= k <= s@.len(),
            hex_end(s@, k as int) == hex_end(s@, start as int),
        decreases s@.len() - k,
    {
        k = k + 1;
    }
    k
}

/// The punctuation type of `c`, if it is one.
fn punctuation(c: char) -> (r: Option<PunctuationType>)
    ensures
        r == punctuation_of(c),
{
    match c {
        '(' => Some(PunctuationType::OpenParen),
        ')' => Some(PunctuationType::CloseParen),
        '{' => Some(PunctuationType::OpenBrace),
        '}' => Some(PunctuationType::CloseBrace),
        '[' => Some(PunctuationType::OpenBracket),
        ']' => Some(PunctuationType::CloseBracket),
        ';' => Some(PunctuationType::Semicolon),
        ':' => Some(PunctuationType::Colon),
        '.' => Some(PunctuationType::Dot),
        _ => None,
    }
}

/// The operator type of `c`, if it is one.
fn operator(c: char) -> (r: Option<OperatorType>)
    ensures
        r == operator_of(c),
{
    match c {
        '=' => Some(OperatorType::Assign),
        '+' => Some(OperatorType::Add),
        '-' => Some(OperatorType::Sub),
        '*' => Some(OperatorType::Mul),
        '/' => Some(OperatorType::Div),
        '%' => Some(OperatorType::Mod),
        '<' => Some(OperatorType::Lt),
        '>' => Some(OperatorType::Gt),
        '!' => Some(OperatorType::Not),
        '&' => Some(OperatorType::BitwiseAnd),
        '|' => Some(OperatorType::BitwiseOr),
        ',' => Some(OperatorType::Comma),
        '?' => Some(OperatorType::Ternary),
        _ => None,
    }
}

/// End of the leading run of digits and dots of `raw`.
fn decimal_prefix_end(raw: &Vec<char>) -> (r: usize)
    ensures
        r == decimal_end(raw@, 0),
{
    let mut k: usize = 0;
    while k < raw.len() && (is_ascii_digit(raw[k]) || raw[k] == '.')
        invariant
            k <= raw@.len(),
            decimal_end(raw@, k as int) == decimal_end(raw@, 0),
        decreases raw@.len() - k,
    {
        k = k + 1;
    }
    k
}

/// The CSS form of a number token: a zero value drops its unit (`0px`, `0em`,
/// `0%` and `0.0` all become `0`); any other value keeps its unit verbatim.
fn canonicalize_css_numeric(raw: &Vec<char>) -> (r: Vec<char>)
    ensures
        r@ == canonical_number(raw@),
{
    let e = decimal_prefix_end(raw);
    proof {
        lemma_decimal_end(raw@, 0);
    }
    let ghost p = raw@.take(e as int);
    let mut digits: usize = 0;
    let mut dots: usize = 0;
    let mut nonzero: usize = 0;
    let mut k: usize = 0;
    while k < e
        invariant
            k <= e <= raw@.len(),
            p == raw@.take(e as int),
            digits == digit_count(p.take(k as int)),
            dots == dot_count(p.take(k as int)),
            nonzero == nonzero_digit_count(p.take(k as int)),
            digits <= k,
            dots <= k,
            nonzero <= k,
        decreases e - k,
    {
        let c = raw[k];
        proof {
            assert(p.take(k + 1).drop_last() =~= p.take(k as int));
            assert(p.take(k + 1).last() == c);
        }
        if is_ascii_digit(c) {
            digits = digits + 1;
            if c != '0' {
                nonzero = nonzero + 1;
            }
        } else if c == '.' {
            dots = dots + 1;
        }
        k = k + 1;
    }
    assert(p.take(k as int) =~= p);
    if digits >= 1 && dots <= 1 && nonzero == 0 {
        let mut z: Vec<char> = Vec::new();
        z.push('0');
        assert(z@ =~= seq!['0']);
        z
    } else {
        copy_range(raw, 0, raw.len())
    }
}

/// The canonical hex color whose `#` is at `start`, with its end (see
/// [`hex_color_at`]); `None` when the `#` does not begin a hex color, as in an
/// id selector `#main`.
fn scan_css_hex_color(s: &Vec<char>, start: usize) -> (r: Option<(Vec<char>, usize)>)
    requires
        start < s.len(),
    ensures
        match r {
            Some(x) => hex_color_at(s@, start as int) == Some((x.0@, x.1 as int)),
            None => hex_color_at(s@, start as int) is None,
        },
{
    let after = start + 1;
    let end = scan_hex_digits(s, after);
    proof {
        lemma_hex_end(s@, after as int);
    }
    if end < s.len() && is_identifier_continue(s[end]) {
        return None;
    }
    let n = end - after;
    if !(n == 3 || n == 4 || n == 6 || n == 8) {
        return None;
    }
    let digits = lower_range(s, after, end);
    let mut out: Vec<char> = Vec::new();
    out.push('#');
    if n == 3 || n == 4 {
        let mut k: usize = 0;
        while k < digits.len()
            invariant
                k <= digits@.len(),
                out@ == seq!['#'] + doubled(digits@.take(k as int)),
            decreases digits@.len() - k,
        {
            let c = digits[k];
            out.push(c);
            out.push(c);
            k = k + 1;
            assert(doubled(digits@.take(k as int)) =~= doubled(digits@.take(k - 1)).push(c).push(
                c,
            ));
        }
        assert(digits@.take(k as int) =~= digits@);
    } else {
        let mut k: usize = 0;
        while k < digits.len()
            invariant
                k <= digits@.len(),
                out@ == seq!['#'] + digits@.take(k as int),
            decreases digits@.len() - k,
        {
            out.push(digits[k]);
            k = k + 1;
            assert(digits@.take(k as int) =~= digits@.take(k - 1).push(digits@[k - 1]));
        }
        assert(digits@.take(k as int) =~= digits@);
    }
    Some((out, end))
}

/// The string, hex color, number or identifier token at `i` and its end.
fn scan_value_token(s: &Vec<char>, i: usize, css: bool) -> (r: Option<(TokenKind, usize)>)
    requires
        i < s.len(),
    ensures
        match r {
            Some(x) => value_token_at(s@, i as int, css) == Some((x.0@, x.1 as int)),
            None => value_token_at(s@, i as int, css) is None,
        },
{
    let c = s[i];
    if c == '"' || c == '\'' || c == '`' {
        let (lit, next) = scan_string(s, i + 1, c);
        return Some((TokenKind::StringLiteral(string_from_chars(&lit)), next));
    }
    if css && c == '#' {
        if let Some((color, next)) = scan_css_hex_color(s, i) {
            return Some((TokenKind::Identifier(string_from_chars(&color)), next));
        }
    }
    if is_ascii_digit(c) {
        let next = scan_number(s, i);
        proof {
            lemma_number_end(s@, i as int);
        }
        let raw = copy_range(s, i, next);
        let value = if css {
            canonicalize_css_numeric(&raw)
        } else {
            raw
        };
        return Some((TokenKind::NumericLiteral(string_from_chars(&value)), next));
    }
    if is_identifier_start(s, i) {
        let next = scan_identifier(s, i);
        proof {
            lemma_identifier_end(s@, i as int);
        }
        let name = lower_range(s, i, next);
        return Some((TokenKind::Identifier(string_from_chars(&name)), next));
    }
    None
}

/// The token at `i` and its end: a value token, or one punctuation or
/// operator character; `None` for a character that begins no token.
fn scan_lexical_token(s: &Vec<char>, i: usize, css: bool) -> (r: Option<(TokenKind, usize)>)
    requires
        i < s.len(),
    ensures
        match r {
            Some(x) => token_at(s@, i as int, css) == Some((x.0@, x.1 as int)),
            None => token_at(s@, i as int, css) is None,
        },
{
    if let Some(scanned) = scan_value_token(s, i, css) {
        return Some(scanned);
    }
    if let Some(kind) = punctuation(s[i]) {
        return Some((TokenKind::Punctuation(kind), i + 1));
    }
    if let Some(kind) = operator(s[i]) {
        return Some((TokenKind::Operator(kind), i + 1));
    }
    None
}

/// A token of `kind` over the bytes `[start, end)`.
fn token(kind: TokenKind, start: usize, end: usize) -> (t: SourceToken)
    ensures
        t.kind == kind,
        t.span.start == start as u32,
        t.span.end == end as u32,
{
    SourceToken { kind, span: Span { start: start as u32, end: end as u32 } }
}

/// An empty boundary token named `name` at `byte_offset`.
pub fn boundary_token(name: &str, byte_offset: usize) -> (t: SourceToken)
    ensures
        t.kind@ == KindView::Boundary(name@),
        t.span.start == byte_offset as u32,
        t.span.end == byte_offset as u32,
{
    token(TokenKind::Boundary(string_of(name)), byte_offset, byte_offset)
}

/// Tokenizes an authored non-JS region (CSS-family source or markup) that
/// starts at byte `byte_offset` of its file. With `css`, numbers and hex colors
/// are canonicalized; without it, values are kept verbatim.
pub fn tokenize_lexical_region(source: &str, byte_offset: usize, css: bool) -> (tokens: Vec<
    SourceToken,
>)
    requires
        byte_offset + byte_pos(source@, source@.len() as int) <= usize::MAX,
    ensures
        tokens@.len() == region_tokens(source@, css).len(),
        forall|k: int|
            0 <= k < tokens@.len() ==> token_is(
                #[trigger] tokens@[k],
                region_tokens(source@, css)[k],
                source@,
                byte_offset as int,
            ),
{
    let s = chars_of(source);
    let ghost all = lexemes_from(s@, 0, css);
    let ghost mut done: Seq<Lexeme> = Seq::empty();
    let mut tokens: Vec<SourceToken> = Vec::new();
    let mut i: usize = 0;
    let mut b: usize = 0;
    proof {
        lemma_byte_pos_mono(s@, 0, s@.len() as int);
    }
    while i < s.len()
        invariant
            s@ == source@,
            i <= s@.len(),
            b == byte_pos(s@, i as int),
            byte_offset + byte_pos(s@, s@.len() as int) <= usize::MAX,
            all == lexemes_from(s@, 0, css),
            done + lexemes_from(s@, i as int, css) == all,
            tokens@.len() == done.len(),
            forall|k: int|
                0 <= k < tokens@.len() ==> token_is(
                    #[trigger] tokens@[k],
                    done[k],
                    s@,
                    byte_offset as int,
                ),
        decreases s@.len() - i,
    {
        proof {
            lemma_progress(s@, i as int, css);
            lemma_byte_pos_mono(s@, i as int, s@.len() as int);
        }
        if let Some(next) = skip_trivia(&s, i) {
            b = advance_bytes(&s, i, next, b);
            i = next;
            continue;
        }
        if let Some((kind, next)) = scan_lexical_token(&s, i, css) {
            let end_b = advance_bytes(&s, i, next, b);
            proof {
                lemma_byte_pos_mono(s@, next as int, s@.len() as int);
            }
            let ghost lx = Lexeme { kind: kind@, start: i as int, end: next as int };
            let tok = token(kind, byte_offset + b, byte_offset + end_b);
            tokens.push(tok);
            proof {
                assert(done.push(lx) + lexemes_from(s@, next as int, css) =~= done + (seq![lx]
                    + lexemes_from(s@, next as int, css)));
                done = done.push(lx);
            }
            b = end_b;
            i = next;
            continue;
        }
        proof {
            lemma_byte_pos_mono(s@, i + 1, s@.len() as int);
        }
        b = b + len_utf8(s[i]);
        i = i + 1;
    }
    assert(done + Seq::<Lexeme>::empty() =~= done);
    tokens
}


/// The characters a number runs over once it has begun with a digit: ASCII
/// digits, `.`, `%` (a percentage) and ASCII letters (a unit such as `px`).
pub open spec fn continues_number(c: char) -> bool {
    ('0' <= c <= '9') || c == '.' || c == '%' || ('a' <= c <= 'z') || ('A' <= c <= 'Z')
}

proof fn lemma_number_run(s: Seq<char>, k: int)
    requires
        0 <= k <= s.len(),
    ensures
        k <= number_end(s, k) <= s.len(),
        forall|q: int| k <= q < number_end(s, k) ==> continues_number(#[trigger] s[q]),
        number_end(s, k) == s.len() || !continues_number(s[number_end(s, k)]),
    decreases s.len() - k,
{
    if k < s.len() {
        lemma_number_run(s, k + 1);
    }
}

/// A token that begins with a digit is a number, and it runs over every
/// following digit, `.`, `%` and ASCII letter up to the first other
/// character (so `50%` and `1.5rem` are single tokens, and no `%` that a
/// number reaches becomes an operator).
pub proof fn lemma_number_token_extent(s: Seq<char>, i: int, css: bool)
    requires
        0 <= i < s.len(),
        '0' <= s[i] <= '9',
    ensures
        token_at(s, i, css) is Some,
        token_at(s, i, css).unwrap().0 is NumericLiteral,
        i < token_at(s, i, css).unwrap().1 <= s.len(),
        forall|q: int| i <= q < token_at(s, i, css).unwrap().1 ==> continues_number(#[trigger] s[q]),
        token_at(s, i, css).unwrap().1 == s.len() || !continues_number(s[token_at(s, i, css).unwrap().1]),
{
    lemma_number_run(s, i);
    assert(continues_number(s[i]));
    lemma_number_end(s, i);
}

proof fn lemma_lexemes_are_tokens(s: Seq<char>, i: int, css: bool)
    ensures
        forall|k: int|
            0 <= k < lexemes_from(s, i, css).len() ==> {
                let lx = #[trigger] lexemes_from(s, i, css)[k];
                &&& 0 <= lx.start < s.len()
                &&& trivia_end(s, lx.start) is None
                &&& token_at(s, lx.start, css) == Some((lx.kind, lx.end))
            },
    decreases s.len() - i,
{
    if 0 <= i < s.len() {
        match trivia_end(s, i) {
            Some(j) => {
                if i < j <= s.len() {
                    lemma_lexemes_are_tokens(s, j, css);
                }
            },
            None => match token_at(s, i, css) {
                Some(t) => {
                    if i < t.1 <= s.len() {
                        lemma_lexemes_are_tokens(s, t.1, css);
                        let rest = lexemes_from(s, t.1, css);
                        let first = Lexeme { kind: t.0, start: i, end: t.1 };
                        assert(lexemes_from(s, i, css) == seq![first] + rest);
                        assert forall|k: int| 0 <= k < lexemes_from(s, i, css).len() implies {
                            let lx = #[trigger] lexemes_from(s, i, css)[k];
                            &&& 0 <= lx.start < s.len()
                            &&& trivia_end(s, lx.start) is None
                            &&& token_at(s, lx.start, css) == Some((lx.kind, lx.end))
                        } by {
                            if k > 0 {
                                assert(lexemes_from(s, i, css)[k] == rest[k - 1]);
                            }
                        }
                    }
                },
                None => {
                    lemma_lexemes_are_tokens(s, i + 1, css);
                },
            },
        }
    }
}

/// In the tokens of a region, every token that begins with a digit is a
/// number spanning the whole run of digits, `.`, `%` and ASCII letters that
/// follows.
pub proof fn lemma_region_numbers_are_maximal(s: Seq<char>, css: bool)
    ensures
        forall|k: int|
            0 <= k < region_tokens(s, css).len() && '0' <= s[(#[trigger] region_tokens(s, css)[k]).start]
                <= '9' ==> {
                let lx = region_tokens(s, css)[k];
                &&& lx.kind is NumericLiteral
                &&& forall|q: int| lx.start <= q < lx.end ==> continues_number(#[trigger] s[q])
                &&& (lx.end == s.len() || !continues_number(s[lx.end]))
            },
{
    lemma_lexemes_are_tokens(s, 0, css);
    assert forall|k: int|
        0 <= k < region_tokens(s, css).len() && '0' <= s[(#[trigger] region_tokens(s, css)[k]).start] <= '9' implies {
        let lx = region_tokens(s, css)[k];
        &&& lx.kind is NumericLiteral
        &&& forall|q: int| lx.start <= q < lx.end ==> continues_number(#[trigger] s[q])
        &&& (lx.end == s.len() || !continues_number(s[lx.end]))
    } by {
        let lx = region_tokens(s, css)[k];
        lemma_number_token_extent(s, lx.start, css);
    }
}

} // verus!
