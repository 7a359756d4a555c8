use plow_logic::lexical::{
    boundary_token, tokenize_lexical_region, OperatorType, PunctuationType, Span, TokenKind,
};

fn kinds(src: &str, css: bool) -> Vec<TokenKind> {
    tokenize_lexical_region(src, 0, css).into_iter().map(|t| t.kind).collect()
}

fn text(k: &TokenKind) -> String {
    match k {
        TokenKind::Identifier(v)
        | TokenKind::StringLiteral(v)
        | TokenKind::NumericLiteral(v)
        | TokenKind::Boundary(v) => v.clone(),
        TokenKind::Punctuation(p) => format!("{p:?}"),
        TokenKind::Operator(o) => format!("{o:?}"),
    }
}

#[test]
fn lexical_spans_are_byte_offsets_shifted_by_region_offset() {
    let toks = tokenize_lexical_region("é a", 10, false);
    assert_eq!(toks.len(), 1);
    assert_eq!(toks[0].span, Span { start: 13, end: 14 });
    assert!(matches!(&toks[0].kind, TokenKind::Identifier(v) if v == "a"));
}

#[test]
fn lexical_comments_and_whitespace_are_skipped() {
    let k = kinds("/* x */ a // b\n c /* open", false);
    let t: Vec<String> = k.iter().map(text).collect();
    assert_eq!(t, vec!["a", "c"]);
}

#[test]
fn lexical_strings_drop_escapes_and_quotes() {
    let toks = tokenize_lexical_region(r#""a\"b" 'c"#, 0, false);
    assert_eq!(toks.len(), 2);
    assert!(matches!(&toks[0].kind, TokenKind::StringLiteral(v) if v == "a\"b"));
    assert_eq!(toks[0].span, Span { start: 0, end: 6 });
    assert!(matches!(&toks[1].kind, TokenKind::StringLiteral(v) if v == "c"));
    assert_eq!(toks[1].span, Span { start: 7, end: 9 });
}

#[test]
fn lexical_identifiers_are_lowercased_and_custom_properties_kept() {
    let t: Vec<String> = kinds("Color: --Main-BG; $x @media", false).iter().map(text).collect();
    assert_eq!(t, vec!["color", "Colon", "--main-bg", "Semicolon", "$x", "@media"]);
}

#[test]
fn lexical_punctuation_and_operators() {
    let k = kinds("(a+b)*c?d:e, !x", false);
    assert!(matches!(k[0], TokenKind::Punctuation(PunctuationType::OpenParen)));
    assert!(matches!(k[2], TokenKind::Operator(OperatorType::Add)));
    assert!(matches!(k[4], TokenKind::Punctuation(PunctuationType::CloseParen)));
    assert!(matches!(k[5], TokenKind::Operator(OperatorType::Mul)));
    assert!(matches!(k[7], TokenKind::Operator(OperatorType::Ternary)));
    assert!(matches!(k[11], TokenKind::Operator(OperatorType::Comma)));
    assert!(matches!(k[12], TokenKind::Operator(OperatorType::Not)));
}

#[test]
fn css_numbers_zero_forms() {
    let t: Vec<String> = kinds("0.0 00.000em 0. .0 0..0 1e0 0x 10px", true).iter().map(text).collect();
    assert_eq!(
        t,
        vec!["0", "0", "0", "Dot", "0", "0..0", "1e0", "0", "10px"]
    );
}

#[test]
fn css_hex_color_lengths() {
    let t: Vec<String> = kinds("#ABCDEF #12345678 #12345 #abc-x", true).iter().map(text).collect();
    assert_eq!(t, vec!["#abcdef", "#12345678", "12345", "abc-x"]);
}

#[test]
fn boundary_token_is_empty_at_offset() {
    let t = boundary_token("file", 42);
    assert_eq!(t.span, Span { start: 42, end: 42 });
    assert!(matches!(&t.kind, TokenKind::Boundary(v) if v == "file"));
}
