use plow_logic::pr_comment::{
    max_comments, parse_usize, sanitize_marker_segment, short_hex_hash, WorkspaceMarker,
};

#[test]
fn short_hex_hash_is_deterministic_and_six_chars() {
    let a = short_hex_hash("api,worker");
    assert_eq!(a.len(), 6);
    assert_eq!(a, short_hex_hash("api,worker"));
    assert_ne!(a, short_hex_hash("admin,web"));
}

#[test]
fn sanitize_marker_segment_collapses_unsafe_chars_to_dashes() {
    assert_eq!(sanitize_marker_segment("@plow/runtime"), "plow-runtime");
    assert_eq!(
        sanitize_marker_segment("packages/web ui"),
        "packages-web-ui"
    );
    assert_eq!(sanitize_marker_segment("plain"), "plain");
    assert_eq!(
        sanitize_marker_segment("--leading-trailing--"),
        "leading-trailing"
    );
}

fn fnv_reference(value: &str) -> String {
    let mut hash: u64 = 0xcbf2_9ce4_8422_2325;
    for byte in value.bytes() {
        hash ^= u64::from(byte);
        hash = hash.wrapping_mul(0x0100_0000_01b3);
    }
    format!("{:06x}", (hash & 0x00ff_ffff) as u32)
}

#[test]
fn short_hex_hash_matches_fnv1a_of_utf8_bytes() {
    for s in ["", "a", "api,worker", "wörk/späce", "日本"] {
        assert_eq!(short_hex_hash(s), fnv_reference(s));
    }
}

#[test]
fn workspace_marker_single_name_and_sorted_hash() {
    let mut m = WorkspaceMarker::new();
    m.set_workspace_marker_from_list(&vec!["  ".to_owned()]);
    assert!(m.value.is_none());
    m.set_workspace_marker_from_list(&vec![" web ".to_owned(), "".to_owned()]);
    assert_eq!(m.value.as_deref(), Some("web"));
    m.set_workspace_marker_from_list(&vec!["api".to_owned()]);
    assert_eq!(m.value.as_deref(), Some("web"), "set at most once");

    let mut a = WorkspaceMarker::new();
    a.set_workspace_marker_from_list(&vec!["worker".to_owned(), " api".to_owned()]);
    let mut b = WorkspaceMarker::new();
    b.set_workspace_marker_from_list(&vec!["api".to_owned(), "worker".to_owned()]);
    let expected = format!("w-{}", fnv_reference("api,worker"));
    assert_eq!(a.value.as_deref(), Some(expected.as_str()));
    assert_eq!(a.value, b.value);
}

#[test]
fn sticky_marker_id_precedence() {
    let mut m = WorkspaceMarker::new();
    assert_eq!(m.sticky_marker_id(None), "plow-results");
    assert_eq!(m.sticky_marker_id(Some("  ")), "plow-results");
    m.set_workspace_marker_from_list(&vec!["@scope/web ui".to_owned()]);
    assert_eq!(m.sticky_marker_id(None), "plow-results-scope-web-ui");
    assert_eq!(m.sticky_marker_id(Some(" mine ")), " mine ");
}

#[test]
fn max_comments_parses_or_defaults() {
    assert_eq!(max_comments(None), 50);
    assert_eq!(max_comments(Some("12")), 12);
    assert_eq!(max_comments(Some("+7")), 7);
    assert_eq!(max_comments(Some("-1")), 50);
    assert_eq!(max_comments(Some(" 3")), 50);
    assert_eq!(max_comments(Some("")), 50);
    assert_eq!(max_comments(Some("99999999999999999999999")), 50);
    assert_eq!(parse_usize("0"), Some(0));
    assert_eq!(parse_usize("+"), None);
    assert_eq!(parse_usize("18446744073709551615"), Some(usize::MAX));
}

#[test]
fn sanitized_segments_hold_only_marker_safe_chars() {
    for s in ["<!-- x -->", "-a b-", "日本/語", "--", "a.b_c-d", "  >>x<<  "] {
        let out = sanitize_marker_segment(s);
        assert!(out
            .chars()
            .all(|c| c.is_ascii_alphanumeric() || c == '-' || c == '_' || c == '.'));
        assert!(!out.starts_with('-') && !out.ends_with('-'), "{out}");
    }
    assert_eq!(sanitize_marker_segment("<!-- x -->"), "x");
    assert_eq!(sanitize_marker_segment("--"), "");
}

#[test]
fn short_hex_hash_is_lower_hex() {
    for s in ["", "api", "a,b,c", "ß"] {
        let h = short_hex_hash(s);
        assert_eq!(h.chars().count(), 6);
        assert!(h.chars().all(|c| c.is_ascii_digit() || ('a'..='f').contains(&c)));
    }
}

#[test]
fn sanitized_segments_never_hold_the_reserved_double_dash() {
    assert_eq!(sanitize_marker_segment("a  b"), "a-b");
    assert_eq!(sanitize_marker_segment("a<>b"), "a-b");
    assert_eq!(sanitize_marker_segment("a--b"), "a-b");
    assert_eq!(sanitize_marker_segment("x -- y"), "x-y");
    for s in ["<!-- x -->", "a  b  c", "@@web//ui", "-- --"] {
        assert!(!sanitize_marker_segment(s).contains("--"), "{s}");
    }
}
