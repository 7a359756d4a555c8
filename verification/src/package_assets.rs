//! Template and scaffold directories that a package publishes through its
//! `files` list: they are copied into new projects, never imported, so their
//! contents count as used assets.
use vstd::prelude::*;

use crate::text::{
    chars_contain_str, chars_end_with_str, chars_eq_str, chars_of, chars_start_with_str, ends_with,
    has_char, push_str, split_chars, split_on, starts_with, string_from_chars, strip_leading,
    strip_leading_chars, strip_prefix_all, strip_prefix_all_chars, strip_suffix_all,
    strip_suffix_all_chars, strip_trailing, strip_trailing_chars, string_views, trim, trim_chars,
    vec_views,
};
use crate::walkthrough::{extension_of, file_name_of};

verus! {

/// `s` with each backslash turned into a slash.
pub open spec fn slashed(s: Seq<char>) -> Seq<char> {
    s.map_values(|c: char|
        if c == '\\' {
            '/'
        } else {
            c
        })
}

/// The path has a `..` component.
pub open spec fn has_parent_component(p: Seq<char>) -> bool {
    split_on(p, '/').contains(".."@)
}

/// A `files` entry as a relative pattern: trimmed, with slashes for
/// backslashes and no leading `./`; `None` for an empty, negated, absolute,
/// drive-qualified or parent-escaping entry. Surrounding slashes are dropped.
pub open spec fn normalized_entry(entry: Seq<char>) -> Option<Seq<char>> {
    let n = strip_prefix_all(slashed(trim(entry)), "./"@);
    if n.len() == 0 || n[0] == '!' || n[0] == '/' || n.contains(':') || has_parent_component(n) {
        None
    } else {
        Some(strip_trailing(strip_leading(n, '/'), '/'))
    }
}

/// A path segment without its glob stars and trailing braces.
pub open spec fn segment_core(seg: Seq<char>) -> Seq<char> {
    strip_trailing(strip_trailing(strip_trailing(strip_leading(seg, '*'), '*'), '{'), '}')
}

pub open spec fn is_template_segment(seg: Seq<char>) -> bool {
    starts_with(segment_core(seg), "template"@) || starts_with(segment_core(seg), "scaffold"@)
}

/// Some segment of the pattern names a template or scaffold directory.
pub open spec fn has_template_segment(p: Seq<char>) -> bool {
    exists|i: int| 0 <= i < split_on(p, '/').len() && #[trigger] is_template_segment(split_on(p, '/')[i])
}

/// The pattern names a single file: its last segment (past any `/**` or
/// `/**/*` tail) has no star and has an extension.
pub open spec fn names_a_file(p: Seq<char>) -> bool {
    let t = strip_suffix_all(strip_suffix_all(p, "/**"@), "/**/*"@);
    let seg = split_on(t, '/').last();
    !seg.contains('*') && (file_name_of(seg) matches Some(n) && extension_of(n) is Some)
}

/// The asset pattern of one `files` entry: a template or scaffold directory,
/// made recursive unless it already is.
pub open spec fn asset_pattern_of(entry: Seq<char>) -> Option<Seq<char>> {
    match normalized_entry(entry) {
        None => None,
        Some(n) => if !has_template_segment(n) || names_a_file(n) {
            None
        } else if ends_with(n, "/**"@) || ends_with(n, "/**/*"@) {
            Some(n)
        } else {
            Some(n + "/**/*"@)
        },
    }
}

/// The asset patterns of the first `k` entries, in order.
pub open spec fn asset_patterns_of(files: Seq<Seq<char>>, k: int) -> Seq<Seq<char>>
    decreases k,
{
    if k <= 0 {
        Seq::empty()
    } else {
        let init = asset_patterns_of(files, k - 1);
        match asset_pattern_of(files[k - 1]) {
            Some(p) => init.push(p),
            None => init,
        }
    }
}

/// Some entry, trimmed, is a negation (`!...`).
pub open spec fn has_negation(files: Seq<Seq<char>>) -> bool {
    exists|i: int|
        0 <= i < files.len() && #[trigger] trim(files[i]).len() > 0 && trim(files[i])[0] == '!'
}

fn slashed_chars(s: &Vec<char>) -> (r: Vec<char>)
    ensures
        r@ == slashed(s@),
{
    let mut out: Vec<char> = Vec::new();
    let mut i: usize = 0;
    while i < s.len()
        invariant
            i <= s@.len(),
            out@ == slashed(s@.take(i as int)),
        decreases s@.len() - i,
    {
        if s[i] == '\\' {
            out.push('/');
        } else {
            out.push(s[i]);
        }
        i = i + 1;
        assert(out@ =~= slashed(s@.take(i as int)));
    }
    assert(s@.take(i as int) =~= s@);
    out
}

fn has_parent_or_prefix_component(p: &Vec<char>) -> (b: bool)
    ensures
        b == has_parent_component(p@),
{
    let pieces = split_chars(p, '/');
    let mut i: usize = 0;
    while i < pieces.len()
        invariant
            i <= pieces@.len(),
            vec_views(pieces@) == split_on(p@, '/'),
            forall|k: int| 0 <= k < i ==> split_on(p@, '/')[k] != ".."@,
        decreases pieces@.len() - i,
    {
        assert(vec_views(pieces@)[i as int] == pieces@[i as int]@);
        if chars_eq_str(&pieces[i], "..") {
            assert(split_on(p@, '/')[i as int] == ".."@);
            return true;
        }
        i = i + 1;
    }
    false
}

/// The normalized form of a `files` entry, if it is a usable relative pattern.
pub fn normalize_publish_entry(entry: &str) -> (r: Option<String>)
    ensures
        match r {
            Some(s) => normalized_entry(entry@) == Some(s@),
            None => normalized_entry(entry@) is None,
        },
{
    let t = trim_chars(&chars_of(entry));
    let sl = slashed_chars(&t);
    let n = strip_prefix_all_chars(&sl, "./");
    if n.len() == 0 || n[0] == '!' || n[0] == '/' || has_char(&n, ':') || has_parent_or_prefix_component(&n) {
        return None;
    }
    let a = strip_leading_chars(&n, '/');
    let b = strip_trailing_chars(&a, '/');
    Some(string_from_chars(&b))
}

fn segment_core_chars(seg: &Vec<char>) -> (r: Vec<char>)
    ensures
        r@ == segment_core(seg@),
{
    let a = strip_leading_chars(seg, '*');
    let b = strip_trailing_chars(&a, '*');
    let c = strip_trailing_chars(&b, '{');
    strip_trailing_chars(&c, '}')
}

/// Whether some segment of the pattern names a template or scaffold directory.
pub fn has_template_or_scaffold_segment(pattern: &str) -> (b: bool)
    ensures
        b == has_template_segment(pattern@),
{
    let p = chars_of(pattern);
    let pieces = split_chars(&p, '/');
    let mut i: usize = 0;
    while i < pieces.len()
        invariant
            i <= pieces@.len(),
            p@ == pattern@,
            vec_views(pieces@) == split_on(p@, '/'),
            forall|k: int| 0 <= k < i ==> !#[trigger] is_template_segment(split_on(p@, '/')[k]),
        decreases pieces@.len() - i,
    {
        assert(vec_views(pieces@)[i as int] == pieces@[i as int]@);
        let core = segment_core_chars(&pieces[i]);
        if chars_start_with_str(&core, "template") || chars_start_with_str(&core, "scaffold") {
            assert(is_template_segment(split_on(p@, '/')[i as int]));
            return true;
        }
        i = i + 1;
    }
    false
}

/// Whether the pattern names a single file rather than a directory.
pub fn looks_like_file(pattern: &str) -> (b: bool)
    ensures
        b == names_a_file(pattern@),
{
    let p = chars_of(pattern);
    let a = strip_suffix_all_chars(&p, "/**");
    let t = strip_suffix_all_chars(&a, "/**/*");
    let pieces = split_chars(&t, '/');
    proof {
        crate::text::lemma_split_on_nonempty(t@, '/');
    }
    let seg = &pieces[pieces.len() - 1];
    assert(seg@ == split_on(t@, '/').last());
    if has_char(seg, '*') {
        return false;
    }
    let seg_s = string_from_chars(seg);
    match crate::walkthrough::file_extension(seg_s.as_str()) {
        Some(_) => true,
        None => false,
    }
}

/// The recursive asset pattern of one `files` entry, if it names a template
/// or scaffold directory.
pub fn scaffold_template_asset_pattern(entry: &str) -> (r: Option<String>)
    ensures
        match r {
            Some(s) => asset_pattern_of(entry@) == Some(s@),
            None => asset_pattern_of(entry@) is None,
        },
{
    let normalized = match normalize_publish_entry(entry) {
        Some(n) => n,
        None => {
            return None;
        },
    };
    if !has_template_or_scaffold_segment(normalized.as_str()) || looks_like_file(normalized.as_str()) {
        return None;
    }
    let n = chars_of(normalized.as_str());
    if chars_end_with_str(&n, "/**") || chars_end_with_str(&n, "/**/*") {
        return Some(normalized);
    }
    let mut out = n;
    push_str(&mut out, "/**/*");
    Some(string_from_chars(&out))
}

/// The asset patterns of a package's `files` list; none at all when the list
/// holds a negated entry.
pub fn scaffold_template_asset_patterns(files: &Vec<String>) -> (r: Vec<String>)
    ensures
        has_negation(string_views(files@)) ==> r@.len() == 0,
        !has_negation(string_views(files@)) ==> string_views(r@) == asset_patterns_of(
            string_views(files@),
            files@.len() as int,
        ),
{
    let ghost fs = string_views(files@);
    let mut i: usize = 0;
    while i < files.len()
        invariant
            i <= files@.len(),
            fs == string_views(files@),
            forall|k: int| 0 <= k < i ==> !(#[trigger] trim(fs[k]).len() > 0 && trim(fs[k])[0] == '!'),
        decreases files@.len() - i,
    {
        let t = trim_chars(&chars_of(files[i].as_str()));
        assert(fs[i as int] == files@[i as int]@);
        if t.len() > 0 && t[0] == '!' {
            assert(trim(fs[i as int]).len() > 0 && trim(fs[i as int])[0] == '!');
            return Vec::new();
        }
        i = i + 1;
    }
    let mut out: Vec<String> = Vec::new();
    let mut k: usize = 0;
    while k < files.len()
        invariant
            k <= files@.len(),
            fs == string_views(files@),
            string_views(out@) == asset_patterns_of(fs, k as int),
        decreases files@.len() - k,
    {
        assert(fs[k as int] == files@[k as int]@);
        let ghost before = string_views(out@);
        match scaffold_template_asset_pattern(files[k].as_str()) {
            Some(p) => {
                let ghost pv = p@;
                out.push(p);
                assert(string_views(out@) =~= before.push(pv));
            },
            None => {},
        }
        k = k + 1;
    }
    out
}

} // verus!
