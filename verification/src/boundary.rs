//! File-boundary bookkeeping for clone detection.
//!
//! A file's hashed token stream may hold boundary tokens (where one embedded
//! region ends and the next begins). A clone must not span one, so each file
//! gets a prefix count of boundaries over its hashed tokens; a range holds a
//! boundary exactly when the count differs at its two ends.
use vstd::prelude::*;

use crate::lexical::{KindView, SourceToken};

verus! {

/// A token of the hashed stream, with the index of the source token it came from.
#[derive(Clone, Copy, Debug)]
pub struct HashedToken {
    pub hash: u64,
    pub original_index: usize,
}

/// The source tokens of a file.
#[derive(Clone, Debug)]
pub struct FileTokens {
    pub tokens: Vec<SourceToken>,
}

/// A file as the clone detector sees it: its hashed stream and its source tokens.
#[derive(Clone, Debug)]
pub struct FileData {
    pub hashed_tokens: Vec<HashedToken>,
    pub file_tokens: FileTokens,
}

/// The source token at `original_index` exists and is a boundary.
pub open spec fn is_boundary_index(file: FileData, original_index: int) -> bool {
    0 <= original_index < file.file_tokens.tokens@.len()
        && file.file_tokens.tokens@[original_index].kind@ is Boundary
}

/// The hashed token at position `k` stands for a boundary.
pub open spec fn hashed_is_boundary(file: FileData, k: int) -> bool {
    is_boundary_index(file, file.hashed_tokens@[k].original_index as int)
}

/// Number of boundary tokens among the first `k` hashed tokens.
pub open spec fn boundary_count(file: FileData, k: int) -> nat
    decreases k,
{
    if k <= 0 {
        0
    } else {
        boundary_count(file, k - 1) + if hashed_is_boundary(file, k - 1) {
            1nat
        } else {
            0nat
        }
    }
}

/// Some hashed token in `[from, to)` stands for a boundary.
pub open spec fn has_boundary_in(file: FileData, from: int, to: int) -> bool {
    exists|k: int| from <= k < to && #[trigger] hashed_is_boundary(file, k)
}

/// What `build_boundary_prefixes` gives for one file: nothing when no hashed
/// token is a boundary, else the running boundary count at every position
/// `0..=n`.
pub open spec fn prefix_matches(file: FileData, p: Option<Vec<u32>>) -> bool {
    let n = file.hashed_tokens@.len() as int;
    if !has_boundary_in(file, 0, n) {
        p is None
    } else {
        &&& p is Some
        &&& p->0@.len() == n + 1
        &&& forall|k: int| 0 <= k <= n ==> #[trigger] p->0@[k] == boundary_count(file, k)
    }
}

proof fn lemma_count_step(file: FileData, k: int)
    requires
        k >= 0,
    ensures
        boundary_count(file, k + 1) == boundary_count(file, k) + if hashed_is_boundary(file, k) {
            1nat
        } else {
            0nat
        },
{
}

/// Counts grow by one exactly at boundaries, so the count differs across a
/// range exactly when the range holds a boundary.
pub proof fn lemma_count_detects_boundary(file: FileData, from: int, to: int)
    requires
        0 <= from <= to,
    ensures
        boundary_count(file, from) <= boundary_count(file, to),
        boundary_count(file, from) != boundary_count(file, to) <==> has_boundary_in(file, from, to),
    decreases to - from,
{
    if from < to {
        lemma_count_detects_boundary(file, from, to - 1);
        lemma_count_step(file, to - 1);
        if has_boundary_in(file, from, to) {
            let k = choose|k: int| from <= k < to && #[trigger] hashed_is_boundary(file, k);
            if k < to - 1 {
                assert(has_boundary_in(file, from, to - 1));
            }
        }
        if has_boundary_in(file, from, to - 1) {
            let k = choose|k: int| from <= k < to - 1 && #[trigger] hashed_is_boundary(file, k);
            assert(from <= k < to);
        }
    }
}

/// Whether the source token at `original_index` exists and is a boundary.
fn hashed_token_is_boundary(file: &FileData, original_index: usize) -> (b: bool)
    ensures
        b == is_boundary_index(*file, original_index as int),
{
    if original_index < file.file_tokens.tokens.len() {
        match &file.file_tokens.tokens[original_index].kind {
            crate::lexical::TokenKind::Boundary(_) => true,
            _ => false,
        }
    } else {
        false
    }
}

/// The boundary prefix counts of one file.
fn boundary_prefix(file: &FileData) -> (p: Option<Vec<u32>>)
    requires
        file.hashed_tokens@.len() < u32::MAX,
    ensures
        prefix_matches(*file, p),
{
    let n = file.hashed_tokens.len();
    let mut any = false;
    let mut i: usize = 0;
    while i < n
        invariant
            n == file.hashed_tokens@.len(),
            i <= n,
            any == has_boundary_in(*file, 0, i as int),
        decreases n - i,
    {
        let b = hashed_token_is_boundary(file, file.hashed_tokens[i].original_index);
        proof {
            if b {
                assert(hashed_is_boundary(*file, i as int));
            } else if any {
                let k = choose|k: int| 0 <= k < i && #[trigger] hashed_is_boundary(*file, k);
                assert(0 <= k < i + 1);
            } else {
                if has_boundary_in(*file, 0, i + 1) {
                    let k = choose|k: int| 0 <= k < i + 1 && #[trigger] hashed_is_boundary(*file, k);
                    assert(k < i);
                }
            }
        }
        any = any || b;
        i = i + 1;
    }
    if !any {
        return None;
    }
    let mut prefix: Vec<u32> = Vec::new();
    let mut count: u32 = 0;
    prefix.push(count);
    let mut j: usize = 0;
    while j < n
        invariant
            n == file.hashed_tokens@.len(),
            n < u32::MAX,
            j <= n,
            count == boundary_count(*file, j as int),
            count <= j,
            prefix@.len() == j + 1,
            forall|k: int| 0 <= k <= j ==> #[trigger] prefix@[k] == boundary_count(*file, k),
        decreases n - j,
    {
        proof {
            lemma_count_step(*file, j as int);
        }
        if hashed_token_is_boundary(file, file.hashed_tokens[j].original_index) {
            count = count + 1;
        }
        prefix.push(count);
        j = j + 1;
    }
    Some(prefix)
}

/// For every file, the running count of boundary tokens over its hashed
/// stream (`n + 1` entries), or `None` for a file without boundaries.
pub fn build_boundary_prefixes(files: &Vec<FileData>) -> (out: Vec<Option<Vec<u32>>>)
    requires
        forall|f: int| 0 <= f < files@.len() ==> (#[trigger] files@[f]).hashed_tokens@.len() < u32::MAX,
    ensures
        out@.len() == files@.len(),
        forall|f: int| 0 <= f < files@.len() ==> prefix_matches(files@[f], #[trigger] out@[f]),
{
    let mut out: Vec<Option<Vec<u32>>> = Vec::new();
    let mut f: usize = 0;
    while f < files.len()
        invariant
            f <= files@.len(),
            out@.len() == f,
            forall|g: int| 0 <= g < files@.len() ==> (#[trigger] files@[g]).hashed_tokens@.len() < u32::MAX,
            forall|g: int| 0 <= g < f ==> prefix_matches(files@[g], #[trigger] out@[g]),
        decreases files@.len() - f,
    {
        let p = boundary_prefix(&files[f]);
        out.push(p);
        f = f + 1;
    }
    out
}

/// Whether `[offset, offset + length)` holds a boundary, by its prefix counts.
pub fn range_contains_boundary(prefix: Option<&Vec<u32>>, offset: usize, length: usize) -> (b: bool)
    requires
        prefix matches Some(p) ==> offset + length < p.len(),
    ensures
        b == (prefix matches Some(p) && p@[offset as int] != p@[offset + length]),
{
    match prefix {
        Some(p) => p[offset] != p[offset + length],
        None => false,
    }
}

/// A range of a file's hashed stream is reported to hold a boundary exactly
/// when one of its tokens stands for a boundary.
pub proof fn lemma_range_check_finds_boundaries(
    file: FileData,
    p: Option<Vec<u32>>,
    offset: int,
    length: int,
)
    requires
        prefix_matches(file, p),
        0 <= offset,
        0 <= length,
        offset + length <= file.hashed_tokens@.len(),
    ensures
        (p matches Some(v) && v@[offset] != v@[offset + length]) <==> has_boundary_in(
            file,
            offset,
            offset + length,
        ),
{
    lemma_count_detects_boundary(file, offset, offset + length);
    let n = file.hashed_tokens@.len() as int;
    if p is None && has_boundary_in(file, offset, offset + length) {
        let k = choose|k: int| offset <= k < offset + length && #[trigger] hashed_is_boundary(file, k);
        assert(has_boundary_in(file, 0, n));
    }
}

} // verus!
