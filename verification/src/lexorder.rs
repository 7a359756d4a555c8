//! Lexicographic comparison of integer sequences, as Rust orders slices:
//! element by element, and a proper prefix before the longer sequence.
use vstd::prelude::*;

verus! {

/// Three-way comparison of two integers: `-1`, `0` or `1`.
pub open spec fn three_way(a: int, b: int) -> int {
    if a < b {
        -1
    } else if a == b {
        0
    } else {
        1
    }
}

/// Three-way lexicographic comparison of two sequences: `-1`, `0` or `1`.
pub open spec fn lex_compare(a: Seq<i64>, b: Seq<i64>) -> int
    decreases a.len(),
{
    if a.len() == 0 {
        if b.len() == 0 {
            0
        } else {
            -1
        }
    } else if b.len() == 0 {
        1
    } else if a[0] != b[0] {
        three_way(a[0] as int, b[0] as int)
    } else {
        lex_compare(a.drop_first(), b.drop_first())
    }
}

/// `a` orders strictly before `b`.
pub open spec fn lex_lt(a: Seq<i64>, b: Seq<i64>) -> bool {
    lex_compare(a, b) < 0
}

/// The comparison takes one of three values and is zero exactly on equal sequences.
pub proof fn lemma_lex_compare_basic(a: Seq<i64>, b: Seq<i64>)
    ensures
        -1 <= lex_compare(a, b) <= 1,
        lex_compare(a, b) == 0 <==> a =~= b,
        lex_compare(b, a) == -lex_compare(a, b),
    decreases a.len(),
{
    if a.len() > 0 && b.len() > 0 && a[0] == b[0] {
        lemma_lex_compare_basic(a.drop_first(), b.drop_first());
        if a.drop_first() =~= b.drop_first() {
            assert(a =~= seq![a[0]] + a.drop_first());
            assert(b =~= seq![b[0]] + b.drop_first());
        }
        if a =~= b {
            assert(a.drop_first() =~= b.drop_first());
        }
    } else if a.len() > 0 && b.len() > 0 {
        assert(a[0] != b[0]);
        if a =~= b {
            assert(a[0] == b[0]);
        }
    }
}

/// Equal leading parts leave the comparison to what follows them.
pub proof fn lemma_lex_compare_common_prefix(a: Seq<i64>, c: Seq<i64>, d: Seq<i64>)
    ensures
        lex_compare(a + c, a + d) == lex_compare(c, d),
    decreases a.len(),
{
    if a.len() > 0 {
        lemma_lex_compare_common_prefix(a.drop_first(), c, d);
        assert((a + c).drop_first() =~= a.drop_first() + c);
        assert((a + d).drop_first() =~= a.drop_first() + d);
    } else {
        assert(a + c =~= c);
        assert(a + d =~= d);
    }
}

/// Distinct leading parts decide the comparison, when the shorter of them
/// has nothing after it or both have the same length.
pub proof fn lemma_lex_compare_decided_prefix(a: Seq<i64>, c: Seq<i64>, b: Seq<i64>, d: Seq<i64>)
    requires
        !(a =~= b),
        a.len() == b.len() || (a.len() < b.len() && c.len() == 0) || (b.len() < a.len() && d.len()
            == 0),
    ensures
        lex_compare(a + c, b + d) == lex_compare(a, b),
    decreases a.len(),
{
    if a.len() == 0 {
        assert(b.len() > 0);
        assert(a + c =~= c);
        assert((b + d).len() > 0);
    } else if b.len() == 0 {
        assert(b + d =~= d);
        assert((a + c).len() > 0);
    } else {
        assert((a + c)[0] == a[0]);
        assert((b + d)[0] == b[0]);
        if a[0] == b[0] {
            assert((a + c).drop_first() =~= a.drop_first() + c);
            assert((b + d).drop_first() =~= b.drop_first() + d);
            if a.drop_first() =~= b.drop_first() {
                assert(a =~= seq![a[0]] + a.drop_first());
                assert(b =~= seq![b[0]] + b.drop_first());
            }
            lemma_lex_compare_decided_prefix(a.drop_first(), c, b.drop_first(), d);
        }
    }
}

} // verus!
