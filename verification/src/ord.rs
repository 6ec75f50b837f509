//! Order laws for cell comparison: the three-way compare of one kind is
//! antisymmetric and transitive, and `Equal` means equal values. The row
//! comparators of sorting lean on these.

use vstd::prelude::*;
use core::cmp::Ordering;
use crate::scalar::{ScalarV, sv_kind, sv_cmp};
use crate::strutil::{lex_cmp_from, lex_cmp_chars, lemma_lex_cmp_equal};

verus! {

/// The mirrored outcome of a three-way comparison.
pub open spec fn reverse_ord(o: Ordering) -> Ordering {
    match o {
        Ordering::Less => Ordering::Greater,
        Ordering::Equal => Ordering::Equal,
        Ordering::Greater => Ordering::Less,
    }
}

/// Swapping the operands of the lexicographic compare mirrors its outcome.
pub proof fn lemma_lex_antisym(a: Seq<char>, b: Seq<char>, i: int)
    ensures
        lex_cmp_from(b, a, i) == reverse_ord(lex_cmp_from(a, b, i)),
    decreases a.len() - i,
{
    if i < 0 {
    } else if i >= a.len() && i >= b.len() {
    } else if i >= a.len() || i >= b.len() {
    } else if a[i] < b[i] || a[i] > b[i] {
    } else {
        lemma_lex_antisym(a, b, i + 1);
    }
}

/// The lexicographic order is transitive in its non-strict form.
pub proof fn lemma_lex_trans(a: Seq<char>, b: Seq<char>, c: Seq<char>, i: int)
    requires
        i >= 0,
        lex_cmp_from(a, b, i) != Ordering::Greater,
        lex_cmp_from(b, c, i) != Ordering::Greater,
    ensures
        lex_cmp_from(a, c, i) != Ordering::Greater,
    decreases a.len() - i,
{
    if i >= a.len() {
        // `a` has ended: the outcome against `c` is `Less` or `Equal`
    } else {
        // `a` still has characters; so must `b`, else `a` against `b`
        // would be `Greater`, and so must `c` in turn
        assert(i < b.len());
        assert(i < c.len());
        if a[i] < c[i] {
        } else {
            assert(!(a[i] > b[i]));
            assert(!(b[i] > c[i]));
            assert(a[i] == c[i]);
            assert(a[i] == b[i] && b[i] == c[i]);
            lemma_lex_trans(a, b, c, i + 1);
        }
    }
}

/// Two values of one kind that compare `Equal` are the same value.
pub proof fn lemma_sv_cmp_eq(a: ScalarV, b: ScalarV)
    requires
        sv_kind(a) == sv_kind(b),
        sv_cmp(a, b) == Ordering::Equal,
    ensures
        a == b,
{
    match (a, b) {
        (ScalarV::Str(x), ScalarV::Str(y)) => {
            lemma_lex_cmp_equal(x, y, 0);
            assert(a =~= b);
        },
        _ => {},
    }
}

/// Swapping the operands of the cell compare mirrors its outcome, for
/// values of one kind.
pub proof fn lemma_sv_cmp_antisym(a: ScalarV, b: ScalarV)
    requires
        sv_kind(a) == sv_kind(b),
    ensures
        sv_cmp(b, a) == reverse_ord(sv_cmp(a, b)),
{
    match (a, b) {
        (ScalarV::Str(x), ScalarV::Str(y)) => {
            lemma_lex_antisym(x, y, 0);
        },
        _ => {},
    }
}

/// The cell compare is transitive in its non-strict form, for values of
/// one kind.
pub proof fn lemma_sv_cmp_trans(a: ScalarV, b: ScalarV, c: ScalarV)
    requires
        sv_kind(a) == sv_kind(b),
        sv_kind(b) == sv_kind(c),
        sv_cmp(a, b) != Ordering::Greater,
        sv_cmp(b, c) != Ordering::Greater,
    ensures
        sv_cmp(a, c) != Ordering::Greater,
{
    match (a, b) {
        (ScalarV::Str(x), ScalarV::Str(y)) => {
            if let ScalarV::Str(z) = c {
                lemma_lex_trans(x, y, z, 0);
            }
        },
        _ => {},
    }
}

} // verus!
