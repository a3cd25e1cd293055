//! What holds of every text and pattern.

use crate::expr::{decide, expr_result, term_at, term_end, Term};
use crate::glob::{glob_at, glob_matches, lemma_trailing_star};
use crate::Uwildmat;
use vstd::prelude::*;

verus! {

/// Whether `c` has a meaning of its own somewhere in an expression.
pub open spec fn is_special(c: char) -> bool {
    c == '*' || c == '?' || c == '[' || c == '\\' || c == '!' || c == '@' || c == ','
}

/// Whether `p` is made of characters that stand for themselves wherever
/// they are.
pub open spec fn is_literal(p: Seq<char>) -> bool {
    forall|i: int| 0 <= i < p.len() ==> !is_special(#[trigger] p[i])
}

/// The pattern `*` selects every text: as a glob, and as an expression with
/// or without poison.
pub proof fn lemma_lone_star(t: Seq<char>, allow_poison: bool)
    ensures
        glob_matches(t, seq!['*']),
        expr_result(t, seq!['*'], allow_poison) == Uwildmat::Match,
{
    let p = seq!['*'];
    lemma_trailing_star(t, 0, p);
    assert(term_end(p, 1) == 1);
    let term = term_at(p, 0, allow_poison);
    assert(term.pattern =~= p);
}

/// From position `i` of the text and `j` of the pattern on, a pattern
/// without special characters matches a text exactly when the two are the
/// same.
pub proof fn lemma_literal_from(t: Seq<char>, i: int, p: Seq<char>, j: int)
    requires
        0 <= i <= t.len(),
        0 <= j <= p.len(),
        is_literal(p),
    ensures
        glob_at(t, i, p, j) == (t.skip(i) == p.skip(j)),
    decreases p.len() - j,
{
    let a = t.skip(i);
    let b = p.skip(j);
    if j == p.len() || i == t.len() {
        if j == p.len() && i == t.len() {
            assert(a =~= b);
        }
    } else {
        lemma_literal_from(t, i + 1, p, j + 1);
        assert(a[0] == t[i] && b[0] == p[j]);
        assert(a.skip(1) =~= t.skip(i + 1));
        assert(b.skip(1) =~= p.skip(j + 1));
        if t[i] == p[j] && t.skip(i + 1) == p.skip(j + 1) {
            assert(a.len() == b.len());
            assert forall|k: int| 0 <= k < a.len() implies a[k] == b[k] by {
                if k > 0 {
                    assert(b[k] == p.skip(j + 1)[k - 1]);
                }
            }
            assert(a =~= b);
        }
    }
}

/// A term made of characters without a meaning of their own runs to the end
/// of the expression.
pub proof fn lemma_literal_term_end(p: Seq<char>, from: int)
    requires
        0 <= from <= p.len(),
        is_literal(p),
    ensures
        term_end(p, from) == p.len(),
    decreases p.len() - from,
{
    if from < p.len() {
        lemma_literal_term_end(p, from + 1);
    }
}

/// A pattern without special characters selects the text that is equal to
/// it and no other: as a glob, and as an expression. The one exception is
/// the empty expression where poison is allowed, which answers the empty
/// text with `Poison`.
pub proof fn lemma_literal(t: Seq<char>, p: Seq<char>, allow_poison: bool)
    requires
        is_literal(p),
    ensures
        glob_matches(t, p) == (t == p),
        p.len() > 0 || !allow_poison ==> expr_result(t, p, allow_poison) == (if t == p {
            Uwildmat::Match
        } else {
            Uwildmat::Fail
        }),
{
    lemma_literal_from(t, 0, p, 0);
    assert(t.skip(0) =~= t);
    if p.len() > 0 {
        lemma_literal_term_end(p, 0);
        let term = term_at(p, 0, allow_poison);
        assert(term.pattern =~= p);
        assert(seq![term].drop_last() =~= Seq::<Term>::empty());
        assert(decide(t, Seq::<Term>::empty()) == Uwildmat::Fail);
    } else {
        assert(t.len() == 0 <==> t =~= p);
    }
}

} // verus!
