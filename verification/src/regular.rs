//! Matching against an expression in which `@` is an ordinary character.

use crate::expr::{expr_result, match_terms};
use crate::laws::{is_literal, lemma_literal, lemma_lone_star};
use crate::text::{is_lone_star, to_chars};
use crate::Uwildmat;
use vstd::prelude::*;

verus! {

/// Matches `text` against the expression `pat`, in which terms are
/// separated by `,` and negated by `!`, and `@` stands for itself.
pub fn uwildmat(text: &str, pat: &str) -> (r: bool)
    ensures
        r == (expr_result(text@, pat@, false) == Uwildmat::Match),
        pat@ == seq!['*'] ==> r,
        is_literal(pat@) ==> r == (text@ == pat@),
{
    proof {
        lemma_lone_star(text@, false);
        if is_literal(pat@) {
            lemma_literal(text@, pat@, false);
        }
    }
    let p = to_chars(pat);
    if is_lone_star(p.as_slice()) {
        return true;
    }
    let t = to_chars(text);
    match_terms(t.as_slice(), p.as_slice(), false) == Uwildmat::Match
}

} // verus!
