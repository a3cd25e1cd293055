//! Matching against an expression in which `@` marks a term as poison.

use crate::expr::{expr_result, match_terms};
use crate::laws::lemma_lone_star;
use crate::text::{is_lone_star, to_chars};
use crate::Uwildmat;
use vstd::prelude::*;

verus! {

/// Matches `text` against the expression `pat`, in which terms are
/// separated by `,`, negated by `!`, and negated and marked as poison by `@`.
pub fn uwildmat(text: &str, pat: &str) -> (r: Uwildmat)
    ensures
        r == expr_result(text@, pat@, true),
        pat@ == seq!['*'] ==> r == Uwildmat::Match,
{
    proof {
        lemma_lone_star(text@, true);
    }
    let p = to_chars(pat);
    if is_lone_star(p.as_slice()) {
        return Uwildmat::Match;
    }
    let t = to_chars(text);
    match_terms(t.as_slice(), p.as_slice(), true)
}

} // verus!
