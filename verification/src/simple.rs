//! Matching against a single glob.

use crate::glob::{glob_matches, match_chars};
use crate::laws::lemma_lone_star;
use crate::text::{is_lone_star, to_chars};
use vstd::prelude::*;

verus! {

/// Matches `text` against `pat` read as a single glob: neither `,` nor `!`
/// nor `@` is special.
pub fn uwildmat(text: &str, pat: &str) -> (r: bool)
    ensures
        r == glob_matches(text@, pat@),
        pat@ == seq!['*'] ==> r,
{
    proof {
        lemma_lone_star(text@, false);
    }
    let p = to_chars(pat);
    if is_lone_star(p.as_slice()) {
        return true;
    }
    let t = to_chars(text);
    match_chars(t.as_slice(), p.as_slice())
}

} // verus!
