//! Text as a sequence of Unicode scalar values.

use vstd::prelude::*;

verus! {

/// Collects the characters of `s`, in order, so that they can be reached by
/// position.
pub fn to_chars(s: &str) -> (v: Vec<char>)
    ensures
        v@ == s@,
{
    let mut v: Vec<char> = Vec::new();
    for c in it: s.chars()
        invariant
            v@ == it.seq().take(it.index()),
    {
        v.push(c);
    }
    v
}

/// Whether `pattern` is the single character `*`.
pub fn is_lone_star(pattern: &[char]) -> (r: bool)
    ensures
        r == (pattern@ == seq!['*']),
{
    let r = pattern.len() == 1 && pattern[0] == '*';
    proof {
        if r {
            assert(pattern@ =~= seq!['*']);
        }
    }
    r
}

} // verus!
