//! Matching one glob pattern against a whole text.
//!
//! A pattern is read from the left as a list of tokens:
//!
//! * `?` stands for any one character;
//! * `*` stands for any run of characters, the empty one included;
//! * `\` followed by a character stands for that character, whatever it is;
//! * a bracket expression stands for one character that its class accepts;
//! * any other character stands for itself.
//!
//! A pattern matches a text when its tokens, in order, use up the text
//! exactly. A `\` with nothing after it and a bracket expression that is
//! never closed match nothing.

use crate::class::{
    class_body, class_close, class_matches, class_negated, lemma_class_close, locate_class,
    match_set,
};
use vstd::prelude::*;
use vstd::slice::slice_subrange;

verus! {

/// Whether the tokens of `p` from position `j` on match the characters of `t`
/// from position `i` on, exactly.
pub open spec fn glob_at(t: Seq<char>, i: int, p: Seq<char>, j: int) -> bool
    decreases p.len() - j, t.len() - i,
{
    if !(0 <= i <= t.len() && 0 <= j <= p.len()) {
        false
    } else if j == p.len() {
        i == t.len()
    } else if p[j] == '*' {
        glob_at(t, i, p, j + 1) || (i < t.len() && glob_at(t, i + 1, p, j))
    } else if i == t.len() {
        false
    } else if p[j] == '?' {
        glob_at(t, i + 1, p, j + 1)
    } else if p[j] == '\\' {
        j + 1 < p.len() && t[i] == p[j + 1] && glob_at(t, i + 1, p, j + 2)
    } else if p[j] == '[' {
        // The `]` lies after the `[`; saying so lets the definition be seen to end.
        let close = class_close(p, j);
        j < close < p.len() && class_matches(t[i], class_body(p, j), class_negated(p, j))
            && glob_at(t, i + 1, p, close + 1)
    } else {
        t[i] == p[j] && glob_at(t, i + 1, p, j + 1)
    }
}

/// Whether the pattern `p` matches the text `t`.
pub open spec fn glob_matches(t: Seq<char>, p: Seq<char>) -> bool {
    glob_at(t, 0, p, 0)
}

/// A `*` matches when what follows it, from position `next` of the pattern
/// on, matches some later part of the text.
pub proof fn lemma_star_reaches(t: Seq<char>, i: int, k: int, p: Seq<char>, next: int)
    requires
        0 <= i <= k <= t.len(),
        0 < next <= p.len(),
        p[next - 1] == '*',
        glob_at(t, k, p, next),
    ensures
        glob_at(t, i, p, next - 1),
    decreases k - i,
{
    if i < k {
        lemma_star_reaches(t, i + 1, k, p, next);
    }
}

/// A `*` does not match when what follows it, from position `next` of the
/// pattern on, matches no later part of the text.
pub proof fn lemma_star_misses(t: Seq<char>, i: int, p: Seq<char>, next: int)
    requires
        0 <= i <= t.len(),
        0 < next <= p.len(),
        p[next - 1] == '*',
        forall|k: int| i <= k <= t.len() ==> !glob_at(t, k, p, next),
    ensures
        !glob_at(t, i, p, next - 1),
    decreases t.len() - i,
{
    assert(!glob_at(t, i, p, next));
    if i < t.len() {
        lemma_star_misses(t, i + 1, p, next);
    }
}

/// A `*` is a search: it matches exactly when what follows it, from position
/// `next` of the pattern on, matches the text from some position on, from the
/// current one to the end.
pub proof fn lemma_star_searches(t: Seq<char>, i: int, p: Seq<char>, next: int)
    requires
        0 <= i <= t.len(),
        0 < next <= p.len(),
        p[next - 1] == '*',
    ensures
        glob_at(t, i, p, next - 1) <==> exists|k: int| i <= k <= t.len() && glob_at(t, k, p, next),
{
    if exists|k: int| i <= k <= t.len() && glob_at(t, k, p, next) {
        let k = choose|k: int| i <= k <= t.len() && glob_at(t, k, p, next);
        lemma_star_reaches(t, i, k, p, next);
    } else {
        lemma_star_misses(t, i, p, next);
    }
}

/// Two `*` in a row match what one does.
pub proof fn lemma_star_run(t: Seq<char>, i: int, p: Seq<char>, j: int)
    requires
        0 <= i <= t.len(),
        0 <= j,
        j + 1 < p.len(),
        p[j] == '*',
        p[j + 1] == '*',
    ensures
        glob_at(t, i, p, j) == glob_at(t, i, p, j + 1),
    decreases t.len() - i,
{
    if i < t.len() {
        lemma_star_run(t, i + 1, p, j);
    }
}

/// A `*` at the end of the pattern matches whatever is left of the text.
pub proof fn lemma_trailing_star(t: Seq<char>, i: int, p: Seq<char>)
    requires
        0 <= i <= t.len(),
        p.len() > 0,
        p.last() == '*',
    ensures
        glob_at(t, i, p, p.len() - 1),
    decreases t.len() - i,
{
    if i < t.len() {
        lemma_trailing_star(t, i + 1, p);
    } else {
        assert(glob_at(t, i, p, p.len() as int));
    }
}

/// Matches the whole of `text` against the whole of `pattern`.
pub fn match_chars(text: &[char], pattern: &[char]) -> (r: bool)
    ensures
        r == glob_matches(text@, pattern@),
{
    match_from(text, 0, pattern, 0)
}

/// Matches `text` from position `ti` on against `pattern` from position `pi`
/// on. A position past the end of its sequence matches nothing.
///
/// Tokens other than `*` are taken in a loop. At a `*`, the run of `*` is
/// passed over; the rest of the pattern is then tried at each position that
/// is left in the text, from the current one on, and the first success
/// decides. Each such trial starts further along the pattern, so the trials
/// nest no deeper than the pattern is long; their number can still grow
/// exponentially with the number of `*`.
pub fn match_from(text: &[char], ti: usize, pattern: &[char], pi: usize) -> (r: bool)
    ensures
        r == glob_at(text@, ti as int, pattern@, pi as int),
    decreases pattern.len() - pi,
{
    if ti > text.len() || pi > pattern.len() {
        return false;
    }
    let mut t: usize = ti;
    let mut p: usize = pi;
    while p < pattern.len()
        invariant
            ti <= t <= text.len(),
            pi <= p <= pattern.len(),
            glob_at(text@, ti as int, pattern@, pi as int) == glob_at(
                text@,
                t as int,
                pattern@,
                p as int,
            ),
        decreases pattern.len() - p,
    {
        let curr = pattern[p];
        if curr == '*' {
            let mut rest: usize = p + 1;
            while rest < pattern.len() && pattern[rest] == '*'
                invariant
                    t <= text.len(),
                    p < rest <= pattern.len(),
                    pattern@[rest - 1] == '*',
                    glob_at(text@, t as int, pattern@, p as int) == glob_at(
                        text@,
                        t as int,
                        pattern@,
                        rest - 1,
                    ),
                decreases pattern.len() - rest,
            {
                proof {
                    lemma_star_run(text@, t as int, pattern@, rest - 1);
                }
                rest += 1;
            }
            if rest == pattern.len() {
                proof {
                    lemma_trailing_star(text@, t as int, pattern@);
                }
                return true;
            }
            let mut k: usize = t;
            while k < text.len()
                invariant
                    t <= k <= text.len(),
                    pi <= p < rest < pattern.len(),
                    pattern@[rest - 1] == '*',
                    glob_at(text@, ti as int, pattern@, pi as int) == glob_at(
                        text@,
                        t as int,
                        pattern@,
                        rest - 1,
                    ),
                    forall|m: int| t <= m < k ==> !glob_at(text@, m, pattern@, rest as int),
                decreases text.len() - k,
            {
                if match_from(text, k, pattern, rest) {
                    proof {
                        lemma_star_reaches(text@, t as int, k as int, pattern@, rest as int);
                    }
                    return true;
                }
                k += 1;
            }
            proof {
                lemma_star_misses(text@, t as int, pattern@, rest as int);
            }
            return false;
        } else if t >= text.len() {
            return false;
        } else if curr == '?' {
            t += 1;
            p += 1;
        } else if curr == '\\' {
            if p + 1 >= pattern.len() || text[t] != pattern[p + 1] {
                return false;
            }
            t += 1;
            p += 2;
        } else if curr == '[' {
            proof {
                lemma_class_close(pattern@, p as int);
            }
            match locate_class(pattern, p) {
                None => {
                    return false;
                },
                Some(span) => {
                    let body = slice_subrange(pattern, span.body_start, span.close);
                    if !match_set(text[t], body, span.negate) {
                        return false;
                    }
                    t += 1;
                    p = span.close + 1;
                },
            }
        } else {
            if text[t] != curr {
                return false;
            }
            t += 1;
            p += 1;
        }
    }
    t == text.len()
}

} // verus!
