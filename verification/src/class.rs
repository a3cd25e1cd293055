//! Character classes: deciding whether one character belongs to the body of a
//! bracket expression.
//!
//! A bracket expression opens with `[`. A `^` right after it negates the
//! class. The body follows: its first character always belongs to it, even
//! when it is `]`, and the body ends before the next `]`. Within the body no
//! character escapes another.
//!
//! A body is read from the left as a list of elements. An element is a single
//! character, or a range `a-b` made of a character, a `-` and a character.

use vstd::prelude::*;

verus! {

/// Whether `want` belongs to one of the elements of `body` that begin at or
/// after position `at`.
///
/// `prev` is the single-character element just before `at` that a `-` at `at`
/// may extend into a range; it is `None` at the start of the body and right
/// after a range. A `-` with nothing to extend, or with nothing after it,
/// stands for itself.
pub open spec fn class_member_from(
    want: char,
    body: Seq<char>,
    at: int,
    prev: Option<char>,
) -> bool
    decreases body.len() - at,
{
    if at < 0 || at >= body.len() {
        false
    } else if body[at] == '-' && prev is Some && at + 1 < body.len() {
        (prev->0 <= want && want <= body[at + 1]) || class_member_from(want, body, at + 2, None)
    } else {
        want == body[at] || class_member_from(want, body, at + 1, Some(body[at]))
    }
}

/// Whether `want` belongs to the class body `body`.
pub open spec fn class_member(want: char, body: Seq<char>) -> bool {
    class_member_from(want, body, 0, None)
}

/// Whether the class with body `body` accepts `want`: membership, turned
/// around when the class is negated.
pub open spec fn class_matches(want: char, body: Seq<char>, negate: bool) -> bool {
    class_member(want, body) != negate
}

/// Tests `want` against the class body `set`, read from the left: the
/// answer is `!negate` at the first element that holds `want`, and `negate`
/// when no element does.
pub fn match_set(want: char, set: &[char], negate: bool) -> (r: bool)
    ensures
        r == class_matches(want, set@, negate),
{
    let mut i: usize = 0;
    let mut min_char: Option<char> = None;
    while i < set.len()
        invariant
            i <= set.len(),
            class_member(want, set@) == class_member_from(want, set@, i as int, min_char),
        decreases set.len() - i,
    {
        let curr = set[i];
        if curr == '-' && i + 1 < set.len() {
            if let Some(min) = min_char {
                let max = set[i + 1];
                if min <= want && want <= max {
                    return !negate;
                }
                min_char = None;
                i += 2;
                continue;
            }
        }
        if want == curr {
            return !negate;
        }
        min_char = Some(curr);
        i += 1;
    }
    negate
}

/// A range `lo-hi` holds its lower end and every character from `lo` to
/// `hi`, both included.
pub proof fn lemma_range_class(want: char, lo: char, hi: char)
    ensures
        class_member(want, seq![lo, '-', hi]) == (want == lo || (lo <= want && want <= hi)),
{
    reveal_with_fuel(class_member_from, 3);
}

/// A class body without `-` is the set of its characters.
pub proof fn lemma_plain_class(want: char, body: Seq<char>)
    requires
        forall|k: int| 0 <= k < body.len() ==> body[k] != '-',
    ensures
        class_member(want, body) == body.contains(want),
{
    lemma_plain_class_from(want, body, 0, None);
}

/// From position `at` on, a class body without `-` holds `want` exactly
/// when `want` stands at one of its positions.
pub proof fn lemma_plain_class_from(want: char, body: Seq<char>, at: int, prev: Option<char>)
    requires
        0 <= at <= body.len(),
        forall|k: int| 0 <= k < body.len() ==> body[k] != '-',
    ensures
        class_member_from(want, body, at, prev) == (exists|k: int|
            at <= k < body.len() && body[k] == want),
    decreases body.len() - at,
{
    if at < body.len() {
        lemma_plain_class_from(want, body, at + 1, Some(body[at]));
    }
}

/// Whether the bracket expression that opens at `p[at]` is negated.
pub open spec fn class_negated(p: Seq<char>, at: int) -> bool {
    at + 1 < p.len() && p[at + 1] == '^'
}

/// The position of the first body character of the bracket expression that
/// opens at `p[at]`.
pub open spec fn class_body_start(p: Seq<char>, at: int) -> int {
    if class_negated(p, at) {
        at + 2
    } else {
        at + 1
    }
}

/// The position of the first `]` at or after `from`, or `p.len()` when there
/// is none.
pub open spec fn next_close(p: Seq<char>, from: int) -> int
    decreases p.len() - from,
{
    if from < 0 || from >= p.len() {
        p.len() as int
    } else if p[from] == ']' {
        from
    } else {
        next_close(p, from + 1)
    }
}

/// The position of the `]` that closes the bracket expression opening at
/// `p[at]`, or `p.len()` when the expression is never closed. The first body
/// character is passed over: it cannot close the expression.
pub open spec fn class_close(p: Seq<char>, at: int) -> int {
    next_close(p, class_body_start(p, at) + 1)
}

/// The body of the bracket expression that opens at `p[at]`.
pub open spec fn class_body(p: Seq<char>, at: int) -> Seq<char> {
    p.subrange(class_body_start(p, at), class_close(p, at))
}

/// `next_close` answers with a position between `from` and the end, and
/// no `]` lies between `from` and its answer.
pub proof fn lemma_next_close(p: Seq<char>, from: int)
    requires
        0 <= from <= p.len(),
    ensures
        from <= next_close(p, from) <= p.len(),
        next_close(p, from) < p.len() ==> p[next_close(p, from)] == ']',
        forall|k: int| from <= k < next_close(p, from) ==> p[k] != ']',
    decreases p.len() - from,
{
    if from < p.len() && p[from] != ']' {
        lemma_next_close(p, from + 1);
    }
}

/// A bracket expression closes, if at all, after at least one body
/// character.
pub proof fn lemma_class_close(p: Seq<char>, at: int)
    requires
        0 <= at < p.len(),
    ensures
        at < class_body_start(p, at) <= class_close(p, at) <= p.len(),
        class_close(p, at) < p.len() ==> {
            &&& class_body_start(p, at) < class_close(p, at)
            &&& p[class_close(p, at)] == ']'
        },
{
    let from = class_body_start(p, at) + 1;
    if from <= p.len() {
        lemma_next_close(p, from);
    }
}

/// Where a bracket expression lies in a pattern.
#[derive(Clone, Copy, Debug)]
pub struct ClassSpan {
    /// Whether the class is negated.
    pub negate: bool,
    /// The position of the first body character.
    pub body_start: usize,
    /// The position of the closing `]`.
    pub close: usize,
}

/// Locates the bracket expression that opens at `pattern[at]`. The answer is
/// `None` when the expression is never closed.
pub fn locate_class(pattern: &[char], at: usize) -> (r: Option<ClassSpan>)
    ensures
        r is None <==> class_close(pattern@, at as int) >= pattern.len(),
        r matches Some(span) ==> {
            &&& span.negate == class_negated(pattern@, at as int)
            &&& span.body_start == class_body_start(pattern@, at as int)
            &&& span.close == class_close(pattern@, at as int)
            &&& at < span.body_start < span.close < pattern.len()
        },
{
    if at >= pattern.len() {
        return None;
    }
    let negate = at + 1 < pattern.len() && pattern[at + 1] == '^';
    let body_start: usize = if negate {
        at + 2
    } else {
        at + 1
    };
    if body_start >= pattern.len() {
        return None;
    }
    let mut k: usize = body_start + 1;
    while k < pattern.len() && pattern[k] != ']'
        invariant
            body_start < k <= pattern.len(),
            next_close(pattern@, body_start + 1) == next_close(pattern@, k as int),
        decreases pattern.len() - k,
    {
        k += 1;
    }
    if k < pattern.len() {
        Some(ClassSpan { negate, body_start, close: k })
    } else {
        None
    }
}

} // verus!
