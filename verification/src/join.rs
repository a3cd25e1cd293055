//! Joining two expressions with a comma.
//!
//! The terms of `a,b` are the terms of `a` followed by the terms of `b`,
//! provided that `a` leaves nothing open at its end: no `\` without a
//! character after it and no bracket expression without its `]`. What either
//! would take along is the joining comma itself.

use crate::class::{class_body_start, class_close, class_negated, next_close};
use crate::expr::{
    expr_result, lemma_later_terms_override, lemma_term_end, pattern_start, some_term_matches,
    term_at, term_end, terms_from, terms_of,
};
use vstd::prelude::*;

verus! {

/// Whether every `\` and every bracket expression of `e`, read from position
/// `from` on, is complete within `e`.
pub open spec fn well_closed(e: Seq<char>, from: int) -> bool
    decreases e.len() - from,
{
    if from < 0 || from > e.len() {
        false
    } else if from == e.len() {
        true
    } else if e[from] == '\\' {
        from + 1 < e.len() && well_closed(e, from + 2)
    } else if e[from] == '[' {
        let close = class_close(e, from);
        from < close < e.len() && well_closed(e, close + 1)
    } else {
        well_closed(e, from + 1)
    }
}

/// Whether `e` begins with the characters of `a`.
spec fn begins_with(e: Seq<char>, a: Seq<char>) -> bool {
    a.len() <= e.len() && forall|i: int| 0 <= i < a.len() ==> e[i] == a[i]
}

/// Whether `e` holds the characters of `b` from position `at` on, and
/// nothing after them.
spec fn ends_with_at(e: Seq<char>, at: int, b: Seq<char>) -> bool {
    0 <= at && e.len() == at + b.len() && forall|i: int| 0 <= i < b.len() ==> e[at + i] == b[i]
}

/// A `]` found within `a` is found at the same place in what begins with
/// `a`.
proof fn lemma_next_close_prefix(a: Seq<char>, e: Seq<char>, from: int)
    requires
        begins_with(e, a),
        0 <= from,
        next_close(a, from) < a.len(),
    ensures
        next_close(e, from) == next_close(a, from),
    decreases a.len() - from,
{
    if from < a.len() && a[from] != ']' {
        lemma_next_close_prefix(a, e, from + 1);
    }
}

/// A bracket expression that closes within `a` closes at the same place in
/// what begins with `a`.
proof fn lemma_class_close_prefix(a: Seq<char>, e: Seq<char>, at: int)
    requires
        begins_with(e, a),
        0 <= at < class_close(a, at) < a.len(),
    ensures
        class_close(e, at) == class_close(a, at),
{
    if at + 1 < a.len() {
        lemma_next_close_prefix(a, e, class_body_start(a, at) + 1);
    }
}

/// Before the joining comma, terms end where they end in `a` alone, and what
/// follows each of them is again complete within `a`.
proof fn lemma_term_end_prefix(a: Seq<char>, e: Seq<char>, from: int)
    requires
        begins_with(e, a),
        a.len() < e.len(),
        e[a.len() as int] == ',',
        0 <= from <= a.len(),
        well_closed(a, from),
    ensures
        term_end(e, from) == term_end(a, from),
        from <= term_end(a, from) <= a.len(),
        term_end(a, from) < a.len() ==> well_closed(a, term_end(a, from) + 1),
    decreases a.len() - from,
{
    if from < a.len() {
        if a[from] == '\\' {
            lemma_term_end_prefix(a, e, from + 2);
        } else if a[from] == '[' {
            lemma_class_close_prefix(a, e, from);
            lemma_term_end_prefix(a, e, class_close(a, from) + 1);
        } else if a[from] != ',' {
            lemma_term_end_prefix(a, e, from + 1);
        }
    }
}

/// From a term of `a` on, the terms of the joined expression are those of
/// `a` and then those that follow the joining comma.
proof fn lemma_terms_prefix(a: Seq<char>, e: Seq<char>, from: int, allow_poison: bool)
    requires
        begins_with(e, a),
        a.len() < e.len(),
        e[a.len() as int] == ',',
        0 <= from <= a.len(),
        well_closed(a, from),
    ensures
        terms_from(e, from, allow_poison) == terms_from(a, from, allow_poison) + terms_from(
            e,
            a.len() as int + 1,
            allow_poison,
        ),
    decreases a.len() - from,
{
    let start = pattern_start(a, from, allow_poison);
    lemma_term_end_prefix(a, e, start);
    let end = term_end(a, start);
    assert(e.subrange(start, end) =~= a.subrange(start, end));
    assert(term_at(e, from, allow_poison) == term_at(a, from, allow_poison));
    if end < a.len() {
        lemma_terms_prefix(a, e, end + 1, allow_poison);
    }
}

/// In the part of `e` that holds `b`, a `]` is found where it is found in
/// `b`, moved by `at`.
proof fn lemma_next_close_shift(e: Seq<char>, at: int, b: Seq<char>, from: int)
    requires
        ends_with_at(e, at, b),
        0 <= from,
    ensures
        next_close(e, at + from) == at + next_close(b, from),
    decreases b.len() - from,
{
    if from < b.len() && b[from] != ']' {
        lemma_next_close_shift(e, at, b, from + 1);
    }
}

/// In the part of `e` that holds `b`, a bracket expression closes where it
/// closes in `b`, moved by `at`.
proof fn lemma_class_close_shift(e: Seq<char>, at: int, b: Seq<char>, from: int)
    requires
        ends_with_at(e, at, b),
        0 <= from,
    ensures
        class_close(e, at + from) == at + class_close(b, from),
{
    assert(class_negated(e, at + from) == class_negated(b, from));
    lemma_next_close_shift(e, at, b, class_body_start(b, from) + 1);
}

/// In the part of `e` that holds `b`, a term ends where it ends in `b`, moved
/// by `at`.
proof fn lemma_term_end_shift(e: Seq<char>, at: int, b: Seq<char>, from: int)
    requires
        ends_with_at(e, at, b),
        0 <= from,
    ensures
        term_end(e, at + from) == at + term_end(b, from),
    decreases b.len() - from,
{
    if from < b.len() {
        if b[from] == '\\' {
            if from + 1 < b.len() {
                lemma_term_end_shift(e, at, b, from + 2);
            }
        } else if b[from] == '[' {
            lemma_class_close_shift(e, at, b, from);
            let close = class_close(b, from);
            if from < close < b.len() {
                lemma_term_end_shift(e, at, b, close + 1);
            }
        } else if b[from] != ',' {
            lemma_term_end_shift(e, at, b, from + 1);
        }
    }
}

/// The terms of the part of `e` that holds `b` are the terms of `b`.
proof fn lemma_terms_shift(e: Seq<char>, at: int, b: Seq<char>, from: int, allow_poison: bool)
    requires
        ends_with_at(e, at, b),
        0 <= from <= b.len(),
    ensures
        terms_from(e, at + from, allow_poison) == terms_from(b, from, allow_poison),
    decreases b.len() - from,
{
    let start = pattern_start(b, from, allow_poison);
    lemma_term_end_shift(e, at, b, start);
    lemma_term_end(b, start);
    let end = term_end(b, start);
    assert(e.subrange(at + start, at + end) =~= b.subrange(start, end));
    assert(term_at(e, at + from, allow_poison) == term_at(b, from, allow_poison));
    if end < b.len() {
        lemma_terms_shift(e, at, b, end + 1, allow_poison);
    }
}

/// The terms of `a,b` are the terms of `a` followed by the terms of `b`,
/// where `a` leaves nothing open at its end.
pub proof fn lemma_join_terms(a: Seq<char>, b: Seq<char>, allow_poison: bool)
    requires
        well_closed(a, 0),
    ensures
        terms_of(a + seq![','] + b, allow_poison) == terms_of(a, allow_poison) + terms_of(
            b,
            allow_poison,
        ),
{
    let e = a + seq![','] + b;
    lemma_terms_prefix(a, e, 0, allow_poison);
    lemma_terms_shift(e, a.len() as int + 1, b, 0, allow_poison);
}

/// In `a,b` the terms of `b` are heard last: where one of them matches, `b`
/// decides as it would alone, and where none does, `a` decides as it would
/// alone. Both `a` and `b` have at least one character, and `a` leaves
/// nothing open at its end.
pub proof fn lemma_join(t: Seq<char>, a: Seq<char>, b: Seq<char>, allow_poison: bool)
    requires
        a.len() > 0,
        b.len() > 0,
        well_closed(a, 0),
    ensures
        expr_result(t, a + seq![','] + b, allow_poison) == (if some_term_matches(
            t,
            terms_of(b, allow_poison),
        ) {
            expr_result(t, b, allow_poison)
        } else {
            expr_result(t, a, allow_poison)
        }),
{
    lemma_join_terms(a, b, allow_poison);
    lemma_later_terms_override(t, terms_of(a, allow_poison), terms_of(b, allow_poison));
}

} // verus!
