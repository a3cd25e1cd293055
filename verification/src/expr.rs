//! Wildmat expressions: terms separated by commas, the last matching term
//! deciding.
//!
//! An expression is cut into terms at each `,` that is neither escaped by a
//! `\` nor inside a bracket expression. A term may open with one modifier:
//! `!` negates it, and `@`, where poison is allowed, negates it and marks it
//! as poison. What follows the modifier is the term's glob pattern. Where
//! poison is not allowed, `@` is an ordinary pattern character.

use crate::class::{class_close, lemma_class_close, locate_class};
use crate::glob::{glob_matches, match_chars};
use crate::Uwildmat;
use vstd::prelude::*;
use vstd::slice::slice_subrange;

verus! {

/// One term of an expression.
pub struct Term {
    /// Whether the term carries a modifier, `!` or `@`.
    pub negate: bool,
    /// Whether the modifier is the poison mark `@`.
    pub poison: bool,
    /// The glob pattern of the term, without its modifier.
    pub pattern: Seq<char>,
}

/// Whether a modifier stands at position `from` of `e`, where a term begins.
pub open spec fn has_modifier(e: Seq<char>, from: int, allow_poison: bool) -> bool {
    0 <= from < e.len() && (e[from] == '!' || (allow_poison && e[from] == '@'))
}

/// Whether the poison mark stands at position `from` of `e`, where a term
/// begins.
pub open spec fn has_poison_mark(e: Seq<char>, from: int, allow_poison: bool) -> bool {
    0 <= from < e.len() && allow_poison && e[from] == '@'
}

/// Where the pattern of the term that begins at `from` starts: after the
/// modifier, if there is one.
pub open spec fn pattern_start(e: Seq<char>, from: int, allow_poison: bool) -> int {
    if has_modifier(e, from, allow_poison) {
        from + 1
    } else {
        from
    }
}

/// Where the term that is being read at position `from` ends: at the next
/// separating `,`, or at the end of `e` when there is none.
///
/// A `\` takes the character after it along, and a bracket expression is
/// passed over as a whole. A bracket expression that is never closed runs to
/// the end of `e`.
pub open spec fn term_end(e: Seq<char>, from: int) -> int
    decreases e.len() - from,
{
    if from < 0 || from >= e.len() {
        e.len() as int
    } else if e[from] == ',' {
        from
    } else if e[from] == '\\' {
        if from + 1 < e.len() {
            term_end(e, from + 2)
        } else {
            e.len() as int
        }
    } else if e[from] == '[' {
        // The `]` lies after the `[`; saying so lets the definition be seen to end.
        let close = class_close(e, from);
        if from < close < e.len() {
            term_end(e, close + 1)
        } else {
            e.len() as int
        }
    } else {
        term_end(e, from + 1)
    }
}

/// The term that begins at position `from` of `e`.
pub open spec fn term_at(e: Seq<char>, from: int, allow_poison: bool) -> Term {
    let start = pattern_start(e, from, allow_poison);
    Term {
        negate: has_modifier(e, from, allow_poison),
        poison: has_poison_mark(e, from, allow_poison),
        pattern: e.subrange(start, term_end(e, start)),
    }
}

/// The terms of `e` from the one that begins at position `from` on, in
/// order.
pub open spec fn terms_from(e: Seq<char>, from: int, allow_poison: bool) -> Seq<Term>
    decreases e.len() - from,
{
    let end = term_end(e, pattern_start(e, from, allow_poison));
    if 0 <= from <= end < e.len() {
        seq![term_at(e, from, allow_poison)] + terms_from(e, end + 1, allow_poison)
    } else {
        seq![term_at(e, from, allow_poison)]
    }
}

/// The terms of the expression `e`, in order. There is one more term than
/// there are separating commas.
pub open spec fn terms_of(e: Seq<char>, allow_poison: bool) -> Seq<Term> {
    terms_from(e, 0, allow_poison)
}

/// What a term with the given modifier says of a text that its pattern
/// matches.
pub open spec fn modifier_outcome(negate: bool, poison: bool) -> Uwildmat {
    if poison {
        Uwildmat::Poison
    } else if negate {
        Uwildmat::Fail
    } else {
        Uwildmat::Match
    }
}

/// What a term says of a text that its pattern matches.
pub open spec fn term_outcome(term: Term) -> Uwildmat {
    modifier_outcome(term.negate, term.poison)
}

/// What `terms` say of the text `t`: the outcome of the last term whose
/// pattern matches `t`, and `Fail` when no pattern matches.
pub open spec fn decide(t: Seq<char>, terms: Seq<Term>) -> Uwildmat
    decreases terms.len(),
{
    if terms.len() == 0 {
        Uwildmat::Fail
    } else if glob_matches(t, terms.last().pattern) {
        term_outcome(terms.last())
    } else {
        decide(t, terms.drop_last())
    }
}

/// What the expression `e` says of the text `t`.
///
/// The empty expression has no term to go by: it accepts the empty text
/// alone, with `Poison` where poison is allowed and `Match` where it is not.
pub open spec fn expr_result(t: Seq<char>, e: Seq<char>, allow_poison: bool) -> Uwildmat {
    if e.len() == 0 {
        if t.len() != 0 {
            Uwildmat::Fail
        } else if allow_poison {
            Uwildmat::Poison
        } else {
            Uwildmat::Match
        }
    } else {
        decide(t, terms_of(e, allow_poison))
    }
}

/// Finds where the term that is being read at position `from` ends.
pub fn find_term_end(expr: &[char], from: usize) -> (r: usize)
    ensures
        r == term_end(expr@, from as int),
        r <= expr.len(),
        from <= expr.len() ==> from <= r,
{
    if from > expr.len() {
        return expr.len();
    }
    let mut k: usize = from;
    while k < expr.len()
        invariant
            from <= k <= expr.len(),
            term_end(expr@, from as int) == term_end(expr@, k as int),
        decreases expr.len() - k,
    {
        let curr = expr[k];
        if curr == ',' {
            return k;
        } else if curr == '\\' {
            if k + 1 < expr.len() {
                k += 2;
            } else {
                return expr.len();
            }
        } else if curr == '[' {
            proof {
                lemma_class_close(expr@, k as int);
            }
            match locate_class(expr, k) {
                None => {
                    return expr.len();
                },
                Some(span) => {
                    k = span.close + 1;
                },
            }
        } else {
            k += 1;
        }
    }
    k
}

/// What a term with the given modifier says of a text that its pattern
/// matches.
pub fn outcome_of(negate: bool, poison: bool) -> (r: Uwildmat)
    ensures
        r == modifier_outcome(negate, poison),
{
    if poison {
        Uwildmat::Poison
    } else if negate {
        Uwildmat::Fail
    } else {
        Uwildmat::Match
    }
}

/// Evaluates the expression `expr` on `text`: each term in turn, a later
/// term that matches overriding what came before.
pub fn match_terms(text: &[char], expr: &[char], allow_poison: bool) -> (r: Uwildmat)
    ensures
        r == expr_result(text@, expr@, allow_poison),
        !allow_poison ==> r != Uwildmat::Poison,
{
    if expr.len() == 0 {
        return if text.len() != 0 {
            Uwildmat::Fail
        } else if allow_poison {
            Uwildmat::Poison
        } else {
            Uwildmat::Match
        };
    }
    let mut verdict = Uwildmat::Fail;
    let mut start: usize = 0;
    let ghost mut done: Seq<Term> = Seq::empty();
    loop
        invariant
            0 < expr.len(),
            start <= expr.len(),
            verdict == decide(text@, done),
            terms_of(expr@, allow_poison) == done + terms_from(
                expr@,
                start as int,
                allow_poison,
            ),
        decreases expr.len() - start,
    {
        let mut negate = false;
        let mut poison = false;
        let mut pattern_from: usize = start;
        if start < expr.len() {
            if expr[start] == '!' {
                negate = true;
                pattern_from = start + 1;
            } else if allow_poison && expr[start] == '@' {
                negate = true;
                poison = true;
                pattern_from = start + 1;
            }
        }
        let end = find_term_end(expr, pattern_from);
        let ghost term = term_at(expr@, start as int, allow_poison);
        if match_chars(text, slice_subrange(expr, pattern_from, end)) {
            verdict = outcome_of(negate, poison);
        }
        proof {
            let rest = if end < expr.len() {
                terms_from(expr@, end + 1, allow_poison)
            } else {
                Seq::empty()
            };
            assert(done + (seq![term] + rest) =~= done.push(term) + rest);
            assert(done.push(term).drop_last() =~= done);
            done = done.push(term);
        }
        if end >= expr.len() {
            proof {
                lemma_poison_needs_mode(text@, expr@);
            }
            return verdict;
        }
        start = end + 1;
    }
}

/// A term ends between where it is being read and the end of the
/// expression, and where it ends before the end, a `,` stands.
pub proof fn lemma_term_end(e: Seq<char>, from: int)
    requires
        0 <= from <= e.len(),
    ensures
        from <= term_end(e, from) <= e.len(),
        term_end(e, from) < e.len() ==> e[term_end(e, from)] == ',',
    decreases e.len() - from,
{
    if from < e.len() && e[from] != ',' {
        if e[from] == '\\' {
            if from + 1 < e.len() {
                lemma_term_end(e, from + 2);
            }
        } else if e[from] == '[' {
            let close = class_close(e, from);
            if from < close < e.len() {
                lemma_term_end(e, close + 1);
            }
        } else {
            lemma_term_end(e, from + 1);
        }
    }
}

/// Whether the pattern of one of `terms` matches `t`.
pub open spec fn some_term_matches(t: Seq<char>, terms: Seq<Term>) -> bool {
    exists|k: int| 0 <= k < terms.len() && glob_matches(t, #[trigger] terms[k].pattern)
}

/// The last term whose pattern matches decides: no term after it can
/// change the outcome, and no term before it is heard.
pub proof fn lemma_last_match_decides(t: Seq<char>, terms: Seq<Term>, k: int)
    requires
        0 <= k < terms.len(),
        glob_matches(t, terms[k].pattern),
        forall|j: int| k < j < terms.len() ==> !glob_matches(t, #[trigger] terms[j].pattern),
    ensures
        decide(t, terms) == term_outcome(terms[k]),
    decreases terms.len(),
{
    if k < terms.len() - 1 {
        lemma_last_match_decides(t, terms.drop_last(), k);
    }
}

/// Where no term matches, the outcome is `Fail`.
pub proof fn lemma_no_match_fails(t: Seq<char>, terms: Seq<Term>)
    requires
        !some_term_matches(t, terms),
    ensures
        decide(t, terms) == Uwildmat::Fail,
    decreases terms.len(),
{
    if terms.len() > 0 {
        let init = terms.drop_last();
        assert forall|j: int| 0 <= j < init.len() implies !glob_matches(
            t,
            #[trigger] init[j].pattern,
        ) by {
            assert(init[j] == terms[j]);
        }
        lemma_no_match_fails(t, init);
    }
}

/// Later terms override earlier ones: where a term among the later ones
/// `b` matches, they decide alone; where none does, the earlier ones `a`
/// decide.
pub proof fn lemma_later_terms_override(t: Seq<char>, a: Seq<Term>, b: Seq<Term>)
    ensures
        decide(t, a + b) == (if some_term_matches(t, b) {
            decide(t, b)
        } else {
            decide(t, a)
        }),
    decreases b.len(),
{
    if b.len() > 0 {
        let init = b.drop_last();
        assert((a + b).drop_last() =~= a + init);
        if !glob_matches(t, b.last().pattern) {
            lemma_later_terms_override(t, a, init);
            if some_term_matches(t, b) {
                let k = choose|k: int| 0 <= k < b.len() && glob_matches(t, #[trigger] b[k].pattern);
                assert(glob_matches(t, init[k].pattern));
            }
        }
    }
}

/// Where poison is not allowed, no term carries the poison mark.
pub proof fn lemma_terms_unmarked(e: Seq<char>, from: int)
    ensures
        forall|k: int|
            0 <= k < terms_from(e, from, false).len() ==> !(#[trigger] terms_from(
                e,
                from,
                false,
            )[k]).poison,
    decreases e.len() - from,
{
    let end = term_end(e, pattern_start(e, from, false));
    let terms = terms_from(e, from, false);
    if 0 <= from <= end < e.len() {
        let rest = terms_from(e, end + 1, false);
        lemma_terms_unmarked(e, end + 1);
        assert forall|k: int| 0 <= k < terms.len() implies !(#[trigger] terms[k]).poison by {
            if k > 0 {
                assert(terms[k] == rest[k - 1]);
            }
        }
    }
}

/// Terms without the poison mark never decide `Poison`.
pub proof fn lemma_decide_unmarked(t: Seq<char>, terms: Seq<Term>)
    requires
        forall|k: int| 0 <= k < terms.len() ==> !(#[trigger] terms[k]).poison,
    ensures
        decide(t, terms) != Uwildmat::Poison,
    decreases terms.len(),
{
    if terms.len() > 0 {
        lemma_decide_unmarked(t, terms.drop_last());
    }
}

/// `Poison` is an outcome of poison mode alone.
pub proof fn lemma_poison_needs_mode(t: Seq<char>, e: Seq<char>)
    ensures
        expr_result(t, e, false) != Uwildmat::Poison,
{
    lemma_terms_unmarked(e, 0);
    lemma_decide_unmarked(t, terms_of(e, false));
}

} // verus!
