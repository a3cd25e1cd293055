//! Wildmat matching: glob patterns (`?`, `*`, `[...]`, backslash escapes)
//! combined by an expression layer of comma-separated terms, `!` negation and
//! `@` poison marking.
//!
//! Three entry points decide whether a text is selected by a pattern:
//! [`simple`] reads the pattern as one glob, [`regular`] reads it as an
//! expression in which `@` is an ordinary character, and [`poison`] reads it
//! as an expression in which `@` marks a term as poison.

use crate::expr::{expr_result, match_terms};
use crate::glob::{glob_matches, match_chars};
use crate::laws::{is_literal, lemma_literal, lemma_lone_star};
use crate::text::{is_lone_star, to_chars};
use vstd::prelude::*;
use vstd::std_specs::convert::FromSpecImpl;

pub mod class;
pub mod expr;
pub mod glob;
pub mod join;
pub mod laws;
pub mod poison;
pub mod regular;
pub mod simple;
pub mod text;

verus! {

/// The outcome of matching a text against a wildmat expression.
#[derive(Clone, Copy, Debug, PartialEq, Eq, Structural, PartialOrd, Ord, Hash)]
pub enum Uwildmat {
    /// No term selected the text, or the deciding term was negated.
    Fail,
    /// The deciding term selected the text.
    Match,
    /// The deciding term selected the text and carried the poison mark.
    Poison,
}

impl Uwildmat {
    /// The name of the outcome, as it is shown.
    pub open spec fn name(self) -> Seq<char> {
        match self {
            Uwildmat::Fail => "Fail"@,
            Uwildmat::Match => "Match"@,
            Uwildmat::Poison => "Poison"@,
        }
    }

    /// The name of the outcome as a string.
    pub fn to_string(&self) -> (s: String)
        ensures
            s@ == self.name(),
    {
        match self {
            Uwildmat::Fail => "Fail".to_owned(),
            Uwildmat::Match => "Match".to_owned(),
            Uwildmat::Poison => "Poison".to_owned(),
        }
    }
}

impl Default for Uwildmat {
    fn default() -> (r: Self)
        ensures
            r == Uwildmat::Fail,
    {
        Uwildmat::Fail
    }
}

impl From<bool> for Uwildmat {
    /// `true` becomes `Match` and `false` becomes `Fail`.
    fn from(val: bool) -> (r: Self) {
        if val {
            Uwildmat::Match
        } else {
            Uwildmat::Fail
        }
    }
}

impl FromSpecImpl<bool> for Uwildmat {
    open spec fn obeys_from_spec() -> bool {
        true
    }

    open spec fn from_spec(val: bool) -> Self {
        if val {
            Uwildmat::Match
        } else {
            Uwildmat::Fail
        }
    }
}

impl From<Uwildmat> for bool {
    /// Only `Match` counts as `true`: `Poison` does not.
    fn from(val: Uwildmat) -> (r: Self) {
        val == Uwildmat::Match
    }
}

impl FromSpecImpl<Uwildmat> for bool {
    open spec fn obeys_from_spec() -> bool {
        true
    }

    open spec fn from_spec(val: Uwildmat) -> Self {
        val == Uwildmat::Match
    }
}

/// Matches `text` against the expression `pattern`, with `@` an ordinary
/// character.
pub fn regular(text: &str, pattern: &str) -> (r: bool)
    ensures
        r == (expr_result(text@, pattern@, false) == Uwildmat::Match),
        pattern@ == seq!['*'] ==> r,
        is_literal(pattern@) ==> r == (text@ == pattern@),
{
    proof {
        lemma_lone_star(text@, false);
        if is_literal(pattern@) {
            lemma_literal(text@, pattern@, false);
        }
    }
    let p = to_chars(pattern);
    if is_lone_star(p.as_slice()) {
        return true;
    }
    let t = to_chars(text);
    match_terms(t.as_slice(), p.as_slice(), false) == Uwildmat::Match
}

/// Matches `text` against `pattern` read as a single glob: `,`, `!` and `@`
/// are ordinary characters.
pub fn simple(text: &str, pattern: &str) -> (r: bool)
    ensures
        r == glob_matches(text@, pattern@),
        pattern@ == seq!['*'] ==> r,
{
    proof {
        lemma_lone_star(text@, false);
    }
    let p = to_chars(pattern);
    if is_lone_star(p.as_slice()) {
        return true;
    }
    let t = to_chars(text);
    match_chars(t.as_slice(), p.as_slice())
}

/// Matches `text` against the expression `pattern`, with `@` marking a term
/// as poison.
pub fn poison(text: &str, pattern: &str) -> (r: Uwildmat)
    ensures
        r == expr_result(text@, pattern@, true),
        pattern@ == seq!['*'] ==> r == Uwildmat::Match,
{
    proof {
        lemma_lone_star(text@, true);
    }
    let p = to_chars(pattern);
    if is_lone_star(p.as_slice()) {
        return Uwildmat::Match;
    }
    let t = to_chars(text);
    match_terms(t.as_slice(), p.as_slice(), true)
}

/// Evaluates the expression `expr` on `text`. With `allow_poison`, a term
/// that opens with `@` is negated and marked as poison.
pub fn match_expr(text: &str, expr: &str, allow_poison: bool) -> (r: Uwildmat)
    ensures
        r == expr_result(text@, expr@, allow_poison),
        !allow_poison ==> r != Uwildmat::Poison,
{
    let e = to_chars(expr);
    let t = to_chars(text);
    match_terms(t.as_slice(), e.as_slice(), allow_poison)
}

/// Matches the whole of `text` against the glob `pattern`.
pub fn match_str(text: &str, pattern: &str) -> (r: bool)
    ensures
        r == glob_matches(text@, pattern@),
{
    let p = to_chars(pattern);
    let t = to_chars(text);
    match_chars(t.as_slice(), p.as_slice())
}

} // verus!
