//! Classification of a single input line.
//!
//! A line is a directive when, after optional leading whitespace, it holds
//! the delimiter literal. What follows the delimiter (and the whitespace
//! right after it) decides the directive's kind: nothing at all is a general
//! marker, a standalone `*` token is the otherwise marker, the configured
//! identifier as a whole word is a specific marker, and anything else is an
//! unrelated case label to be ignored. A line that is no directive is plain
//! content. Classification is a pure function of the line and the
//! configuration; the engine's selection state plays no part in it.

use vstd::prelude::*;

use crate::text::{
    spec_last_occurrence, spec_occurs_at, spec_ws_end, spec_has_star, spec_has_word,
    lemma_last_occurrence, lemma_ws_end,
};

verus! {

/// What one input line means to the selector engine.
#[derive(Clone, Copy, Debug, PartialEq, Eq, Structural)]
pub enum LineAction {
    /// A directive naming the configured identifier: its block applies here.
    EnterSpecific,
    /// A directive naming some other case: its block is skipped.
    EnterIgnore,
    /// A directive holding a bare `*`: the fallback block.
    EnterOtherwise,
    /// A bare delimiter: closes any open block.
    EnterGeneral,
    /// A content line, emitted or suppressed by the current state.
    Process,
}

/// Start of the delimiter literal within `line`: the largest index reachable
/// by skipping leading whitespace at which the literal occurs, or `-1` when
/// the line is no directive. Taking the largest such index mirrors a greedy
/// scan that consumes as much leading whitespace as the literal allows.
pub open spec fn spec_delim_start(delim: Seq<u8>, line: Seq<u8>) -> int {
    spec_last_occurrence(delim, line, spec_ws_end(line, 0))
}

/// `line` matches the delimiter pattern: leading whitespace, then the
/// delimiter literal.
pub open spec fn spec_is_directive(delim: Seq<u8>, line: Seq<u8>) -> bool {
    spec_delim_start(delim, line) >= 0
}

/// Index just past the delimiter literal and the whitespace following it;
/// the remainder of the line starts here.
pub open spec fn spec_rem_start(delim: Seq<u8>, line: Seq<u8>) -> int {
    spec_ws_end(line, spec_delim_start(delim, line) + delim.len())
}

/// What a directive line says after the delimiter and its trailing
/// whitespace: the case list the directive names.
pub open spec fn spec_remainder(delim: Seq<u8>, line: Seq<u8>) -> Seq<u8> {
    line.subrange(spec_rem_start(delim, line), line.len() as int)
}

/// The classification: one of the five [`LineAction`]s, decided by the line
/// text and the configuration alone. The directive kinds are tested in a
/// fixed priority order — empty remainder, `*` token, identifier — so a
/// directive receives exactly one kind even for odd case lists.
pub open spec fn spec_classify(ident: Seq<u8>, delim: Seq<u8>, line: Seq<u8>) -> LineAction {
    if !spec_is_directive(delim, line) {
        LineAction::Process
    } else {
        let rem = spec_remainder(delim, line);
        if rem.len() == 0 {
            LineAction::EnterGeneral
        } else if spec_has_star(rem) {
            LineAction::EnterOtherwise
        } else if spec_has_word(ident, rem) {
            LineAction::EnterSpecific
        } else {
            LineAction::EnterIgnore
        }
    }
}

/// A line is a directive exactly when the delimiter literal occurs at some
/// index whose whole prefix is whitespace.
pub proof fn lemma_directive_characterisation(delim: Seq<u8>, line: Seq<u8>)
    ensures
        spec_is_directive(delim, line) <==> exists|i: int|
            0 <= i <= spec_ws_end(line, 0) && spec_occurs_at(delim, line, i),
{
    lemma_ws_end(line, 0);
    lemma_last_occurrence(delim, line, spec_ws_end(line, 0));
    if spec_is_directive(delim, line) {
        assert(0 <= spec_delim_start(delim, line) <= spec_ws_end(line, 0) && spec_occurs_at(
            delim,
            line,
            spec_delim_start(delim, line),
        ));
    }
}

/// Any line that does not match the delimiter pattern is classified as
/// `Process`. Classification takes no engine state, so this holds
/// independently of whatever state the engine is in.
pub proof fn lemma_non_directive_is_process(ident: Seq<u8>, delim: Seq<u8>, line: Seq<u8>)
    requires
        !spec_is_directive(delim, line),
    ensures
        spec_classify(ident, delim, line) == LineAction::Process,
{
}

} // verus!
