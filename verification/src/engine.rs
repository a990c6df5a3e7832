//! The selector engine: state, transitions, and stream processing.
//!
//! The engine walks the input lines once, in order. Each line is classified
//! (see [`crate::classify`]); a content line is written out exactly when the
//! `emit` flag is set, and a directive line updates the two state flags and
//! is never written itself. `seen_specific` records whether a block naming
//! the configured identifier has been entered since the last general marker,
//! which is what makes the `*` block a true fallback: it emits only when no
//! specific block has matched yet.

use vstd::prelude::*;
use vstd::slice::slice_to_vec;
use vstd::string::StringSliceAdditionalSpecFns;

use crate::classify::{spec_classify, spec_delim_start, spec_is_directive, spec_remainder, LineAction};
use crate::lines::{spec_split_lines, spec_unlines, spec_views, split_lines, unlines};
use crate::text::{has_star_token, has_word, last_occurrence, ws_end};

verus! {

/// The two selection flags, scoped to one processing run.
#[derive(Clone, Copy, Debug, PartialEq, Eq, Structural)]
pub struct EngineState {
    /// Whether content lines are currently written to the output.
    pub emit: bool,
    /// Whether a specific block has been entered since the last general
    /// marker (or the start of the stream).
    pub seen_specific: bool,
}

/// The state at the start of a fresh input stream.
pub open spec fn spec_initial_state() -> EngineState {
    EngineState { emit: true, seen_specific: false }
}

/// The transition table: what one classified line does to the state.
pub open spec fn spec_step(st: EngineState, a: LineAction) -> EngineState {
    match a {
        LineAction::Process => st,
        LineAction::EnterSpecific => EngineState { emit: true, seen_specific: true },
        LineAction::EnterIgnore => EngineState { emit: false, seen_specific: st.seen_specific },
        LineAction::EnterOtherwise => EngineState {
            emit: !st.seen_specific,
            seen_specific: st.seen_specific,
        },
        LineAction::EnterGeneral => EngineState { emit: true, seen_specific: false },
    }
}

impl EngineState {
    /// The state at the start of a fresh input stream.
    pub fn initial() -> (s: EngineState)
        ensures
            s == spec_initial_state(),
    {
        EngineState { emit: true, seen_specific: false }
    }

    /// Apply one classified line to the state.
    pub fn step(self, a: LineAction) -> (s: EngineState)
        ensures
            s == spec_step(self, a),
    {
        match a {
            LineAction::Process => self,
            LineAction::EnterSpecific => EngineState { emit: true, seen_specific: true },
            LineAction::EnterIgnore => EngineState { emit: false, seen_specific: self.seen_specific },
            LineAction::EnterOtherwise => EngineState {
                emit: !self.seen_specific,
                seen_specific: self.seen_specific,
            },
            LineAction::EnterGeneral => EngineState { emit: true, seen_specific: false },
        }
    }
}

/// The lines the engine keeps, walking `lines` from state `st`: a content
/// line is kept exactly when `emit` is set at its turn; directive lines are
/// never kept.
pub open spec fn spec_select(
    ident: Seq<u8>,
    delim: Seq<u8>,
    st: EngineState,
    lines: Seq<Seq<u8>>,
) -> Seq<Seq<u8>>
    decreases lines.len(),
{
    if lines.len() == 0 {
        Seq::empty()
    } else {
        let a = spec_classify(ident, delim, lines[0]);
        let rest = spec_select(ident, delim, spec_step(st, a), lines.drop_first());
        if a == LineAction::Process && st.emit {
            seq![lines[0]] + rest
        } else {
            rest
        }
    }
}

/// The state the engine is left in after walking `lines` from `st`.
pub open spec fn spec_run(
    ident: Seq<u8>,
    delim: Seq<u8>,
    st: EngineState,
    lines: Seq<Seq<u8>>,
) -> EngineState
    decreases lines.len(),
{
    if lines.len() == 0 {
        st
    } else {
        spec_run(
            ident,
            delim,
            spec_step(st, spec_classify(ident, delim, lines[0])),
            lines.drop_first(),
        )
    }
}

/// The whole pipeline on bytes: split into lines, select from the initial
/// state, join the kept lines with single line feeds.
pub open spec fn spec_process(ident: Seq<u8>, delim: Seq<u8>, input: Seq<u8>) -> Seq<u8> {
    spec_unlines(spec_select(ident, delim, spec_initial_state(), spec_split_lines(input, 0)))
}

/// A general marker resets the state outright: `seen_specific` becomes
/// false and `emit` becomes true, whatever the state was before. The
/// result is exactly the initial state.
pub proof fn lemma_general_resets(st: EngineState)
    ensures
        spec_step(st, LineAction::EnterGeneral) == spec_initial_state(),
{
}

/// An otherwise marker's effect on emission is the logical negation of
/// `seen_specific` at the moment it is processed, and it leaves
/// `seen_specific` itself untouched.
pub proof fn lemma_otherwise_negates(st: EngineState)
    ensures
        spec_step(st, LineAction::EnterOtherwise).emit == !st.seen_specific,
        spec_step(st, LineAction::EnterOtherwise).seen_specific == st.seen_specific,
{
}

/// Once a specific block has been entered, every otherwise marker up to the
/// next general marker suppresses output: across any stretch of lines free
/// of general markers, `seen_specific` stays set, and an otherwise marker
/// stepped from such a state turns emission off.
pub proof fn lemma_specific_suppresses_otherwise(
    ident: Seq<u8>,
    delim: Seq<u8>,
    st: EngineState,
    lines: Seq<Seq<u8>>,
)
    requires
        st.seen_specific,
        forall|i: int|
            0 <= i < lines.len() ==> spec_classify(ident, delim, lines[i])
                != LineAction::EnterGeneral,
    ensures
        spec_run(ident, delim, st, lines).seen_specific,
        !spec_step(spec_run(ident, delim, st, lines), LineAction::EnterOtherwise).emit,
    decreases lines.len(),
{
    if lines.len() > 0 {
        let a = spec_classify(ident, delim, lines[0]);
        let st1 = spec_step(st, a);
        assert(st1.seen_specific);
        assert forall|i: int| 0 <= i < lines.drop_first().len() implies spec_classify(
            ident,
            delim,
            lines.drop_first()[i],
        ) != LineAction::EnterGeneral by {
            assert(lines.drop_first()[i] == lines[i + 1]);
        }
        lemma_specific_suppresses_otherwise(ident, delim, st1, lines.drop_first());
    }
}

/// Running the engine twice on the same input with the same configuration
/// yields byte-identical output: what comes out is a function of the
/// configuration and the input bytes alone.
pub proof fn lemma_deterministic(
    ident: Seq<u8>,
    delim: Seq<u8>,
    input: Seq<u8>,
    first: Seq<u8>,
    second: Seq<u8>,
)
    requires
        first == spec_process(ident, delim, input),
        second == spec_process(ident, delim, input),
    ensures
        first == second,
{
}

/// A stream in which every line is content passes through selection
/// unchanged, provided emission is on at the start: every line is kept, in
/// order.
pub proof fn lemma_no_directives_pass_through(
    ident: Seq<u8>,
    delim: Seq<u8>,
    st: EngineState,
    lines: Seq<Seq<u8>>,
)
    requires
        st.emit,
        forall|i: int|
            0 <= i < lines.len() ==> spec_classify(ident, delim, lines[i]) == LineAction::Process,
    ensures
        spec_select(ident, delim, st, lines) == lines,
    decreases lines.len(),
{
    if lines.len() == 0 {
        assert(spec_select(ident, delim, st, lines) =~= lines);
    } else {
        let a = spec_classify(ident, delim, lines[0]);
        assert(a == LineAction::Process);
        assert forall|i: int| 0 <= i < lines.drop_first().len() implies spec_classify(
            ident,
            delim,
            lines.drop_first()[i],
        ) == LineAction::Process by {
            assert(lines.drop_first()[i] == lines[i + 1]);
        }
        lemma_no_directives_pass_through(ident, delim, spec_step(st, a), lines.drop_first());
        assert(seq![lines[0]] + lines.drop_first() =~= lines);
    }
}

/// Round trip on bytes: an input containing no directive lines at all comes
/// out as its own lines joined back with single line feeds — unchanged but
/// for line-ending normalization.
pub proof fn lemma_round_trip_normalises(ident: Seq<u8>, delim: Seq<u8>, input: Seq<u8>)
    requires
        forall|i: int|
            0 <= i < spec_split_lines(input, 0).len() ==> spec_classify(
                ident,
                delim,
                spec_split_lines(input, 0)[i],
            ) == LineAction::Process,
    ensures
        spec_process(ident, delim, input) == spec_unlines(spec_split_lines(input, 0)),
{
    lemma_no_directives_pass_through(
        ident,
        delim,
        spec_initial_state(),
        spec_split_lines(input, 0),
    );
}

/// Construction-time failure. The constructor treats both of its arguments
/// as literal text, never as pattern syntax, so no input can produce this
/// error: [`Parser::new`] proves it returns `Ok` for every pair of strings.
#[derive(Clone, Copy, Debug, PartialEq, Eq, Structural)]
pub struct PatternError;

/// The selector engine's configuration: an identifier to look for in case
/// lists, and the delimiter literal that opens a directive line. The two
/// are immutable after construction; all per-run state lives in
/// [`EngineState`] values local to one [`Parser::process`] call.
#[derive(Debug)]
pub struct Parser {
    /// The configured identifier, as bytes.
    pub ident: Vec<u8>,
    /// The delimiter literal, as bytes.
    pub delimiter: Vec<u8>,
}

impl Parser {
    /// Build a new parser, with `ident` as identifier and `delimiter` as
    /// delimiter. Both are taken literally, byte for byte; construction
    /// succeeds for every pair of strings.
    pub fn new(ident: &str, delimiter: &str) -> (r: Result<Parser, PatternError>)
        ensures
            r is Ok,
            r->Ok_0.ident@ == ident.spec_bytes(),
            r->Ok_0.delimiter@ == delimiter.spec_bytes(),
    {
        Ok(Parser {
            ident: slice_to_vec(ident.as_bytes()),
            delimiter: slice_to_vec(delimiter.as_bytes()),
        })
    }

    /// Classify one line against this configuration. The result depends on
    /// the line and the configuration alone, never on any engine state.
    pub fn classify(&self, line: &[u8]) -> (a: LineAction)
        ensures
            a == spec_classify(self.ident@, self.delimiter@, line@),
    {
        let n = line.len();
        let w = ws_end(line, 0);
        match last_occurrence(self.delimiter.as_slice(), line, w) {
            None => LineAction::Process,
            Some(i) => {
                let e = ws_end(line, i + self.delimiter.len());
                let rem = vstd::slice::slice_subrange(line, e, n);
                proof {
                    assert(rem@ == spec_remainder(self.delimiter@, line@));
                }
                if rem.len() == 0 {
                    LineAction::EnterGeneral
                } else if has_star_token(rem) {
                    LineAction::EnterOtherwise
                } else if has_word(self.ident.as_slice(), rem) {
                    LineAction::EnterSpecific
                } else {
                    LineAction::EnterIgnore
                }
            },
        }
    }

    /// Walk `input_lines` once from the initial state and return the kept
    /// lines, in input order.
    pub fn select(&self, input_lines: &Vec<Vec<u8>>) -> (kept: Vec<Vec<u8>>)
        ensures
            spec_views(kept@) == spec_select(
                self.ident@,
                self.delimiter@,
                spec_initial_state(),
                spec_views(input_lines@),
            ),
    {
        let ghost views = spec_views(input_lines@);
        let mut st = EngineState::initial();
        let mut out: Vec<Vec<u8>> = Vec::new();
        let n = input_lines.len();
        let mut k: usize = 0;
        proof {
            assert(views.skip(0) =~= views);
            assert(spec_views(out@) + spec_select(self.ident@, self.delimiter@, st, views)
                =~= spec_select(self.ident@, self.delimiter@, st, views));
        }
        while k < n
            invariant
                k <= n,
                n == input_lines@.len(),
                views == spec_views(input_lines@),
                spec_views(out@) + spec_select(self.ident@, self.delimiter@, st, views.skip(k as int))
                    == spec_select(self.ident@, self.delimiter@, spec_initial_state(), views),
            decreases n - k,
        {
            let line: &Vec<u8> = &input_lines[k];
            let a = self.classify(line.as_slice());
            let ghost st0 = st;
            let ghost out0 = out@;
            proof {
                assert(views.skip(k as int)[0] == views[k as int]);
                assert(views[k as int] == line@);
                assert(views.skip(k as int).drop_first() =~= views.skip(k as int + 1));
            }
            if a == LineAction::Process && st.emit {
                out.push(slice_to_vec(line.as_slice()));
                proof {
                    assert(spec_views(out@) =~= spec_views(out0).push(line@));
                }
            }
            st = st.step(a);
            proof {
                let rest = spec_select(self.ident@, self.delimiter@, st, views.skip(k as int + 1));
                assert(spec_select(self.ident@, self.delimiter@, st0, views.skip(k as int)) == (
                if a == LineAction::Process && st0.emit {
                    seq![views[k as int]] + rest
                } else {
                    rest
                }));
                if a == LineAction::Process && st0.emit {
                    assert(spec_views(out0).push(line@) + rest =~= spec_views(out0) + (seq![
                        views[k as int],
                    ] + rest));
                }
            }
            k = k + 1;
        }
        proof {
            assert(views.skip(n as int) =~= Seq::<Seq<u8>>::empty());
            assert(spec_views(out@) + spec_select(
                self.ident@,
                self.delimiter@,
                st,
                views.skip(n as int),
            ) =~= spec_views(out@));
        }
        out
    }

    /// Process an input byte stream and append the corresponding result to
    /// `output`: the content lines of the blocks that apply to the
    /// configured identifier, each followed by a single line feed.
    pub fn process(&self, input: &[u8], output: &mut Vec<u8>)
        ensures
            final(output)@ == old(output)@ + spec_process(self.ident@, self.delimiter@, input@),
    {
        let input_lines = split_lines(input);
        let kept = self.select(&input_lines);
        let mut bytes = unlines(&kept);
        output.append(&mut bytes);
    }
}

} // verus!
