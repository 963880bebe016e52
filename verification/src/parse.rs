//! The parser of the definition text format.
//!
//! Lines that are empty or begin with `#` are dropped. The first five lines
//! that remain hold the state count, the input alphabet, the tape alphabet, the
//! start state and the halt state; every further line holds one transition.

use crate::def::{Move, TransitionFunction, TuringDef, TuringDefView};
use crate::text::{
    lemma_tokens_are_words, lines, parse_u8, read_u8, slice_chars, split_lines, split_tokens,
    to_chars, tokens, views,
};
use vstd::prelude::*;

verus! {

/// What is wrong with one transition line.
#[derive(Clone, Copy, Debug, PartialEq, Eq, Structural)]
pub enum TuringTransitionError {
    /// The line has neither five nor three tokens.
    InvalidArgumentCount,
    /// The third token of a three-token line is not `-`.
    InvalidFailState,
    /// The state is not a number below 256.
    InvalidState,
    /// The input symbol is missing.
    InvalidInput,
    /// The next state is not a number below 256.
    InvalidNextState,
    /// The symbol to write is missing, or the movement is none of `L`, `R`, `N`.
    InvalidMove,
}

/// Why a definition text was rejected.
#[derive(Clone, Copy, Debug, PartialEq, Eq, Structural)]
pub enum TuringParseError {
    /// The state count is not a number below 256.
    InvalidStateCount,
    /// The start state is not a number below 256.
    InvalidStartState,
    /// The halt state is not a number below 256.
    InvalidEndState,
    /// The transition line with the given index, counted from zero among the
    /// transition lines, is malformed.
    InvalidTransitionFunction(usize, TuringTransitionError),
    /// The text has fewer than five significant lines.
    InvalidArgumentCount,
}

/// Whether a line takes part in the definition: it is neither empty nor a
/// comment.
pub open spec fn is_significant(line: Seq<char>) -> bool {
    line.len() > 0 && line[0] != '#'
}

/// The significant lines among `ls`, in order.
pub open spec fn significant(ls: Seq<Seq<char>>) -> Seq<Seq<char>>
    decreases ls.len(),
{
    if ls.len() == 0 {
        Seq::empty()
    } else if is_significant(ls[0]) {
        seq![ls[0]] + significant(ls.drop_first())
    } else {
        significant(ls.drop_first())
    }
}

/// The movement that a token denotes.
pub open spec fn move_of(token: Seq<char>) -> Option<Move> {
    if token == seq!['L'] {
        Some(Move::Left)
    } else if token == seq!['R'] {
        Some(Move::Right)
    } else if token == seq!['N'] {
        Some(Move::Stay)
    } else {
        None
    }
}

/// The entry that a five-token line denotes.
pub open spec fn parse_normal(t: Seq<Seq<char>>) -> Result<
    TransitionFunction,
    TuringTransitionError,
> {
    if parse_u8(t[0]) is None {
        Err(TuringTransitionError::InvalidState)
    } else if t[1].len() == 0 {
        Err(TuringTransitionError::InvalidInput)
    } else if parse_u8(t[2]) is None {
        Err(TuringTransitionError::InvalidNextState)
    } else if t[3].len() == 0 || move_of(t[4]) is None {
        Err(TuringTransitionError::InvalidMove)
    } else {
        Ok(
            TransitionFunction::Normal {
                state: parse_u8(t[0])->0,
                input: t[1][0],
                next_state: parse_u8(t[2])->0,
                write: t[3][0],
                move_dir: move_of(t[4])->0,
            },
        )
    }
}

/// The entry that a three-token line denotes.
pub open spec fn parse_fail(t: Seq<Seq<char>>) -> Result<
    TransitionFunction,
    TuringTransitionError,
> {
    if parse_u8(t[0]) is None {
        Err(TuringTransitionError::InvalidState)
    } else if t[1].len() == 0 {
        Err(TuringTransitionError::InvalidInput)
    } else if t[2] != seq!['-'] {
        Err(TuringTransitionError::InvalidFailState)
    } else {
        Ok(TransitionFunction::Fail { state: parse_u8(t[0])->0, input: t[1][0] })
    }
}

/// The entry that a transition line denotes. A symbol is the first character
/// of its token.
pub open spec fn parse_transition(line: Seq<char>) -> Result<
    TransitionFunction,
    TuringTransitionError,
> {
    let t = tokens(line);
    if t.len() == 5 {
        parse_normal(t)
    } else if t.len() == 3 {
        parse_fail(t)
    } else {
        Err(TuringTransitionError::InvalidArgumentCount)
    }
}

/// The entries that the transition lines `ls` denote, the first of which has
/// index `pos`; or the error of the first malformed line.
pub open spec fn parse_transitions(ls: Seq<Seq<char>>, pos: nat) -> Result<
    Seq<TransitionFunction>,
    TuringParseError,
>
    decreases ls.len(),
{
    if ls.len() == 0 {
        Ok(Seq::empty())
    } else {
        match parse_transition(ls[0]) {
            Err(e) => Err(TuringParseError::InvalidTransitionFunction(pos as usize, e)),
            Ok(t) => match parse_transitions(ls.drop_first(), pos + 1) {
                Err(e) => Err(e),
                Ok(ts) => Ok(seq![t] + ts),
            },
        }
    }
}

/// The definition that the significant lines `ls` denote.
pub open spec fn parse_lines(ls: Seq<Seq<char>>) -> Result<TuringDefView, TuringParseError> {
    if ls.len() < 5 {
        Err(TuringParseError::InvalidArgumentCount)
    } else if parse_u8(ls[0]) is None {
        Err(TuringParseError::InvalidStateCount)
    } else if parse_u8(ls[3]) is None {
        Err(TuringParseError::InvalidStartState)
    } else if parse_u8(ls[4]) is None {
        Err(TuringParseError::InvalidEndState)
    } else {
        match parse_transitions(ls.skip(5), 0) {
            Err(e) => Err(e),
            Ok(ts) => Ok(
                TuringDefView {
                    state_count: parse_u8(ls[0])->0,
                    input_alphabet: ls[1],
                    tape_alphabet: ls[2],
                    start_state: parse_u8(ls[3])->0,
                    end_state: parse_u8(ls[4])->0,
                    transition_function: ts,
                },
            ),
        }
    }
}

/// The definition that a text denotes.
pub open spec fn parse_definition(text: Seq<char>) -> Result<TuringDefView, TuringParseError> {
    parse_lines(significant(lines(text)))
}

/// A transition line is never rejected for its input symbol: a token is
/// never empty.
pub proof fn lemma_input_never_missing(line: Seq<char>)
    ensures
        parse_transition(line) != Err::<TransitionFunction, TuringTransitionError>(
            TuringTransitionError::InvalidInput,
        ),
{
    lemma_tokens_are_words(line);
    let t = tokens(line);
    if t.len() == 5 || t.len() == 3 {
        assert(t[1].len() > 0);
    }
}

/// Returns the significant lines of `text`.
pub fn significant_lines(text: &Vec<char>) -> (out: Vec<Vec<char>>)
    ensures
        views(out@) == significant(lines(text@)),
{
    let all = split_lines(text);
    let ghost ls = views(all@);
    let mut out: Vec<Vec<char>> = Vec::new();
    let n = all.len();
    let mut i: usize = 0;
    assert(ls.skip(0) == ls);
    while i < n
        invariant
            n == all.len(),
            i <= n,
            ls == views(all@),
            significant(ls) == views(out@) + significant(ls.skip(i as int)),
        decreases n - i,
    {
        let ghost rest = ls.skip(i as int);
        let ghost before = views(out@);
        assert(rest[0] == all@[i as int]@);
        assert(rest.drop_first() == ls.skip(i + 1));
        if all[i].len() > 0 && all[i][0] != '#' {
            let line = slice_chars(&all[i], 0, all[i].len());
            assert(line@ == all@[i as int]@);
            out.push(line);
            assert(views(out@) == before + seq![rest[0]]);
        }
        i += 1;
    }
    assert(ls.skip(n as int).len() == 0);
    out
}

/// Returns the movement that `token` denotes, if it denotes one.
pub fn read_move(token: &Vec<char>) -> (m: Option<Move>)
    ensures
        m == move_of(token@),
{
    if token.len() != 1 {
        assert(token@.len() != seq!['L'].len());
        return None;
    }
    let c = token[0];
    let ghost one = seq![c];
    assert(token@ == one);
    if c == 'L' {
        Some(Move::Left)
    } else if c == 'R' {
        assert(seq!['L'][0] != one[0]);
        Some(Move::Right)
    } else if c == 'N' {
        assert(seq!['L'][0] != one[0]);
        assert(seq!['R'][0] != one[0]);
        Some(Move::Stay)
    } else {
        assert(seq!['L'][0] != one[0]);
        assert(seq!['R'][0] != one[0]);
        assert(seq!['N'][0] != one[0]);
        None
    }
}

impl TransitionFunction {
    /// Parses one transition line. `pos` is the index of the line among the
    /// transition lines and is reported with an error.
    pub fn parse(pos: usize, line: &str) -> (r: Result<Self, TuringParseError>)
        ensures
            r == match parse_transition(line@) {
                Ok(t) => Ok::<Self, TuringParseError>(t),
                Err(e) => Err(TuringParseError::InvalidTransitionFunction(pos, e)),
            },
    {
        let chars = to_chars(line);
        Self::parse_chars(pos, &chars)
    }

    /// Parses one transition line given as characters.
    pub fn parse_chars(pos: usize, line: &Vec<char>) -> (r: Result<Self, TuringParseError>)
        ensures
            r == match parse_transition(line@) {
                Ok(t) => Ok::<Self, TuringParseError>(t),
                Err(e) => Err(TuringParseError::InvalidTransitionFunction(pos, e)),
            },
    {
        let parts = split_tokens(line);
        let ghost t = tokens(line@);
        assert(forall|i: int| 0 <= i < parts.len() ==> (#[trigger] parts@[i])@ == t[i]);
        if parts.len() == 5 {
            let state = match read_u8(&parts[0]) {
                Some(s) => s,
                None => {
                    return Err(
                        TuringParseError::InvalidTransitionFunction(
                            pos,
                            TuringTransitionError::InvalidState,
                        ),
                    );
                },
            };
            if parts[1].len() == 0 {
                return Err(
                    TuringParseError::InvalidTransitionFunction(
                        pos,
                        TuringTransitionError::InvalidInput,
                    ),
                );
            }
            let input = parts[1][0];
            let next_state = match read_u8(&parts[2]) {
                Some(s) => s,
                None => {
                    return Err(
                        TuringParseError::InvalidTransitionFunction(
                            pos,
                            TuringTransitionError::InvalidNextState,
                        ),
                    );
                },
            };
            if parts[3].len() == 0 {
                return Err(
                    TuringParseError::InvalidTransitionFunction(
                        pos,
                        TuringTransitionError::InvalidMove,
                    ),
                );
            }
            let write = parts[3][0];
            let move_dir = match read_move(&parts[4]) {
                Some(m) => m,
                None => {
                    return Err(
                        TuringParseError::InvalidTransitionFunction(
                            pos,
                            TuringTransitionError::InvalidMove,
                        ),
                    );
                },
            };
            Ok(TransitionFunction::new(state, input, next_state, write, move_dir))
        } else if parts.len() == 3 {
            let state = match read_u8(&parts[0]) {
                Some(s) => s,
                None => {
                    return Err(
                        TuringParseError::InvalidTransitionFunction(
                            pos,
                            TuringTransitionError::InvalidState,
                        ),
                    );
                },
            };
            if parts[1].len() == 0 {
                return Err(
                    TuringParseError::InvalidTransitionFunction(
                        pos,
                        TuringTransitionError::InvalidInput,
                    ),
                );
            }
            let input = parts[1][0];
            if parts[2].len() != 1 || parts[2][0] != '-' {
                assert(t[2] != seq!['-']) by {
                    if t[2].len() == 1 {
                        assert(t[2][0] != seq!['-'][0]);
                    }
                }
                return Err(
                    TuringParseError::InvalidTransitionFunction(
                        pos,
                        TuringTransitionError::InvalidFailState,
                    ),
                );
            }
            assert(t[2] == seq!['-']);
            Ok(TransitionFunction::new_fail(state, input))
        } else {
            Err(
                TuringParseError::InvalidTransitionFunction(
                    pos,
                    TuringTransitionError::InvalidArgumentCount,
                ),
            )
        }
    }
}

impl TuringDef {
    /// Parses a machine definition from its text.
    ///
    /// Succeeds exactly on the texts that denote a definition and then
    /// returns that definition; otherwise returns the error of the first
    /// thing that is wrong, in the order state count, start state, halt
    /// state, transition lines.
    pub fn parse(value: &str) -> (r: Result<Self, TuringParseError>)
        ensures
            match r {
                Ok(d) => parse_definition(value@) == Ok::<TuringDefView, TuringParseError>(d@),
                Err(e) => parse_definition(value@) == Err::<TuringDefView, TuringParseError>(e),
            },
    {
        let text = to_chars(value);
        let ls = significant_lines(&text);
        let ghost sl = significant(lines(value@));
        assert(forall|i: int| 0 <= i < ls.len() ==> (#[trigger] ls@[i])@ == sl[i]);
        if ls.len() < 5 {
            return Err(TuringParseError::InvalidArgumentCount);
        }
        let state_count = match read_u8(&ls[0]) {
            Some(n) => n,
            None => {
                return Err(TuringParseError::InvalidStateCount);
            },
        };
        let start_state = match read_u8(&ls[3]) {
            Some(n) => n,
            None => {
                return Err(TuringParseError::InvalidStartState);
            },
        };
        let end_state = match read_u8(&ls[4]) {
            Some(n) => n,
            None => {
                return Err(TuringParseError::InvalidEndState);
            },
        };
        let input_alphabet = slice_chars(&ls[1], 0, ls[1].len());
        let tape_alphabet = slice_chars(&ls[2], 0, ls[2].len());
        assert(input_alphabet@ == sl[1]);
        assert(tape_alphabet@ == sl[2]);
        let mut transition_function: Vec<TransitionFunction> = Vec::new();
        let n = ls.len();
        let mut i: usize = 5;
        while i < n
            invariant
                n == ls.len(),
                5 <= i <= n,
                sl == views(ls@),
                sl == significant(lines(value@)),
                parse_u8(sl[0]) is Some,
                parse_u8(sl[3]) is Some,
                parse_u8(sl[4]) is Some,
                parse_transitions(sl.skip(5), 0) == match parse_transitions(
                    sl.skip(i as int),
                    (i - 5) as nat,
                ) {
                    Ok(ts) => Ok::<Seq<TransitionFunction>, TuringParseError>(
                        transition_function@ + ts,
                    ),
                    Err(e) => Err(e),
                },
            decreases n - i,
        {
            let ghost rest = sl.skip(i as int);
            let ghost done = transition_function@;
            assert(rest[0] == ls@[i as int]@);
            assert(rest.drop_first() == sl.skip(i + 1));
            match TransitionFunction::parse_chars(i - 5, &ls[i]) {
                Err(e) => {
                    return Err(e);
                },
                Ok(t) => {
                    transition_function.push(t);
                    proof {
                        match parse_transitions(sl.skip(i + 1), (i - 4) as nat) {
                            Ok(ts) => {
                                assert(done + (seq![t] + ts) == done.push(t) + ts);
                            },
                            Err(e) => {},
                        }
                    }
                },
            }
            i += 1;
        }
        assert(sl.skip(n as int).len() == 0);
        assert(transition_function@ + Seq::<TransitionFunction>::empty() == transition_function@);
        Ok(
            TuringDef {
                state_count,
                input_alphabet,
                tape_alphabet,
                start_state,
                end_state,
                transition_function,
            },
        )
    }
}

} // verus!
