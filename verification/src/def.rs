//! The data model of a machine definition: movements, transition entries and
//! the definition record, together with the first-match lookup that both the
//! totality check and the execution engine are stated over.

use vstd::prelude::*;

verus! {

/// The symbol that stands for "nothing written here".
pub const BLANK: char = 'B';

/// Head movement of a transition.
#[derive(Clone, Copy, Debug, PartialEq, Eq, Structural)]
pub enum Move {
    Left,
    Right,
    Stay,
}

impl Move {
    /// The change of the head address that this movement causes.
    pub open spec fn delta(self) -> int {
        match self {
            Move::Left => -1,
            Move::Right => 1,
            Move::Stay => 0,
        }
    }

    /// The letter that denotes this movement in definition text.
    pub open spec fn letter(self) -> char {
        match self {
            Move::Left => 'L',
            Move::Right => 'R',
            Move::Stay => 'N',
        }
    }

    /// Returns the letter that denotes this movement in definition text.
    pub fn to_char(self) -> (c: char)
        ensures
            c == self.letter(),
    {
        match self {
            Move::Left => 'L',
            Move::Right => 'R',
            Move::Stay => 'N',
        }
    }
}

/// One entry of the transition table, keyed by the state the machine is in and
/// the symbol under the head.
#[derive(Clone, Copy, Debug, PartialEq, Eq, Structural)]
pub enum TransitionFunction {
    /// Write `write`, move the head by `move_dir`, continue in `next_state`.
    Normal { state: u8, input: char, next_state: u8, write: char, move_dir: Move },
    /// A combination that must never occur: reaching it halts the machine
    /// without writing or moving.
    Fail { state: u8, input: char },
}

impl TransitionFunction {
    /// The state this entry is keyed by.
    pub open spec fn key_state(self) -> u8 {
        match self {
            TransitionFunction::Normal { state, .. } => state,
            TransitionFunction::Fail { state, .. } => state,
        }
    }

    /// The symbol this entry is keyed by.
    pub open spec fn key_symbol(self) -> char {
        match self {
            TransitionFunction::Normal { input, .. } => input,
            TransitionFunction::Fail { input, .. } => input,
        }
    }

    /// Whether this entry is keyed by `(state, symbol)`.
    pub open spec fn has_key(self, state: u8, symbol: char) -> bool {
        self.key_state() == state && self.key_symbol() == symbol
    }

    /// Builds a normal entry.
    pub fn new(state: u8, input: char, next_state: u8, write: char, move_dir: Move) -> (t: Self)
        ensures
            t == (TransitionFunction::Normal { state, input, next_state, write, move_dir }),
    {
        TransitionFunction::Normal { state, input, next_state, write, move_dir }
    }

    /// Builds a fail entry.
    pub fn new_fail(state: u8, input: char) -> (t: Self)
        ensures
            t == (TransitionFunction::Fail { state, input }),
    {
        TransitionFunction::Fail { state, input }
    }

    /// Returns the state this entry is keyed by.
    pub fn state(&self) -> (s: u8)
        ensures
            s == self.key_state(),
    {
        match self {
            TransitionFunction::Normal { state, .. } => *state,
            TransitionFunction::Fail { state, .. } => *state,
        }
    }

    /// Returns the symbol this entry is keyed by.
    pub fn input(&self) -> (c: char)
        ensures
            c == self.key_symbol(),
    {
        match self {
            TransitionFunction::Normal { input, .. } => *input,
            TransitionFunction::Fail { input, .. } => *input,
        }
    }

    /// Returns whether this is a fail entry.
    pub fn is_fail(&self) -> (b: bool)
        ensures
            b == (*self is Fail),
    {
        match self {
            TransitionFunction::Normal { .. } => false,
            TransitionFunction::Fail { .. } => true,
        }
    }
}

/// The entry that a table yields for `(state, symbol)`: the first one keyed by
/// that pair, if there is any.
pub open spec fn lookup(table: Seq<TransitionFunction>, state: u8, symbol: char) -> Option<
    TransitionFunction,
>
    decreases table.len(),
{
    if table.len() == 0 {
        None
    } else if table[0].has_key(state, symbol) {
        Some(table[0])
    } else {
        lookup(table.drop_first(), state, symbol)
    }
}

/// `lookup` finds nothing exactly when no entry is keyed by the pair, and
/// otherwise yields the entry keyed by it that stands first in the table.
pub proof fn lemma_lookup_first_match(table: Seq<TransitionFunction>, state: u8, symbol: char)
    ensures
        lookup(table, state, symbol) is None <==> forall|i: int|
            0 <= i < table.len() ==> !(#[trigger] table[i]).has_key(state, symbol),
        lookup(table, state, symbol) matches Some(t) ==> exists|i: int|
            0 <= i < table.len() && #[trigger] table[i] == t && t.has_key(state, symbol)
                && forall|j: int| 0 <= j < i ==> !(#[trigger] table[j]).has_key(state, symbol),
    decreases table.len(),
{
    if table.len() == 0 {
    } else if table[0].has_key(state, symbol) {
        assert(table[0] == table[0]);
    } else {
        let rest = table.drop_first();
        lemma_lookup_first_match(rest, state, symbol);
        assert forall|i: int| 0 <= i < rest.len() implies rest[i] == table[i + 1] by {}
        if lookup(rest, state, symbol) is None {
            assert forall|i: int| 0 <= i < table.len() implies !(#[trigger] table[i]).has_key(
                state,
                symbol,
            ) by {
                if i > 0 {
                    assert(rest[i - 1] == table[i]);
                }
            }
        } else {
            let t = lookup(rest, state, symbol)->0;
            let i = choose|i: int|
                0 <= i < rest.len() && #[trigger] rest[i] == t && t.has_key(state, symbol)
                    && forall|j: int| 0 <= j < i ==> !(#[trigger] rest[j]).has_key(state, symbol);
            assert(table[i + 1] == t);
            assert forall|j: int| 0 <= j < i + 1 implies !(#[trigger] table[j]).has_key(
                state,
                symbol,
            ) by {
                if j > 0 {
                    assert(rest[j - 1] == table[j]);
                }
            }
        }
    }
}

/// A machine definition.
#[derive(Clone, Debug, PartialEq, Eq)]
pub struct TuringDef {
    /// Number of states; the states are `1..=state_count`.
    pub state_count: u8,
    /// Symbols that may occur in the initial tape content.
    pub input_alphabet: Vec<char>,
    /// Symbols that may occur on the tape at any time.
    pub tape_alphabet: Vec<char>,
    /// The state the machine starts in.
    pub start_state: u8,
    /// The state in which the machine has halted.
    pub end_state: u8,
    /// The transition table; among entries with the same key the first wins.
    pub transition_function: Vec<TransitionFunction>,
}

/// The mathematical value of a `TuringDef`.
pub struct TuringDefView {
    pub state_count: u8,
    pub input_alphabet: Seq<char>,
    pub tape_alphabet: Seq<char>,
    pub start_state: u8,
    pub end_state: u8,
    pub transition_function: Seq<TransitionFunction>,
}

impl View for TuringDef {
    type V = TuringDefView;

    open spec fn view(&self) -> TuringDefView {
        TuringDefView {
            state_count: self.state_count,
            input_alphabet: self.input_alphabet@,
            tape_alphabet: self.tape_alphabet@,
            start_state: self.start_state,
            end_state: self.end_state,
            transition_function: self.transition_function@,
        }
    }
}

impl TuringDefView {
    /// The entry that applies in `state` when `symbol` is under the head.
    pub open spec fn transition(self, state: u8, symbol: char) -> Option<TransitionFunction> {
        lookup(self.transition_function, state, symbol)
    }

    /// Whether `state` is one of the states `1..=state_count`.
    pub open spec fn is_state(self, state: int) -> bool {
        1 <= state <= self.state_count
    }

    /// Whether `state` is a state that has to have a transition for every
    /// tape symbol: every state but the halt state.
    pub open spec fn needs_transitions(self, state: int) -> bool {
        self.is_state(state) && state != self.end_state
    }
}

/// Returns whether `symbol` occurs in `alphabet`.
pub fn alphabet_contains(alphabet: &Vec<char>, symbol: char) -> (found: bool)
    ensures
        found == alphabet@.contains(symbol),
{
    let mut i: usize = 0;
    while i < alphabet.len()
        invariant
            i <= alphabet.len(),
            forall|j: int| 0 <= j < i ==> alphabet@[j] != symbol,
        decreases alphabet.len() - i,
    {
        if alphabet[i] == symbol {
            return true;
        }
        i += 1;
    }
    false
}

impl TuringDef {
    /// Returns the entry that applies in `state` when `symbol` is under the
    /// head: the first entry of the table keyed by that pair.
    pub fn find_transition(&self, state: u8, symbol: char) -> (found: Option<TransitionFunction>)
        ensures
            found == self@.transition(state, symbol),
    {
        let mut i: usize = 0;
        assert(self.transition_function@.skip(0) == self.transition_function@);
        while i < self.transition_function.len()
            invariant
                i <= self.transition_function.len(),
                lookup(self.transition_function@, state, symbol) == lookup(
                    self.transition_function@.skip(i as int),
                    state,
                    symbol,
                ),
            decreases self.transition_function.len() - i,
        {
            let t = self.transition_function[i];
            let ghost rest = self.transition_function@.skip(i as int);
            assert(rest[0] == t);
            if t.state() == state && t.input() == symbol {
                return Some(t);
            }
            assert(rest.drop_first() == self.transition_function@.skip(i + 1));
            i += 1;
        }
        assert(self.transition_function@.skip(i as int).len() == 0);
        None
    }
}

} // verus!
