//! The execution engine: one definition, one tape and the current state,
//! advanced one transition per call.

use crate::def::{
    alphabet_contains, lemma_lookup_first_match, Move, TransitionFunction, TuringDef,
    TuringDefView, BLANK,
};
use crate::tape::{lemma_seed, Tape, TapeView};
use crate::text::{decimal, lemma_prefix_len_unique, prefix_len, push_decimal, to_chars};
use crate::verify::lemma_verify_deterministic;
use vstd::prelude::*;
use vstd::string::StringExecFns;

verus! {

/// What one step did.
#[derive(Clone, Copy, Debug, PartialEq, Eq, Structural)]
pub enum StepOutcome {
    /// A normal entry was applied: the symbol was written, the head moved and
    /// the state changed.
    Applied,
    /// A fail entry was reached: the machine halted without writing or moving.
    Failed,
    /// The table has no entry for the state and the symbol under the head:
    /// nothing was changed.
    Missing,
}

/// The character at index `.0` of a tape input is not in the input alphabet;
/// `.1` is that character.
#[derive(Clone, Copy, Debug, PartialEq, Eq, Structural)]
pub struct TuringTapeError(pub usize, pub char);

/// The mathematical value of a runner.
pub struct RunnerView {
    pub def: TuringDefView,
    pub tape: TapeView,
    pub state: u8,
}

impl RunnerView {
    /// The runner that a definition starts from: the empty tape, the head at
    /// address 0, the start state.
    pub open spec fn initial(def: TuringDefView) -> RunnerView {
        RunnerView { def, tape: TapeView::empty(), state: def.start_state }
    }

    /// Whether the machine is in its halt state.
    pub open spec fn is_halted(self) -> bool {
        self.state == self.def.end_state
    }

    /// The entry that the next step applies.
    pub open spec fn next_transition(self) -> Option<TransitionFunction> {
        self.def.transition(self.state, self.tape.read())
    }

    /// The runner after one step.
    pub open spec fn step(self) -> RunnerView {
        match self.next_transition() {
            None => self,
            Some(TransitionFunction::Fail { .. }) => RunnerView {
                state: self.def.end_state,
                ..self
            },
            Some(TransitionFunction::Normal { next_state, write, move_dir, .. }) => RunnerView {
                def: self.def,
                tape: self.tape.write(write).moved(move_dir),
                state: next_state,
            },
        }
    }

    /// What the next step reports.
    pub open spec fn step_outcome(self) -> StepOutcome {
        match self.next_transition() {
            None => StepOutcome::Missing,
            Some(TransitionFunction::Fail { .. }) => StepOutcome::Failed,
            Some(TransitionFunction::Normal { .. }) => StepOutcome::Applied,
        }
    }

    /// Whether the next step keeps the head within the machine's addresses.
    pub open spec fn can_step(self) -> bool {
        self.next_transition() matches Some(TransitionFunction::Normal { move_dir, .. })
            ==> isize::MIN <= self.tape.head + move_dir.delta() <= isize::MAX
    }

    /// The index of the first character of `text` that is not in the input
    /// alphabet; the length of `text` if there is none.
    pub open spec fn first_invalid(self, text: Seq<char>) -> nat {
        prefix_len(text, |c: char| self.def.input_alphabet.contains(c))
    }

    /// Whether every character of `text` is in the input alphabet.
    pub open spec fn accepts(self, text: Seq<char>) -> bool {
        forall|i: int| 0 <= i < text.len() ==> self.def.input_alphabet.contains(#[trigger] text[i])
    }

    /// The runner after `text` is written to the tape from address 0 on.
    pub open spec fn load(self, text: Seq<char>) -> RunnerView {
        RunnerView { tape: self.tape.seed(text, 0), ..self }
    }

    /// The text that shows the tape and the state.
    pub open spec fn display(self) -> Seq<char> {
        render_window(self.tape.window(), self.tape.window_start(), self.tape.head, self.state)
    }
}

impl TuringDefView {
    /// Whether the definition keeps a machine within its states and its tape
    /// alphabet: the start state and the halt state are states, the blank
    /// and every input symbol are tape symbols, and every normal entry leads
    /// to a state and writes a tape symbol.
    pub open spec fn is_closed(self) -> bool {
        &&& self.is_state(self.start_state as int)
        &&& self.is_state(self.end_state as int)
        &&& self.tape_alphabet.contains(BLANK)
        &&& forall|i: int|
            0 <= i < self.input_alphabet.len() ==> self.tape_alphabet.contains(
                #[trigger] self.input_alphabet[i],
            )
        &&& forall|i: int|
            0 <= i < self.transition_function.len() ==> (
            #[trigger] self.transition_function[i] matches TransitionFunction::Normal {
                next_state,
                write,
                ..
            } ==> self.is_state(next_state as int) && self.tape_alphabet.contains(write))
    }
}

impl RunnerView {
    /// Whether the machine is in one of its states and every address of the
    /// tape holds a tape symbol.
    pub open spec fn in_alphabet(self) -> bool {
        &&& self.def.is_state(self.state as int)
        &&& forall|a: int| self.def.tape_alphabet.contains(#[trigger] self.tape.symbol_at(a))
    }

    /// The runner after it has been stepped until it halted, but at most
    /// `steps` times.
    pub open spec fn run(self, steps: nat) -> RunnerView
        decreases steps,
    {
        if steps == 0 || self.is_halted() {
            self
        } else {
            self.step().run((steps - 1) as nat)
        }
    }
}

/// In a total definition, every state that needs transitions has an entry
/// for every tape symbol.
pub proof fn lemma_total_lookup(d: TuringDefView, state: u8, symbol: char)
    requires
        d.is_total(),
        d.needs_transitions(state as int),
        d.tape_alphabet.contains(symbol),
    ensures
        d.transition(state, symbol) is Some,
{
    let k = choose|k: int| 0 <= k < d.tape_alphabet.len() && d.tape_alphabet[k] == symbol;
    assert(d.covers(state as int, k));
}

/// A machine with a total definition that has not halted, is in one of its
/// states and reads a tape symbol finds the entry for its next step.
pub proof fn lemma_step_finds_transition(r: RunnerView)
    requires
        r.def.is_total(),
        r.in_alphabet(),
        !r.is_halted(),
    ensures
        r.step_outcome() != StepOutcome::Missing,
        r.next_transition() is Some,
{
    assert(r.def.tape_alphabet.contains(r.tape.symbol_at(r.tape.head)));
    lemma_total_lookup(r.def, r.state, r.tape.read());
}

/// A step of a machine with a closed definition keeps the machine within its
/// states and the tape within the tape alphabet.
pub proof fn lemma_step_stays_in_alphabet(r: RunnerView)
    requires
        r.def.is_closed(),
        r.in_alphabet(),
    ensures
        r.step().in_alphabet(),
        r.step().def == r.def,
{
    lemma_lookup_first_match(r.def.transition_function, r.state, r.tape.read());
    match r.next_transition() {
        None => {},
        Some(TransitionFunction::Fail { .. }) => {},
        Some(TransitionFunction::Normal { state, input, next_state, write, move_dir }) => {
            let t = TransitionFunction::Normal { state, input, next_state, write, move_dir };
            let i = choose|i: int|
                0 <= i < r.def.transition_function.len() && #[trigger] r.def.transition_function[i]
                    == t;
            assert(r.def.transition_function[i] == t);
            let after = r.step();
            assert forall|a: int|
                r.def.tape_alphabet.contains(#[trigger] after.tape.symbol_at(a)) by {
                if a != r.tape.head {
                    assert(after.tape.symbol_at(a) == r.tape.symbol_at(a));
                }
            }
        },
    }
}

/// A freshly loaded machine with a closed definition is within its states
/// and its tape alphabet.
pub proof fn lemma_load_in_alphabet(d: TuringDefView, text: Seq<char>)
    requires
        d.is_closed(),
        RunnerView::initial(d).accepts(text),
    ensures
        RunnerView::initial(d).load(text).in_alphabet(),
        RunnerView::initial(d).load(text).def == d,
{
    let r = RunnerView::initial(d).load(text);
    lemma_seed(TapeView::empty(), text, 0);
    assert forall|a: int| d.tape_alphabet.contains(#[trigger] r.tape.symbol_at(a)) by {
        if 0 <= a < text.len() {
            let c = text[a];
            assert(d.input_alphabet.contains(c));
            let i = choose|i: int| 0 <= i < d.input_alphabet.len() && d.input_alphabet[i] == c;
            assert(d.tape_alphabet.contains(d.input_alphabet[i]));
        } else {
            assert(TapeView::empty().symbol_at(a) == BLANK);
        }
    }
}

/// However long a machine with a total and closed definition is stepped
/// until it halts, the step that follows finds its entry: a missing
/// transition is never met.
pub proof fn lemma_run_never_misses(r: RunnerView, steps: nat)
    requires
        r.def.is_total(),
        r.def.is_closed(),
        r.in_alphabet(),
    ensures
        r.run(steps).def == r.def,
        r.run(steps).in_alphabet(),
        !r.run(steps).is_halted() ==> r.run(steps).step_outcome() != StepOutcome::Missing,
    decreases steps,
{
    if steps == 0 || r.is_halted() {
        if !r.is_halted() {
            lemma_step_finds_transition(r);
        }
    } else {
        lemma_step_stays_in_alphabet(r);
        lemma_run_never_misses(r.step(), (steps - 1) as nat);
    }
}

/// A machine whose definition passes the totality check and is closed, and
/// whose tape was loaded with an accepted input, never meets a missing
/// transition, however long it is stepped until it halts.
pub proof fn lemma_verified_run_never_misses(d: TuringDefView, input: Seq<char>, steps: nat)
    requires
        d.verify() is Ok,
        d.is_closed(),
        RunnerView::initial(d).accepts(input),
    ensures
        !RunnerView::initial(d).load(input).run(steps).is_halted() ==> RunnerView::initial(d).load(
            input,
        ).run(steps).step_outcome() != StepOutcome::Missing,
{
    lemma_verify_deterministic(d);
    lemma_load_in_alphabet(d, input);
    lemma_run_never_misses(RunnerView::initial(d).load(input), steps);
}

/// How one cell is shown: the cell under the head as `[q`, the state, `](`,
/// the symbol and `)`; any other cell as its symbol.
pub open spec fn render_cell(symbol: char, at_head: bool, state: u8) -> Seq<char> {
    if at_head {
        "[q"@ + decimal(state as nat) + "]("@ + seq![symbol] + ")"@
    } else {
        seq![symbol]
    }
}

/// How a window that begins at address `offset` is shown: its cells in order.
pub open spec fn render_window(window: Seq<char>, offset: int, head: int, state: u8) -> Seq<char>
    decreases window.len(),
{
    if window.len() == 0 {
        Seq::empty()
    } else {
        render_window(window.drop_last(), offset, head, state) + render_cell(
            window.last(),
            offset + window.len() - 1 == head,
            state,
        )
    }
}

/// Returns the text that shows a window of the tape: every cell as its
/// symbol, but the cell at `head` wrapped with the state.
pub fn render(window: &Vec<char>, offset: isize, head: isize, state: u8) -> (out: String)
    ensures
        out@ == render_window(window@, offset as int, head as int, state),
{
    let mut out = String::new();
    let mut i: usize = 0;
    while i < window.len()
        invariant
            i <= window.len(),
            out@ == render_window(window@.take(i as int), offset as int, head as int, state),
        decreases window.len() - i,
    {
        let ghost before = out@;
        let ghost w = window@.take(i + 1);
        assert(w.drop_last() == window@.take(i as int));
        assert(w.last() == window@[i as int]);
        let at: i128 = offset as i128 + i as i128;
        if at == head as i128 {
            out.append("[q");
            push_decimal(&mut out, state);
            out.append("](");
            out.push(window[i]);
            out.append(")");
            assert(out@ == before + render_cell(window@[i as int], true, state));
        } else {
            out.push(window[i]);
            assert(out@ == before + render_cell(window@[i as int], false, state));
        }
        i += 1;
    }
    assert(window@.take(window.len() as int) == window@);
    out
}

/// A machine in execution.
pub struct TuringRunner {
    def: TuringDef,
    tape: Tape,
    state: u8,
}

impl View for TuringRunner {
    type V = RunnerView;

    closed spec fn view(&self) -> RunnerView {
        RunnerView { def: self.def@, tape: self.tape@, state: self.state }
    }
}

impl TuringRunner {
    /// The invariant of the representation.
    pub closed spec fn wf(&self) -> bool {
        self.tape.wf()
    }

    /// The tape of a well-formed runner holds no explicit blank.
    pub proof fn lemma_wf(self)
        requires
            self.wf(),
        ensures
            self@.tape.wf(),
    {
        Tape::lemma_wf(self.tape);
    }

    /// Creates the runner of `def`: the tape is empty, the head at address 0,
    /// the machine in the start state.
    pub fn new(def: TuringDef) -> (r: Self)
        ensures
            r@ == RunnerView::initial(def@),
            r.wf(),
    {
        let state = def.start_state;
        TuringRunner { def, tape: Tape::new(), state }
    }

    /// Writes `value` to the tape from address 0 on, if every character of it
    /// is in the input alphabet. Otherwise nothing is written, and the error
    /// names the first character that is not.
    pub fn load_tape(&mut self, value: &str) -> (r: Result<(), TuringTapeError>)
        requires
            old(self).wf(),
            value@.len() <= isize::MAX,
        ensures
            final(self).wf(),
            r is Ok <==> old(self)@.accepts(value@),
            r is Ok ==> final(self)@ == old(self)@.load(value@),
            r matches Err(e) ==> {
                &&& final(self)@ == old(self)@
                &&& e.0 == old(self)@.first_invalid(value@)
                &&& e.0 < value@.len()
                &&& e.1 == value@[e.0 as int]
            },
    {
        let text = to_chars(value);
        let ghost p = |c: char| self@.def.input_alphabet.contains(c);
        let mut i: usize = 0;
        while i < text.len()
            invariant
                i <= text.len(),
                text@ == value@,
                self@ == old(self)@,
                self.wf(),
                p == (|c: char| self@.def.input_alphabet.contains(c)),
                forall|j: int| 0 <= j < i ==> p(#[trigger] text@[j]),
            decreases text.len() - i,
        {
            if !alphabet_contains(&self.def.input_alphabet, text[i]) {
                proof {
                    lemma_prefix_len_unique(text@, p, i as int);
                }
                return Err(TuringTapeError(i, text[i]));
            }
            i += 1;
        }
        self.tape.seed(&text, 0);
        Ok(())
    }

    /// Executes one transition: reads the symbol under the head and applies
    /// the entry for the current state and that symbol. A normal entry writes
    /// its symbol, moves the head and changes the state; a fail entry puts the
    /// machine in the halt state and leaves the tape alone; where there is no
    /// entry, nothing changes.
    pub fn step(&mut self) -> (outcome: StepOutcome)
        requires
            old(self).wf(),
            old(self)@.can_step(),
        ensures
            final(self).wf(),
            final(self)@ == old(self)@.step(),
            outcome == old(self)@.step_outcome(),
    {
        let current = self.tape.get();
        match self.def.find_transition(self.state, current) {
            None => StepOutcome::Missing,
            Some(TransitionFunction::Fail { .. }) => {
                self.state = self.def.end_state;
                StepOutcome::Failed
            },
            Some(TransitionFunction::Normal { next_state, write, move_dir, .. }) => {
                self.tape.set(write);
                self.tape.apply_move(&move_dir);
                self.state = next_state;
                StepOutcome::Applied
            },
        }
    }

    /// Returns whether the machine is in its halt state.
    pub fn is_halted(&self) -> (b: bool)
        ensures
            b == self@.is_halted(),
    {
        self.state == self.def.end_state
    }

    /// Returns the current state.
    pub fn state(&self) -> (s: u8)
        ensures
            s == self@.state,
    {
        self.state
    }

    /// Returns the definition that the runner executes.
    pub fn def(&self) -> (d: &TuringDef)
        ensures
            d@ == self@.def,
    {
        &self.def
    }

    /// Returns the tape.
    pub fn tape(&self) -> (t: &Tape)
        ensures
            t@ == self@.tape,
    {
        &self.tape
    }

    /// Returns whether the next step keeps the head within the machine's
    /// addresses.
    pub fn can_step(&self) -> (b: bool)
        ensures
            b == self@.can_step(),
    {
        let current = self.tape.get();
        match self.def.find_transition(self.state, current) {
            Some(TransitionFunction::Normal { move_dir, .. }) => {
                let head = self.tape.head();
                match move_dir {
                    Move::Left => head > isize::MIN,
                    Move::Right => head < isize::MAX,
                    Move::Stay => true,
                }
            },
            _ => true,
        }
    }

    /// Returns the text that shows the window of the tape, the cell under the
    /// head wrapped with the current state.
    pub fn display(&self) -> (out: String)
        ensures
            out@ == self@.display(),
    {
        let (window, offset) = self.tape.as_vec();
        render(&window, offset, self.tape.head(), self.state)
    }
}

} // verus!
