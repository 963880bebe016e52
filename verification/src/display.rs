//! The notation in which a definition is shown to a reader: the tuple
//! `M = (Q, Σ, Γ, B, q0, q^, δ)`.

use crate::def::{Move, TransitionFunction, TuringDef, TuringDefView};
use crate::text::{decimal, push_decimal};
use vstd::prelude::*;
use vstd::string::StringExecFns;

verus! {

/// The items in order, with `sep` between every two of them.
pub open spec fn join(items: Seq<Seq<char>>, sep: Seq<char>) -> Seq<char>
    decreases items.len(),
{
    if items.len() == 0 {
        Seq::empty()
    } else if items.len() == 1 {
        items[0]
    } else {
        join(items.drop_last(), sep) + sep + items.last()
    }
}

/// The name of a state: `q` and its number.
pub open spec fn state_name(state: u8) -> Seq<char> {
    "q"@ + decimal(state as nat)
}

/// How the set of states `1..=count` is shown: `{q1, q2, ..}`.
pub open spec fn state_set(count: u8) -> Seq<char> {
    "{"@ + join(Seq::new(count as nat, |i: int| state_name((i + 1) as u8)), ", "@) + "}"@
}

/// How an alphabet is shown: `{a, b, ..}`.
pub open spec fn char_set(symbols: Seq<char>) -> Seq<char> {
    "{"@ + join(Seq::new(symbols.len(), |i: int| seq![symbols[i]]), ", "@) + "}"@
}

/// The state that an entry is shown to lead to: a fail entry is shown as
/// staying in its state.
pub open spec fn shown_next_state(t: TransitionFunction) -> u8 {
    match t {
        TransitionFunction::Normal { next_state, .. } => next_state,
        TransitionFunction::Fail { state, .. } => state,
    }
}

/// The symbol that an entry is shown to write: a fail entry is shown as
/// writing back what it reads.
pub open spec fn shown_write(t: TransitionFunction) -> char {
    match t {
        TransitionFunction::Normal { write, .. } => write,
        TransitionFunction::Fail { input, .. } => input,
    }
}

/// The movement that an entry is shown to make: a fail entry is shown as
/// staying where it is.
pub open spec fn shown_move(t: TransitionFunction) -> Move {
    match t {
        TransitionFunction::Normal { move_dir, .. } => move_dir,
        TransitionFunction::Fail { .. } => Move::Stay,
    }
}

/// How an entry is shown: `δ(q1, a) = (q2, b, R)`.
pub open spec fn transition_text(t: TransitionFunction) -> Seq<char> {
    "δ("@ + state_name(t.key_state()) + ", "@ + seq![t.key_symbol()] + ") = ("@ + state_name(
        shown_next_state(t),
    ) + ", "@ + seq![shown_write(t), ',', ' ', shown_move(t).letter(), ')']
}

/// How a table is shown: its entries between braces, each on a line of its
/// own.
pub open spec fn table_text(table: Seq<TransitionFunction>) -> Seq<char> {
    "{\n    "@ + join(Seq::new(table.len(), |i: int| transition_text(table[i])), ",\n    "@)
        + "\n  }"@
}

/// How a definition is shown.
pub open spec fn definition_text(d: TuringDefView) -> Seq<char> {
    "M = (\n  Q: "@ + state_set(d.state_count) + ",\n  Σ: "@ + char_set(d.input_alphabet)
        + ",\n  Γ: "@ + char_set(d.tape_alphabet) + ",\n  B: B,\n  q0: "@ + state_name(
        d.start_state,
    ) + ",\n  q^: "@ + state_name(d.end_state) + ",\n  δ: "@ + table_text(d.transition_function)
        + "\n)"@
}

/// Joining one more item to a list that is not empty adds the separator and
/// the item; joining the first item adds the item alone.
pub proof fn lemma_join_push(items: Seq<Seq<char>>, sep: Seq<char>, item: Seq<char>)
    ensures
        join(items.push(item), sep) == if items.len() == 0 {
            item
        } else {
            join(items, sep) + sep + item
        },
{
    let all = items.push(item);
    assert(all.drop_last() == items);
    assert(all.last() == item);
}

/// Appends the name of `state` to `out`.
pub fn push_state_name(out: &mut String, state: u8)
    ensures
        final(out)@ == old(out)@ + state_name(state),
{
    out.append("q");
    push_decimal(out, state);
    assert(out@ == old(out)@ + state_name(state));
}

/// Returns how the set of states `1..=count` is shown.
pub fn fmt_state_count(count: u8) -> (out: String)
    ensures
        out@ == state_set(count),
{
    let ghost names = Seq::new(count as nat, |i: int| state_name((i + 1) as u8));
    let mut out = String::new();
    out.append("{");
    let mut i: u8 = 0;
    while i < count
        invariant
            i <= count,
            names == Seq::new(count as nat, |i: int| state_name((i + 1) as u8)),
            out@ == "{"@ + join(names.take(i as int), ", "@),
        decreases count - i,
    {
        proof {
            lemma_join_push(names.take(i as int), ", "@, names[i as int]);
            assert(names.take(i as int).push(names[i as int]) == names.take(i + 1));
        }
        if i > 0 {
            out.append(", ");
        }
        push_state_name(&mut out, i + 1);
        i += 1;
        assert(out@ == "{"@ + join(names.take(i as int), ", "@));
    }
    assert(names.take(count as int) == names);
    out.append("}");
    out
}

/// Returns how an alphabet is shown.
pub fn fmt_char_vec(vec: &Vec<char>) -> (out: String)
    ensures
        out@ == char_set(vec@),
{
    let ghost items = Seq::new(vec@.len(), |i: int| seq![vec@[i]]);
    let mut out = String::new();
    out.append("{");
    let mut i: usize = 0;
    while i < vec.len()
        invariant
            i <= vec.len(),
            items == Seq::new(vec@.len(), |i: int| seq![vec@[i]]),
            out@ == "{"@ + join(items.take(i as int), ", "@),
        decreases vec.len() - i,
    {
        proof {
            lemma_join_push(items.take(i as int), ", "@, items[i as int]);
            assert(items.take(i as int).push(items[i as int]) == items.take(i + 1));
        }
        if i > 0 {
            out.append(", ");
        }
        out.push(vec[i]);
        i += 1;
        assert(out@ == "{"@ + join(items.take(i as int), ", "@));
    }
    assert(items.take(vec.len() as int) == items);
    out.append("}");
    out
}

/// Appends how `t` is shown to `out`.
pub fn push_transition(out: &mut String, t: &TransitionFunction)
    ensures
        final(out)@ == old(out)@ + transition_text(*t),
{
    let (next_state, write, move_dir) = match t {
        TransitionFunction::Normal { next_state, write, move_dir, .. } => (
            *next_state,
            *write,
            *move_dir,
        ),
        TransitionFunction::Fail { state, input } => (*state, *input, Move::Stay),
    };
    out.append("δ(");
    push_state_name(out, t.state());
    out.append(", ");
    out.push(t.input());
    out.append(") = (");
    push_state_name(out, next_state);
    out.append(", ");
    out.push(write);
    out.push(',');
    out.push(' ');
    out.push(move_dir.to_char());
    out.push(')');
    assert(out@ == old(out)@ + transition_text(*t));
}

/// Returns how a table is shown.
pub fn fmt_transition(vec: &Vec<TransitionFunction>) -> (out: String)
    ensures
        out@ == table_text(vec@),
{
    let ghost items = Seq::new(vec@.len(), |i: int| transition_text(vec@[i]));
    let mut out = String::new();
    out.append("{\n    ");
    let mut i: usize = 0;
    while i < vec.len()
        invariant
            i <= vec.len(),
            items == Seq::new(vec@.len(), |i: int| transition_text(vec@[i])),
            out@ == "{\n    "@ + join(items.take(i as int), ",\n    "@),
        decreases vec.len() - i,
    {
        proof {
            lemma_join_push(items.take(i as int), ",\n    "@, items[i as int]);
            assert(items.take(i as int).push(items[i as int]) == items.take(i + 1));
        }
        if i > 0 {
            out.append(",\n    ");
        }
        push_transition(&mut out, &vec[i]);
        i += 1;
        assert(out@ == "{\n    "@ + join(items.take(i as int), ",\n    "@));
    }
    assert(items.take(vec.len() as int) == items);
    out.append("\n  }");
    out
}

impl TransitionFunction {
    /// Returns how the entry is shown.
    pub fn describe(&self) -> (out: String)
        ensures
            out@ == transition_text(*self),
    {
        let mut out = String::new();
        push_transition(&mut out, self);
        assert(Seq::<char>::empty() + transition_text(*self) == transition_text(*self));
        out
    }
}

impl TuringDef {
    /// Returns how the definition is shown.
    pub fn describe(&self) -> (out: String)
        ensures
            out@ == definition_text(self@),
    {
        let states = fmt_state_count(self.state_count);
        let input = fmt_char_vec(&self.input_alphabet);
        let tape = fmt_char_vec(&self.tape_alphabet);
        let table = fmt_transition(&self.transition_function);
        let mut out = String::new();
        out.append("M = (\n  Q: ");
        out.append(states.as_str());
        out.append(",\n  Σ: ");
        out.append(input.as_str());
        out.append(",\n  Γ: ");
        out.append(tape.as_str());
        out.append(",\n  B: B,\n  q0: ");
        push_state_name(&mut out, self.start_state);
        out.append(",\n  q^: ");
        push_state_name(&mut out, self.end_state);
        out.append(",\n  δ: ");
        out.append(table.as_str());
        out.append("\n)");
        assert(out@ == definition_text(self@));
        out
    }
}

} // verus!
