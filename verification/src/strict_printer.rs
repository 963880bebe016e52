//! The strict text format of a definition: the five header lines, then one
//! five-token line for every normal entry. Fail entries are left out.

use crate::def::{TransitionFunction, TuringDef, TuringDefView};
use crate::text::{decimal, push_chars, push_decimal, to_chars};
use vstd::prelude::*;
use vstd::string::StringExecFns;

verus! {

/// The line, with its line feed, that the strict format holds for an entry:
/// state, input symbol, next state, symbol to write and movement, separated
/// by single spaces. A fail entry has no line.
pub open spec fn strict_line(t: TransitionFunction) -> Seq<char> {
    match t {
        TransitionFunction::Normal { state, input, next_state, write, move_dir } => decimal(
            state as nat,
        ) + seq![' ', input, ' '] + decimal(next_state as nat) + seq![
            ' ',
            write,
            ' ',
            move_dir.letter(),
            '\n',
        ],
        TransitionFunction::Fail { .. } => Seq::empty(),
    }
}

/// The lines that the strict format holds for a table.
pub open spec fn strict_transitions(table: Seq<TransitionFunction>) -> Seq<char>
    decreases table.len(),
{
    if table.len() == 0 {
        Seq::empty()
    } else {
        strict_line(table[0]) + strict_transitions(table.drop_first())
    }
}

/// The strict format of a definition: state count, input alphabet, tape
/// alphabet, start state and halt state, each on a line of its own, then the
/// lines of the table.
pub open spec fn strict_format(d: TuringDefView) -> Seq<char> {
    decimal(d.state_count as nat) + seq!['\n'] + d.input_alphabet + seq!['\n'] + d.tape_alphabet
        + seq!['\n'] + decimal(d.start_state as nat) + seq!['\n'] + decimal(d.end_state as nat)
        + seq!['\n'] + strict_transitions(d.transition_function)
}

/// The lines of a table followed by the lines of another are the lines of the
/// two tables joined.
pub proof fn lemma_strict_transitions_add(a: Seq<TransitionFunction>, b: Seq<TransitionFunction>)
    ensures
        strict_transitions(a + b) == strict_transitions(a) + strict_transitions(b),
    decreases a.len(),
{
    if a.len() == 0 {
        assert(a + b == b);
    } else {
        lemma_strict_transitions_add(a.drop_first(), b);
        assert((a + b).drop_first() == a.drop_first() + b);
        assert((a + b)[0] == a[0]);
    }
}

/// Appends the strict line of `t` to `out`.
pub fn push_strict_line(out: &mut String, t: &TransitionFunction)
    ensures
        final(out)@ == old(out)@ + strict_line(*t),
{
    match t {
        TransitionFunction::Normal { state, input, next_state, write, move_dir } => {
            push_decimal(out, *state);
            out.push(' ');
            out.push(*input);
            out.push(' ');
            push_decimal(out, *next_state);
            out.push(' ');
            out.push(*write);
            out.push(' ');
            out.push(move_dir.to_char());
            out.push('\n');
            assert(out@ == old(out)@ + strict_line(*t));
        },
        TransitionFunction::Fail { .. } => {
            assert(out@ == old(out)@ + strict_line(*t));
        },
    }
}

/// Returns the strict format of `def`.
pub fn def_to_strict_format(def: &TuringDef) -> (out: String)
    ensures
        out@ == strict_format(def@),
{
    let mut out = String::new();
    push_decimal(&mut out, def.state_count);
    out.push('\n');
    push_chars(&mut out, &def.input_alphabet);
    out.push('\n');
    push_chars(&mut out, &def.tape_alphabet);
    out.push('\n');
    push_decimal(&mut out, def.start_state);
    out.push('\n');
    push_decimal(&mut out, def.end_state);
    out.push('\n');
    let ghost header = out@;
    assert(header == decimal(def.state_count as nat) + seq!['\n'] + def.input_alphabet@ + seq![
        '\n',
    ] + def.tape_alphabet@ + seq!['\n'] + decimal(def.start_state as nat) + seq!['\n'] + decimal(
        def.end_state as nat,
    ) + seq!['\n']);
    let mut i: usize = 0;
    while i < def.transition_function.len()
        invariant
            i <= def.transition_function.len(),
            out@ == header + strict_transitions(def.transition_function@.take(i as int)),
        decreases def.transition_function.len() - i,
    {
        let ghost done = def.transition_function@.take(i as int);
        let ghost one = seq![def.transition_function@[i as int]];
        proof {
            lemma_strict_transitions_add(done, one);
            assert(done + one == def.transition_function@.take(i + 1));
            assert(strict_transitions(one.drop_first()) == Seq::<char>::empty());
            assert(strict_line(one[0]) + Seq::<char>::empty() == strict_line(one[0]));
            assert(strict_transitions(one) == strict_line(one[0]));
        }
        push_strict_line(&mut out, &def.transition_function[i]);
        i += 1;
    }
    assert(def.transition_function@.take(def.transition_function.len() as int)
        == def.transition_function@);
    out
}

/// The extension that marks a definition file.
pub open spec fn definition_extension() -> Seq<char> {
    seq!['T', 'M']
}

/// The file name of the strict form of a definition file with the given stem
/// and extension.
pub open spec fn strict_file_name(stem: Seq<char>, extension: Seq<char>) -> Seq<char> {
    stem + "_strict."@ + extension
}

/// Returns the file name under which the strict form of a definition file is
/// written, given the stem and the extension of that file's name, where it
/// has them. Only a file with the extension `TM` gets a name of its own: the
/// stem, `_strict.` and the extension. Any other file keeps its name, and the
/// result is `None`.
pub fn compute_strict_path(file_stem: Option<&str>, extension: Option<&str>) -> (name: Option<
    String,
>)
    ensures
        name is Some <==> file_stem is Some && extension is Some && extension->0@
            == definition_extension(),
        name matches Some(n) ==> n@ == strict_file_name(file_stem->0@, extension->0@),
{
    match (file_stem, extension) {
        (Some(stem), Some(ext)) => {
            let chars = to_chars(ext);
            if chars.len() == 2 && chars[0] == 'T' && chars[1] == 'M' {
                assert(ext@ == definition_extension());
                let mut n = String::new();
                n.append(stem);
                n.append("_strict.");
                n.append(ext);
                Some(n)
            } else {
                assert(ext@ != definition_extension()) by {
                    if ext@.len() == 2 {
                        assert(ext@[0] != definition_extension()[0] || ext@[1]
                            != definition_extension()[1]);
                    }
                }
                None
            }
        },
        _ => None,
    }
}

} // verus!
