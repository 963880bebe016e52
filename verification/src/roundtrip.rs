//! The strict format read back: parsing the strict format of a definition
//! yields the definition without its fail entries, and the strict format of
//! that is the text that was parsed.

use crate::def::{Move, TransitionFunction, TuringDefView};
use crate::parse::{
    is_significant, move_of, parse_definition, parse_lines, parse_normal, parse_transition,
    parse_transitions, significant, TuringParseError, TuringTransitionError,
};
use crate::strict_printer::{strict_format, strict_line, strict_transitions};
use crate::text::{
    decimal, is_digit, is_whitespace, lemma_decimal, lemma_lines_cons, lemma_parse_decimal,
    lemma_tokens_one, lemma_tokens_step, lines, strip_cr, tokens,
};
use vstd::prelude::*;

verus! {

/// Whether an alphabet survives being written on a line of its own: it is not
/// empty, does not begin with `#`, does not end with a carriage return and
/// holds no line feed.
pub open spec fn printable_alphabet(a: Seq<char>) -> bool {
    &&& a.len() > 0
    &&& a[0] != '#'
    &&& a.last() != '\r'
    &&& forall|i: int| 0 <= i < a.len() ==> a[i] != '\n'
}

/// Whether an entry survives being written as a line of tokens: the symbols
/// of a normal entry are not white space.
pub open spec fn printable_entry(t: TransitionFunction) -> bool {
    t matches TransitionFunction::Normal { input, write, .. } ==> !is_whitespace(input)
        && !is_whitespace(write)
}

/// The normal entries of a table, in order.
pub open spec fn normal_entries(table: Seq<TransitionFunction>) -> Seq<TransitionFunction>
    decreases table.len(),
{
    if table.len() == 0 {
        Seq::empty()
    } else if table[0] is Normal {
        seq![table[0]] + normal_entries(table.drop_first())
    } else {
        normal_entries(table.drop_first())
    }
}

/// The strict line of a normal entry without its line feed.
pub open spec fn strict_row(t: TransitionFunction) -> Seq<char> {
    match t {
        TransitionFunction::Normal { state, input, next_state, write, move_dir } => decimal(
            state as nat,
        ) + seq![' ', input, ' '] + decimal(next_state as nat) + seq![
            ' ',
            write,
            ' ',
            move_dir.letter(),
        ],
        TransitionFunction::Fail { .. } => Seq::empty(),
    }
}

/// The strict rows of the normal entries of a table, in order.
pub open spec fn strict_rows(table: Seq<TransitionFunction>) -> Seq<Seq<char>>
    decreases table.len(),
{
    if table.len() == 0 {
        Seq::empty()
    } else if table[0] is Normal {
        seq![strict_row(table[0])] + strict_rows(table.drop_first())
    } else {
        strict_rows(table.drop_first())
    }
}

impl TuringDefView {
    /// Whether the strict format of the definition can be read back: both
    /// alphabets and every entry are printable.
    pub open spec fn is_printable(self) -> bool {
        &&& printable_alphabet(self.input_alphabet)
        &&& printable_alphabet(self.tape_alphabet)
        &&& forall|i: int|
            0 <= i < self.transition_function.len() ==> printable_entry(
                #[trigger] self.transition_function[i],
            )
    }

    /// The definition without its fail entries.
    pub open spec fn without_fails(self) -> TuringDefView {
        TuringDefView { transition_function: normal_entries(self.transition_function), ..self }
    }
}

/// The movement that the letter of a movement denotes is that movement.
pub proof fn lemma_move_letter(m: Move)
    ensures
        move_of(seq![m.letter()]) == Some(m),
{
    let token = seq![m.letter()];
    match m {
        Move::Left => {},
        Move::Right => {
            assert(token[0] != seq!['L'][0]);
        },
        Move::Stay => {
            assert(token[0] != seq!['L'][0]);
            assert(token[0] != seq!['R'][0]);
        },
    }
}

/// The digits of a number are neither white space nor a line feed, and the
/// first of them is a digit.
pub proof fn lemma_decimal_is_token(n: nat)
    ensures
        decimal(n).len() > 0,
        is_digit(decimal(n)[0]),
        forall|i: int| 0 <= i < decimal(n).len() ==> !is_whitespace(#[trigger] decimal(n)[i]),
        forall|i: int| 0 <= i < decimal(n).len() ==> decimal(n)[i] != '\n',
        decimal(n).last() != '\r',
        decimal(n)[0] != '#',
{
    lemma_decimal(n);
    let s = decimal(n);
    assert forall|i: int| 0 <= i < s.len() implies !is_whitespace(#[trigger] s[i]) && s[i]
        != '\n' by {
        assert(is_digit(s[i]));
    }
    assert(is_digit(s[0]));
    assert(is_digit(s[s.len() - 1]));
}

/// The strict row of a printable normal entry is one line, is significant,
/// and is read back as the entry.
pub proof fn lemma_row(t: TransitionFunction)
    requires
        t is Normal,
        printable_entry(t),
    ensures
        strict_line(t) == strict_row(t) + seq!['\n'],
        forall|i: int| 0 <= i < strict_row(t).len() ==> strict_row(t)[i] != '\n',
        strip_cr(strict_row(t)) == strict_row(t),
        is_significant(strict_row(t)),
        parse_transition(strict_row(t)) == Ok::<TransitionFunction, TuringTransitionError>(t),
{
    match t {
        TransitionFunction::Fail { .. } => {},
        TransitionFunction::Normal { state, input, next_state, write, move_dir } => {
            let a = decimal(state as nat);
            let b = decimal(next_state as nat);
            let m = move_dir.letter();
            let row = strict_row(t);
            lemma_decimal_is_token(state as nat);
            lemma_decimal_is_token(next_state as nat);
            lemma_parse_decimal(state);
            lemma_parse_decimal(next_state);
            lemma_move_letter(move_dir);
            assert(!is_whitespace(m));
            assert(strict_line(t) == row + seq!['\n']);
            assert(row.len() == a.len() + b.len() + 7);
            assert forall|i: int| 0 <= i < row.len() implies row[i] != '\n' by {
                if i < a.len() {
                    assert(row[i] == a[i]);
                } else if i < a.len() + 3 {
                } else if i < a.len() + 3 + b.len() {
                    assert(row[i] == b[i - a.len() - 3]);
                } else {
                }
            }
            assert(row.last() == m);
            assert(row[0] == a[0]);
            // The tokens of the row.
            let r4 = seq![m];
            let r3 = seq![write] + seq![' '] + r4;
            let r2 = b + seq![' '] + r3;
            let r1 = seq![input] + seq![' '] + r2;
            assert(row == a + seq![' '] + r1);
            lemma_tokens_step(a, r1);
            lemma_tokens_step(seq![input], r2);
            lemma_tokens_step(b, r3);
            lemma_tokens_step(seq![write], r4);
            lemma_tokens_one(r4);
            let toks = tokens(row);
            assert(toks == seq![a] + (seq![seq![input]] + (seq![b] + (seq![seq![write]]
                + seq![r4]))));
            assert(toks.len() == 5);
            assert(toks[0] == a);
            assert(toks[1] == seq![input]);
            assert(toks[2] == b);
            assert(toks[3] == seq![write]);
            assert(toks[4] == r4);
            assert(parse_normal(toks) == Ok::<TransitionFunction, TuringTransitionError>(t));
        },
    }
}

/// The lines of the strict lines of a printable table are its strict rows.
pub proof fn lemma_lines_of_table(table: Seq<TransitionFunction>)
    requires
        forall|i: int| 0 <= i < table.len() ==> printable_entry(#[trigger] table[i]),
    ensures
        lines(strict_transitions(table)) == strict_rows(table),
    decreases table.len(),
{
    if table.len() > 0 {
        let rest = table.drop_first();
        assert forall|i: int| 0 <= i < rest.len() implies printable_entry(#[trigger] rest[i]) by {
            assert(rest[i] == table[i + 1]);
        }
        lemma_lines_of_table(rest);
        if table[0] is Normal {
            lemma_row(table[0]);
            lemma_lines_cons(strict_row(table[0]), strict_transitions(rest));
            assert(strict_transitions(table) == strict_row(table[0]) + seq!['\n']
                + strict_transitions(rest));
        } else {
            assert(strict_transitions(table) == strict_transitions(rest));
        }
    }
}

/// The strict rows of a printable table are read back as its normal entries.
pub proof fn lemma_parse_rows(table: Seq<TransitionFunction>, pos: nat)
    requires
        forall|i: int| 0 <= i < table.len() ==> printable_entry(#[trigger] table[i]),
    ensures
        parse_transitions(strict_rows(table), pos) == Ok::<Seq<TransitionFunction>, TuringParseError>(
            normal_entries(table),
        ),
        forall|i: int|
            0 <= i < strict_rows(table).len() ==> is_significant(#[trigger] strict_rows(table)[i]),
    decreases table.len(),
{
    if table.len() > 0 {
        let rest = table.drop_first();
        assert forall|i: int| 0 <= i < rest.len() implies printable_entry(#[trigger] rest[i]) by {
            assert(rest[i] == table[i + 1]);
        }
        if table[0] is Normal {
            lemma_row(table[0]);
            lemma_parse_rows(rest, pos + 1);
            let rows = strict_rows(table);
            assert(rows[0] == strict_row(table[0]));
            assert(rows.drop_first() == strict_rows(rest));
            assert forall|i: int| 0 <= i < rows.len() implies is_significant(#[trigger] rows[i]) by {
                if i > 0 {
                    assert(rows[i] == strict_rows(rest)[i - 1]);
                }
            }
        } else {
            lemma_parse_rows(rest, pos);
        }
    }
}

/// Where every line is significant, all of them are kept.
pub proof fn lemma_significant_all(ls: Seq<Seq<char>>)
    requires
        forall|i: int| 0 <= i < ls.len() ==> is_significant(#[trigger] ls[i]),
    ensures
        significant(ls) == ls,
    decreases ls.len(),
{
    if ls.len() > 0 {
        let rest = ls.drop_first();
        assert forall|i: int| 0 <= i < rest.len() implies is_significant(#[trigger] rest[i]) by {
            assert(rest[i] == ls[i + 1]);
        }
        lemma_significant_all(rest);
        assert(seq![ls[0]] + rest == ls);
    }
}

/// The strict lines of the normal entries of a table are those of the table.
pub proof fn lemma_strict_of_normal_entries(table: Seq<TransitionFunction>)
    ensures
        strict_transitions(normal_entries(table)) == strict_transitions(table),
    decreases table.len(),
{
    if table.len() > 0 {
        let rest = table.drop_first();
        lemma_strict_of_normal_entries(rest);
        if table[0] is Normal {
            let kept = normal_entries(table);
            assert(kept[0] == table[0]);
            assert(kept.drop_first() == normal_entries(rest));
        } else {
            assert(strict_line(table[0]) + strict_transitions(rest) == strict_transitions(rest));
        }
    }
}

/// The five header lines of a definition.
pub open spec fn header_lines(d: TuringDefView) -> Seq<Seq<char>> {
    seq![
        decimal(d.state_count as nat),
        d.input_alphabet,
        d.tape_alphabet,
        decimal(d.start_state as nat),
        decimal(d.end_state as nat),
    ]
}

/// Whether a line can be written before a line feed and read back as it is:
/// it holds no line feed and does not end with a carriage return.
pub open spec fn is_plain_line(line: Seq<char>) -> bool {
    &&& forall|i: int| 0 <= i < line.len() ==> line[i] != '\n'
    &&& line.len() == 0 || line.last() != '\r'
}

/// A plain line that is put before a text becomes its first line.
pub proof fn lemma_lines_prepend(line: Seq<char>, rest: Seq<char>, after: Seq<Seq<char>>)
    requires
        is_plain_line(line),
        lines(rest) == after,
    ensures
        lines(line + seq!['\n'] + rest) == seq![line] + after,
{
    lemma_lines_cons(line, rest);
}

/// Five lines, each followed by a line feed, and a text after them.
pub open spec fn five_lines_then(h: Seq<Seq<char>>, t: Seq<char>) -> Seq<char> {
    h[0] + seq!['\n'] + (h[1] + seq!['\n'] + (h[2] + seq!['\n'] + (h[3] + seq!['\n'] + (h[4]
        + seq!['\n'] + t))))
}

/// Five plain lines that are put before a text are its first five lines.
pub proof fn lemma_five_lines(h: Seq<Seq<char>>, t: Seq<char>)
    requires
        h.len() == 5,
        forall|i: int| 0 <= i < 5 ==> is_plain_line(#[trigger] h[i]),
    ensures
        lines(five_lines_then(h, t)) == h + lines(t),
{
    let nl = seq!['\n'];
    let r4 = h[4] + nl + t;
    let r3 = h[3] + nl + r4;
    let r2 = h[2] + nl + r3;
    let r1 = h[1] + nl + r2;
    let l4 = seq![h[4]] + lines(t);
    let l3 = seq![h[3]] + l4;
    let l2 = seq![h[2]] + l3;
    let l1 = seq![h[1]] + l2;
    lemma_lines_prepend(h[4], t, lines(t));
    lemma_lines_prepend(h[3], r4, l4);
    lemma_lines_prepend(h[2], r3, l3);
    lemma_lines_prepend(h[1], r2, l2);
    lemma_lines_prepend(h[0], r1, l1);
    assert(seq![h[0]] + l1 == h + lines(t));
}

/// The strict format is its five header lines, each followed by a line feed,
/// and then the strict lines of the table.
pub proof fn lemma_format_shape(d: TuringDefView)
    ensures
        strict_format(d) == five_lines_then(
            header_lines(d),
            strict_transitions(d.transition_function),
        ),
{
}

/// The header lines of a printable definition are plain lines.
pub proof fn lemma_header_is_plain(d: TuringDefView)
    requires
        d.is_printable(),
    ensures
        header_lines(d).len() == 5,
        forall|i: int| 0 <= i < 5 ==> is_plain_line(#[trigger] header_lines(d)[i]),
{
    lemma_decimal_is_token(d.state_count as nat);
    lemma_decimal_is_token(d.start_state as nat);
    lemma_decimal_is_token(d.end_state as nat);
    let h = header_lines(d);
    assert(is_plain_line(h[0]));
    assert(is_plain_line(h[1]));
    assert(is_plain_line(h[2]));
    assert(is_plain_line(h[3]));
    assert(is_plain_line(h[4]));
}

/// The lines of the strict format of a printable definition are its header
/// lines and the strict rows of its table.
pub proof fn lemma_lines_of_format(d: TuringDefView)
    requires
        d.is_printable(),
    ensures
        lines(strict_format(d)) == header_lines(d) + strict_rows(d.transition_function),
{
    lemma_header_is_plain(d);
    lemma_format_shape(d);
    lemma_five_lines(header_lines(d), strict_transitions(d.transition_function));
    lemma_lines_of_table(d.transition_function);
}

/// The header lines of a printable definition and the strict rows of its
/// table are all significant.
pub proof fn lemma_format_lines_significant(d: TuringDefView)
    requires
        d.is_printable(),
    ensures
        significant(header_lines(d) + strict_rows(d.transition_function)) == header_lines(d)
            + strict_rows(d.transition_function),
{
    let rows = strict_rows(d.transition_function);
    let all = header_lines(d) + rows;
    lemma_decimal_is_token(d.state_count as nat);
    lemma_decimal_is_token(d.start_state as nat);
    lemma_decimal_is_token(d.end_state as nat);
    lemma_parse_rows(d.transition_function, 0);
    assert forall|i: int| 0 <= i < all.len() implies is_significant(#[trigger] all[i]) by {
        if i >= 5 {
            assert(all[i] == rows[i - 5]);
        }
    }
    lemma_significant_all(all);
}

/// Parsing the strict format of a printable definition yields the definition
/// without its fail entries, and the strict format of that is again the text
/// that was parsed: fail entries never come back. This holds in particular of
/// every printable definition that passes the totality check.
pub proof fn lemma_strict_round_trip(d: TuringDefView)
    requires
        d.is_printable(),
    ensures
        parse_definition(strict_format(d)) == Ok::<TuringDefView, TuringParseError>(
            d.without_fails(),
        ),
        strict_format(d.without_fails()) == strict_format(d),
{
    let rows = strict_rows(d.transition_function);
    let all = header_lines(d) + rows;
    lemma_lines_of_format(d);
    lemma_format_lines_significant(d);
    assert(parse_lines(all) == Ok::<TuringDefView, TuringParseError>(d.without_fails())) by {
        lemma_parse_decimal(d.state_count);
        lemma_parse_decimal(d.start_state);
        lemma_parse_decimal(d.end_state);
        lemma_parse_rows(d.transition_function, 0);
        assert(all.skip(5) == rows);
        assert(all[0] == decimal(d.state_count as nat));
        assert(all[1] == d.input_alphabet);
        assert(all[2] == d.tape_alphabet);
        assert(all[3] == decimal(d.start_state as nat));
        assert(all[4] == decimal(d.end_state as nat));
    }
    lemma_strict_of_normal_entries(d.transition_function);
}

} // verus!
