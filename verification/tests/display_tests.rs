use turing_machine::display::{fmt_char_vec, fmt_state_count, fmt_transition};
use turing_machine::{Move, TransitionFunction, TuringDef};

#[test]
fn move_letters() {
    assert_eq!(Move::Left.to_char(), 'L');
    assert_eq!(Move::Right.to_char(), 'R');
    assert_eq!(Move::Stay.to_char(), 'N');
}

#[test]
fn state_set_lists_every_state() {
    assert_eq!(fmt_state_count(0), "{}");
    assert_eq!(fmt_state_count(1), "{q1}");
    assert_eq!(fmt_state_count(3), "{q1, q2, q3}");
    assert_eq!(fmt_state_count(11), "{q1, q2, q3, q4, q5, q6, q7, q8, q9, q10, q11}");
    assert!(fmt_state_count(255).ends_with(", q254, q255}"));
}

#[test]
fn char_set_lists_every_symbol() {
    assert_eq!(fmt_char_vec(&vec![]), "{}");
    assert_eq!(fmt_char_vec(&vec!['a']), "{a}");
    assert_eq!(fmt_char_vec(&vec!['0', '1', 'B']), "{0, 1, B}");
}

#[test]
fn transition_is_shown_as_a_mapping() {
    assert_eq!(
        TransitionFunction::new(1, 'a', 20, 'b', Move::Right).describe(),
        "δ(q1, a) = (q20, b, R)"
    );
    assert_eq!(TransitionFunction::new_fail(3, 'x').describe(), "δ(q3, x) = (q3, x, N)");
}

#[test]
fn table_is_shown_one_entry_per_line() {
    assert_eq!(fmt_transition(&vec![]), "{\n    \n  }");
    assert_eq!(
        fmt_transition(&vec![
            TransitionFunction::new(1, '0', 1, '1', Move::Left),
            TransitionFunction::new(1, '1', 2, '1', Move::Stay),
        ]),
        "{\n    δ(q1, 0) = (q1, 1, L),\n    δ(q1, 1) = (q2, 1, N)\n  }"
    );
}

#[test]
fn definition_is_shown_as_a_tuple() {
    let def = TuringDef {
        state_count: 2,
        input_alphabet: vec!['0', '1'],
        tape_alphabet: vec!['0', '1', 'B'],
        start_state: 1,
        end_state: 2,
        transition_function: vec![
            TransitionFunction::new(1, '0', 1, '1', Move::Right),
            TransitionFunction::new(1, '1', 2, '1', Move::Stay),
        ],
    };
    assert_eq!(
        def.describe(),
        "M = (\n  Q: {q1, q2},\n  Σ: {0, 1},\n  Γ: {0, 1, B},\n  B: B,\n  q0: q1,\n  q^: q2,\n  δ: {\n    δ(q1, 0) = (q1, 1, R),\n    δ(q1, 1) = (q2, 1, N)\n  }\n)"
    );
}

#[test]
fn entry_accessors() {
    let normal = TransitionFunction::new(4, 'a', 5, 'b', Move::Left);
    let fail = TransitionFunction::new_fail(6, 'c');
    assert_eq!((normal.state(), normal.input(), normal.is_fail()), (4, 'a', false));
    assert_eq!((fail.state(), fail.input(), fail.is_fail()), (6, 'c', true));
    assert_eq!(
        normal,
        TransitionFunction::Normal { state: 4, input: 'a', next_state: 5, write: 'b', move_dir: Move::Left }
    );
    assert_eq!(fail, TransitionFunction::Fail { state: 6, input: 'c' });
}
