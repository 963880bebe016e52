use turing_machine::{Move, TransitionFunction, TuringDef, TuringVerifyError};

fn def(
    state_count: u8,
    tape_alphabet: &str,
    end_state: u8,
    transition_function: Vec<TransitionFunction>,
) -> TuringDef {
    TuringDef {
        state_count,
        input_alphabet: vec![],
        tape_alphabet: tape_alphabet.chars().collect(),
        start_state: 1,
        end_state,
        transition_function,
    }
}

fn normal(state: u8, input: char) -> TransitionFunction {
    TransitionFunction::new(state, input, 1, input, Move::Stay)
}

#[test]
fn total_definition_passes() {
    let d = def(2, "01", 2, vec![normal(1, '0'), TransitionFunction::new_fail(1, '1')]);
    assert_eq!(d.verify(), Ok(()));
}

#[test]
fn halt_state_needs_no_transitions() {
    let d = def(3, "a", 2, vec![normal(1, 'a'), normal(3, 'a')]);
    assert_eq!(d.verify(), Ok(()));
    let d = def(1, "ab", 1, vec![]);
    assert_eq!(d.verify(), Ok(()));
}

#[test]
fn highest_state_is_checked() {
    let d = def(3, "a", 2, vec![normal(1, 'a')]);
    assert_eq!(d.verify(), Err(TuringVerifyError(3, 'a')));
    let d = def(2, "a", 1, vec![]);
    assert_eq!(d.verify(), Err(TuringVerifyError(2, 'a')));
}

#[test]
fn reports_the_first_missing_pair() {
    let d = def(3, "abc", 3, vec![normal(1, 'a'), normal(1, 'c'), normal(2, 'b')]);
    assert_eq!(d.verify(), Err(TuringVerifyError(1, 'b')));
    let d = def(3, "abc", 3, vec![normal(1, 'c'), normal(1, 'b'), normal(1, 'a'), normal(2, 'a')]);
    assert_eq!(d.verify(), Err(TuringVerifyError(2, 'b')));
}

#[test]
fn symbols_are_taken_in_the_order_of_the_alphabet() {
    let d = def(2, "zyx", 2, vec![]);
    assert_eq!(d.verify(), Err(TuringVerifyError(1, 'z')));
    let d = def(2, "zyx", 2, vec![normal(1, 'z'), normal(1, 'x')]);
    assert_eq!(d.verify(), Err(TuringVerifyError(1, 'y')));
}

#[test]
fn verify_gives_the_same_answer_every_time() {
    let d = def(4, "01B", 4, vec![normal(1, '0'), normal(1, '1'), normal(1, 'B'), normal(2, '0')]);
    let first = d.verify();
    assert_eq!(first, Err(TuringVerifyError(2, '1')));
    assert_eq!(d.verify(), first);
    assert_eq!(d.clone().verify(), first);
}

#[test]
fn blank_is_checked_only_where_the_alphabet_holds_it() {
    let d = def(2, "0", 2, vec![normal(1, '0')]);
    assert_eq!(d.verify(), Ok(()));
    let d = def(2, "0B", 2, vec![normal(1, '0')]);
    assert_eq!(d.verify(), Err(TuringVerifyError(1, 'B')));
}

#[test]
fn empty_machine_and_empty_alphabet_pass() {
    assert_eq!(def(0, "ab", 0, vec![]).verify(), Ok(()));
    assert_eq!(def(5, "", 5, vec![]).verify(), Ok(()));
}

#[test]
fn all_255_states_are_reached() {
    let mut table = Vec::new();
    for s in 1..=254u8 {
        table.push(normal(s, 'a'));
    }
    let d = def(255, "a", 0, table.clone());
    assert_eq!(d.verify(), Err(TuringVerifyError(255, 'a')));
    table.push(normal(255, 'a'));
    assert_eq!(def(255, "a", 0, table).verify(), Ok(()));
}

#[test]
fn first_entry_wins_among_duplicates() {
    let d = TuringDef {
        state_count: 2,
        input_alphabet: vec!['a'],
        tape_alphabet: vec!['a'],
        start_state: 1,
        end_state: 2,
        transition_function: vec![
            TransitionFunction::new(1, 'a', 1, 'x', Move::Right),
            TransitionFunction::new(1, 'a', 2, 'y', Move::Left),
        ],
    };
    assert_eq!(d.find_transition(1, 'a'), Some(TransitionFunction::new(1, 'a', 1, 'x', Move::Right)));
    assert_eq!(d.find_transition(2, 'a'), None);
    assert_eq!(d.find_transition(1, 'b'), None);
}
