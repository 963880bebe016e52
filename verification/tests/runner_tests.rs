use turing_machine::runner::render;
use turing_machine::{
    Move, StepOutcome, TransitionFunction, TuringDef, TuringRunner, TuringTapeError,
};

fn machine(table: Vec<TransitionFunction>) -> TuringDef {
    TuringDef {
        state_count: 3,
        input_alphabet: vec!['a', 'b'],
        tape_alphabet: vec!['a', 'b', 'B'],
        start_state: 1,
        end_state: 3,
        transition_function: table,
    }
}

#[test]
fn new_runner_starts_in_the_start_state() {
    let mut def = machine(vec![]);
    def.start_state = 2;
    let runner = TuringRunner::new(def.clone());
    assert_eq!(runner.state(), 2);
    assert!(!runner.is_halted());
    assert_eq!(runner.tape().head(), 0);
    assert_eq!(runner.tape().as_vec(), (vec!['B'], 0));
    assert_eq!(runner.def(), &def);
}

#[test]
fn runner_is_halted_when_start_is_the_halt_state() {
    let mut def = machine(vec![]);
    def.start_state = 3;
    assert!(TuringRunner::new(def).is_halted());
}

#[test]
fn load_tape_writes_from_address_zero() {
    let mut runner = TuringRunner::new(machine(vec![]));
    assert_eq!(runner.load_tape("abba"), Ok(()));
    assert_eq!(runner.tape().as_vec(), (vec!['a', 'b', 'b', 'a'], 0));
    assert_eq!(runner.tape().head(), 0);
    assert_eq!(runner.state(), 1);
}

#[test]
fn load_tape_rejects_before_any_write() {
    let mut runner = TuringRunner::new(machine(vec![]));
    assert_eq!(runner.load_tape("abxa"), Err(TuringTapeError(2, 'x')));
    assert_eq!(runner.tape().as_vec(), (vec!['B'], 0));
    assert_eq!(runner.load_tape("B"), Err(TuringTapeError(0, 'B')));
    assert_eq!(runner.load_tape("ab"), Ok(()));
    assert_eq!(runner.load_tape("bbxyz"), Err(TuringTapeError(2, 'x')));
    assert_eq!(runner.tape().as_vec(), (vec!['a', 'b'], 0));
}

#[test]
fn load_tape_of_nothing_changes_nothing() {
    let mut runner = TuringRunner::new(machine(vec![]));
    assert_eq!(runner.load_tape(""), Ok(()));
    assert_eq!(runner.tape().as_vec(), (vec!['B'], 0));
}

#[test]
fn load_tape_erases_where_the_input_holds_the_blank() {
    let mut def = machine(vec![]);
    def.input_alphabet = vec!['a', 'B'];
    let mut runner = TuringRunner::new(def);
    assert_eq!(runner.load_tape("aaa"), Ok(()));
    assert_eq!(runner.load_tape("aB"), Ok(()));
    assert_eq!(runner.tape().as_vec(), (vec!['a', 'B', 'a'], 0));
}

#[test]
fn missing_transition_changes_nothing() {
    let mut runner = TuringRunner::new(machine(vec![TransitionFunction::new(
        1,
        'a',
        2,
        'b',
        Move::Right,
    )]));
    assert_eq!(runner.load_tape("b"), Ok(()));
    assert_eq!(runner.step(), StepOutcome::Missing);
    assert_eq!(runner.state(), 1);
    assert_eq!(runner.tape().head(), 0);
    assert_eq!(runner.tape().as_vec(), (vec!['b'], 0));
    assert!(!runner.is_halted());
}

#[test]
fn normal_entry_writes_moves_and_changes_state() {
    let mut runner = TuringRunner::new(machine(vec![
        TransitionFunction::new(1, 'a', 2, 'b', Move::Left),
        TransitionFunction::new(2, 'B', 3, 'a', Move::Stay),
    ]));
    assert_eq!(runner.load_tape("a"), Ok(()));
    assert_eq!(runner.step(), StepOutcome::Applied);
    assert_eq!(runner.state(), 2);
    assert_eq!(runner.tape().head(), -1);
    assert_eq!(runner.tape().as_vec(), (vec!['B', 'b'], -1));
    assert_eq!(runner.step(), StepOutcome::Applied);
    assert_eq!(runner.state(), 3);
    assert_eq!(runner.tape().head(), -1);
    assert_eq!(runner.tape().as_vec(), (vec!['a', 'b'], -1));
    assert!(runner.is_halted());
}

#[test]
fn writing_the_blank_erases_the_cell() {
    let mut runner = TuringRunner::new(machine(vec![TransitionFunction::new(
        1,
        'a',
        1,
        'B',
        Move::Right,
    )]));
    assert_eq!(runner.load_tape("aa"), Ok(()));
    assert_eq!(runner.step(), StepOutcome::Applied);
    assert_eq!(runner.tape().as_vec(), (vec!['a'], 1));
    assert_eq!(runner.step(), StepOutcome::Applied);
    assert_eq!(runner.tape().as_vec(), (vec!['B'], 2));
}

#[test]
fn first_matching_entry_is_applied() {
    let mut runner = TuringRunner::new(machine(vec![
        TransitionFunction::new_fail(2, 'a'),
        TransitionFunction::new(1, 'a', 2, 'a', Move::Stay),
        TransitionFunction::new(1, 'a', 3, 'b', Move::Right),
    ]));
    assert_eq!(runner.load_tape("a"), Ok(()));
    assert_eq!(runner.step(), StepOutcome::Applied);
    assert_eq!(runner.state(), 2);
    assert_eq!(runner.step(), StepOutcome::Failed);
    assert_eq!(runner.state(), 3);
    assert_eq!(runner.tape().as_vec(), (vec!['a'], 0));
}

#[test]
fn step_in_the_halt_state_follows_the_table() {
    let mut runner = TuringRunner::new(machine(vec![TransitionFunction::new(
        3,
        'B',
        1,
        'a',
        Move::Right,
    )]));
    let mut def = runner.def().clone();
    def.start_state = 3;
    runner = TuringRunner::new(def);
    assert!(runner.is_halted());
    assert_eq!(runner.step(), StepOutcome::Applied);
    assert_eq!(runner.state(), 1);
    assert!(!runner.is_halted());
}

#[test]
fn can_step_holds_away_from_the_ends_of_the_address_range() {
    let mut runner = TuringRunner::new(machine(vec![
        TransitionFunction::new(1, 'B', 1, 'a', Move::Left),
        TransitionFunction::new(1, 'a', 1, 'a', Move::Right),
    ]));
    for _ in 0..5 {
        assert!(runner.can_step());
        runner.step();
    }
    assert_eq!(runner.tape().head(), -5);
    assert_eq!(runner.display(), "[q1](B)aaaaa");
}

#[test]
fn render_shows_every_cell() {
    assert_eq!(render(&vec!['0', '1'], 0, 0, 1), "[q1](0)1");
    assert_eq!(render(&vec!['0', '1'], 0, 1, 1), "0[q1](1)");
    assert_eq!(render(&vec!['a', 'B', 'c'], -1, 0, 255), "a[q255](B)c");
    assert_eq!(render(&vec!['a', 'B', 'c'], -3, -3, 0), "[q0](a)Bc");
    assert_eq!(render(&vec!['x'], 7, 7, 12), "[q12](x)");
    assert_eq!(render(&vec!['a', 'b'], 0, 5, 1), "ab");
    assert_eq!(render(&vec![], 0, 0, 1), "");
    assert_eq!(render(&vec!['a', 'b'], isize::MAX, isize::MIN, 1), "ab");
    assert_eq!(render(&vec!['a', 'b'], isize::MAX - 1, isize::MAX, 1), "a[q1](b)");
}
