use turing_machine::{Move, Tape, BLANK};

#[test]
fn new_tape_is_blank_with_head_at_zero() {
    let tape = Tape::new();
    assert_eq!(tape.head(), 0);
    assert_eq!(tape.get(), 'B');
    assert_eq!(tape.get(), BLANK);
    assert_eq!(tape.as_vec(), (vec!['B'], 0));
}

#[test]
fn write_then_read() {
    let mut tape = Tape::new();
    tape.set('x');
    assert_eq!(tape.get(), 'x');
    tape.set('y');
    assert_eq!(tape.get(), 'y');
    assert_eq!(tape.cell(0), 'y');
    assert_eq!(tape.cell(1), 'B');
    assert_eq!(tape.cell(-1), 'B');
}

#[test]
fn moves_change_the_head_by_one() {
    let mut tape = Tape::new();
    tape.apply_move(&Move::Left);
    assert_eq!(tape.head(), -1);
    tape.apply_move(&Move::Stay);
    assert_eq!(tape.head(), -1);
    tape.apply_move(&Move::Right);
    tape.apply_move(&Move::Right);
    assert_eq!(tape.head(), 1);
}

#[test]
fn writing_blank_reads_blank_and_erases_the_address() {
    let mut tape = Tape::new();
    tape.insert(5, 'x');
    assert_eq!(tape.as_vec(), (vec!['B', 'B', 'B', 'B', 'B', 'x'], 0));
    tape.insert(5, 'B');
    assert_eq!(tape.cell(5), 'B');
    assert_eq!(tape.as_vec(), (vec!['B'], 0));
}

#[test]
fn write_then_erase_is_as_never_written() {
    let mut tape = Tape::new();
    tape.seed(&vec!['a', 'b'], 0);
    let before = tape.as_vec();
    tape.apply_move(&Move::Left);
    tape.apply_move(&Move::Left);
    tape.apply_move(&Move::Left);
    let far = tape.as_vec();
    assert_eq!(far, (vec!['B', 'B', 'B', 'a', 'b'], -3));
    tape.insert(-7, 'x');
    assert_eq!(tape.as_vec().1, -7);
    tape.insert(-7, 'B');
    assert_eq!(tape.as_vec(), far);
    tape.apply_move(&Move::Right);
    tape.apply_move(&Move::Right);
    tape.apply_move(&Move::Right);
    assert_eq!(tape.as_vec(), before);
}

#[test]
fn erasing_under_the_head_keeps_the_head_in_the_window() {
    let mut tape = Tape::new();
    tape.set('x');
    tape.set('B');
    assert_eq!(tape.get(), 'B');
    assert_eq!(tape.as_vec(), (vec!['B'], 0));
}

#[test]
fn seed_writes_consecutive_addresses() {
    let mut tape = Tape::new();
    tape.seed(&vec!['a', 'b', 'c'], -1);
    assert_eq!(tape.cell(-1), 'a');
    assert_eq!(tape.cell(0), 'b');
    assert_eq!(tape.cell(1), 'c');
    assert_eq!(tape.head(), 0);
    assert_eq!(tape.as_vec(), (vec!['a', 'b', 'c'], -1));
}

#[test]
fn seed_of_blank_erases() {
    let mut tape = Tape::new();
    tape.seed(&vec!['a', 'b', 'c'], 0);
    tape.seed(&vec!['B', 'x'], 1);
    assert_eq!(tape.as_vec(), (vec!['a', 'B', 'x'], 0));
    tape.seed(&vec![], 0);
    assert_eq!(tape.as_vec(), (vec!['a', 'B', 'x'], 0));
}

#[test]
fn window_spans_written_addresses_and_head() {
    let mut tape = Tape::new();
    tape.insert(2, 'x');
    tape.insert(4, 'y');
    assert_eq!(tape.as_vec(), (vec!['B', 'B', 'x', 'B', 'y'], 0));
    for _ in 0..6 {
        tape.apply_move(&Move::Right);
    }
    assert_eq!(tape.as_vec(), (vec!['x', 'B', 'y', 'B', 'B'], 2));
    for _ in 0..3 {
        tape.apply_move(&Move::Left);
    }
    assert_eq!(tape.as_vec(), (vec!['x', 'B', 'y'], 2));
    tape.insert(-2, 'z');
    assert_eq!(tape.as_vec(), (vec!['z', 'B', 'B', 'B', 'x', 'B', 'y'], -2));
}

#[test]
fn window_at_the_ends_of_the_address_range() {
    let mut tape = Tape::new();
    tape.insert(isize::MAX, 'x');
    tape.insert(isize::MAX - 1, 'y');
    tape.insert(isize::MIN, 'z');
    tape.insert(isize::MIN, 'B');
    assert_eq!(tape.cell(isize::MAX), 'x');
    assert_eq!(tape.cell(isize::MIN), 'B');
}
