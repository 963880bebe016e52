use turing_machine::text::{is_space, read_u8, split_lines, split_tokens, to_chars};
use turing_machine::{
    Move, TransitionFunction, TuringDef, TuringParseError, TuringTransitionError,
};

fn chars(s: &str) -> Vec<char> {
    s.chars().collect()
}

fn transition_error(pos: usize, e: TuringTransitionError) -> TuringParseError {
    TuringParseError::InvalidTransitionFunction(pos, e)
}

#[test]
fn parses_a_complete_definition() {
    let def = TuringDef::parse("2\n01\n01B\n1\n2\n1 0 1 1 R\n1 1 2 1 N\n1 B -\n").unwrap();
    assert_eq!(
        def,
        TuringDef {
            state_count: 2,
            input_alphabet: vec!['0', '1'],
            tape_alphabet: vec!['0', '1', 'B'],
            start_state: 1,
            end_state: 2,
            transition_function: vec![
                TransitionFunction::Normal {
                    state: 1,
                    input: '0',
                    next_state: 1,
                    write: '1',
                    move_dir: Move::Right
                },
                TransitionFunction::Normal {
                    state: 1,
                    input: '1',
                    next_state: 2,
                    write: '1',
                    move_dir: Move::Stay
                },
                TransitionFunction::Fail { state: 1, input: 'B' },
            ],
        }
    );
}

#[test]
fn drops_comments_and_empty_lines() {
    let text = "# a machine\n\n2\n# input\n01\n\n\n01\n1\n#end\n2\n\n1 0 2 0 L\n# done\n";
    let def = TuringDef::parse(text).unwrap();
    assert_eq!(def.state_count, 2);
    assert_eq!(def.input_alphabet, vec!['0', '1']);
    assert_eq!(def.tape_alphabet, vec!['0', '1']);
    assert_eq!(def.start_state, 1);
    assert_eq!(def.end_state, 2);
    assert_eq!(
        def.transition_function,
        vec![TransitionFunction::new(1, '0', 2, '0', Move::Left)]
    );
}

#[test]
fn accepts_carriage_return_line_feed() {
    let def = TuringDef::parse("2\r\n01\r\n01\r\n1\r\n2\r\n\r\n1 0 2 0 R\r\n").unwrap();
    assert_eq!(def.input_alphabet, vec!['0', '1']);
    assert_eq!(def.transition_function.len(), 1);
}

#[test]
fn parses_without_transitions_and_without_final_line_feed() {
    let def = TuringDef::parse("1\na\nb\n1\n1").unwrap();
    assert_eq!(def.state_count, 1);
    assert_eq!(def.transition_function, vec![]);
}

#[test]
fn rejects_fewer_than_five_lines() {
    assert_eq!(TuringDef::parse(""), Err(TuringParseError::InvalidArgumentCount));
    assert_eq!(TuringDef::parse("2\n01\n01\n1\n"), Err(TuringParseError::InvalidArgumentCount));
    assert_eq!(
        TuringDef::parse("2\n01\n#01\n1\n2\n"),
        Err(TuringParseError::InvalidArgumentCount)
    );
}

#[test]
fn rejects_a_bad_state_count() {
    assert_eq!(TuringDef::parse("x\n01\n01\n1\n2\n"), Err(TuringParseError::InvalidStateCount));
    assert_eq!(TuringDef::parse("256\n01\n01\n1\n2\n"), Err(TuringParseError::InvalidStateCount));
    assert_eq!(TuringDef::parse(" 2\n01\n01\n1\n2\n"), Err(TuringParseError::InvalidStateCount));
    assert_eq!(TuringDef::parse("-2\n01\n01\n1\n2\n"), Err(TuringParseError::InvalidStateCount));
}

#[test]
fn rejects_a_bad_start_state() {
    assert_eq!(TuringDef::parse("2\n01\n01\nq1\n2\n"), Err(TuringParseError::InvalidStartState));
}

#[test]
fn rejects_a_bad_end_state() {
    assert_eq!(TuringDef::parse("2\n01\n01\n1\n2 \n"), Err(TuringParseError::InvalidEndState));
}

#[test]
fn reports_header_errors_in_order() {
    assert_eq!(TuringDef::parse("x\n01\n01\ny\nz\n"), Err(TuringParseError::InvalidStateCount));
    assert_eq!(TuringDef::parse("1\n01\n01\ny\nz\n"), Err(TuringParseError::InvalidStartState));
    assert_eq!(
        TuringDef::parse("1\n01\n01\ny\n1\n1 0 -\nbad\n"),
        Err(TuringParseError::InvalidStartState)
    );
}

#[test]
fn rejects_a_wrong_token_count() {
    let e = transition_error(1, TuringTransitionError::InvalidArgumentCount);
    assert_eq!(TuringDef::parse("2\n01\n01\n1\n2\n1 0 1 1 R\n1 0 1 1\n"), Err(e));
    assert_eq!(TuringDef::parse("2\n01\n01\n1\n2\n1 0 -\n   \n"), Err(e));
    assert_eq!(TuringDef::parse("2\n01\n01\n1\n2\n1 0 -\n1 0 1 1 R x\n"), Err(e));
}

#[test]
fn rejects_a_bad_state_in_a_transition() {
    let e = transition_error(0, TuringTransitionError::InvalidState);
    assert_eq!(TuringDef::parse("2\n01\n01\n1\n2\nq1 0 1 1 R\n"), Err(e));
    assert_eq!(TuringDef::parse("2\n01\n01\n1\n2\n300 0 -\n"), Err(e));
}

#[test]
fn rejects_a_bad_next_state() {
    let e = transition_error(2, TuringTransitionError::InvalidNextState);
    assert_eq!(TuringDef::parse("2\n01\n01\n1\n2\n1 0 -\n1 1 -\n1 0 x 1 R\n"), Err(e));
}

#[test]
fn rejects_a_bad_move() {
    let e = transition_error(0, TuringTransitionError::InvalidMove);
    assert_eq!(TuringDef::parse("2\n01\n01\n1\n2\n1 0 1 1 S\n"), Err(e));
    assert_eq!(TuringDef::parse("2\n01\n01\n1\n2\n1 0 1 1 LR\n"), Err(e));
    assert_eq!(TuringDef::parse("2\n01\n01\n1\n2\n1 0 1 1 l\n"), Err(e));
}

#[test]
fn rejects_a_bad_fail_marker() {
    let e = transition_error(0, TuringTransitionError::InvalidFailState);
    assert_eq!(TuringDef::parse("2\n01\n01\n1\n2\n1 0 x\n"), Err(e));
    assert_eq!(TuringDef::parse("2\n01\n01\n1\n2\n1 0 -x\n"), Err(e));
    assert_eq!(TuringDef::parse("2\n01\n01\n1\n2\n1 0 --\n"), Err(e));
}

#[test]
fn reports_the_first_bad_transition() {
    assert_eq!(
        TuringDef::parse("2\n01\n01\n1\n2\n1 0 1 1 R\n1 0 1 1 X\nz\n"),
        Err(transition_error(1, TuringTransitionError::InvalidMove))
    );
    assert_eq!(
        TuringDef::parse("2\n01\n01\n1\n2\nx 0 y 1 X\n"),
        Err(transition_error(0, TuringTransitionError::InvalidState))
    );
}

#[test]
fn counts_transition_lines_without_comments() {
    assert_eq!(
        TuringDef::parse("# c\n2\n01\n01\n1\n2\n# c\n1 0 1 1 R\n\n# c\n1 0\n"),
        Err(transition_error(1, TuringTransitionError::InvalidArgumentCount))
    );
}

#[test]
fn takes_the_first_character_of_a_symbol_token() {
    assert_eq!(
        TransitionFunction::parse(0, "1 ab 2 cd R"),
        Ok(TransitionFunction::new(1, 'a', 2, 'c', Move::Right))
    );
    assert_eq!(TransitionFunction::parse(7, "1 xy -"), Ok(TransitionFunction::new_fail(1, 'x')));
}

#[test]
fn transition_parse_reports_its_position() {
    assert_eq!(
        TransitionFunction::parse(5, "1 0 1"),
        Err(transition_error(5, TuringTransitionError::InvalidFailState))
    );
    assert_eq!(
        TransitionFunction::parse(9, ""),
        Err(transition_error(9, TuringTransitionError::InvalidArgumentCount))
    );
}

#[test]
fn tokens_are_separated_by_any_white_space() {
    assert_eq!(
        TransitionFunction::parse(0, "\t1  0\u{a0}2\u{3000}1   L  "),
        Ok(TransitionFunction::new(1, '0', 2, '1', Move::Left))
    );
}

#[test]
fn numbers_may_carry_a_plus_sign_and_leading_zeros() {
    assert_eq!(read_u8(&chars("+5")), Some(5));
    assert_eq!(read_u8(&chars("007")), Some(7));
    assert_eq!(read_u8(&chars("255")), Some(255));
    assert_eq!(read_u8(&chars("0")), Some(0));
    assert_eq!(read_u8(&chars("256")), None);
    assert_eq!(read_u8(&chars("99999999999999999999999999")), None);
    assert_eq!(read_u8(&chars("")), None);
    assert_eq!(read_u8(&chars("+")), None);
    assert_eq!(read_u8(&chars("++1")), None);
    assert_eq!(read_u8(&chars("-1")), None);
    assert_eq!(read_u8(&chars("1a")), None);
    assert_eq!(read_u8(&chars("١")), None);
}

#[test]
fn read_u8_agrees_with_the_standard_library() {
    for text in ["0", "9", "10", "+0", "+255", "+256", "0255", "00256", "25 ", " 25", "2_5", ""] {
        assert_eq!(read_u8(&chars(text)), text.parse::<u8>().ok());
    }
}

#[test]
fn lines_end_at_line_feeds() {
    assert_eq!(split_lines(&chars("")), Vec::<Vec<char>>::new());
    assert_eq!(split_lines(&chars("a")), vec![chars("a")]);
    assert_eq!(split_lines(&chars("a\n")), vec![chars("a")]);
    assert_eq!(split_lines(&chars("a\n\n")), vec![chars("a"), chars("")]);
    assert_eq!(split_lines(&chars("\n")), vec![chars("")]);
    assert_eq!(split_lines(&chars("a\r\nb")), vec![chars("a"), chars("b")]);
    assert_eq!(split_lines(&chars("a\rb\r")), vec![chars("a\rb\r")]);
    assert_eq!(split_lines(&chars("a\r\r\n")), vec![chars("a\r")]);
}

#[test]
fn split_lines_agrees_with_the_standard_library() {
    for text in ["", "\n", "\r\n", "a\nb\r\nc", "a\n\nb\n", "\r", "x\r\n\r\ny\r", "\n\n\n"] {
        let expected: Vec<Vec<char>> = text.lines().map(chars).collect();
        assert_eq!(split_lines(&chars(text)), expected);
    }
}

#[test]
fn split_tokens_agrees_with_the_standard_library() {
    for text in ["", " ", "a", " a ", "a b", "a\tb\u{2003}c", "\u{85}x\u{1680}", "1 0 1 1 R"] {
        let expected: Vec<Vec<char>> = text.split_whitespace().map(chars).collect();
        assert_eq!(split_tokens(&chars(text)), expected);
    }
}

#[test]
fn white_space_agrees_with_the_standard_library() {
    let mut c = 0u32;
    while c <= 0x10ffff {
        if let Some(ch) = char::from_u32(c) {
            assert_eq!(is_space(ch), ch.is_whitespace());
        }
        c += 1;
    }
}

#[test]
fn to_chars_keeps_every_character() {
    assert_eq!(to_chars("aΣ\u{10ffff}\n"), vec!['a', 'Σ', '\u{10ffff}', '\n']);
    assert_eq!(to_chars(""), Vec::<char>::new());
}
