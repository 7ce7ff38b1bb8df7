use bf_interp::{parse, Inst, ParseError, Program};

#[test]
fn parse_empty_input_is_the_empty_program() {
    assert_eq!(parse(b""), Ok(vec![]));
}

#[test]
fn parse_simple_instructions_in_order() {
    assert_eq!(
        parse(b"+-><."),
        Ok(vec![
            Inst::Increment,
            Inst::Decrement,
            Inst::MoveRight,
            Inst::MoveLeft,
            Inst::Output,
        ])
    );
}

#[test]
fn parse_increments_move_output() {
    assert_eq!(
        parse(b"++>+."),
        Ok(vec![
            Inst::Increment,
            Inst::Increment,
            Inst::MoveRight,
            Inst::Increment,
            Inst::Output,
        ])
    );
}

#[test]
fn parse_loop_holds_its_body_in_order() {
    assert_eq!(
        parse(b"+[>+<-]"),
        Ok(vec![
            Inst::Increment,
            Inst::Loop(vec![
                Inst::MoveRight,
                Inst::Increment,
                Inst::MoveLeft,
                Inst::Decrement,
            ]),
        ])
    );
}

#[test]
fn parse_empty_loop() {
    assert_eq!(parse(b"[]"), Ok(vec![Inst::Loop(vec![])]));
}

#[test]
fn parse_nested_loops() {
    assert_eq!(
        parse(b"+[[-]>[.]<]-"),
        Ok(vec![
            Inst::Increment,
            Inst::Loop(vec![
                Inst::Loop(vec![Inst::Decrement]),
                Inst::MoveRight,
                Inst::Loop(vec![Inst::Output]),
                Inst::MoveLeft,
            ]),
            Inst::Decrement,
        ])
    );
}

#[test]
fn parse_deeply_nested_loops() {
    assert_eq!(
        parse(b"[[[+]]]"),
        Ok(vec![Inst::Loop(vec![Inst::Loop(vec![Inst::Loop(vec![
            Inst::Increment
        ])])])])
    );
}

#[test]
fn parse_loops_side_by_side() {
    assert_eq!(
        parse(b"[+][-]"),
        Ok(vec![
            Inst::Loop(vec![Inst::Increment]),
            Inst::Loop(vec![Inst::Decrement]),
        ])
    );
}

#[test]
fn parse_unmatched_closing_bracket() {
    assert_eq!(parse(b"]"), Err(ParseError::UnmatchedClosingBracket));
}

#[test]
fn parse_unmatched_opening_bracket() {
    assert_eq!(parse(b"["), Err(ParseError::UnmatchedOpeningBracket));
}

#[test]
fn parse_closing_bracket_after_balanced_loop() {
    assert_eq!(parse(b"+[-]]"), Err(ParseError::UnmatchedClosingBracket));
}

#[test]
fn parse_open_loop_is_not_dropped() {
    assert_eq!(parse(b"+[>+"), Err(ParseError::UnmatchedOpeningBracket));
    assert_eq!(parse(b"[[]"), Err(ParseError::UnmatchedOpeningBracket));
}

#[test]
fn parse_first_error_is_the_closing_bracket() {
    assert_eq!(parse(b"]["), Err(ParseError::UnmatchedClosingBracket));
    assert_eq!(parse(b"[]]["), Err(ParseError::UnmatchedClosingBracket));
    assert_eq!(parse(b"[+]]+[["), Err(ParseError::UnmatchedClosingBracket));
}

#[test]
fn parse_comments_are_transparent() {
    let with_comments = b"set cell: ++ \n go right > and add + (print it) . bye";
    assert_eq!(parse(with_comments), parse(b"++>+."));
    assert_eq!(
        parse(b"+ [ > + < - ] copy, then zero"),
        parse(b"+[>+<-]")
    );
}

#[test]
fn parse_comments_do_not_hide_errors() {
    assert_eq!(
        parse(b"a ] b"),
        Err(ParseError::UnmatchedClosingBracket)
    );
    assert_eq!(
        parse(b"a [ b"),
        Err(ParseError::UnmatchedOpeningBracket)
    );
}

#[test]
fn parse_comma_is_a_comment() {
    assert_eq!(parse(b",+,"), Ok(vec![Inst::Increment]));
}

#[test]
fn parse_comments_only() {
    assert_eq!(parse(b"nothing to run"), Ok(vec![]));
}

#[test]
fn clone_copies_loop_bodies() {
    let program: Program = parse(b"+[>[-]<-].").unwrap();
    let copy = program.clone();
    assert_eq!(copy, program);
    assert_eq!(
        copy[1],
        Inst::Loop(vec![
            Inst::MoveRight,
            Inst::Loop(vec![Inst::Decrement]),
            Inst::MoveLeft,
            Inst::Decrement,
        ])
    );
    assert_eq!(Inst::Output.clone(), Inst::Output);
}
