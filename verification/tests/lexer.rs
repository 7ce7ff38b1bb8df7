use bf_interp::{Commands, Op};

fn all_tokens(input: &[u8]) -> Vec<Op> {
    let mut commands = Commands::new(input);
    let mut found = Vec::new();
    loop {
        match commands.next() {
            Some(op) => found.push(op),
            None => return found,
        }
    }
}

#[test]
fn from_byte_knows_the_seven_symbols() {
    assert_eq!(Op::from_byte(b'+'), Some(Op::Inc));
    assert_eq!(Op::from_byte(b'-'), Some(Op::Dec));
    assert_eq!(Op::from_byte(b'>'), Some(Op::Next));
    assert_eq!(Op::from_byte(b'<'), Some(Op::Prev));
    assert_eq!(Op::from_byte(b'.'), Some(Op::Out));
    assert_eq!(Op::from_byte(b'['), Some(Op::JmpFwd));
    assert_eq!(Op::from_byte(b']'), Some(Op::JmpBck));
}

#[test]
fn from_byte_knows_no_other_byte() {
    let mut known = 0;
    for byte in 0..=255u8 {
        if Op::from_byte(byte).is_some() {
            known += 1;
            assert!(b"+-><.[]".contains(&byte));
        }
    }
    assert_eq!(known, 7);
    assert_eq!(Op::from_byte(b','), None);
    assert_eq!(Op::from_byte(b' '), None);
    assert_eq!(Op::from_byte(0), None);
}

#[test]
fn lexer_yields_symbols_in_order() {
    assert_eq!(
        all_tokens(b"+-><.[]"),
        vec![Op::Inc, Op::Dec, Op::Next, Op::Prev, Op::Out, Op::JmpFwd, Op::JmpBck]
    );
}

#[test]
fn lexer_skips_comment_bytes() {
    assert_eq!(
        all_tokens(b"add one: + then, print\n\t. done"),
        vec![Op::Inc, Op::Out]
    );
    assert_eq!(all_tokens(b"x+y+z"), vec![Op::Inc, Op::Inc]);
}

#[test]
fn lexer_ends_on_empty_input() {
    let mut commands = Commands::new(b"");
    assert_eq!(commands.next(), None);
    assert_eq!(commands.next(), None);
}

#[test]
fn lexer_ends_on_comments_only() {
    let mut commands = Commands::new(b"no symbols here, none at all");
    assert_eq!(commands.next(), None);
}

#[test]
fn lexer_stays_ended_after_the_last_symbol() {
    let mut commands = Commands::new(b" [ trailing");
    assert_eq!(commands.next(), Some(Op::JmpFwd));
    assert_eq!(commands.next(), None);
    assert_eq!(commands.next(), None);
}

#[test]
fn lexer_passes_over_bytes_that_are_not_text() {
    let input = [0u8, 255, b'+', 128, b'-', 7];
    assert_eq!(all_tokens(&input), vec![Op::Inc, Op::Dec]);
}
