use bf_interp::State;

#[test]
fn new_state_has_1024_zero_cells() {
    let state = State::new();
    assert_eq!(state.len(), 1024);
    assert_eq!(state.pointer(), 0);
    assert!(state.cells().iter().all(|&cell| cell == 0));
    assert_eq!(state.current(), 0);
}

#[test]
fn with_len_makes_zero_cells() {
    let state = State::with_len(3);
    assert_eq!(state.cells(), &[0u8, 0, 0][..]);
    assert_eq!(state.pointer(), 0);
}

#[test]
fn increment_adds_one() {
    let mut state = State::new();
    state.increment();
    state.increment();
    assert_eq!(state.current(), 2);
    assert_eq!(state.cell(0), 2);
    assert_eq!(state.cell(1), 0);
}

#[test]
fn increment_wraps_from_255_to_0() {
    let mut state = State::new();
    for _ in 0..255 {
        state.increment();
    }
    assert_eq!(state.current(), 255);
    state.increment();
    assert_eq!(state.current(), 0);
}

#[test]
fn decrement_wraps_from_0_to_255() {
    let mut state = State::new();
    state.decrement();
    assert_eq!(state.current(), 255);
    state.decrement();
    assert_eq!(state.current(), 254);
}

#[test]
fn increments_come_round_after_256() {
    for start in [0u8, 1, 17, 128, 254, 255] {
        let mut state = State::with_len(4);
        state.move_right();
        for _ in 0..start {
            state.increment();
        }
        assert_eq!(state.current(), start);
        for _ in 0..256 {
            state.increment();
        }
        assert_eq!(state.current(), start);
        assert_eq!(state.cells(), &[0, start, 0, 0][..]);
    }
}

#[test]
fn decrement_undoes_increment() {
    let mut state = State::new();
    state.increment();
    state.decrement();
    assert_eq!(state.current(), 0);
    state.decrement();
    state.increment();
    assert_eq!(state.current(), 0);
}

#[test]
fn move_left_at_first_cell_stays() {
    let mut state = State::new();
    for _ in 0..10 {
        state.move_left();
        assert_eq!(state.pointer(), 0);
    }
    assert_eq!(state.len(), 1024);
}

#[test]
fn move_left_undoes_move_right() {
    let mut state = State::new();
    state.move_right();
    state.move_right();
    assert_eq!(state.pointer(), 2);
    state.move_left();
    assert_eq!(state.pointer(), 1);
    state.move_left();
    state.move_left();
    assert_eq!(state.pointer(), 0);
}

#[test]
fn move_right_inside_the_tape_keeps_its_length() {
    let mut state = State::new();
    for _ in 0..1023 {
        state.move_right();
    }
    assert_eq!(state.pointer(), 1023);
    assert_eq!(state.len(), 1024);
}

#[test]
fn move_right_past_the_end_doubles_the_tape() {
    let mut state = State::new();
    state.increment();
    for _ in 0..1024 {
        state.move_right();
    }
    assert_eq!(state.pointer(), 1024);
    assert_eq!(state.len(), 2048);
    assert_eq!(state.cell(0), 1);
    assert!(state.cells()[1..].iter().all(|&cell| cell == 0));
    assert_eq!(state.current(), 0);
}

#[test]
fn move_right_on_empty_tape_makes_two_cells() {
    let mut state = State::with_len(0);
    assert_eq!(state.len(), 0);
    state.move_right();
    assert_eq!(state.pointer(), 1);
    assert_eq!(state.cells(), &[0u8, 0][..]);
}

#[test]
fn moves_right_from_empty_tape_stay_inside() {
    let mut state = State::with_len(0);
    let mut lengths = Vec::new();
    for n in 1..=70usize {
        assert!(state.has_room());
        state.move_right();
        assert_eq!(state.pointer(), n);
        assert!(state.len() > state.pointer());
        assert_eq!(state.current(), 0);
        lengths.push(state.len());
    }
    assert_eq!(&lengths[..9], &[2, 4, 4, 8, 8, 8, 8, 16, 16][..]);
    assert_eq!(state.len(), 128);
}

#[test]
fn move_right_on_one_cell_tape_doubles_it() {
    let mut state = State::with_len(1);
    state.move_right();
    assert_eq!(state.pointer(), 1);
    assert_eq!(state.len(), 2);
    state.move_right();
    assert_eq!(state.pointer(), 2);
    assert_eq!(state.len(), 4);
}

#[test]
fn has_room_on_small_tapes() {
    assert!(State::new().has_room());
    assert!(State::with_len(0).has_room());
}

#[test]
fn cells_keep_their_values_when_the_tape_grows() {
    let mut state = State::with_len(2);
    state.increment();
    state.move_right();
    state.decrement();
    state.move_right();
    assert_eq!(state.cells(), &[1u8, 255, 0, 0][..]);
    assert_eq!(state.pointer(), 2);
}
