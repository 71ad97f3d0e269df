use typing_reader::typing::{StateChange, TypingState};

fn lines(v: &[&str]) -> Vec<String> {
    v.iter().map(|s| s.to_string()).collect()
}

#[test]
fn typing_a_line_in_order_signals_char_each_step() {
    let mut st = TypingState::new(lines(&["ab", "cd"]), 0);
    assert_eq!(st.type_char('a'), StateChange::Char);
    assert_eq!(st.char_idx(), 1);
    assert_eq!(st.type_char('b'), StateChange::Char);
    assert_eq!(st.char_idx(), 2);
    assert_eq!(st.wrongs().as_str(), "");
    assert_eq!(st.line_break(), StateChange::Line);
    assert_eq!(st.char_idx(), 0);
    assert_eq!(st.line_idx(), 1);
}

#[test]
fn wrong_chars_collect_and_erase_before_cursor_moves() {
    let mut st = TypingState::new(lines(&["cat"]), 0);
    assert_eq!(st.type_char('x'), StateChange::Wrong);
    assert_eq!(st.wrongs().as_str(), "x");
    assert_eq!(st.type_char('y'), StateChange::Wrong);
    assert_eq!(st.wrongs().as_str(), "xy");
    assert_eq!(st.char_idx(), 0);
    assert_eq!(st.backspace(), StateChange::Wrong);
    assert_eq!(st.backspace(), StateChange::Wrong);
    assert_eq!(st.wrongs().as_str(), "");
    assert_eq!(st.char_idx(), 0);
    assert_eq!(st.line_idx(), 0);
}

#[test]
fn pending_wrongs_block_correct_chars_too() {
    let mut st = TypingState::new(lines(&["cat"]), 0);
    assert_eq!(st.type_char('x'), StateChange::Wrong);
    // 'c' would be correct, but the wrongs run must be erased first.
    assert_eq!(st.type_char('c'), StateChange::Wrong);
    assert_eq!(st.wrongs().as_str(), "xc");
    assert_eq!(st.char_idx(), 0);
}

#[test]
fn pending_wrongs_turn_line_break_into_wrong_marker() {
    let mut st = TypingState::new(lines(&["ab", "cd"]), 0);
    assert_eq!(st.type_char('a'), StateChange::Char);
    assert_eq!(st.type_char('z'), StateChange::Wrong);
    assert_eq!(st.line_break(), StateChange::Wrong);
    assert_eq!(st.wrongs().as_str(), "z\n");
    assert_eq!(st.char_idx(), 1);
    assert_eq!(st.line_idx(), 0);
}

#[test]
fn incomplete_line_break_is_wrong() {
    let mut st = TypingState::new(lines(&["ab", "cd"]), 0);
    assert_eq!(st.line_break(), StateChange::Wrong);
    assert_eq!(st.wrongs().as_str(), "\n");
}

#[test]
fn type_char_at_text_end_changes_nothing() {
    let mut st = TypingState::new(lines(&["ab"]), 0);
    assert_eq!(st.type_char('a'), StateChange::Char);
    assert_eq!(st.type_char('b'), StateChange::Char);
    assert_eq!(st.type_char('z'), StateChange::Nothing);
    assert_eq!(st.char_idx(), 2);
    assert_eq!(st.line_idx(), 0);
    assert_eq!(st.wrongs().as_str(), "");
}

#[test]
fn line_break_on_completed_last_line_changes_nothing() {
    let mut st = TypingState::new(lines(&["ab"]), 0);
    st.type_char('a');
    st.type_char('b');
    assert_eq!(st.line_break(), StateChange::Nothing);
    assert_eq!(st.line_idx(), 0);
    assert_eq!(st.char_idx(), 2);
}

#[test]
fn backspace_steps_back_through_chars_lines_and_stops() {
    let mut st = TypingState::new(lines(&["ab", "cd"]), 0);
    st.type_char('a');
    st.type_char('b');
    st.line_break();
    assert_eq!((st.line_idx(), st.char_idx()), (1, 0));
    // Back across the line boundary: cursor lands at the end of "ab".
    assert_eq!(st.backspace(), StateChange::Line);
    assert_eq!((st.line_idx(), st.char_idx()), (0, 2));
    assert_eq!(st.backspace(), StateChange::Char);
    assert_eq!(st.backspace(), StateChange::Char);
    assert_eq!((st.line_idx(), st.char_idx()), (0, 0));
    // At the very start nothing is left to undo.
    assert_eq!(st.backspace(), StateChange::Nothing);
    assert_eq!((st.line_idx(), st.char_idx()), (0, 0));
}

#[test]
fn resume_index_starts_the_session_mid_text() {
    let mut st = TypingState::new(lines(&["ab", "cd", "ef"]), 1);
    assert_eq!(st.line_idx(), 1);
    assert_eq!(st.char_idx(), 0);
    assert_eq!(st.current_line_chars(), vec!['c', 'd']);
    assert_eq!(st.type_char('c'), StateChange::Char);
}

#[test]
fn lines_are_kept_whole() {
    let st = TypingState::new(lines(&["ab", "cd"]), 0);
    assert_eq!(st.line_count(), 2);
    assert_eq!(st.get_lines()[0].as_str(), "ab");
    assert_eq!(st.get_lines()[1].as_str(), "cd");
}

#[test]
fn moving_avg_has_no_value_before_a_line_completes() {
    let st = TypingState::new(lines(&["ab"]), 0);
    assert_eq!(st.moving_avg_cps(), None);
}

#[test]
fn multi_byte_chars_are_single_typing_units() {
    let mut st = TypingState::new(lines(&["héllo"]), 0);
    assert_eq!(st.current_line_chars(), vec!['h', 'é', 'l', 'l', 'o']);
    assert_eq!(st.type_char('h'), StateChange::Char);
    assert_eq!(st.type_char('é'), StateChange::Char);
    assert_eq!(st.char_idx(), 2);
}
