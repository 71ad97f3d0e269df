use typing_reader::render::{
    current_text, current_typing_lines, lines_after_current, lines_before_current, SegKind,
};
use typing_reader::typing::TypingState;

fn lines(v: &[&str]) -> Vec<String> {
    v.iter().map(|s| s.to_string()).collect()
}

#[test]
fn fresh_line_renders_one_row_with_cursor_on_first_char() {
    let st = TypingState::new(lines(&["cat"]), 0);
    let rows = current_typing_lines(&st);
    assert_eq!(rows.len(), 1);
    let row = &rows[0];
    assert_eq!(row.len(), 5);
    assert_eq!((row[0].text.as_str(), row[0].kind), ("", SegKind::Dim));
    assert_eq!((row[1].text.as_str(), row[1].kind), ("", SegKind::Wrong));
    assert_eq!((row[2].text.as_str(), row[2].kind), ("c", SegKind::Cursor));
    assert_eq!((row[3].text.as_str(), row[3].kind), ("at", SegKind::Normal));
    assert_eq!((row[4].text.as_str(), row[4].kind), ("⏎", SegKind::Dim));
}

#[test]
fn typed_prefix_is_dim_and_cursor_advances() {
    let mut st = TypingState::new(lines(&["cat"]), 0);
    st.type_char('c');
    let rows = current_typing_lines(&st);
    let row = &rows[0];
    assert_eq!((row[0].text.as_str(), row[0].kind), ("c", SegKind::Dim));
    assert_eq!((row[2].text.as_str(), row[2].kind), ("a", SegKind::Cursor));
    assert_eq!((row[3].text.as_str(), row[3].kind), ("t", SegKind::Normal));
}

#[test]
fn completed_line_shows_break_glyph_cursor_and_blank_ending() {
    let mut st = TypingState::new(lines(&["ab", "cd"]), 0);
    st.type_char('a');
    st.type_char('b');
    let rows = current_typing_lines(&st);
    let row = &rows[0];
    assert_eq!((row[2].text.as_str(), row[2].kind), ("⏎", SegKind::Cursor));
    assert_eq!((row[3].text.as_str(), row[3].kind), ("", SegKind::Normal));
    assert_eq!((row[4].text.as_str(), row[4].kind), (" ", SegKind::Dim));
}

#[test]
fn pending_wrongs_show_error_run_and_deletion_cursor() {
    let mut st = TypingState::new(lines(&["cat"]), 0);
    st.type_char('x');
    st.type_char('y');
    let rows = current_typing_lines(&st);
    assert_eq!(rows.len(), 1);
    let row = &rows[0];
    assert_eq!((row[1].text.as_str(), row[1].kind), ("xy", SegKind::Wrong));
    assert_eq!((row[2].text.as_str(), row[2].kind), ("⌫", SegKind::Cursor));
    assert_eq!((row[3].text.as_str(), row[3].kind), ("cat", SegKind::Normal));
}

#[test]
fn wrongs_with_embedded_break_render_two_error_rows() {
    let mut st = TypingState::new(lines(&["cat", "dog"]), 0);
    st.type_char('a');
    st.type_char('b');
    st.line_break();
    st.type_char('c');
    st.type_char('d');
    assert_eq!(st.wrongs().as_str(), "ab\ncd");
    let rows = current_typing_lines(&st);
    assert_eq!(rows.len(), 2);
    // First row: typed prefix, error run "ab", error-styled break glyph.
    assert_eq!(rows[0].len(), 3);
    assert_eq!((rows[0][1].text.as_str(), rows[0][1].kind), ("ab", SegKind::Wrong));
    assert_eq!((rows[0][2].text.as_str(), rows[0][2].kind), ("⏎", SegKind::WrongDim));
    // Second row: error run "cd", then the cursor cell — only here.
    assert_eq!((rows[1][0].text.as_str(), rows[1][0].kind), ("cd", SegKind::Wrong));
    assert_eq!((rows[1][1].text.as_str(), rows[1][1].kind), ("⌫", SegKind::Cursor));
    assert!(rows[0].iter().all(|s| s.kind != SegKind::Cursor));
}

#[test]
fn wrongs_of_only_break_markers_render_empty_error_rows() {
    let mut st = TypingState::new(lines(&["cat", "dog"]), 0);
    st.line_break();
    st.line_break();
    assert_eq!(st.wrongs().as_str(), "\n\n");
    let rows = current_typing_lines(&st);
    assert_eq!(rows.len(), 3);
    assert_eq!((rows[0][1].text.as_str(), rows[0][1].kind), ("", SegKind::Wrong));
    assert_eq!((rows[1][0].text.as_str(), rows[1][0].kind), ("", SegKind::Wrong));
    assert_eq!((rows[2][0].text.as_str(), rows[2][0].kind), ("", SegKind::Wrong));
    assert_eq!((rows[2][1].text.as_str(), rows[2][1].kind), ("⌫", SegKind::Cursor));
}

#[test]
fn at_most_two_context_lines_come_before() {
    let st = TypingState::new(lines(&["l0", "l1", "l2", "l3", "l4"]), 3);
    let rows = lines_before_current(&st);
    assert_eq!(rows.len(), 2);
    assert_eq!((rows[0][0].text.as_str(), rows[0][0].kind), ("l1", SegKind::Dim));
    assert_eq!((rows[1][0].text.as_str(), rows[1][0].kind), ("l2", SegKind::Dim));
}

#[test]
fn context_before_is_shorter_near_the_top() {
    let st = TypingState::new(lines(&["l0", "l1"]), 1);
    let rows = lines_before_current(&st);
    assert_eq!(rows.len(), 1);
    assert_eq!(rows[0][0].text.as_str(), "l0");
}

#[test]
fn context_after_fills_the_viewport_height() {
    let st = TypingState::new(lines(&["l0", "l1", "l2", "l3"]), 0);
    let rows = lines_after_current(&st, 2);
    assert_eq!(rows.len(), 2);
    assert_eq!((rows[0][0].text.as_str(), rows[0][0].kind), ("l1", SegKind::Normal));
    assert_eq!((rows[1][0].text.as_str(), rows[1][0].kind), ("l2", SegKind::Normal));
    assert_eq!(lines_after_current(&st, 0).len(), 0);
    assert_eq!(lines_after_current(&st, 100).len(), 3);
}

#[test]
fn current_text_stacks_context_current_and_upcoming() {
    let st = TypingState::new(lines(&["l0", "l1", "l2", "l3", "l4"]), 2);
    let rows = current_text(&st, 100);
    // Two dim context lines, one current row, two normal upcoming lines.
    assert_eq!(rows.len(), 5);
    assert_eq!(rows[0][0].text.as_str(), "l0");
    assert_eq!(rows[1][0].text.as_str(), "l1");
    assert_eq!((rows[2][2].text.as_str(), rows[2][2].kind), ("l", SegKind::Cursor));
    assert_eq!(rows[3][0].text.as_str(), "l3");
    assert_eq!(rows[4][0].text.as_str(), "l4");
}
