use typing_reader::persist::{load, save};

fn lines(v: &[&str]) -> Vec<String> {
    v.iter().map(|s| s.to_string()).collect()
}

#[test]
fn load_recovers_index_and_strips_header() {
    let (idx, rest) = load(lines(&["typing-reader: 3", "a", "b"]));
    assert_eq!(idx, 3);
    assert_eq!(rest, lines(&["a", "b"]));
}

#[test]
fn load_without_marker_defaults_to_zero_and_keeps_lines() {
    let (idx, rest) = load(lines(&["no header here", "a"]));
    assert_eq!(idx, 0);
    assert_eq!(rest, lines(&["no header here", "a"]));
}

#[test]
fn load_of_nothing_is_empty_at_zero() {
    let (idx, rest) = load(Vec::new());
    assert_eq!(idx, 0);
    assert!(rest.is_empty());
}

#[test]
fn marker_is_found_anywhere_in_the_first_line() {
    let (idx, rest) = load(lines(&["// typing-reader: 7 (bookmark)", "a"]));
    assert_eq!(idx, 7);
    assert_eq!(rest, lines(&["a"]));
}

#[test]
fn marker_on_a_later_line_does_not_count() {
    let (idx, rest) = load(lines(&["a", "typing-reader: 7"]));
    assert_eq!(idx, 0);
    assert_eq!(rest, lines(&["a", "typing-reader: 7"]));
}

#[test]
fn unusable_number_defaults_to_zero_but_still_strips_header() {
    let (idx, rest) = load(lines(&["typing-reader: 12x", "a"]));
    assert_eq!(idx, 0);
    assert_eq!(rest, lines(&["a"]));
}

#[test]
fn missing_number_defaults_to_zero() {
    let (idx, rest) = load(lines(&["typing-reader:", "a"]));
    assert_eq!(idx, 0);
    assert_eq!(rest, lines(&["a"]));
}

#[test]
fn oversized_number_defaults_to_zero() {
    let (idx, _) = load(lines(&["typing-reader: 99999999999999999999999999"]));
    assert_eq!(idx, 0);
}

#[test]
fn plus_signed_number_is_accepted() {
    let (idx, _) = load(lines(&["typing-reader: +12"]));
    assert_eq!(idx, 12);
}

#[test]
fn number_may_follow_the_marker_without_a_space() {
    let (idx, _) = load(lines(&["typing-reader:5"]));
    assert_eq!(idx, 5);
}

#[test]
fn save_builds_header_then_lines() {
    let content = save(&lines(&["a", "b"]), 2);
    assert_eq!(content, "typing-reader: 2\na\nb");
}

#[test]
fn save_of_no_lines_is_just_the_header() {
    let content = save(&Vec::new(), 0);
    assert_eq!(content, "typing-reader: 0");
}

#[test]
fn save_renders_multi_digit_indexes() {
    let content = save(&lines(&["x"]), 105);
    assert_eq!(content, "typing-reader: 105\nx");
}

#[test]
fn load_undoes_save() {
    let all = lines(&["alpha", "beta", "gamma"]);
    let content = save(&all, 2);
    let reread: Vec<String> = content.lines().map(|s| s.to_string()).collect();
    let (idx, rest) = load(reread);
    assert_eq!(idx, 2);
    assert_eq!(rest, all);
}
