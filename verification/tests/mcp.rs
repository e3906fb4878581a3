use astral::mcp::{
    bounded_limit, bounded_text, check_line_range, line_range, results_truncated, MAX_READ_BYTES, MAX_RESULTS,
};

#[test]
fn limits_default_to_twenty_and_stay_in_range() {
    assert_eq!(bounded_limit(None), 20);
    assert_eq!(bounded_limit(Some(0)), 1);
    assert_eq!(bounded_limit(Some(7)), 7);
    assert_eq!(bounded_limit(Some(1_000)), MAX_RESULTS);
}

#[test]
fn text_is_cut_to_the_byte_limit_on_a_character_boundary() {
    let two_byte = "é".repeat(20_000);
    let cut = bounded_text(&two_byte);
    assert_eq!(cut.len(), MAX_READ_BYTES);
    assert_eq!(cut.chars().count(), MAX_READ_BYTES / 2);
    let mixed = format!("a{}", "é".repeat(MAX_READ_BYTES));
    let cut = bounded_text(&mixed);
    assert_eq!(cut.len(), MAX_READ_BYTES - 1);
    assert!(mixed.starts_with(&cut));
    let ascii = "x".repeat(MAX_READ_BYTES);
    assert_eq!(bounded_text(&ascii), ascii);
    assert_eq!(bounded_text("short"), "short");
}

#[test]
fn line_ranges_are_checked() {
    assert_eq!(check_line_range(0, 3), Err("invalid line range".to_owned()));
    assert_eq!(check_line_range(5, 4), Err("invalid line range".to_owned()));
    assert_eq!(check_line_range(1, 121), Err("line range exceeds 120 lines".to_owned()));
    assert_eq!(check_line_range(1, 120), Ok(()));
}

#[test]
fn line_ranges_select_lines() {
    let source = "one\r\ntwo\nthree\nfour\n";
    assert_eq!(line_range(source, 2, 3), "two\nthree");
    assert_eq!(line_range(source, 1, 1), "one");
    assert_eq!(line_range(source, 4, 10), "four");
    assert_eq!(line_range(source, 5, 6), "");
    assert_eq!(line_range("a\r", 1, 1), "a\r");
}

#[test]
fn results_are_truncated_only_when_some_were_cut() {
    assert!(!results_truncated(20, 20, false));
    assert!(results_truncated(21, 20, false));
    assert!(!results_truncated(3, 20, false));
    assert!(results_truncated(100, 100, true));
}
