use semantic_editor::text::{split_lines, str_eq, str_starts_with};

#[test]
fn lines_split_at_line_feeds() {
    assert_eq!(split_lines("alpha\nbravo"), vec!["alpha", "bravo"]);
    assert_eq!(split_lines(""), Vec::<String>::new());
    assert_eq!(split_lines("single"), vec!["single"]);
}

#[test]
fn a_final_line_ending_opens_no_empty_line() {
    assert_eq!(split_lines("alpha\n"), vec!["alpha"]);
    assert_eq!(split_lines("alpha\n\n"), vec!["alpha", ""]);
    assert_eq!(split_lines("\n"), vec![""]);
}

#[test]
fn carriage_returns_belong_to_their_line_endings() {
    assert_eq!(split_lines("alpha\r\nbravo\r\n"), vec!["alpha", "bravo"]);
    // A carriage return not followed by a line feed stays in the line.
    assert_eq!(split_lines("al\rpha"), vec!["al\rpha"]);
    assert_eq!(split_lines("alpha\r"), vec!["alpha\r"]);
}

#[test]
fn string_equality_and_prefixes_compare_by_characters() {
    assert!(str_eq("abc", "abc"));
    assert!(!str_eq("abc", "abd"));
    assert!(!str_eq("abc", "ab"));
    assert!(str_eq("", ""));
    assert!(str_starts_with("http://x", "http://"));
    assert!(!str_starts_with("https://x", "http://"));
    assert!(str_starts_with("abc", ""));
    assert!(!str_starts_with("ab", "abc"));
}
