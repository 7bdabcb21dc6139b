use repo_index::text::{
    decimal_of, first_line_of, join_reversed, slice_text, str_eq, str_starts_with,
    strip_one_each_end_of, to_chars,
};

#[test]
fn first_line_stops_at_line_feed() {
    assert_eq!(first_line_of("fn a() {\n}\n"), "fn a() {");
    assert_eq!(first_line_of("one\r\ntwo"), "one");
    assert_eq!(first_line_of("\nrest"), "");
    assert_eq!(first_line_of("\r\nrest"), "");
}

#[test]
fn first_line_without_line_feed_is_whole_text() {
    assert_eq!(first_line_of("no line feed\r"), "no line feed\r");
    assert_eq!(first_line_of("plain"), "plain");
    assert_eq!(first_line_of(""), "");
}

#[test]
fn first_line_agrees_with_std_lines() {
    for text in ["a\nb", "a\r\nb", "a\rb\nc", "", "\n", "x\r", "é\nü"] {
        assert_eq!(first_line_of(text), text.lines().next().unwrap_or(""));
    }
}

#[test]
fn slice_text_respects_character_boundaries() {
    assert_eq!(slice_text("héllo", 0, 1), "h");
    assert_eq!(slice_text("héllo", 1, 3), "é");
    assert_eq!(slice_text("héllo", 3, 6), "llo");
    assert_eq!(slice_text("héllo", 0, 6), "héllo");
    assert_eq!(slice_text("héllo", 2, 3), "");
    assert_eq!(slice_text("héllo", 1, 2), "");
}

#[test]
fn slice_text_outside_source_is_empty() {
    assert_eq!(slice_text("abc", 4, 99), "");
    assert_eq!(slice_text("abc", 2, 4), "");
    assert_eq!(slice_text("abc", 2, 1), "");
    assert_eq!(slice_text("abc", 3, 3), "");
}

#[test]
fn str_eq_compares_contents() {
    assert!(str_eq("abc", "abc"));
    assert!(str_eq("", ""));
    assert!(!str_eq("abc", "abd"));
    assert!(!str_eq("abc", "ab"));
    assert!(!str_eq("é", "e"));
}

#[test]
fn starts_with_checks_prefix() {
    assert!(str_starts_with("comment_line", "comment"));
    assert!(str_starts_with("comment", "comment"));
    assert!(str_starts_with("anything", ""));
    assert!(!str_starts_with("commen", "comment"));
    assert!(!str_starts_with("line_comment", "comment"));
}

#[test]
fn to_chars_lists_characters() {
    assert_eq!(to_chars("hé!"), vec!['h', 'é', '!']);
    assert_eq!(to_chars(""), Vec::<char>::new());
}

#[test]
fn one_quote_is_stripped_at_each_end() {
    assert_eq!(strip_one_each_end_of("\"doc\"", '"'), "doc");
    assert_eq!(strip_one_each_end_of("\"\"\"doc\"\"\"", '"'), "\"\"doc\"\"");
    assert_eq!(strip_one_each_end_of("r\"doc\"", '"'), "r\"doc");
    assert_eq!(strip_one_each_end_of("\"", '"'), "");
    assert_eq!(strip_one_each_end_of("\"\"", '"'), "");
    assert_eq!(strip_one_each_end_of("", '"'), "");
    assert_eq!(strip_one_each_end_of("doc", '"'), "doc");
}

#[test]
fn join_reversed_restores_top_to_bottom_order() {
    let lines = vec!["B.".to_string(), "A.".to_string()];
    assert_eq!(join_reversed(&lines), "A.\nB.");
    assert_eq!(join_reversed(&vec!["only".to_string()]), "only");
    assert_eq!(join_reversed(&Vec::new()), "");
}

#[test]
fn decimal_numerals() {
    assert_eq!(decimal_of(0), "0");
    assert_eq!(decimal_of(7), "7");
    assert_eq!(decimal_of(10), "10");
    assert_eq!(decimal_of(1203), "1203");
    assert_eq!(decimal_of(usize::MAX), usize::MAX.to_string());
}
