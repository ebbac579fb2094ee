use ducka::document::{Doc, Row};

#[test]
fn rows_are_built_from_borrowed_text() {
    let row = Row::from("hello");
    assert_eq!(row.string, "hello");
}

#[test]
fn a_new_document_is_empty_and_wrapping() {
    let d = Doc::new();
    assert!(d.rows.is_empty());
    assert_eq!(d.path, "");
    assert!(d.wrap);
}

#[test]
fn split_file_cuts_at_line_feeds() {
    assert_eq!(Doc::split_file("a\nb"), vec!["a", "b"]);
    assert_eq!(Doc::split_file("a\nb\nc"), vec!["a", "b", "c"]);
}

#[test]
fn split_file_treats_carriage_return_line_feed_as_one_separator() {
    assert_eq!(Doc::split_file("a\r\nb"), vec!["a", "b"]);
    assert_eq!(Doc::split_file("a\r\n\r\nb"), vec!["a", "", "b"]);
}

#[test]
fn split_file_keeps_lone_carriage_returns() {
    assert_eq!(Doc::split_file("a\rb"), vec!["a\rb"]);
}

#[test]
fn split_file_of_empty_text_is_one_empty_line() {
    assert_eq!(Doc::split_file(""), vec![""]);
}

#[test]
fn split_file_keeps_empty_lines() {
    assert_eq!(Doc::split_file("a\n\nb"), vec!["a", "", "b"]);
    assert_eq!(Doc::split_file("a\n"), vec!["a", ""]);
    assert_eq!(Doc::split_file("\na"), vec!["", "a"]);
}

#[test]
fn load_text_fills_rows_and_records_the_path() {
    let mut d = Doc::new();
    d.load_text(String::from("/notes/today"), "first\nsecond\r\nthird");
    assert_eq!(d.path, "/notes/today");
    let rows: Vec<&str> = d.rows.iter().map(|r| r.string.as_str()).collect();
    assert_eq!(rows, vec!["first", "second", "third"]);
    assert!(d.wrap);
}
