use tts_pipeline::text::is_blank_str;
use tts_pipeline::text::join_lines;
use tts_pipeline::text::non_blank_lines;
use tts_pipeline::text::preview_of;
use tts_pipeline::text::str_eq;

fn lines(v: &[&str]) -> Vec<String> {
    v.iter().map(|s| s.to_string()).collect()
}

#[test]
fn splits_and_drops_blank_lines() {
    let content = "first\n\n  \nsecond\n\t\nthird";
    assert_eq!(non_blank_lines(content), lines(&["first", "second", "third"]));
}

#[test]
fn keeps_inner_whitespace() {
    assert_eq!(non_blank_lines(" a b \nc"), lines(&[" a b ", "c"]));
}

#[test]
fn strips_carriage_returns() {
    assert_eq!(non_blank_lines("x\r\ny\r\n"), lines(&["x", "y"]));
}

#[test]
fn final_line_keeps_bare_carriage_return() {
    // Only a carriage return before a newline is a line ending; one at the
    // very end of the file belongs to the last line.
    assert_eq!(non_blank_lines("a\r"), lines(&["a\r"]));
    assert_eq!(non_blank_lines("x\r\ny\r"), lines(&["x", "y\r"]));
}

#[test]
fn unicode_whitespace_lines_are_blank() {
    // Lines of nothing but Unicode whitespace are dropped, as a trim-based
    // blank check would drop them.
    assert_eq!(non_blank_lines("\u{2028}"), lines(&[]));
    assert_eq!(non_blank_lines("a\n\u{00A0}\u{2003}\nb"), lines(&["a", "b"]));
    assert_eq!(non_blank_lines("\u{3000}\u{0085}\n"), lines(&[]));
    assert!(is_blank_str("\u{2028}\u{2029}\u{202F}\u{205F}\u{1680}"));
    assert!(!is_blank_str("\u{200B}"));
}

#[test]
fn empty_and_blank_content() {
    assert_eq!(non_blank_lines(""), lines(&[]));
    assert_eq!(non_blank_lines("\n\n \n\t\r\n"), lines(&[]));
}

#[test]
fn no_trailing_newline() {
    assert_eq!(non_blank_lines("only"), lines(&["only"]));
}

#[test]
fn join_with_single_spaces() {
    assert_eq!(join_lines(&lines(&["a", "b", "c"])), "a b c");
    assert_eq!(join_lines(&lines(&["solo"])), "solo");
    assert_eq!(join_lines(&lines(&[])), "");
}

#[test]
fn preview_truncates_to_sixty_chars() {
    let short = "short text";
    assert_eq!(preview_of(short), short);
    let exact: String = "e".repeat(60);
    assert_eq!(preview_of(&exact), exact);
    let long: String = "x".repeat(75);
    assert_eq!(preview_of(&long), "x".repeat(60));
}

#[test]
fn blank_detection() {
    assert!(is_blank_str(""));
    assert!(is_blank_str(" \t\r"));
    assert!(!is_blank_str(" a "));
}

#[test]
fn string_equality() {
    assert!(str_eq("abc", "abc"));
    assert!(!str_eq("abc", "abd"));
    assert!(!str_eq("abc", "ab"));
    assert!(str_eq("", ""));
}
