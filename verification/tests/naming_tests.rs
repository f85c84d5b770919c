use tts_pipeline::green_text;
use tts_pipeline::naming::chunk_file_name;
use tts_pipeline::naming::decimal_string;
use tts_pipeline::naming::is_chunk_artifact_name;
use tts_pipeline::naming::is_tmp_name;
use tts_pipeline::naming::str_ends_with;
use tts_pipeline::naming::str_lex_lt;
use tts_pipeline::naming::str_starts_with;

#[test]
fn chunk_file_name_is_zero_padded() {
    assert_eq!(
        chunk_file_name("202401010101", 0),
        "tmp_202401010101_chunk000000.flac"
    );
    assert_eq!(
        chunk_file_name("202401010101", 7),
        "tmp_202401010101_chunk000007.flac"
    );
    assert_eq!(
        chunk_file_name("202401010101", 999999),
        "tmp_202401010101_chunk999999.flac"
    );
}

#[test]
fn chunk_file_names_sort_into_index_order() {
    // Lexical sort of the names reproduces chunk order, for an arbitrary
    // timestamp and scattered indices.
    let ts = "x9_mixed.ts";
    let indices = [3usize, 0, 2, 10, 1, 999999, 42];
    let mut names: Vec<String> = indices.iter().map(|i| chunk_file_name(ts, *i)).collect();
    names.sort();
    let mut sorted_indices = indices.to_vec();
    sorted_indices.sort();
    let expected: Vec<String> = sorted_indices.iter().map(|i| chunk_file_name(ts, *i)).collect();
    assert_eq!(names, expected);
}

#[test]
fn str_lex_lt_orders_names() {
    assert!(str_lex_lt("tmp_a_chunk000000.flac", "tmp_a_chunk000001.flac"));
    assert!(!str_lex_lt("tmp_a_chunk000001.flac", "tmp_a_chunk000000.flac"));
    assert!(str_lex_lt("abc", "abd"));
    assert!(str_lex_lt("ab", "abc"));
    assert!(!str_lex_lt("abc", "abc"));
    assert!(!str_lex_lt("b", "abc"));
}

#[test]
fn decimal_strings() {
    assert_eq!(decimal_string(0), "0");
    assert_eq!(decimal_string(7), "7");
    assert_eq!(decimal_string(42), "42");
    assert_eq!(decimal_string(1000000), "1000000");
}

#[test]
fn artifact_name_patterns() {
    assert!(is_chunk_artifact_name("tmp_202401010101_chunk000000.flac"));
    assert!(is_chunk_artifact_name("tmp_x.flac"));
    assert!(!is_chunk_artifact_name("book.flac"));
    assert!(!is_chunk_artifact_name("tmp_notes.txt"));
    // The underscore belongs to the prefix: an assembled output whose base
    // name starts with `tmp` is neither concatenated nor cleaned up.
    assert!(!is_chunk_artifact_name("tmp.flac"));
    assert!(!is_chunk_artifact_name("tmpbook.flac"));
    assert!(is_tmp_name("tmp_notes.txt"));
    assert!(is_tmp_name("tmp_202401010101_chunk000000.flac"));
    assert!(!is_tmp_name("book.flac"));
    assert!(!is_tmp_name("tmpbook.flac"));
    assert!(!is_tmp_name("atmp.flac"));
}

#[test]
fn prefix_and_suffix_checks() {
    assert!(str_starts_with("tmp_x", "tmp"));
    assert!(!str_starts_with("tm", "tmp"));
    assert!(str_starts_with("anything", ""));
    assert!(str_ends_with("a.flac", ".flac"));
    assert!(!str_ends_with("a.flak", ".flac"));
    assert!(!str_ends_with("ac", ".flac"));
}

#[test]
fn green_text_wraps_in_ansi_codes() {
    assert_eq!(green_text("hi"), "\x1b[92mhi\x1b[0m");
    assert_eq!(green_text(""), "\x1b[92m\x1b[0m");
}
