use notebook_rag::text::chunk;
use notebook_rag::text::str_eq;

#[test]
fn chunk_collapses_blank_runs() {
    let chunks = chunk("A\n\nB\n\n\n\nC");
    assert_eq!(chunks, vec!["A".to_string(), "B".to_string(), "C".to_string()]);
}

#[test]
fn chunk_empty_text_yields_nothing() {
    assert!(chunk("").is_empty());
}

#[test]
fn chunk_whitespace_only_yields_nothing() {
    assert!(chunk(" \t \n \r ").is_empty());
    assert!(chunk("\n\n\n\n").is_empty());
}

#[test]
fn chunk_unicode_whitespace_span_is_dropped() {
    let chunks = chunk("A\n\n\u{a0}\u{2003} \u{3000}\n\nB");
    assert_eq!(chunks, vec!["A".to_string(), "B".to_string()]);
}

#[test]
fn chunk_without_separator_is_one_chunk() {
    let long = "one very long paragraph that just keeps going, with commas, and more text";
    assert_eq!(chunk(long), vec![long.to_string()]);
}

#[test]
fn chunk_preserves_source_order() {
    let chunks = chunk("first\n\nsecond\n\nthird");
    assert_eq!(
        chunks,
        vec!["first".to_string(), "second".to_string(), "third".to_string()]
    );
}

#[test]
fn chunk_keeps_single_newlines_inside_a_chunk() {
    let chunks = chunk("line one\nline two\n\nnext");
    assert_eq!(chunks, vec!["line one\nline two".to_string(), "next".to_string()]);
}

#[test]
fn chunk_trailing_separator_leaves_no_empty_chunk() {
    let chunks = chunk("A\n\n");
    assert_eq!(chunks, vec!["A".to_string()]);
}

#[test]
fn str_eq_agrees_with_equality() {
    assert!(str_eq("abc", "abc"));
    assert!(!str_eq("abc", "abd"));
    assert!(!str_eq("abc", "ab"));
    assert!(str_eq("", ""));
    assert!(str_eq("naïve", "naïve"));
    assert!(!str_eq("naïve", "naive"));
}
