use run_script::util::SplitWords;

fn words(input: &str) -> Vec<String> {
    SplitWords::new(input).collect()
}

#[test]
fn test_escaped_quotes() {
    let input = r#"foo bar "baz bazinga \"foobar\" " foobaz "#;
    let want = vec!["foo", "bar", "baz bazinga \\\"foobar\\\" ", "foobaz"];
    let got = SplitWords::new(input).collect();
    assert_eq!(want, got);
}

#[test]
fn words_are_handed_out_one_at_a_time() {
    let mut reader = SplitWords::new("  one\ttwo\n three ");
    assert_eq!(reader.next(), Some("one".to_string()));
    assert_eq!(reader.next(), Some("two".to_string()));
    assert_eq!(reader.next(), Some("three".to_string()));
    assert_eq!(reader.next(), None);
    assert_eq!(reader.next(), None);
}

#[test]
fn empty_and_blank_texts_hold_no_word() {
    assert_eq!(words(""), Vec::<String>::new());
    assert_eq!(words(" \t \n"), Vec::<String>::new());
}

#[test]
fn a_closed_span_is_a_word_even_when_empty() {
    assert_eq!(words(r#""""#), vec![""]);
    assert_eq!(words(r#"a "" b"#), vec!["a", "", "b"]);
}

#[test]
fn a_span_continues_the_word_before_it_and_ends_it() {
    assert_eq!(words(r#"ab"c d"e f"#), vec!["abc d", "e", "f"]);
}

#[test]
fn an_open_span_runs_to_the_end_of_the_text() {
    assert_eq!(words(r#"one "two three"#), vec!["one", "two three"]);
    assert_eq!(words(r#"one ""#), vec!["one"]);
}

#[test]
fn a_backslash_counts_only_before_a_quote() {
    assert_eq!(words(r#""a\b" "c\"d""#), vec![r#"a\b"#, r#"c\"d"#]);
    assert_eq!(words(r#""tail\"#), vec![r#"tail\"#]);
}

#[test]
fn whitespace_of_any_kind_separates_words() {
    assert_eq!(words("a\u{a0}b\u{2003}c"), vec!["a", "b", "c"]);
}
