use run_script::text::{
    chars_of, copy_strings, find_in, has_at, join_strings, slice, split_on, string_of, stripped,
    to_string, trimmed,
};

fn chars(s: &str) -> Vec<char> {
    s.chars().collect()
}

fn pieces(s: &str, p: &str) -> Vec<String> {
    split_on(&chars(s), &chars(p))
        .iter()
        .map(|piece| piece.iter().collect())
        .collect()
}

#[test]
fn characters_and_strings_convert_both_ways() {
    assert_eq!(chars_of("aé越"), vec!['a', 'é', '越']);
    assert_eq!(to_string(&chars("aé越")), "aé越");
    assert_eq!(string_of(&chars("abcdef"), 2, 4), "cd");
    assert_eq!(slice(&chars("abcdef"), 1, 1), Vec::<char>::new());
    assert_eq!(slice(&chars("abcdef"), 4, 6), vec!['e', 'f']);
}

#[test]
fn has_at_looks_at_one_index() {
    let s = chars("abcabc");
    assert!(has_at(&s, &chars("bc"), 1));
    assert!(!has_at(&s, &chars("bc"), 2));
    assert!(has_at(&s, &chars("bc"), 4));
    assert!(!has_at(&s, &chars("bc"), 5));
    assert!(!has_at(&s, &chars("bc"), 7));
    assert!(has_at(&s, &chars(""), 6));
}

#[test]
fn find_in_gives_the_first_index_from_the_start() {
    let s = chars("a > b > c");
    assert_eq!(find_in(&s, &chars(" > "), 0), Some(1));
    assert_eq!(find_in(&s, &chars(" > "), 1), Some(1));
    assert_eq!(find_in(&s, &chars(" > "), 2), Some(5));
    assert_eq!(find_in(&s, &chars(" > "), 6), None);
    assert_eq!(find_in(&s, &chars(" > "), 20), None);
    assert_eq!(find_in(&chars("aaa"), &chars("aa"), 0), Some(0));
    assert_eq!(find_in(&chars("ab"), &chars("abc"), 0), None);
}

#[test]
fn split_on_keeps_empty_pieces() {
    assert_eq!(pieces("a | b | c", " | "), vec!["a", "b", "c"]);
    assert_eq!(pieces("a |  | b", " | "), vec!["a", "", "b"]);
    assert_eq!(pieces(" | ", " | "), vec!["", ""]);
    assert_eq!(pieces("", ";"), vec![""]);
    assert_eq!(pieces(";a;;", ";"), vec!["", "a", "", ""]);
    assert_eq!(pieces("a|b", " | "), vec!["a|b"]);
    assert_eq!(pieces("aaa", "aa"), vec!["", "a"]);
}

#[test]
fn trimmed_drops_whitespace_at_both_ends_only() {
    assert_eq!(trimmed(&chars(" \t a b \r\n")), chars("a b"));
    assert_eq!(trimmed(&chars("\u{2003}x\u{a0}")), chars("x"));
    assert_eq!(trimmed(&chars("  \n ")), chars(""));
    assert_eq!(trimmed(&chars("")), chars(""));
    assert_eq!(trimmed(&chars("a")), chars("a"));
}

#[test]
fn stripped_drops_one_character_at_both_ends_only() {
    assert_eq!(stripped(&chars("--a-b--"), '-'), chars("a-b"));
    assert_eq!(stripped(&chars("----"), '-'), chars(""));
    assert_eq!(stripped(&chars("a"), '-'), chars("a"));
}

#[test]
fn join_strings_puts_the_separator_between_neighbours() {
    let strings = |items: &[&str]| -> Vec<String> { items.iter().map(|s| s.to_string()).collect() };
    assert_eq!(join_strings(&strings(&[]), ", "), "");
    assert_eq!(join_strings(&strings(&["a"]), ", "), "a");
    assert_eq!(join_strings(&strings(&["a", "", "c"]), ", "), "a, , c");
    assert_eq!(copy_strings(&strings(&["x", "y"])), strings(&["x", "y"]));
}
