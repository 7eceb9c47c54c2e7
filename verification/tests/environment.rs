use run_script::env::Environment;

#[test]
fn test_environment_parsing() {
    let input = r#"-Message "feat: Run files without specifying the extension" -Version 0.3.0 foo bar baz"#;
    let positional = vec!["foo", "bar", "baz"]
        .into_iter()
        .map(String::from)
        .collect();
    let mut named = Vec::new();
    named.push((
        "Message".to_owned(),
        "feat: Run files without specifying the extension".to_owned(),
    ));
    named.push(("Version".to_owned(), "0.3.0".to_owned()));
    let want = Environment { named, positional };
    let got = Environment::from_str(input).unwrap();
    assert_eq!(got, want);
}

#[test]
fn a_flag_followed_by_a_flag_is_missing_its_value() {
    let got = Environment::from_str("one -Name -Other value");
    assert_eq!(got, Err("-Name is missing a value".to_string()));
}

#[test]
fn a_flag_at_the_end_is_dropped() {
    let got = Environment::from_str("one two --trailing").unwrap();
    assert_eq!(got.named, vec![]);
    assert_eq!(got.positional, vec!["one", "two"]);
}

#[test]
fn dashes_at_both_ends_of_a_flag_are_no_part_of_the_name() {
    let got = Environment::from_str("--dry-run- yes").unwrap();
    assert_eq!(got.named, vec![("dry-run".to_string(), "yes".to_string())]);
    assert_eq!(got.get(&"dry-run".to_string()), Some(&"yes".to_string()));
    assert_eq!(got.get(&"dry".to_string()), None);
}

#[test]
fn a_later_value_replaces_an_earlier_one() {
    let got = Environment::from_str("-A 1 -B 2 -A 3").unwrap();
    assert_eq!(
        got.named,
        vec![
            ("A".to_string(), "3".to_string()),
            ("B".to_string(), "2".to_string())
        ]
    );
    assert_eq!(got.get(&"A".to_string()), Some(&"3".to_string()));
}

#[test]
fn quoted_arguments_keep_their_whitespace() {
    let got = Environment::from_str(r#""-Message" "two words" "plain" "" "#).unwrap();
    assert_eq!(
        got.named,
        vec![("Message".to_string(), "two words".to_string())]
    );
    assert_eq!(got.positional, vec!["plain", ""]);
}

#[test]
fn insert_sets_and_replaces() {
    let mut env = Environment::new();
    assert_eq!(env, Environment::default());
    env.insert("k".to_string(), "v".to_string());
    env.insert("l".to_string(), "w".to_string());
    env.insert("k".to_string(), "x".to_string());
    assert_eq!(env.named.len(), 2);
    assert_eq!(env.get(&"k".to_string()), Some(&"x".to_string()));
    assert_eq!(env.get(&"l".to_string()), Some(&"w".to_string()));
    assert_eq!(env.get(&"m".to_string()), None);
}

#[test]
fn among_entries_with_one_name_the_last_counts() {
    let env = Environment {
        named: vec![
            ("k".to_string(), "first".to_string()),
            ("k".to_string(), "second".to_string()),
        ],
        positional: vec![],
    };
    assert_eq!(env.get(&"k".to_string()), Some(&"second".to_string()));
}
