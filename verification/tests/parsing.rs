use run_script::env::Environment;
use run_script::parser::{Cmd, Item, ItemParser};

fn named(entries: &[(&str, &str)]) -> Vec<(String, String)> {
    entries
        .iter()
        .map(|(k, v)| (k.to_string(), v.to_string()))
        .collect()
}

fn cmd(name: &str, args: &[&str]) -> Cmd {
    Cmd {
        name: name.into(),
        args: args.iter().map(|a| a.to_string()).collect(),
    }
}

fn parse_with(env: &Environment, input: &str) -> Result<Vec<Item>, String> {
    ItemParser { env }.parse(input)
}

fn parse(input: &str) -> Result<Vec<Item>, String> {
    parse_with(&Environment::default(), input)
}

#[test]
fn test_inline_variables() {
    let input = r#"ident v$(Version) $(Bin).exe"#;
    let want = vec![Item::Pipeline {
        ignore_failure: false,
        terminus: None,
        literal: input.into(),
        cmds: vec![Cmd {
            name: "ident".into(),
            args: vec!["v0.3.0".into(), "binary.exe".into()],
        }],
    }];
    let got = ItemParser {
        env: &Environment {
            named: named(&[("Version", "0.3.0"), ("Bin", "binary")]),
            positional: vec![],
        },
    }
    .parse(&input)
    .unwrap();
    assert_eq!(got, want);
}

#[test]
fn test_positional_variable() {
    let input = r#"ident v$(1) $(2).exe"#;
    let want = vec![Item::Pipeline {
        ignore_failure: false,
        terminus: None,
        literal: input.into(),
        cmds: vec![Cmd {
            name: "ident".into(),
            args: vec!["v0.3.0".into(), "binary.exe".into()],
        }],
    }];
    let got = ItemParser {
        env: &Environment {
            named: Vec::new(),
            positional: vec!["0.3.0".into(), "binary".into()],
        },
    }
    .parse(&input)
    .unwrap();
    assert_eq!(got, want);
}

#[test]
fn test_pipeline_parsing() {
    let input = r#"cat src/main.rs | rg "|" | head 5"#;
    let want = vec![
        Cmd {
            name: "cat".into(),
            args: vec!["src/main.rs".into()],
        },
        Cmd {
            name: "rg".into(),
            args: vec!["|".into()],
        },
        Cmd {
            name: "head".into(),
            args: vec!["5".into()],
        },
    ];
    let got = ItemParser {
        env: &Environment::default(),
    }
    .parse(&input)
    .expect("parsing");
    assert_eq!(
        got,
        vec![Item::Pipeline {
            ignore_failure: false,
            terminus: None,
            cmds: want,
            literal: input.into()
        }]
    );
}

#[test]
fn test_file_redirection() {
    let input = r#"cat src/main.rs | rg match | head 5 > output.txt"#;
    let want = vec![
        Cmd {
            name: "cat".into(),
            args: vec!["src/main.rs".into()],
        },
        Cmd {
            name: "rg".into(),
            args: vec!["match".into()],
        },
        Cmd {
            name: "head".into(),
            args: vec!["5".into()],
        },
    ];
    let got = ItemParser {
        env: &Environment::default(),
    }
    .parse(&input)
    .expect("parsing");
    assert_eq!(
        got,
        vec![Item::Pipeline {
            ignore_failure: false,
            terminus: Some("output.txt".into()),
            cmds: want,
            literal: input.into()
        }]
    );
}

#[test]
fn test_skip_empty_lines() {
    let input = r#"

        one


        two

        three
        
        "#;
    let want = vec![
        Item::Pipeline {
            ignore_failure: false,
            terminus: None,
            cmds: vec![Cmd {
                name: "one".into(),
                args: vec![],
            }],
            literal: "one".into(),
        },
        Item::Pipeline {
            ignore_failure: false,
            terminus: None,
            cmds: vec![Cmd {
                name: "two".into(),
                args: vec![],
            }],
            literal: "two".into(),
        },
        Item::Pipeline {
            ignore_failure: false,
            terminus: None,
            cmds: vec![Cmd {
                name: "three".into(),
                args: vec![],
            }],
            literal: "three".into(),
        },
    ];
    let got = ItemParser {
        env: &Environment::default(),
    }
    .parse(&input)
    .expect("parsing");
    assert_eq!(got, want);
}

#[test]
fn test_ignore_failure() {
    let input = r#"- cat src/main.rs | rg match | head 5 > output.txt"#;
    let want = vec![
        Cmd {
            name: "cat".into(),
            args: vec!["src/main.rs".into()],
        },
        Cmd {
            name: "rg".into(),
            args: vec!["match".into()],
        },
        Cmd {
            name: "head".into(),
            args: vec!["5".into()],
        },
    ];
    let got = ItemParser {
        env: &Environment::default(),
    }
    .parse(&input)
    .expect("parsing");
    assert_eq!(
        got,
        vec![Item::Pipeline {
            ignore_failure: true,
            terminus: Some("output.txt".into()),
            cmds: want,
            literal: input.into()
        }]
    );
}

#[test]
fn a_missing_name_fails_and_names_it() {
    let got = parse("run $(Unknown)");
    assert_eq!(
        got,
        Err("no value specified for argument: Unknown".to_string())
    );
}

#[test]
fn a_missing_position_fails_and_names_it() {
    let env = Environment {
        named: named(&[("3", "by name")]),
        positional: vec!["a".into(), "b".into()],
    };
    assert_eq!(
        parse_with(&env, "run $(3)"),
        Err("no value specified for argument: 3".to_string())
    );
    assert_eq!(
        parse_with(&env, "run $(99999999999999999999999999999999999999999999)"),
        Err(
            "no value specified for argument: 99999999999999999999999999999999999999999999"
                .to_string()
        )
    );
}

#[test]
fn parsing_twice_gives_equal_items() {
    let env = Environment {
        named: named(&[("Out", "dir")]),
        positional: vec!["x".into()],
    };
    let script = "// build\n- rm $(Out)/* ; cp a $(1)\ncat f | rg \"|\" > $(Out)/log";
    let first = parse_with(&env, script);
    let second = parse_with(&env, script);
    assert!(first.is_ok());
    assert_eq!(first, second);
    let failing = "ok\nrun $(Nope)\n";
    assert_eq!(parse_with(&env, failing), parse_with(&env, failing));
}

#[test]
fn comments_are_kept_as_written() {
    let got = parse("  // $(Unknown) | > ; \"  \n").unwrap();
    assert_eq!(got, vec![Item::Comment("// $(Unknown) | > ; \"".into())]);
}

#[test]
fn semicolons_separate_pipelines_in_order() {
    let got = parse("one 1; - two 2 ;three").unwrap();
    assert_eq!(
        got,
        vec![
            Item::Pipeline {
                cmds: vec![cmd("one", &["1"])],
                terminus: None,
                ignore_failure: false,
                literal: "one 1".into(),
            },
            Item::Pipeline {
                cmds: vec![cmd("-", &["two", "2"])],
                terminus: None,
                ignore_failure: false,
                literal: "- two 2".into(),
            },
            Item::Pipeline {
                cmds: vec![cmd("three", &[])],
                terminus: None,
                ignore_failure: false,
                literal: "three".into(),
            },
        ]
    );
}

#[test]
fn an_empty_command_is_an_error() {
    assert_eq!(parse("one;"), Err("empty command".to_string()));
    assert_eq!(parse("one |  | two"), Err("empty command".to_string()));
    for fragment in ["", "- ", "a | ", " > out"] {
        assert_eq!(
            ItemParser {
                env: &Environment::default()
            }
            .parse_pipeline(fragment),
            Err("empty command".to_string())
        );
    }
}

#[test]
fn the_first_error_of_a_script_is_reported() {
    assert_eq!(
        parse("fine\nrun $(A) $(B)\n;\n"),
        Err("no value specified for argument: A".to_string())
    );
    assert_eq!(
        parse("fine\n ; run $(A)\n"),
        Err("empty command".to_string())
    );
}

#[test]
fn the_name_of_a_command_is_not_substituted() {
    let env = Environment {
        named: named(&[("X", "value")]),
        positional: vec![],
    };
    let got = parse_with(&env, "$(X) $(X)").unwrap();
    assert_eq!(
        got,
        vec![Item::Pipeline {
            cmds: vec![cmd("$(X)", &["value"])],
            terminus: None,
            ignore_failure: false,
            literal: "$(X) $(X)".into(),
        }]
    );
}

#[test]
fn parse_argument_replaces_one_reference() {
    let env = Environment {
        named: named(&[("N", "name"), ("", "empty"), ("0", "zero"), ("+", "plus")]),
        positional: vec!["first".into(), "second".into()],
    };
    let parser = ItemParser { env: &env };
    let ok = |s: &str| Ok::<String, String>(s.to_string());
    assert_eq!(parser.parse_argument("plain".into()), ok("plain"));
    assert_eq!(parser.parse_argument("a$b$".into()), ok("a$b$"));
    assert_eq!(parser.parse_argument("$$(N)".into()), ok("$name"));
    assert_eq!(parser.parse_argument("<$(N)>".into()), ok("<name>"));
    assert_eq!(parser.parse_argument("$(N)$(N))".into()), ok("name$(N))"));
    assert_eq!(parser.parse_argument("x$(N".into()), ok("xname"));
    assert_eq!(parser.parse_argument("$()".into()), ok("empty"));
    assert_eq!(parser.parse_argument("$(1)".into()), ok("first"));
    assert_eq!(parser.parse_argument("$(+2)".into()), ok("second"));
    assert_eq!(parser.parse_argument("$(002)".into()), ok("second"));
    assert_eq!(parser.parse_argument("$(0)".into()), ok("zero"));
    assert_eq!(parser.parse_argument("$(+)".into()), ok("plus"));
    assert_eq!(
        parser.parse_argument("$(3)".into()),
        Err("no value specified for argument: 3".to_string())
    );
    assert_eq!(
        parser.parse_argument("$(1x)".into()),
        Err("no value specified for argument: 1x".to_string())
    );
}

#[test]
fn parse_pipeline_reads_marks_and_keeps_the_text() {
    let env = Environment::default();
    let parser = ItemParser { env: &env };
    assert_eq!(
        parser.parse_pipeline("  - a > b  "),
        Ok(Item::Pipeline {
            cmds: vec![cmd("-", &["a"])],
            terminus: Some("b  ".into()),
            ignore_failure: false,
            literal: "- a > b".into(),
        })
    );
    assert_eq!(
        parser.parse_pipeline("- - a > b > c"),
        Ok(Item::Pipeline {
            cmds: vec![cmd("-", &["a"])],
            terminus: Some("b > c".into()),
            ignore_failure: true,
            literal: "- - a > b > c".into(),
        })
    );
    assert_eq!(
        parser.parse_pipeline("a > x | b"),
        Ok(Item::Pipeline {
            cmds: vec![cmd("a", &[">", "x"]), cmd("b", &[])],
            terminus: None,
            ignore_failure: false,
            literal: "a > x | b".into(),
        })
    );
}

#[test]
fn parse_command_reads_name_and_arguments() {
    let env = Environment {
        named: vec![],
        positional: vec!["p".into()],
    };
    let parser = ItemParser { env: &env };
    let raw: Vec<char> = " echo \"a b\" $(1) ".chars().collect();
    assert_eq!(parser.parse_command(&raw), Ok(cmd("echo", &["a b", "p"])));
    let blank: Vec<char> = "  ".chars().collect();
    assert_eq!(
        parser.parse_command(&blank),
        Err("empty command".to_string())
    );
}

#[test]
fn a_blank_line_changes_nothing() {
    let env = Environment {
        named: named(&[("A", "a")]),
        positional: vec![],
    };
    for (above, below) in [
        ("one $(A)", "two"),
        ("", "two ; three"),
        ("// c", ""),
        ("one", "run $(Missing)"),
        ("bad $(Missing)", "two"),
    ] {
        let without = format!("{}\n{}", above, below);
        for blank in ["", "   ", "\t \r"] {
            let with = format!("{}\n{}\n{}", above, blank, below);
            assert_eq!(parse_with(&env, &with), parse_with(&env, &without));
        }
    }
}

#[test]
fn every_pipeline_has_a_command() {
    let script = "// c\n\na ; b | c > d\n   \n- e\n";
    let items = parse(script).unwrap();
    assert_eq!(items.len(), 4);
    for item in items {
        if let Item::Pipeline { cmds, .. } = item {
            assert!(!cmds.is_empty());
        }
    }
    assert_eq!(parse("").unwrap(), vec![]);
    assert_eq!(parse(" \n\n").unwrap(), vec![]);
}
