use run_script::env::Environment;
use run_script::parser::{Cmd, Item, ItemParser};
use run_script::pipeline::{failure, Action, Execution, Input, Outcome, Output, Pipeline};

fn strings(items: &[&str]) -> Vec<String> {
    items.iter().map(|s| s.to_string()).collect()
}

fn pipeline(text: &str) -> Item {
    let env = Environment::default();
    let mut items = ItemParser { env: &env }.parse(text).expect("parsing");
    assert_eq!(items.len(), 1);
    items.remove(0)
}

/// Runs the execution with every action reported as done.
fn actions(run: &mut Execution) -> Vec<Action> {
    let mut seen = Vec::new();
    loop {
        let action = run.next();
        let over = matches!(action, Action::Finish | Action::Abort(_));
        seen.push(action);
        if over {
            return seen;
        }
        run.record(Outcome::Done);
    }
}

fn spawn(program: &str, args: &[&str], input: Input, output: Output) -> Action {
    Action::Spawn {
        program: program.to_string(),
        args: strings(args),
        input,
        output,
    }
}

#[test]
fn a_comment_has_nothing_to_run() {
    let mut run = Item::Comment("// note".into()).execute();
    assert_eq!(actions(&mut run), vec![Action::Finish]);
}

#[test]
fn a_chain_of_processes_is_piped_and_the_last_is_waited_for() {
    let mut run = pipeline(r#"cat f | rg "a b" | head 5 > out.txt"#).execute();
    assert_eq!(
        actions(&mut run),
        vec![
            Action::Echo("cat f".into()),
            spawn("cat", &["f"], Input::Inherited, Output::Piped),
            Action::Echo("rg a b".into()),
            spawn("rg", &["a b"], Input::FromPreviousStage, Output::Piped),
            Action::Echo("head 5".into()),
            spawn(
                "head",
                &["5"],
                Input::FromPreviousStage,
                Output::File("out.txt".into())
            ),
            Action::Wait,
            Action::Finish,
        ]
    );
}

#[test]
fn a_single_process_inherits_input_and_output() {
    let mut run = pipeline("ls").execute();
    assert_eq!(
        actions(&mut run),
        vec![
            Action::Echo("ls ".into()),
            spawn("ls", &[], Input::Inherited, Output::Inherited),
            Action::Wait,
            Action::Finish,
        ]
    );
}

#[test]
fn built_in_commands_start_no_process() {
    let mut run = pipeline("rm a* b | cp x y").execute();
    assert_eq!(
        actions(&mut run),
        vec![
            Action::Echo("rm a* b".into()),
            Action::Remove {
                patterns: strings(&["a*", "b"]),
                index: 0
            },
            Action::Remove {
                patterns: strings(&["a*", "b"]),
                index: 1
            },
            Action::Echo("cp x y".into()),
            Action::Copy {
                source: "x".into(),
                destination: "y".into()
            },
            Action::Finish,
        ]
    );
}

#[test]
fn a_built_in_command_leaves_the_chain_of_processes_alone() {
    let mut run = pipeline("rm | sort | rm | uniq > u").execute();
    assert_eq!(
        actions(&mut run),
        vec![
            Action::Echo("rm ".into()),
            Action::Echo("sort ".into()),
            spawn("sort", &[], Input::Inherited, Output::Piped),
            Action::Echo("rm ".into()),
            Action::Echo("uniq ".into()),
            spawn(
                "uniq",
                &[],
                Input::FromPreviousStage,
                Output::File("u".into())
            ),
            Action::Wait,
            Action::Finish,
        ]
    );
}

#[test]
fn the_file_of_the_pipeline_is_for_its_last_command_only() {
    let mut run = pipeline("sort | rm x > out").execute();
    assert_eq!(
        actions(&mut run),
        vec![
            Action::Echo("sort ".into()),
            spawn("sort", &[], Input::Inherited, Output::Piped),
            Action::Echo("rm x".into()),
            Action::Remove {
                patterns: strings(&["x"]),
                index: 0
            },
            Action::Wait,
            Action::Finish,
        ]
    );
}

#[test]
fn copying_takes_exactly_two_arguments() {
    for (text, message) in [
        ("cp", "cp: invalid arguments: None None"),
        ("cp a", "cp: invalid arguments: Some(\"a\") None"),
        (
            "cp \"a\\\"q\" b c",
            "cp: invalid arguments: Some(\"a\\\\\\\"q\") Some(\"b\")",
        ),
    ] {
        let mut run = pipeline(text).execute();
        let seen = actions(&mut run);
        assert_eq!(seen.len(), 2);
        assert_eq!(seen[1], Action::Abort(message.to_string()));
        run.record(Outcome::Done);
        assert_eq!(run.next(), Action::Abort(message.to_string()));
    }
}

#[test]
fn a_pattern_that_is_not_well_formed_ends_the_pipeline() {
    let mut run = pipeline("rm ok* [ later").execute();
    assert_eq!(
        actions(&mut run),
        vec![
            Action::Echo("rm ok* [ later".into()),
            Action::Remove {
                patterns: strings(&["ok*", "[", "later"]),
                index: 0
            },
            Action::Abort(
                "rm ok* [ later: Pattern syntax error near position 0: invalid range pattern"
                    .into()
            ),
        ]
    );
}

#[test]
fn next_given_takes_the_fault_of_the_pattern_as_told() {
    let mut run = pipeline("rm a | ls").execute();
    assert_eq!(run.next_given(Some("no".into())), Action::Echo("rm a".into()));
    run.record(Outcome::Done);
    assert_eq!(
        run.next_given(None),
        Action::Remove {
            patterns: strings(&["a"]),
            index: 0
        }
    );
    assert_eq!(
        run.next_given(Some("bad pattern".into())),
        Action::Abort("rm a: bad pattern".into())
    );
    run.record(Outcome::Done);
    assert_eq!(run.next_given(Some("no".into())), Action::Echo("ls ".into()));
}

#[test]
fn a_failure_ends_the_pipeline_with_its_error() {
    let cases: Vec<(&str, usize, Outcome, &str)> = vec![
        ("ls", 0, Outcome::Failed("broken pipe".into()), "broken pipe"),
        (
            "rm a b",
            2,
            Outcome::Failed("denied".into()),
            "rm a b: denied",
        ),
        (
            "cp a b",
            1,
            Outcome::Failed("no such file".into()),
            "cp a b: no such file",
        ),
        (
            "prog x",
            1,
            Outcome::Failed("not found".into()),
            "prog: not found",
        ),
        (
            "prog > out",
            1,
            Outcome::TerminusFailed("denied".into()),
            "opening terminus file: denied",
        ),
        (
            "prog",
            1,
            Outcome::WorkingDirectoryFailed("gone".into()),
            "fetching current working directory: gone",
        ),
    ];
    for (text, done, outcome, message) in cases {
        let mut run = pipeline(text).execute();
        for _ in 0..done {
            run.record(Outcome::Done);
        }
        run.record(outcome);
        assert_eq!(run.next(), Action::Abort(message.to_string()));
        run.record(Outcome::Done);
        assert_eq!(run.next(), Action::Abort(message.to_string()));
    }
}

#[test]
fn a_failed_wait_is_no_failure() {
    let mut run = pipeline("ls").execute();
    run.record(Outcome::Done);
    run.record(Outcome::Done);
    assert_eq!(run.next(), Action::Wait);
    run.record(Outcome::Failed("interrupted".into()));
    assert_eq!(run.next(), Action::Finish);
    run.record(Outcome::Failed("late".into()));
    assert_eq!(run.next(), Action::Finish);
}

#[test]
fn failure_gives_the_error_of_an_outcome() {
    let wait = Action::Wait;
    let echo = Action::Echo("line".into());
    let abort = Action::Abort("told".into());
    assert_eq!(failure(&echo, &Outcome::Done), None);
    assert_eq!(
        failure(&echo, &Outcome::Failed("why".into())),
        Some("why".to_string())
    );
    assert_eq!(failure(&wait, &Outcome::TerminusFailed("why".into())), None);
    assert_eq!(failure(&Action::Finish, &Outcome::Failed("why".into())), None);
    assert_eq!(failure(&abort, &Outcome::Done), Some("told".to_string()));
}

#[test]
fn a_command_is_shown_by_its_name_and_arguments() {
    let cmd = Cmd {
        name: "echo".into(),
        args: strings(&["a b", "", "c"]),
    };
    assert_eq!(cmd.to_string(), "echo a b  c");
    let bare = Cmd {
        name: "ls".into(),
        args: vec![],
    };
    assert_eq!(bare.to_string(), "ls ");
}
