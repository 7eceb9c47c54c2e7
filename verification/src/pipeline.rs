//! The execution of a pipeline, as the sequence of actions that runs it.
//!
//! Nothing here touches a file or a process. A pipeline is turned into its
//! actions; whoever runs it performs one action at a time and reports how it
//! ended, and is told what comes next: the following action, the error that
//! ends the pipeline, or that the pipeline is done.

use crate::parser::{cmd_views, display, Cmd, CmdView, Item, ItemView};
use crate::text::{copy_string, copy_strings, join, join_strings, views};
use vstd::prelude::*;

verus! {

/// Where a process reads from.
#[derive(Debug, PartialEq, Eq, Clone, Copy)]
pub enum Input {
    /// The input of whoever runs the pipeline.
    Inherited,
    /// The output of the process that was started before it.
    FromPreviousStage,
}

/// What the output of a process is, by its path where it is a file.
pub enum OutputView {
    Inherited,
    Piped,
    File(Seq<char>),
}

/// Where a process writes to.
#[derive(Debug, PartialEq, Eq)]
pub enum Output {
    /// The output of whoever runs the pipeline.
    Inherited,
    /// A pipe that the next process reads from.
    Piped,
    /// The file at this path, made anew.
    File(String),
}

/// What an action holds.
pub enum ActionView {
    Echo(Seq<char>),
    Remove { patterns: Seq<Seq<char>>, index: nat },
    Copy { source: Seq<char>, destination: Seq<char> },
    Spawn { program: Seq<char>, args: Seq<Seq<char>>, input: Input, output: OutputView },
    Wait,
    Abort(Seq<char>),
    Finish,
}

/// One thing to do in the course of a pipeline.
#[derive(Debug, PartialEq, Eq)]
pub enum Action {
    /// Write the line, which shows the command that comes next.
    Echo(String),
    /// Delete every file that the pattern at `index` matches. The patterns
    /// are the arguments of the one `rm` command.
    Remove { patterns: Vec<String>, index: usize },
    /// Copy the file at `source` to `destination`.
    Copy { source: String, destination: String },
    /// Start the program with the arguments, in the current directory.
    Spawn { program: String, args: Vec<String>, input: Input, output: Output },
    /// Wait for the process that was started last.
    Wait,
    /// The pipeline has failed with this error; do nothing more.
    Abort(String),
    /// The pipeline is done.
    Finish,
}

/// What an outcome holds.
pub enum OutcomeView {
    Done,
    Failed(Seq<char>),
    TerminusFailed(Seq<char>),
    WorkingDirectoryFailed(Seq<char>),
}

/// How an action ended. A failure carries its cause in words.
#[derive(Debug, PartialEq, Eq)]
pub enum Outcome {
    /// The action was performed.
    Done,
    /// The action itself failed.
    Failed(String),
    /// Before a process was started, the file for its output could not be
    /// made.
    TerminusFailed(String),
    /// Before a process was started, the current directory could not be
    /// found.
    WorkingDirectoryFailed(String),
}

impl View for Output {
    type V = OutputView;

    open spec fn view(&self) -> OutputView {
        match self {
            Output::Inherited => OutputView::Inherited,
            Output::Piped => OutputView::Piped,
            Output::File(path) => OutputView::File(path@),
        }
    }
}

impl View for Action {
    type V = ActionView;

    open spec fn view(&self) -> ActionView {
        match self {
            Action::Echo(line) => ActionView::Echo(line@),
            Action::Remove { patterns, index } => ActionView::Remove {
                patterns: views(patterns@),
                index: *index as nat,
            },
            Action::Copy { source, destination } => ActionView::Copy {
                source: source@,
                destination: destination@,
            },
            Action::Spawn { program, args, input, output } => ActionView::Spawn {
                program: program@,
                args: views(args@),
                input: *input,
                output: output@,
            },
            Action::Wait => ActionView::Wait,
            Action::Abort(message) => ActionView::Abort(message@),
            Action::Finish => ActionView::Finish,
        }
    }
}

impl View for Outcome {
    type V = OutcomeView;

    open spec fn view(&self) -> OutcomeView {
        match self {
            Outcome::Done => OutcomeView::Done,
            Outcome::Failed(cause) => OutcomeView::Failed(cause@),
            Outcome::TerminusFailed(cause) => OutcomeView::TerminusFailed(cause@),
            Outcome::WorkingDirectoryFailed(cause) => OutcomeView::WorkingDirectoryFailed(cause@),
        }
    }
}

/// The views of the actions, in order.
pub open spec fn action_views(actions: Seq<Action>) -> Seq<ActionView> {
    actions.map_values(|a: Action| a@)
}

/// What `{:?}` writes for an optional string.
pub uninterp spec fn debug_text(value: Option<Seq<char>>) -> Seq<char>;

/// The formatting machinery of std writes an optional string with `{:?}`;
/// `debug_text` names what it writes.
#[verifier::external_body]
fn debug_form(value: Option<&String>) -> (r: String)
    ensures
        r@ == debug_text(
            match value {
                Some(s) => Some(s@),
                None => None,
            },
        ),
{
    format!("{:?}", value)
}

/// Asks `glob::glob` whether it takes the pattern: `None` if it does, else
/// the words of the error that it gives. Only the pattern is looked at, no
/// file. Nothing is claimed of the answer.
#[verifier::external_body]
fn pattern_fault(pattern: &str) -> (fault: Option<String>) {
    match glob::glob(pattern) {
        Ok(_) => None,
        Err(e) => Some(format!("{}", e)),
    }
}

/// Whether the command is run as a process of its own: `rm` and `cp` are
/// built in.
pub open spec fn is_external(cmd: CmdView) -> bool {
    cmd.name != "rm"@ && cmd.name != "cp"@
}

/// The error of an `rm` command: its patterns, and the cause.
pub open spec fn removal_error(patterns: Seq<Seq<char>>, cause: Seq<char>) -> Seq<char> {
    "rm "@ + join(patterns, " "@) + ": "@ + cause
}

/// The error of a `cp` command that failed.
pub open spec fn copy_error(source: Seq<char>, destination: Seq<char>, cause: Seq<char>) -> Seq<
    char,
> {
    "cp "@ + source + " "@ + destination + ": "@ + cause
}

/// The error of a `cp` command that has not exactly two arguments: what its
/// first two arguments are, as far as it has them.
pub open spec fn copy_arity_error(args: Seq<Seq<char>>) -> Seq<char> {
    "cp: invalid arguments: "@ + debug_text(
        if args.len() > 0 {
            Some(args[0])
        } else {
            None
        },
    ) + " "@ + debug_text(
        if args.len() > 1 {
            Some(args[1])
        } else {
            None
        },
    )
}

/// The error of a process that could not be started.
pub open spec fn spawn_error(program: Seq<char>, cause: Seq<char>) -> Seq<char> {
    program + ": "@ + cause
}

/// The error of an output file that could not be made.
pub open spec fn terminus_error(cause: Seq<char>) -> Seq<char> {
    "opening terminus file: "@ + cause
}

/// The error of a current directory that could not be found.
pub open spec fn working_directory_error(cause: Seq<char>) -> Seq<char> {
    "fetching current working directory: "@ + cause
}

/// What a command does after it is shown.
///
/// `rm` deletes by each of its patterns in turn. `cp` copies its first
/// argument to its second, and fails if it has not exactly two. Any other
/// command is started as a process: it reads from the process started before
/// it, if there is one (`chained`), and writes to a pipe if a command follows
/// it, else to the file of the pipeline, if it has one.
pub open spec fn work_of(cmd: CmdView, chained: bool, last: bool, terminus: Option<Seq<char>>) -> Seq<
    ActionView,
> {
    if cmd.name == "rm"@ {
        Seq::new(
            cmd.args.len(),
            |j: int| ActionView::Remove { patterns: cmd.args, index: j as nat },
        )
    } else if cmd.name == "cp"@ {
        if cmd.args.len() == 2 {
            seq![ActionView::Copy { source: cmd.args[0], destination: cmd.args[1] }]
        } else {
            seq![ActionView::Abort(copy_arity_error(cmd.args))]
        }
    } else {
        seq![
            ActionView::Spawn {
                program: cmd.name,
                args: cmd.args,
                input: if chained {
                    Input::FromPreviousStage
                } else {
                    Input::Inherited
                },
                output: if !last {
                    OutputView::Piped
                } else {
                    match terminus {
                        Some(path) => OutputView::File(path),
                        None => OutputView::Inherited,
                    }
                },
            },
        ]
    }
}

/// The actions of the commands from index `k` on, and the wait for the last
/// process at the end if one was started. `chained` says whether a process
/// was started by a command before `k`.
pub open spec fn plan_from(
    cmds: Seq<CmdView>,
    terminus: Option<Seq<char>>,
    k: int,
    chained: bool,
) -> Seq<ActionView>
    decreases cmds.len() - k,
{
    if k < 0 || k >= cmds.len() {
        if chained {
            seq![ActionView::Wait]
        } else {
            Seq::empty()
        }
    } else {
        seq![ActionView::Echo(display(cmds[k]))] + work_of(
            cmds[k],
            chained,
            k + 1 == cmds.len(),
            terminus,
        ) + plan_from(cmds, terminus, k + 1, chained || is_external(cmds[k]))
    }
}

/// The actions that run an item, in order. A comment has none.
pub open spec fn plan(item: ItemView) -> Seq<ActionView> {
    match item {
        ItemView::Comment(_) => Seq::empty(),
        ItemView::Pipeline { cmds, terminus, .. } => plan_from(cmds, terminus, 0, false),
    }
}

/// The error with which an outcome ends the pipeline, if it ends it. A
/// failure of the wait does not, and an action that is itself the end of the
/// pipeline fails with nothing.
pub open spec fn failure_of(action: ActionView, outcome: OutcomeView) -> Option<Seq<char>> {
    match action {
        ActionView::Wait | ActionView::Finish => None,
        ActionView::Abort(message) => Some(message),
        _ => match outcome {
            OutcomeView::Done => None,
            OutcomeView::TerminusFailed(cause) => Some(terminus_error(cause)),
            OutcomeView::WorkingDirectoryFailed(cause) => Some(working_directory_error(cause)),
            OutcomeView::Failed(cause) => match action {
                ActionView::Remove { patterns, .. } => Some(removal_error(patterns, cause)),
                ActionView::Copy { source, destination } => Some(
                    copy_error(source, destination, cause),
                ),
                ActionView::Spawn { program, .. } => Some(spawn_error(program, cause)),
                _ => Some(cause),
            },
        },
    }
}

/// What an execution holds: the actions of the pipeline, how many of them
/// are done, and the error that has ended it, if one has.
pub struct ExecutionView {
    pub steps: Seq<ActionView>,
    pub at: nat,
    pub failure: Option<Seq<char>>,
}

impl ExecutionView {
    /// What is to be done now. `fault` is what was found wrong with the
    /// pattern, where a removal is next.
    pub open spec fn current(self, fault: Option<Seq<char>>) -> ActionView {
        match self.failure {
            Some(message) => ActionView::Abort(message),
            None => if self.at >= self.steps.len() {
                ActionView::Finish
            } else {
                match (self.steps[self.at as int], fault) {
                    (ActionView::Remove { patterns, .. }, Some(cause)) => ActionView::Abort(
                        removal_error(patterns, cause),
                    ),
                    (action, _) => action,
                }
            },
        }
    }

    /// The pattern by which files are deleted next: that of the removal
    /// that is the current action, if the execution has not ended and its
    /// current action is a removal by one of its patterns.
    pub open spec fn pattern(self) -> Option<Seq<char>> {
        if self.failure is None && self.at < self.steps.len() {
            match self.steps[self.at as int] {
                ActionView::Remove { patterns, index } => if index < patterns.len() {
                    Some(patterns[index as int])
                } else {
                    None
                },
                _ => None,
            }
        } else {
            None
        }
    }

    /// The execution after the outcome of its current action: ended by the
    /// error that the outcome stands for, or one action further. An
    /// execution that has ended stays as it is.
    pub open spec fn after(self, outcome: OutcomeView) -> ExecutionView {
        if self.failure is Some || self.at >= self.steps.len() {
            self
        } else {
            match failure_of(self.steps[self.at as int], outcome) {
                Some(message) => ExecutionView {
                    steps: self.steps,
                    at: self.at,
                    failure: Some(message),
                },
                None => ExecutionView {
                    steps: self.steps,
                    at: self.at + 1,
                    failure: None,
                },
            }
        }
    }
}

/// The state of running one pipeline.
pub struct Execution {
    steps: Vec<Action>,
    at: usize,
    failure: Option<String>,
}

impl View for Execution {
    type V = ExecutionView;

    closed spec fn view(&self) -> ExecutionView {
        ExecutionView {
            steps: action_views(self.steps@),
            at: self.at as nat,
            failure: match self.failure {
                Some(message) => Some(message@),
                None => None,
            },
        }
    }
}

/// Something that is run as a sequence of actions.
pub trait Pipeline {
    /// The actions, in order.
    spec fn steps(&self) -> Seq<ActionView>;

    /// The execution before its first action.
    fn execute(&self) -> (run: Execution)
        ensures
            run@ == (ExecutionView { steps: self.steps(), at: 0, failure: None }),
    ;
}

/// A copy of the output.
fn copy_output(output: &Output) -> (r: Output)
    ensures
        r@ == output@,
{
    match output {
        Output::Inherited => Output::Inherited,
        Output::Piped => Output::Piped,
        Output::File(path) => Output::File(copy_string(path)),
    }
}

/// A copy of the action.
fn copy_action(action: &Action) -> (r: Action)
    ensures
        r@ == action@,
{
    match action {
        Action::Echo(line) => Action::Echo(copy_string(line)),
        Action::Remove { patterns, index } => Action::Remove {
            patterns: copy_strings(patterns),
            index: *index,
        },
        Action::Copy { source, destination } => Action::Copy {
            source: copy_string(source),
            destination: copy_string(destination),
        },
        Action::Spawn { program, args, input, output } => Action::Spawn {
            program: copy_string(program),
            args: copy_strings(args),
            input: *input,
            output: copy_output(output),
        },
        Action::Wait => Action::Wait,
        Action::Abort(message) => Action::Abort(copy_string(message)),
        Action::Finish => Action::Finish,
    }
}

/// The error of an `rm` command.
fn removal_message(patterns: &Vec<String>, cause: &String) -> (r: String)
    ensures
        r@ == removal_error(views(patterns@), cause@),
{
    let mut r = "rm ".to_owned();
    r.push_str(join_strings(patterns, " ").as_str());
    r.push_str(": ");
    r.push_str(cause.as_str());
    r
}

/// The error of a `cp` command that has not exactly two arguments.
fn copy_arity_message(args: &Vec<String>) -> (r: String)
    ensures
        r@ == copy_arity_error(views(args@)),
{
    let first = if args.len() > 0 {
        assert(views(args@)[0] == args[0]@);
        debug_form(Some(&args[0]))
    } else {
        debug_form(None)
    };
    let second = if args.len() > 1 {
        assert(views(args@)[1] == args[1]@);
        debug_form(Some(&args[1]))
    } else {
        debug_form(None)
    };
    let mut r = "cp: invalid arguments: ".to_owned();
    r.push_str(first.as_str());
    r.push_str(" ");
    r.push_str(second.as_str());
    r
}

/// The error with which the outcome ends the pipeline, if it ends it.
pub fn failure(action: &Action, outcome: &Outcome) -> (r: Option<String>)
    ensures
        match failure_of(action@, outcome@) {
            Some(message) => r matches Some(m) && m@ == message,
            None => r is None,
        },
{
    match action {
        Action::Wait => {
            return None;
        },
        Action::Finish => {
            return None;
        },
        Action::Abort(message) => {
            return Some(copy_string(message));
        },
        _ => {},
    }
    match outcome {
        Outcome::Done => None,
        Outcome::TerminusFailed(cause) => {
            let mut r = "opening terminus file: ".to_owned();
            r.push_str(cause.as_str());
            Some(r)
        },
        Outcome::WorkingDirectoryFailed(cause) => {
            let mut r = "fetching current working directory: ".to_owned();
            r.push_str(cause.as_str());
            Some(r)
        },
        Outcome::Failed(cause) => match action {
            Action::Remove { patterns, .. } => Some(removal_message(patterns, cause)),
            Action::Copy { source, destination } => {
                let mut r = "cp ".to_owned();
                r.push_str(source.as_str());
                r.push_str(" ");
                r.push_str(destination.as_str());
                r.push_str(": ");
                r.push_str(cause.as_str());
                Some(r)
            },
            Action::Spawn { program, .. } => {
                let mut r = copy_string(program);
                r.push_str(": ");
                r.push_str(cause.as_str());
                Some(r)
            },
            _ => Some(copy_string(cause)),
        },
    }
}

/// Puts what the command does after it is shown onto `steps`.
fn push_work(
    steps: &mut Vec<Action>,
    cmd: &Cmd,
    chained: bool,
    last: bool,
    terminus: &Option<String>,
)
    ensures
        action_views(final(steps)@) == action_views(old(steps)@) + work_of(
            cmd@,
            chained,
            last,
            match terminus {
                Some(path) => Some(path@),
                None => None,
            },
        ),
{
    let ghost start = action_views(steps@);
    let ghost goal = work_of(
        cmd@,
        chained,
        last,
        match terminus {
            Some(path) => Some(path@),
            None => None,
        },
    );
    let rm = "rm".to_owned();
    let cp = "cp".to_owned();
    if cmd.name == rm {
        let mut j: usize = 0;
        assert(start + goal.take(0) == start);
        while j < cmd.args.len()
            invariant
                j <= cmd.args.len(),
                cmd@.name == "rm"@,
                goal == Seq::new(
                    cmd@.args.len(),
                    |j: int| ActionView::Remove { patterns: cmd@.args, index: j as nat },
                ),
                goal.len() == cmd.args.len(),
                action_views(steps@) == start + goal.take(j as int),
            decreases cmd.args.len() - j,
        {
            let ghost before = action_views(steps@);
            let action = Action::Remove { patterns: copy_strings(&cmd.args), index: j };
            steps.push(action);
            assert(action_views(steps@) == before.push(action@));
            assert(action@ == goal[j as int]);
            assert((start + goal.take(j as int)).push(goal[j as int]) == start + goal.take(j + 1));
            j += 1;
        }
        assert(goal.take(cmd.args.len() as int) == goal);
    } else if cmd.name == cp {
        let action = if cmd.args.len() == 2 {
            assert(views(cmd.args@)[0] == cmd.args[0]@);
            assert(views(cmd.args@)[1] == cmd.args[1]@);
            Action::Copy {
                source: copy_string(&cmd.args[0]),
                destination: copy_string(&cmd.args[1]),
            }
        } else {
            Action::Abort(copy_arity_message(&cmd.args))
        };
        steps.push(action);
        assert(action_views(steps@) == start.push(action@));
        assert(start.push(action@) == start + seq![action@]);
    } else {
        let input = if chained {
            Input::FromPreviousStage
        } else {
            Input::Inherited
        };
        let output = if !last {
            Output::Piped
        } else {
            match terminus {
                Some(path) => Output::File(copy_string(path)),
                None => Output::Inherited,
            }
        };
        let action = Action::Spawn {
            program: copy_string(&cmd.name),
            args: copy_strings(&cmd.args),
            input,
            output,
        };
        steps.push(action);
        assert(action_views(steps@) == start.push(action@));
        assert(start.push(action@) == start + seq![action@]);
    }
}

impl Pipeline for Item {
    open spec fn steps(&self) -> Seq<ActionView> {
        plan(self@)
    }

    fn execute(&self) -> (run: Execution) {
        let mut steps: Vec<Action> = Vec::new();
        assert(action_views(steps@) == Seq::<ActionView>::empty());
        match self {
            Item::Comment(_) => {},
            Item::Pipeline { cmds, terminus, .. } => {
                let ghost path = match terminus {
                    Some(path) => Some(path@),
                    None => None,
                };
                let ghost all = cmd_views(cmds@);
                let rm = "rm".to_owned();
                let cp = "cp".to_owned();
                let mut chained: bool = false;
                let mut k: usize = 0;
                assert(Seq::<ActionView>::empty() + plan_from(all, path, 0, false) == plan_from(
                    all,
                    path,
                    0,
                    false,
                ));
                while k < cmds.len()
                    invariant
                        k <= cmds.len(),
                        all == cmd_views(cmds@),
                        rm@ == "rm"@,
                        cp@ == "cp"@,
                        path == match terminus {
                            Some(path) => Some(path@),
                            None => None,
                        },
                        plan_from(all, path, 0, false) == action_views(steps@) + plan_from(
                            all,
                            path,
                            k as int,
                            chained,
                        ),
                    decreases cmds.len() - k,
                {
                    let cmd = &cmds[k];
                    assert(all[k as int] == cmd@);
                    let ghost before = action_views(steps@);
                    let echo = Action::Echo(cmd.to_string());
                    steps.push(echo);
                    assert(action_views(steps@) == before.push(echo@));
                    let last = k + 1 == cmds.len();
                    push_work(&mut steps, cmd, chained, last, terminus);
                    let ghost work = work_of(cmd@, chained, last, path);
                    let external = !(cmd.name == rm || cmd.name == cp);
                    let ghost rest = plan_from(all, path, k + 1, chained || external);
                    assert(before.push(echo@) + work + rest == before + (seq![echo@] + work
                        + rest));
                    chained = chained || external;
                    k += 1;
                }
                if chained {
                    let ghost before = action_views(steps@);
                    steps.push(Action::Wait);
                    assert(action_views(steps@) == before.push(ActionView::Wait));
                    assert(before.push(ActionView::Wait) == before + seq![ActionView::Wait]);
                } else {
                    assert(action_views(steps@) + Seq::<ActionView>::empty() == action_views(
                        steps@,
                    ));
                }
            },
        }
        Execution { steps, at: 0, failure: None }
    }
}

impl Execution {
    /// What is to be done now, given what was found wrong with the pattern
    /// where a removal is next: the error that has ended the pipeline, the
    /// error of the pattern, the action that is next, or that the pipeline
    /// is done.
    pub fn next_given(&self, fault: Option<String>) -> (action: Action)
        ensures
            action@ == self@.current(
                match fault {
                    Some(cause) => Some(cause@),
                    None => None,
                },
            ),
    {
        match &self.failure {
            Some(message) => {
                return Action::Abort(copy_string(message));
            },
            None => {},
        }
        if self.at >= self.steps.len() {
            return Action::Finish;
        }
        let step = &self.steps[self.at];
        assert(action_views(self.steps@)[self.at as int] == step@);
        match (step, fault) {
            (Action::Remove { patterns, .. }, Some(cause)) => Action::Abort(
                removal_message(patterns, &cause),
            ),
            (_, _) => copy_action(step),
        }
    }

    /// The pattern of the removal that is next, if a removal is next.
    fn pattern(&self) -> (r: Option<&String>)
        ensures
            match self@.pattern() {
                Some(pattern) => r matches Some(p) && p@ == pattern,
                None => r is None,
            },
    {
        if self.failure.is_some() || self.at >= self.steps.len() {
            return None;
        }
        assert(action_views(self.steps@)[self.at as int] == self.steps[self.at as int]@);
        match &self.steps[self.at] {
            Action::Remove { patterns, index } => if *index < patterns.len() {
                assert(views(patterns@)[*index as int] == patterns[*index as int]@);
                Some(&patterns[*index])
            } else {
                None
            },
            _ => None,
        }
    }

    /// What is to be done now. Where a removal is next, its pattern is
    /// looked at first, and a pattern that is not well formed ends the
    /// pipeline with an error before any file is touched for it.
    pub fn next(&self) -> (action: Action)
        ensures
            exists|fault: Option<Seq<char>>| action@ == #[trigger] self@.current(fault),
            !(self@.failure is None && self@.at < self@.steps.len()
                && self@.steps[self@.at as int] is Remove) ==> action@ == self@.current(None),
    {
        let fault = match self.pattern() {
            Some(pattern) => pattern_fault(pattern.as_str()),
            None => None,
        };
        let action = self.next_given(fault);
        assert(action@ == self@.current(
            match fault {
                Some(cause) => Some(cause@),
                None => None,
            },
        ));
        action
    }

    /// Takes in the outcome of the action that was to be done: the pipeline
    /// is ended by the error that the outcome stands for, or it is one
    /// action further.
    pub fn record(&mut self, outcome: Outcome)
        ensures
            final(self)@ == old(self)@.after(outcome@),
    {
        if self.failure.is_some() || self.at >= self.steps.len() {
            return ;
        }
        assert(action_views(self.steps@)[self.at as int] == self.steps[self.at as int]@);
        match failure(&self.steps[self.at], &outcome) {
            Some(message) => {
                self.failure = Some(message);
            },
            None => {
                self.at = self.at + 1;
            },
        }
    }
}

} // verus!
