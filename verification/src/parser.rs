//! The parser: a script is a sequence of lines, a line is a comment or a
//! sequence of pipelines, and a pipeline is a chain of commands whose
//! arguments may refer to the variables of the environment.

use crate::env::{Environment, EnvironmentView};
use crate::text::{
    chars_of, copy_string, find, find_from, find_in, has_at, join, join_strings, slice, split,
    split_on, starts_with, texts, to_string, trim, trimmed, views,
};
use crate::util::{split_words, words};
use vstd::prelude::*;

verus! {

/// What a command holds: its name and its arguments.
pub struct CmdView {
    pub name: Seq<char>,
    pub args: Seq<Seq<char>>,
}

/// One command of a pipeline: the program or built-in to run, and the
/// arguments it is given.
#[derive(Debug, PartialEq)]
pub struct Cmd {
    pub name: String,
    pub args: Vec<String>,
}

/// What an item holds.
pub enum ItemView {
    Comment(Seq<char>),
    Pipeline { cmds: Seq<CmdView>, terminus: Option<Seq<char>>, ignore_failure: bool, literal: Seq<
        char,
    > },
}

/// One unit of a script: a comment, kept as written, or a pipeline.
///
/// In a pipeline, `terminus` is the path of the file that takes the output of
/// the last command, `ignore_failure` says that a failure of the pipeline
/// does not stop the run, and `literal` is the text that the pipeline was
/// read from, without the whitespace at its ends.
#[derive(Debug, PartialEq)]
pub enum Item {
    Comment(String),
    Pipeline { cmds: Vec<Cmd>, terminus: Option<String>, ignore_failure: bool, literal: String },
}

/// The parser of scripts over the variables of `env`.
pub struct ItemParser<'a> {
    pub env: &'a Environment,
}

/// The line that shows a command: its name, a space, and its arguments with
/// a space between neighbours.
pub open spec fn display(cmd: CmdView) -> Seq<char> {
    cmd.name + seq![' '] + join(cmd.args, seq![' '])
}

impl Cmd {
    /// The line that shows the command.
    pub fn to_string(&self) -> (r: String)
        ensures
            r@ == display(self@),
    {
        let space: &str = " ";
        proof {
            reveal_strlit(" ");
            assert(space@ == seq![' ']);
        }
        let mut r = copy_string(&self.name);
        r.push_str(space);
        let args = join_strings(&self.args, space);
        r.push_str(args.as_str());
        r
    }
}

impl View for Cmd {
    type V = CmdView;

    open spec fn view(&self) -> CmdView {
        CmdView { name: self.name@, args: views(self.args@) }
    }
}

/// The views of the commands, in order.
pub open spec fn cmd_views(cmds: Seq<Cmd>) -> Seq<CmdView> {
    cmds.map_values(|c: Cmd| c@)
}

impl View for Item {
    type V = ItemView;

    open spec fn view(&self) -> ItemView {
        match self {
            Item::Comment(text) => ItemView::Comment(text@),
            Item::Pipeline { cmds, terminus, ignore_failure, literal } => ItemView::Pipeline {
                cmds: cmd_views(cmds@),
                terminus: match terminus {
                    Some(path) => Some(path@),
                    None => None,
                },
                ignore_failure: *ignore_failure,
                literal: literal@,
            },
        }
    }
}

/// The views of the items, in order.
pub open spec fn item_views(items: Seq<Item>) -> Seq<ItemView> {
    items.map_values(|i: Item| i@)
}

/// The mark that opens a reference to a variable.
pub open spec fn open_mark() -> Seq<char> {
    seq!['$', '(']
}

/// The mark that closes a reference to a variable.
pub open spec fn close_mark() -> Seq<char> {
    seq![')']
}

/// The separator of the commands of a pipeline.
pub open spec fn pipe_mark() -> Seq<char> {
    seq![' ', '|', ' ']
}

/// The mark before the path that takes the output of a pipeline.
pub open spec fn redirect_mark() -> Seq<char> {
    seq![' ', '>', ' ']
}

/// The mark at the start of a pipeline whose failure is ignored.
pub open spec fn ignore_mark() -> Seq<char> {
    seq!['-', ' ']
}

/// The mark at the start of a comment.
pub open spec fn comment_mark() -> Seq<char> {
    seq!['/', '/']
}

/// The separator of the pipelines of a line.
pub open spec fn pipeline_mark() -> Seq<char> {
    seq![';']
}

/// The separator of the lines of a script.
pub open spec fn line_mark() -> Seq<char> {
    seq!['\n']
}

/// Whether `c` is a decimal digit.
pub open spec fn is_digit(c: char) -> bool {
    '0' as u32 <= c as u32 <= '9' as u32
}

/// The number that the decimal digits `s` write.
pub open spec fn decimal(s: Seq<char>) -> nat
    decreases s.len(),
{
    if s.len() == 0 {
        0
    } else {
        decimal(s.drop_last()) * 10 + (s.last() as u32 - '0' as u32) as nat
    }
}

/// The digits of an identifier that may write a position: the identifier
/// without the plus sign it may begin with.
pub open spec fn digits_of(ident: Seq<char>) -> Seq<char> {
    if ident.len() > 0 && ident[0] == '+' {
        ident.subrange(1, ident.len() as int)
    } else {
        ident
    }
}

/// The position that an identifier writes, if it writes one: a positive
/// number in decimal digits, which a plus sign may precede.
pub open spec fn position_of(ident: Seq<char>) -> Option<nat> {
    let digits = digits_of(ident);
    if digits.len() > 0 && (forall|i: int| 0 <= i < digits.len() ==> is_digit(#[trigger] digits[i]))
        && decimal(digits) >= 1 {
        Some(decimal(digits))
    } else {
        None
    }
}

/// A reference to a variable inside an argument: the text before it, the
/// identifier between its marks, and the text after it.
pub struct Reference {
    pub prefix: Seq<char>,
    pub ident: Seq<char>,
    pub suffix: Seq<char>,
}

/// The first reference in the argument, if it holds one. The identifier ends
/// at the first closing mark after the opening one, or with the argument
/// where there is none.
pub open spec fn reference(arg: Seq<char>) -> Option<Reference> {
    match find(arg, open_mark()) {
        None => None,
        Some(i) => match find_from(arg, close_mark(), i + 2) {
            Some(j) => Some(
                Reference {
                    prefix: arg.subrange(0, i),
                    ident: arg.subrange(i + 2, j),
                    suffix: arg.subrange(j + 1, arg.len() as int),
                },
            ),
            None => Some(
                Reference {
                    prefix: arg.subrange(0, i),
                    ident: arg.subrange(i + 2, arg.len() as int),
                    suffix: Seq::empty(),
                },
            ),
        },
    }
}

/// The value that an identifier refers to: the positional value at its
/// position, counted from one, if it writes a position, else the value of the
/// name.
pub open spec fn resolve(env: EnvironmentView, ident: Seq<char>) -> Option<Seq<char>> {
    match position_of(ident) {
        Some(n) => if n <= env.positional.len() {
            Some(env.positional[n - 1])
        } else {
            None
        },
        None => if env.named.contains_key(ident) {
            Some(env.named[ident])
        } else {
            None
        },
    }
}

/// The error for an identifier that refers to no value.
pub open spec fn unresolved(ident: Seq<char>) -> Seq<char> {
    "no value specified for argument: "@ + ident
}

/// The argument with its reference, if it holds one, replaced by the value
/// referred to; the error where there is no such value.
pub open spec fn substitute(env: EnvironmentView, arg: Seq<char>) -> Result<Seq<char>, Seq<char>> {
    match reference(arg) {
        None => Ok(arg),
        Some(r) => match resolve(env, r.ident) {
            Some(value) => Ok(r.prefix + value + r.suffix),
            None => Err(unresolved(r.ident)),
        },
    }
}

/// What `f` gives for each element of `s`, in order, or the error that it
/// gives for the first element for which it fails.
pub open spec fn try_map<A, B>(s: Seq<A>, f: spec_fn(A) -> Result<B, Seq<char>>) -> Result<
    Seq<B>,
    Seq<char>,
>
    decreases s.len(),
{
    if s.len() == 0 {
        Ok(Seq::empty())
    } else {
        match try_map(s.drop_last(), f) {
            Err(e) => Err(e),
            Ok(front) => match f(s.last()) {
                Err(e) => Err(e),
                Ok(value) => Ok(front.push(value)),
            },
        }
    }
}

/// An error among the first `k` elements is the error of the whole.
pub proof fn lemma_try_map_fails<A, B>(s: Seq<A>, f: spec_fn(A) -> Result<B, Seq<char>>, k: int)
    requires
        0 <= k <= s.len(),
        try_map(s.take(k), f) is Err,
    ensures
        try_map(s, f) == try_map(s.take(k), f),
    decreases s.len() - k,
{
    if k == s.len() {
        assert(s.take(k) == s);
    } else {
        assert(s.drop_last().take(k) == s.take(k));
        lemma_try_map_fails(s.drop_last(), f, k);
    }
}

/// What the first `k + 1` elements give follows from what the first `k`
/// give and from the element at `k`.
pub proof fn lemma_try_map_step<A, B>(s: Seq<A>, f: spec_fn(A) -> Result<B, Seq<char>>, k: int)
    requires
        0 <= k < s.len(),
    ensures
        try_map(s.take(k + 1), f) == match try_map(s.take(k), f) {
            Err(e) => Err(e),
            Ok(front) => match f(s[k]) {
                Err(e) => Err(e),
                Ok(value) => Ok(front.push(value)),
            },
        },
{
    assert(s.take(k + 1).drop_last() == s.take(k));
    assert(s.take(k + 1).last() == s[k]);
}

/// The replacement of references over the variables of `env`.
pub open spec fn substitution(env: EnvironmentView) -> spec_fn(Seq<char>) -> Result<
    Seq<char>,
    Seq<char>,
> {
    |arg: Seq<char>| substitute(env, arg)
}

/// The arguments with their references replaced, or the error of the first
/// argument that has one.
pub open spec fn substitute_all(env: EnvironmentView, args: Seq<Seq<char>>) -> Result<
    Seq<Seq<char>>,
    Seq<char>,
> {
    try_map(args, substitution(env))
}

/// The error for a command without a word.
pub open spec fn empty_command() -> Seq<char> {
    "empty command"@
}

/// The command that a text writes: its first word is the name, the other
/// words, with their references replaced, are the arguments.
pub open spec fn command(env: EnvironmentView, raw: Seq<char>) -> Result<CmdView, Seq<char>> {
    let w = words(raw);
    if w.len() == 0 {
        Err(empty_command())
    } else {
        match substitute_all(env, w.subrange(1, w.len() as int)) {
            Ok(args) => Ok(CmdView { name: w[0], args }),
            Err(e) => Err(e),
        }
    }
}

/// The reading of commands over the variables of `env`.
pub open spec fn command_reading(env: EnvironmentView) -> spec_fn(Seq<char>) -> Result<
    CmdView,
    Seq<char>,
> {
    |raw: Seq<char>| command(env, raw)
}

/// The commands that the texts write, or the error of the first text that
/// has one.
pub open spec fn commands(env: EnvironmentView, raws: Seq<Seq<char>>) -> Result<
    Seq<CmdView>,
    Seq<char>,
> {
    try_map(raws, command_reading(env))
}

/// Whether the failure of the pipeline that a fragment writes is ignored.
pub open spec fn ignores_failure(fragment: Seq<char>) -> bool {
    starts_with(fragment, ignore_mark())
}

/// The fragment without the mark that it may begin with.
pub open spec fn body_of(fragment: Seq<char>) -> Seq<char> {
    if ignores_failure(fragment) {
        fragment.subrange(2, fragment.len() as int)
    } else {
        fragment
    }
}

/// The path that takes the output of the pipeline, if the fragment names
/// one: what follows the first redirect mark in its last piece.
pub open spec fn terminus_of(fragment: Seq<char>) -> Option<Seq<char>> {
    let last = split(body_of(fragment), pipe_mark()).last();
    match find(last, redirect_mark()) {
        Some(i) => Some(last.subrange(i + 3, last.len() as int)),
        None => None,
    }
}

/// The texts of the commands of the pipeline that a fragment writes: the
/// pieces between the pipe marks, the last one without its redirection.
pub open spec fn raw_commands(fragment: Seq<char>) -> Seq<Seq<char>> {
    let pieces = split(body_of(fragment), pipe_mark());
    let last = pieces.last();
    match find(last, redirect_mark()) {
        Some(i) => pieces.drop_last().push(last.subrange(0, i)),
        None => pieces,
    }
}

/// The pipeline that a fragment writes, or the error of its first command
/// that has one.
pub open spec fn pipeline(env: EnvironmentView, fragment: Seq<char>) -> Result<ItemView, Seq<char>> {
    match commands(env, raw_commands(fragment)) {
        Ok(cmds) => Ok(
            ItemView::Pipeline {
                cmds,
                terminus: terminus_of(fragment),
                ignore_failure: ignores_failure(fragment),
                literal: trim(fragment),
            },
        ),
        Err(e) => Err(e),
    }
}

/// The reading of pipelines over the variables of `env`.
pub open spec fn pipeline_reading(env: EnvironmentView) -> spec_fn(Seq<char>) -> Result<
    ItemView,
    Seq<char>,
> {
    |fragment: Seq<char>| pipeline(env, fragment)
}

/// The pipelines that the fragments write, or the error of the first
/// fragment that has one.
pub open spec fn pipelines(env: EnvironmentView, fragments: Seq<Seq<char>>) -> Result<
    Seq<ItemView>,
    Seq<char>,
> {
    try_map(fragments, pipeline_reading(env))
}

/// The items of one line, which is taken without the whitespace at its ends:
/// none if nothing is left of it, the line as a comment if it begins with the
/// comment mark, else the pipelines between its semicolons.
pub open spec fn line_items(env: EnvironmentView, line: Seq<char>) -> Result<
    Seq<ItemView>,
    Seq<char>,
> {
    let text = trim(line);
    if text.len() == 0 {
        Ok(Seq::empty())
    } else if starts_with(text, comment_mark()) {
        Ok(seq![ItemView::Comment(text)])
    } else {
        pipelines(env, split(text, pipeline_mark()))
    }
}

/// The items of the lines, in order, or the error of the first line that
/// has one.
pub open spec fn lines_items(env: EnvironmentView, lines: Seq<Seq<char>>) -> Result<
    Seq<ItemView>,
    Seq<char>,
>
    decreases lines.len(),
{
    if lines.len() == 0 {
        Ok(Seq::empty())
    } else {
        match lines_items(env, lines.drop_last()) {
            Err(e) => Err(e),
            Ok(front) => match line_items(env, lines.last()) {
                Err(e) => Err(e),
                Ok(items) => Ok(front + items),
            },
        }
    }
}

/// An error among the first `k` lines is the error of the whole script.
pub proof fn lemma_lines_fail(env: EnvironmentView, lines: Seq<Seq<char>>, k: int)
    requires
        0 <= k <= lines.len(),
        lines_items(env, lines.take(k)) is Err,
    ensures
        lines_items(env, lines) == lines_items(env, lines.take(k)),
    decreases lines.len() - k,
{
    if k == lines.len() {
        assert(lines.take(k) == lines);
    } else {
        assert(lines.drop_last().take(k) == lines.take(k));
        lemma_lines_fail(env, lines.drop_last(), k);
    }
}

/// The items of a script, or its first error.
pub open spec fn script_items(env: EnvironmentView, text: Seq<char>) -> Result<
    Seq<ItemView>,
    Seq<char>,
> {
    lines_items(env, split(text, line_mark()))
}

/// Whether `items`, as the result of parsing, agrees with `expected`.
pub open spec fn agrees(result: Result<Vec<Item>, String>, expected: Result<
    Seq<ItemView>,
    Seq<char>,
>) -> bool {
    match expected {
        Ok(items) => result matches Ok(v) && item_views(v@) == items,
        Err(message) => result matches Err(m) && m@ == message,
    }
}

/// The position that the identifier writes, where it writes one that is at
/// most `limit`: the second part says whether it writes a position at all.
fn position(ident: &Vec<char>, limit: usize) -> (r: (Option<usize>, bool))
    ensures
        r.1 == position_of(ident@).is_some(),
        match r.0 {
            Some(n) => position_of(ident@) == Some(n as nat) && n <= limit,
            None => position_of(ident@) matches Some(n) ==> n > limit,
        },
{
    let start: usize = if ident.len() > 0 && ident[0] == '+' {
        1
    } else {
        0
    };
    let ghost digits = digits_of(ident@);
    assert(start == 0 ==> digits == ident@.subrange(0, ident.len() as int));
    if start >= ident.len() {
        return (None, false);
    }
    let mut value: usize = 0;
    let mut large: bool = false;
    let mut i: usize = start;
    assert(digits.subrange(0, 0) == Seq::<char>::empty());
    while i < ident.len()
        invariant
            start <= i <= ident.len(),
            digits == digits_of(ident@),
            digits == ident@.subrange(start as int, ident.len() as int),
            forall|k: int| 0 <= k < i - start ==> is_digit(#[trigger] digits[k]),
            large ==> decimal(digits.subrange(0, i - start)) > limit,
            !large ==> value == decimal(digits.subrange(0, i - start)) && value <= limit,
        decreases ident.len() - i,
    {
        let c = ident[i];
        assert(digits[i - start] == c);
        if !(('0' as u32) <= (c as u32) && (c as u32) <= ('9' as u32)) {
            assert(!is_digit(digits[i - start]));
            return (None, false);
        }
        let d: u128 = ((c as u32) - ('0' as u32)) as u128;
        assert(digits.subrange(0, i - start + 1).drop_last() == digits.subrange(0, i - start));
        assert(digits.subrange(0, i - start + 1).last() == c);
        if !large {
            let next: u128 = (value as u128) * 10 + d;
            if next > limit as u128 {
                large = true;
            } else {
                value = next as usize;
            }
        }
        i += 1;
    }
    assert(digits.subrange(0, digits.len() as int) == digits);
    if large {
        (None, true)
    } else if value >= 1 {
        (Some(value), true)
    } else {
        (None, false)
    }
}

impl<'a> ItemParser<'a> {
    /// Replaces the reference in the argument, if it holds one, by the value
    /// that it refers to. Fails where the environment has no such value.
    pub fn parse_argument(&self, arg: String) -> (r: Result<String, String>)
        ensures
            match substitute(self.env@, arg@) {
                Ok(value) => r matches Ok(v) && v@ == value,
                Err(message) => r matches Err(m) && m@ == message,
            },
    {
        let chars = chars_of(arg.as_str());
        let open: Vec<char> = vec!['$', '('];
        let close: Vec<char> = vec![')'];
        assert(open@ == open_mark());
        assert(close@ == close_mark());
        let i = match find_in(&chars, &open, 0) {
            None => {
                return Ok(arg);
            },
            Some(i) => i,
        };
        let (ident, suffix) = match find_in(&chars, &close, i + 2) {
            Some(j) => (slice(&chars, i + 2, j), slice(&chars, j + 1, chars.len())),
            None => (slice(&chars, i + 2, chars.len()), Vec::new()),
        };
        assert(reference(arg@) == Some(
            Reference { prefix: chars@.subrange(0, i as int), ident: ident@, suffix: suffix@ },
        ));
        let (index, numeric) = position(&ident, self.env.positional.len());
        let name = to_string(&ident);
        let value: Option<&String> = if numeric {
            match index {
                Some(n) => {
                    assert(views(self.env.positional@)[n - 1] == self.env.positional[n - 1]@);
                    Some(&self.env.positional[n - 1])
                },
                None => None,
            }
        } else {
            self.env.get(&name)
        };
        match value {
            Some(v) => {
                let mut out = to_string(&slice(&chars, 0, i));
                out.push_str(v.as_str());
                out.push_str(to_string(&suffix).as_str());
                Ok(out)
            },
            None => {
                let mut message = "no value specified for argument: ".to_owned();
                message.push_str(name.as_str());
                Err(message)
            },
        }
    }

    /// Reads one command: the first word of the text is its name, the other
    /// words are its arguments, each with its reference replaced. Fails where
    /// the text has no word, or an argument refers to no value.
    pub fn parse_command(&self, raw: &Vec<char>) -> (r: Result<Cmd, String>)
        ensures
            match command(self.env@, raw@) {
                Ok(cmd) => r matches Ok(c) && c@ == cmd,
                Err(message) => r matches Err(m) && m@ == message,
            },
    {
        let tokens = split_words(raw);
        if tokens.len() == 0 {
            return Err("empty command".to_owned());
        }
        let name = to_string(&tokens[0]);
        assert(texts(tokens@)[0] == tokens[0]@);
        let ghost all = words(raw@).subrange(1, tokens.len() as int);
        let ghost f = substitution(self.env@);
        let mut args: Vec<String> = Vec::new();
        let mut k: usize = 1;
        assert(all.take(0) == Seq::<Seq<char>>::empty());
        assert(views(args@) == Seq::<Seq<char>>::empty());
        while k < tokens.len()
            invariant
                1 <= k <= tokens.len(),
                texts(tokens@) == words(raw@),
                all == words(raw@).subrange(1, tokens.len() as int),
                f == substitution(self.env@),
                try_map(all.take(k - 1), f) == Ok::<Seq<Seq<char>>, Seq<char>>(views(args@)),
            decreases tokens.len() - k,
        {
            let ghost before = views(args@);
            assert(texts(tokens@)[k as int] == tokens[k as int]@);
            assert(all[k - 1] == tokens[k as int]@);
            proof {
                lemma_try_map_step(all, f, k - 1);
            }
            match self.parse_argument(to_string(&tokens[k])) {
                Ok(value) => {
                    args.push(value);
                    assert(views(args@) == before.push(value@));
                },
                Err(message) => {
                    proof {
                        lemma_try_map_fails(all, f, k as int);
                    }
                    return Err(message);
                },
            }
            k += 1;
        }
        assert(all.take(tokens.len() - 1) == all);
        Ok(Cmd { name, args })
    }

    /// Reads the pipeline that the fragment writes.
    fn pipeline_of(&self, fragment: &Vec<char>) -> (r: Result<Item, String>)
        ensures
            match pipeline(self.env@, fragment@) {
                Ok(item) => r matches Ok(i) && i@ == item,
                Err(message) => r matches Err(m) && m@ == message,
            },
    {
        let literal = to_string(&trimmed(fragment));
        let dash: Vec<char> = vec!['-', ' '];
        let pipe: Vec<char> = vec![' ', '|', ' '];
        let redirect: Vec<char> = vec![' ', '>', ' '];
        assert(dash@ == ignore_mark());
        assert(pipe@ == pipe_mark());
        assert(redirect@ == redirect_mark());
        let ignore_failure = has_at(fragment, &dash, 0);
        let body = if ignore_failure {
            slice(fragment, 2, fragment.len())
        } else {
            slice(fragment, 0, fragment.len())
        };
        assert(fragment@.subrange(0, fragment.len() as int) == fragment@);
        assert(body@ == body_of(fragment@));
        let mut raws = split_on(&body, &pipe);
        let ghost pieces = texts(raws@);
        let last = match raws.pop() {
            Some(last) => last,
            None => {
                return Err("no commands to parse".to_owned());
            },
        };
        assert(texts(raws@) == pieces.drop_last());
        assert(last@ == pieces.last());
        let ghost front = texts(raws@);
        let terminus = match find_in(&last, &redirect, 0) {
            Some(i) => {
                raws.push(slice(&last, 0, i));
                assert(texts(raws@) == front.push(last@.subrange(0, i as int)));
                Some(to_string(&slice(&last, i + 3, last.len())))
            },
            None => {
                raws.push(last);
                assert(texts(raws@) == front.push(last@));
                assert(front.push(last@) == pieces);
                None
            },
        };
        assert(texts(raws@) == raw_commands(fragment@));
        let ghost all = texts(raws@);
        let ghost f = command_reading(self.env@);
        let mut cmds: Vec<Cmd> = Vec::new();
        let mut k: usize = 0;
        assert(all.take(0) == Seq::<Seq<char>>::empty());
        assert(cmd_views(cmds@) == Seq::<CmdView>::empty());
        while k < raws.len()
            invariant
                k <= raws.len(),
                all == texts(raws@),
                all == raw_commands(fragment@),
                f == command_reading(self.env@),
                try_map(all.take(k as int), f) == Ok::<Seq<CmdView>, Seq<char>>(cmd_views(cmds@)),
            decreases raws.len() - k,
        {
            let ghost before = cmd_views(cmds@);
            assert(all[k as int] == raws[k as int]@);
            proof {
                lemma_try_map_step(all, f, k as int);
            }
            match self.parse_command(&raws[k]) {
                Ok(cmd) => {
                    cmds.push(cmd);
                    assert(cmd_views(cmds@) == before.push(cmd@));
                },
                Err(message) => {
                    proof {
                        lemma_try_map_fails(all, f, k + 1);
                    }
                    return Err(message);
                },
            }
            k += 1;
        }
        assert(all.take(raws.len() as int) == all);
        Ok(Item::Pipeline { cmds, terminus, ignore_failure, literal })
    }

    /// Reads one pipeline from a fragment of a line: its commands between
    /// the pipe marks, the path after the redirect mark of the last one, and
    /// whether it begins with the mark that lets its failure be ignored.
    /// Fails where a command is empty or an argument refers to no value.
    pub fn parse_pipeline(&self, s: &str) -> (r: Result<Item, String>)
        ensures
            match pipeline(self.env@, s@) {
                Ok(item) => r matches Ok(i) && i@ == item,
                Err(message) => r matches Err(m) && m@ == message,
            },
    {
        let fragment = chars_of(s);
        self.pipeline_of(&fragment)
    }

    /// Reads the items of one line onto `items`.
    fn parse_line(&self, line: &Vec<char>, items: &mut Vec<Item>) -> (r: Result<(), String>)
        ensures
            match line_items(self.env@, line@) {
                Ok(more) => r is Ok && item_views(final(items)@) == item_views(old(items)@) + more,
                Err(message) => r matches Err(m) && m@ == message,
            },
    {
        let ghost start = item_views(items@);
        let text = trimmed(line);
        if text.len() == 0 {
            assert(start + Seq::<ItemView>::empty() == start);
            return Ok(());
        }
        let slashes: Vec<char> = vec!['/', '/'];
        let semicolon: Vec<char> = vec![';'];
        assert(slashes@ == comment_mark());
        assert(semicolon@ == pipeline_mark());
        if has_at(&text, &slashes, 0) {
            let comment = Item::Comment(to_string(&text));
            items.push(comment);
            assert(item_views(items@) == start + seq![ItemView::Comment(text@)]);
            return Ok(());
        }
        let fragments = split_on(&text, &semicolon);
        let ghost all = texts(fragments@);
        let ghost f = pipeline_reading(self.env@);
        let ghost mut read: Seq<ItemView> = Seq::empty();
        let mut k: usize = 0;
        assert(all.take(0) == Seq::<Seq<char>>::empty());
        assert(start + read == start);
        while k < fragments.len()
            invariant
                k <= fragments.len(),
                all == texts(fragments@),
                all == split(trim(line@), pipeline_mark()),
                trim(line@).len() > 0,
                !starts_with(trim(line@), comment_mark()),
                f == pipeline_reading(self.env@),
                try_map(all.take(k as int), f) == Ok::<Seq<ItemView>, Seq<char>>(read),
                item_views(items@) == start + read,
            decreases fragments.len() - k,
        {
            let ghost before = item_views(items@);
            assert(all[k as int] == fragments[k as int]@);
            proof {
                lemma_try_map_step(all, f, k as int);
            }
            match self.pipeline_of(&fragments[k]) {
                Ok(item) => {
                    items.push(item);
                    assert(item_views(items@) == before.push(item@));
                    proof {
                        assert(start + read.push(item@) == (start + read).push(item@));
                        read = read.push(item@);
                    }
                },
                Err(message) => {
                    proof {
                        lemma_try_map_fails(all, f, k + 1);
                    }
                    return Err(message);
                },
            }
            k += 1;
        }
        assert(all.take(fragments.len() as int) == all);
        Ok(())
    }

    /// Reads a script: the items of its lines, in order. Lines that hold
    /// nothing but whitespace give no item. Fails with the first error of
    /// the script, and gives no item then.
    pub fn parse(&self, s: &str) -> (r: Result<Vec<Item>, String>)
        ensures
            agrees(r, script_items(self.env@, s@)),
    {
        let text = chars_of(s);
        let newline: Vec<char> = vec!['\n'];
        assert(newline@ == line_mark());
        let lines = split_on(&text, &newline);
        let ghost all = texts(lines@);
        let mut items: Vec<Item> = Vec::new();
        let mut k: usize = 0;
        assert(all.take(0) == Seq::<Seq<char>>::empty());
        assert(item_views(items@) == Seq::<ItemView>::empty());
        while k < lines.len()
            invariant
                k <= lines.len(),
                all == texts(lines@),
                all == split(s@, line_mark()),
                lines_items(self.env@, all.take(k as int)) == Ok::<Seq<ItemView>, Seq<char>>(
                    item_views(items@),
                ),
            decreases lines.len() - k,
        {
            assert(all[k as int] == lines[k as int]@);
            assert(all.take(k + 1).drop_last() == all.take(k as int));
            assert(all.take(k + 1).last() == all[k as int]);
            match self.parse_line(&lines[k], &mut items) {
                Ok(()) => {},
                Err(message) => {
                    proof {
                        lemma_lines_fail(self.env@, all, k + 1);
                    }
                    return Err(message);
                },
            }
            k += 1;
        }
        assert(all.take(lines.len() as int) == all);
        Ok(items)
    }
}

} // verus!
