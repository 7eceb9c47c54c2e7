//! The arguments of a run: the options of the interpreter itself, the name
//! of the script, and the text that the environment is read from.

use crate::text::{chars_of, copy_string, ends_with, has_at, to_string, views};
use vstd::prelude::*;

verus! {

/// The options of the interpreter.
#[derive(Default, Debug, PartialEq, Eq)]
pub struct Config {
    /// Show what would be run, and run nothing.
    pub dry_run: bool,
}

/// The arguments of a run, read from the front.
pub struct Arguments {
    items: Vec<String>,
    at: usize,
}

impl View for Arguments {
    type V = Seq<Seq<char>>;

    /// The arguments that are still to be read.
    closed spec fn view(&self) -> Seq<Seq<char>> {
        if self.at <= self.items.len() {
            views(self.items@).subrange(self.at as int, self.items.len() as int)
        } else {
            Seq::empty()
        }
    }
}

/// Whether the argument asks for a dry run.
pub open spec fn is_dry_run(arg: Seq<char>) -> bool {
    arg == "--dry-run"@ || arg == "--dry"@
}

/// How many of the arguments, from the first on, are options of the
/// interpreter.
pub open spec fn options(args: Seq<Seq<char>>) -> nat
    decreases args.len(),
{
    if args.len() > 0 && is_dry_run(args[0]) {
        1 + options(args.drop_first())
    } else {
        0
    }
}

/// The ending of the names of script files.
pub open spec fn extension() -> Seq<char> {
    seq!['.', 'r', 'u', 'n']
}

/// The name of the script file for a name that may lack its ending.
pub open spec fn script_name(name: Seq<char>) -> Seq<char> {
    if ends_with(name, extension()) {
        name
    } else {
        name + extension()
    }
}

/// The arguments as one text: each between double quotes and followed by a
/// space.
pub open spec fn quoted(args: Seq<Seq<char>>) -> Seq<char>
    decreases args.len(),
{
    if args.len() == 0 {
        Seq::empty()
    } else {
        quoted(args.drop_last()) + seq!['"'] + args.last() + seq!['"', ' ']
    }
}

/// The name of the script file: the name itself if it ends in `.run`, else
/// the name with that ending.
pub fn script_path(name: &str) -> (path: String)
    ensures
        path@ == script_name(name@),
{
    let mut chars = chars_of(name);
    let ending: Vec<char> = vec!['.', 'r', 'u', 'n'];
    assert(ending@ == extension());
    if chars.len() >= 4 && has_at(&chars, &ending, chars.len() - 4) {
        return to_string(&chars);
    }
    let ghost before = chars@;
    chars.push('.');
    chars.push('r');
    chars.push('u');
    chars.push('n');
    assert(chars@ == before + extension());
    to_string(&chars)
}

impl Arguments {
    /// The arguments, none of them read yet.
    pub fn new(items: Vec<String>) -> (args: Arguments)
        ensures
            args@ == views(items@),
    {
        assert(views(items@).subrange(0, items.len() as int) == views(items@));
        Arguments { items, at: 0 }
    }

    /// The next argument, which stays unread.
    pub fn peek(&self) -> (r: Option<&String>)
        ensures
            match r {
                Some(arg) => self@.len() > 0 && arg@ == self@[0],
                None => self@.len() == 0,
            },
    {
        if self.at < self.items.len() {
            assert(views(self.items@)[self.at as int] == self.items[self.at as int]@);
            Some(&self.items[self.at])
        } else {
            None
        }
    }

    /// Reads the next argument.
    pub fn next(&mut self) -> (r: Option<String>)
        ensures
            match r {
                Some(arg) => old(self)@.len() > 0 && arg@ == old(self)@[0] && final(self)@ == old(
                    self,
                )@.drop_first(),
                None => old(self)@.len() == 0 && final(self)@ == old(self)@,
            },
    {
        if self.at < self.items.len() {
            assert(views(self.items@)[self.at as int] == self.items[self.at as int]@);
            let arg = copy_string(&self.items[self.at]);
            assert(views(self.items@).subrange(self.at as int, self.items.len() as int).drop_first()
                == views(self.items@).subrange(self.at + 1, self.items.len() as int));
            self.at = self.at + 1;
            Some(arg)
        } else {
            None
        }
    }

    /// The arguments that are still to be read, as the text that an
    /// environment is read from: each between double quotes, so that the
    /// whitespace in it stays.
    pub fn quote(&self) -> (text: String)
        ensures
            text@ == quoted(self@),
    {
        let mut text = String::new();
        if self.at > self.items.len() {
            return text;
        }
        let ghost rest = self@;
        let mut i: usize = self.at;
        assert(rest.take(0) == Seq::<Seq<char>>::empty());
        while i < self.items.len()
            invariant
                self.at <= i <= self.items.len(),
                rest == views(self.items@).subrange(self.at as int, self.items.len() as int),
                text@ == quoted(rest.take(i - self.at)),
            decreases self.items.len() - i,
        {
            let ghost done = rest.take(i - self.at);
            let ghost more = rest.take(i - self.at + 1);
            assert(more.drop_last() == done);
            assert(more.last() == self.items[i as int]@);
            let ghost before = text@;
            text.push('"');
            text.push_str(self.items[i].as_str());
            text.push('"');
            text.push(' ');
            assert(text@ == before + seq!['"'] + self.items[i as int]@ + seq!['"', ' ']);
            i += 1;
        }
        assert(rest.take(rest.len() as int) == rest);
        text
    }
}

impl Config {
    /// Reads the options of the interpreter from the front of the
    /// arguments, and stops before the first argument that is none.
    pub fn from_args(args: &mut Arguments) -> (config: Config)
        ensures
            final(args)@ == old(args)@.skip(options(old(args)@) as int),
            config.dry_run == (options(old(args)@) > 0),
            options(old(args)@) <= old(args)@.len(),
    {
        let mut config = Config { dry_run: false };
        let long = "--dry-run".to_owned();
        let short = "--dry".to_owned();
        let ghost all = args@;
        let ghost mut read: nat = 0;
        assert(all.skip(0) == all);
        loop
            invariant
                all == old(args)@,
                long@ == "--dry-run"@,
                short@ == "--dry"@,
                read <= all.len(),
                args@ == all.skip(read as int),
                options(all) == read + options(args@),
                config.dry_run == (read > 0),
            decreases args@.len(),
        {
            let recognised = match args.peek() {
                Some(arg) => *arg == long || *arg == short,
                None => false,
            };
            if !recognised {
                return config;
            }
            config.dry_run = true;
            let ghost rest = args@;
            args.next();
            proof {
                assert(rest.drop_first() == all.skip(read as int + 1));
                read = read + 1;
            }
        }
    }
}

} // verus!
