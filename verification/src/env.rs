//! The variables of a run: values by name, and values by position.

use crate::text::{chars_of, strip, stripped, to_string, views};
use crate::util::{words, SplitWords};
use vstd::prelude::*;

verus! {

/// What an environment holds: the value of each name, and the positional
/// values in order.
pub struct EnvironmentView {
    pub named: Map<Seq<char>, Seq<char>>,
    pub positional: Seq<Seq<char>>,
}

/// The variables that the arguments of a run define. `named` lists each name
/// with its value; where a name stands twice, the later entry counts.
#[derive(Debug, Default, PartialEq)]
pub struct Environment {
    pub named: Vec<(String, String)>,
    pub positional: Vec<String>,
}

/// The names and values of `entries` as character sequences.
pub open spec fn pairs(entries: Seq<(String, String)>) -> Seq<(Seq<char>, Seq<char>)> {
    entries.map_values(|e: (String, String)| (e.0@, e.1@))
}

/// The map that a list of entries stands for: each name with the value of the
/// last entry that has it.
pub open spec fn entries_map(entries: Seq<(Seq<char>, Seq<char>)>) -> Map<Seq<char>, Seq<char>>
    decreases entries.len(),
{
    if entries.len() == 0 {
        Map::empty()
    } else {
        entries_map(entries.drop_last()).insert(entries.last().0, entries.last().1)
    }
}

/// Whether no name stands twice in `entries`.
pub open spec fn distinct_names(entries: Seq<(Seq<char>, Seq<char>)>) -> bool {
    forall|i: int, j: int|
        0 <= i < j < entries.len() ==> (#[trigger] entries[i]).0 != (#[trigger] entries[j]).0
}

/// Whether the token introduces a named value: it begins with a dash.
pub open spec fn is_flag(token: Seq<char>) -> bool {
    token.len() > 0 && token[0] == '-'
}

/// The name that a flag token gives: the token without the dashes at its ends.
pub open spec fn flag_name(token: Seq<char>) -> Seq<char> {
    strip(token, '-')
}

/// The error for a flag that is followed by another flag.
pub open spec fn missing_value(flag: Seq<char>) -> Seq<char> {
    flag + " is missing a value"@
}

/// Reads the tokens from index `i` on into `env`. A flag takes the token
/// after it as its value, and fails where that token is a flag too; a flag
/// that is the last token is dropped. Any other token is the next positional
/// value.
pub open spec fn read_tokens(tokens: Seq<Seq<char>>, i: int, env: EnvironmentView) -> Result<
    EnvironmentView,
    Seq<char>,
>
    decreases tokens.len() - i,
{
    if i < 0 || i >= tokens.len() {
        Ok(env)
    } else if is_flag(tokens[i]) {
        if i + 1 >= tokens.len() {
            Ok(env)
        } else if is_flag(tokens[i + 1]) {
            Err(missing_value(tokens[i]))
        } else {
            read_tokens(
                tokens,
                i + 2,
                EnvironmentView {
                    named: env.named.insert(flag_name(tokens[i]), tokens[i + 1]),
                    positional: env.positional,
                },
            )
        }
    } else {
        read_tokens(
            tokens,
            i + 1,
            EnvironmentView { named: env.named, positional: env.positional.push(tokens[i]) },
        )
    }
}

/// The environment that the text of the arguments defines, or the error that
/// the text has.
pub open spec fn parse_environment(s: Seq<char>) -> Result<EnvironmentView, Seq<char>> {
    read_tokens(words(s), 0, EnvironmentView { named: Map::empty(), positional: Seq::empty() })
}

/// An entry with a name that no later entry has gives that name its value.
pub proof fn lemma_last_entry_counts(entries: Seq<(Seq<char>, Seq<char>)>, i: int)
    requires
        0 <= i < entries.len(),
        forall|j: int| i < j < entries.len() ==> (#[trigger] entries[j]).0 != entries[i].0,
    ensures
        entries_map(entries).contains_key(entries[i].0),
        entries_map(entries)[entries[i].0] == entries[i].1,
    decreases entries.len(),
{
    if i < entries.len() - 1 {
        assert(entries.last().0 != entries[i].0);
        let front = entries.drop_last();
        assert(front[i] == entries[i]);
        assert forall|j: int| i < j < front.len() implies (#[trigger] front[j]).0
            != front[i].0 by {
            assert(front[j] == entries[j]);
        }
        lemma_last_entry_counts(front, i);
    }
}

/// A name that no entry has is not in the map.
pub proof fn lemma_absent_name(entries: Seq<(Seq<char>, Seq<char>)>, name: Seq<char>)
    requires
        forall|j: int| 0 <= j < entries.len() ==> (#[trigger] entries[j]).0 != name,
    ensures
        !entries_map(entries).contains_key(name),
    decreases entries.len(),
{
    if entries.len() > 0 {
        let front = entries.drop_last();
        assert(entries.last().0 != name);
        assert forall|j: int| 0 <= j < front.len() implies (#[trigger] front[j]).0 != name by {
            assert(front[j] == entries[j]);
        }
        lemma_absent_name(front, name);
    }
}

/// Putting a new value in the last entry that has a name gives the map with
/// that name set to the value.
pub proof fn lemma_replace_entry(
    entries: Seq<(Seq<char>, Seq<char>)>,
    i: int,
    value: Seq<char>,
)
    requires
        0 <= i < entries.len(),
        forall|j: int| i < j < entries.len() ==> (#[trigger] entries[j]).0 != entries[i].0,
    ensures
        entries_map(entries.update(i, (entries[i].0, value))) == entries_map(entries).insert(
            entries[i].0,
            value,
        ),
    decreases entries.len(),
{
    let name = entries[i].0;
    let changed = entries.update(i, (name, value));
    let front = entries.drop_last();
    if i == entries.len() - 1 {
        assert(changed.drop_last() == front);
        assert(entries_map(front).insert(name, entries[i].1).insert(name, value) == entries_map(
            front,
        ).insert(name, value));
    } else {
        assert(entries.last().0 != name);
        assert(front[i] == entries[i]);
        assert forall|j: int| i < j < front.len() implies (#[trigger] front[j]).0
            != front[i].0 by {
            assert(front[j] == entries[j]);
        }
        lemma_replace_entry(front, i, value);
        assert(changed.drop_last() == front.update(i, (name, value)));
        assert(changed.last() == entries.last());
        assert(entries_map(front).insert(name, value).insert(
            entries.last().0,
            entries.last().1,
        ) == entries_map(front).insert(entries.last().0, entries.last().1).insert(name, value));
    }
}

impl View for Environment {
    type V = EnvironmentView;

    open spec fn view(&self) -> EnvironmentView {
        EnvironmentView {
            named: entries_map(pairs(self.named@)),
            positional: views(self.positional@),
        }
    }
}

impl Environment {
    /// Whether no name stands twice in `named`.
    pub open spec fn wf(&self) -> bool {
        distinct_names(pairs(self.named@))
    }

    /// The environment without any value.
    pub fn new() -> (env: Environment)
        ensures
            env@.named == Map::<Seq<char>, Seq<char>>::empty(),
            env@.positional == Seq::<Seq<char>>::empty(),
            env.wf(),
    {
        let env = Environment { named: Vec::new(), positional: Vec::new() };
        assert(pairs(env.named@) == Seq::<(Seq<char>, Seq<char>)>::empty());
        assert(views(env.positional@) == Seq::<Seq<char>>::empty());
        env
    }

    /// The index of the last entry of `named` that has the name.
    fn index_of(&self, name: &String) -> (r: Option<usize>)
        ensures
            match r {
                Some(i) => i < self.named.len() && self.named[i as int].0@ == name@
                    && forall|j: int|
                    i < j < self.named.len() ==> (#[trigger] self.named[j]).0@ != name@,
                None => forall|j: int|
                    0 <= j < self.named.len() ==> (#[trigger] self.named[j]).0@ != name@,
            },
    {
        let mut i: usize = self.named.len();
        while i > 0
            invariant
                i <= self.named.len(),
                forall|j: int| i <= j < self.named.len() ==> (#[trigger] self.named[j]).0@ != name@,
            decreases i,
        {
            i -= 1;
            if self.named[i].0 == *name {
                return Some(i);
            }
        }
        None
    }

    /// The value of the name, if it has one.
    pub fn get(&self, name: &String) -> (r: Option<&String>)
        ensures
            match r {
                Some(v) => self@.named.contains_key(name@) && v@ == self@.named[name@],
                None => !self@.named.contains_key(name@),
            },
    {
        let ghost entries = pairs(self.named@);
        match self.index_of(name) {
            Some(i) => {
                proof {
                    assert(entries[i as int] == (self.named[i as int].0@, self.named[i as int].1@));
                    assert forall|j: int| i < j < entries.len() implies (#[trigger] entries[j]).0
                        != entries[i as int].0 by {
                        assert(entries[j].0 == self.named[j].0@);
                    }
                    lemma_last_entry_counts(entries, i as int);
                }
                Some(&self.named[i].1)
            },
            None => {
                proof {
                    assert forall|j: int| 0 <= j < entries.len() implies (#[trigger] entries[j]).0
                        != name@ by {
                        assert(entries[j].0 == self.named[j].0@);
                    }
                    lemma_absent_name(entries, name@);
                }
                None
            },
        }
    }

    /// Gives the name the value, in place of the value it had, if any.
    pub fn insert(&mut self, name: String, value: String)
        ensures
            final(self)@.named == old(self)@.named.insert(name@, value@),
            final(self)@.positional == old(self)@.positional,
            old(self).wf() ==> final(self).wf(),
    {
        let ghost before = pairs(self.named@);
        match self.index_of(&name) {
            Some(i) => {
                proof {
                    assert(before[i as int].0 == name@);
                    assert forall|j: int| i < j < before.len() implies (#[trigger] before[j]).0
                        != before[i as int].0 by {
                        assert(before[j].0 == self.named[j].0@);
                    }
                    lemma_replace_entry(before, i as int, value@);
                }
                self.named.set(i, (name, value));
                assert(pairs(self.named@) == before.update(i as int, (name@, value@)));
                assert(distinct_names(before) ==> distinct_names(pairs(self.named@))) by {
                    let after = pairs(self.named@);
                    if distinct_names(before) {
                        assert forall|a: int, b: int| 0 <= a < b < after.len() implies (
                        #[trigger] after[a]).0 != (#[trigger] after[b]).0 by {
                            assert(after[a].0 == before[a].0);
                            assert(after[b].0 == before[b].0);
                        }
                    }
                }
            },
            None => {
                self.named.push((name, value));
                assert(pairs(self.named@) == before.push((name@, value@)));
                assert(pairs(self.named@).drop_last() == before);
                assert(distinct_names(before) ==> distinct_names(pairs(self.named@))) by {
                    let after = pairs(self.named@);
                    if distinct_names(before) {
                        assert forall|a: int, b: int| 0 <= a < b < after.len() implies (
                        #[trigger] after[a]).0 != (#[trigger] after[b]).0 by {
                            assert(after[a] == before[a]);
                            assert(before[a].0 == old(self).named[a].0@);
                            if b < before.len() {
                                assert(after[b] == before[b]);
                            }
                        }
                    }
                }
            },
        }
    }

    /// Reads the environment from the text of the arguments: the words of the
    /// text, each flag with the word after it as its value, the other words as
    /// positional values. Fails where a flag is followed by another flag.
    pub fn from_str(s: &str) -> (r: Result<Environment, String>)
        ensures
            match parse_environment(s@) {
                Ok(env) => r matches Ok(e) && e@ == env && e.wf(),
                Err(message) => r matches Err(m) && m@ == message,
            },
    {
        let tokens = SplitWords::new(s).collect();
        let mut env = Environment::new();
        let mut i: usize = 0;
        while i < tokens.len()
            invariant
                views(tokens@) == words(s@),
                env.wf(),
                parse_environment(s@) == read_tokens(views(tokens@), i as int, env@),
            decreases tokens.len() - i,
        {
            let token = chars_of(tokens[i].as_str());
            assert(views(tokens@)[i as int] == tokens[i as int]@);
            if token.len() > 0 && token[0] == '-' {
                if i + 1 >= tokens.len() {
                    return Ok(env);
                }
                let value = chars_of(tokens[i + 1].as_str());
                assert(views(tokens@)[i + 1] == tokens[i + 1]@);
                if value.len() > 0 && value[0] == '-' {
                    let mut message = tokens[i].clone();
                    message.push_str(" is missing a value");
                    return Err(message);
                }
                let name = to_string(&stripped(&token, '-'));
                env.insert(name, to_string(&value));
                i += 2;
            } else {
                let ghost before = views(env.positional@);
                env.positional.push(to_string(&token));
                assert(views(env.positional@) == before.push(token@));
                i += 1;
            }
        }
        Ok(env)
    }
}

} // verus!
