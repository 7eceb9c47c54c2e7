//! What holds of parsing, whatever the script and the environment.

use crate::env::EnvironmentView;
use crate::parser::{
    agrees, comment_mark, item_views, line_items, line_mark, lines_items, pipeline,
    pipeline_mark, pipeline_reading, pipelines, raw_commands, reference, resolve, script_items,
    substitute, try_map, unresolved, Item, ItemView, Reference,
};
use crate::text::{
    lemma_split_has_pieces, lemma_split_joined, lemma_split_whole, occurs_at, split, trim,
};
use vstd::prelude::*;

verus! {

/// Whether the item, if it is a pipeline, has a command.
pub open spec fn has_command(item: ItemView) -> bool {
    item matches ItemView::Pipeline { cmds, .. } ==> cmds.len() > 0
}

/// Where every element is mapped, there is one result for each, and it is
/// what the element gives.
pub proof fn lemma_try_map_each<A, B>(s: Seq<A>, f: spec_fn(A) -> Result<B, Seq<char>>)
    ensures
        try_map(s, f) matches Ok(r) ==> r.len() == s.len() && forall|i: int|
            0 <= i < s.len() ==> f(s[i]) == Ok::<B, Seq<char>>(#[trigger] r[i]),
    decreases s.len(),
{
    if s.len() > 0 {
        lemma_try_map_each(s.drop_last(), f);
        if let Ok(r) = try_map(s, f) {
            let front = try_map(s.drop_last(), f)->Ok_0;
            assert forall|i: int| 0 <= i < s.len() implies f(s[i]) == Ok::<B, Seq<char>>(
                #[trigger] r[i],
            ) by {
                if i < s.len() - 1 {
                    assert(s.drop_last()[i] == s[i]);
                    assert(r[i] == front[i]);
                }
            }
        }
    }
}

/// Parsing the same script over the same variables twice gives the same:
/// equal items in the same order, or the same error.
pub proof fn parse_is_deterministic(
    env: EnvironmentView,
    text: Seq<char>,
    first: Result<Vec<Item>, String>,
    second: Result<Vec<Item>, String>,
)
    requires
        agrees(first, script_items(env, text)),
        agrees(second, script_items(env, text)),
    ensures
        match (first, second) {
            (Ok(a), Ok(b)) => item_views(a@) == item_views(b@),
            (Err(a), Err(b)) => a@ == b@,
            _ => false,
        },
{
}

/// A pipeline that was parsed has at least one command.
pub proof fn pipeline_has_command(env: EnvironmentView, fragment: Seq<char>)
    ensures
        pipeline(env, fragment) matches Ok(item) ==> item is Pipeline && has_command(item),
{
    let raws = raw_commands(fragment);
    lemma_split_has_pieces(crate::parser::body_of(fragment), crate::parser::pipe_mark(), 0);
    lemma_try_map_each(raws, crate::parser::command_reading(env));
}

/// Every pipeline of a line that was parsed has at least one command.
pub proof fn line_has_commands(env: EnvironmentView, line: Seq<char>)
    ensures
        line_items(env, line) matches Ok(items) ==> forall|i: int|
            0 <= i < items.len() ==> has_command(#[trigger] items[i]),
{
    let text = trim(line);
    if text.len() > 0 && !crate::text::starts_with(text, comment_mark()) {
        let fragments = split(text, pipeline_mark());
        lemma_try_map_each(fragments, pipeline_reading(env));
        if let Ok(items) = pipelines(env, fragments) {
            assert forall|i: int| 0 <= i < items.len() implies has_command(
                #[trigger] items[i],
            ) by {
                pipeline_has_command(env, fragments[i]);
            }
        }
    }
}

/// Every pipeline of lines that were parsed has at least one command.
pub proof fn lines_have_commands(env: EnvironmentView, lines: Seq<Seq<char>>)
    ensures
        lines_items(env, lines) matches Ok(items) ==> forall|i: int|
            0 <= i < items.len() ==> has_command(#[trigger] items[i]),
    decreases lines.len(),
{
    if lines.len() > 0 {
        lines_have_commands(env, lines.drop_last());
        line_has_commands(env, lines.last());
    }
}

/// No item of a script that was parsed is an empty pipeline: every pipeline
/// has at least one command.
pub proof fn items_have_commands(env: EnvironmentView, text: Seq<char>)
    ensures
        script_items(env, text) matches Ok(items) ==> forall|i: int|
            0 <= i < items.len() ==> has_command(#[trigger] items[i]),
{
    lines_have_commands(env, split(text, line_mark()));
}

/// A line that gives no item can be put between lines, or taken out,
/// without a change to what the lines give.
pub proof fn lemma_idle_line(
    env: EnvironmentView,
    before: Seq<Seq<char>>,
    idle: Seq<char>,
    after: Seq<Seq<char>>,
)
    requires
        line_items(env, idle) == Ok::<Seq<ItemView>, Seq<char>>(Seq::empty()),
    ensures
        lines_items(env, before + seq![idle] + after) == lines_items(env, before + after),
    decreases after.len(),
{
    if after.len() == 0 {
        assert(before + after == before);
        assert((before + seq![idle] + after).drop_last() == before);
        match lines_items(env, before) {
            Ok(items) => {
                assert(items + Seq::<ItemView>::empty() == items);
            },
            Err(_) => {},
        }
    } else {
        lemma_idle_line(env, before, idle, after.drop_last());
        assert((before + seq![idle] + after).drop_last() == before + seq![idle]
            + after.drop_last());
        assert((before + after).drop_last() == before + after.drop_last());
    }
}

/// Blank lines are skipped: a line that holds nothing but whitespace, put
/// between two parts of a script, changes neither the items nor the error.
pub proof fn blank_line_is_skipped(
    env: EnvironmentView,
    above: Seq<char>,
    blank: Seq<char>,
    below: Seq<char>,
)
    requires
        trim(blank).len() == 0,
        forall|i: int| 0 <= i < blank.len() ==> blank[i] != '\n',
    ensures
        script_items(env, above + line_mark() + blank + line_mark() + below) == script_items(
            env,
            above + line_mark() + below,
        ),
{
    let nl = line_mark();
    let rest = blank + nl + below;
    assert(above + nl + blank + nl + below == above + nl + rest);
    lemma_split_joined(above, rest, '\n', 0);
    lemma_split_joined(blank, below, '\n', 0);
    lemma_split_joined(above, below, '\n', 0);
    assert forall|j: int| 0 <= j implies !occurs_at(blank, nl, j) by {
        if j + 1 <= blank.len() {
            assert(blank.subrange(j, j + 1)[0] == blank[j]);
        }
    }
    lemma_split_whole(blank, nl);
    let a = split(above, nl);
    let b = split(below, nl);
    assert(a + (seq![blank] + b) == a + seq![blank] + b);
    lemma_idle_line(env, a, blank, b);
}

/// A reference to a variable that the environment lacks is an error that
/// names the identifier.
pub proof fn missing_reference_fails(env: EnvironmentView, arg: Seq<char>, r: Reference)
    requires
        reference(arg) == Some(r),
        resolve(env, r.ident) is None,
    ensures
        substitute(env, arg) == Err::<Seq<char>, Seq<char>>(unresolved(r.ident)),
        unresolved(r.ident).subrange(
            unresolved(r.ident).len() - r.ident.len(),
            unresolved(r.ident).len() as int,
        ) == r.ident,
{
}

} // verus!
