//! What an export writes: the names of its files, and what they hold.

use vstd::prelude::*;

use crate::behaviour;
use crate::dump;
use crate::dump::FileRow;
use crate::ident;
use crate::laws;
use crate::markdown;
use crate::model::{ArtifactRow, TaskRow};
use crate::order;
use crate::state;
use crate::state::{State, TaskFilter};
use crate::text;
use crate::text_laws;
use crate::text_laws::alike;

verus! {

// ---------------------------------------------------------------- components

/// A character that is replaced in a name: a control character, or one that
/// separates directories or is not allowed.
pub open spec fn is_bad(c: char) -> bool {
    ||| (c as u32) < 32
    ||| 127 <= c as u32 <= 159
    ||| c == '/'
    ||| c == '\\'
    ||| c == ':'
    ||| c == '*'
    ||| c == '?'
    ||| c == '"'
    ||| c == '<'
    ||| c == '>'
    ||| c == '|'
}

/// White space that is not replaced.
pub open spec fn is_soft(c: char) -> bool {
    text::is_whitespace(c) && !is_bad(c)
}

/// What is kept of a text as a name stands between `from` and `to`: only white space
/// stands before it, and after it full stops and spaces, and then white space from
/// `end` on.
pub open spec fn is_core(value: Seq<char>, from: int, to: int, end: int) -> bool {
    &&& 0 <= from <= to <= end <= value.len()
    &&& forall|i: int| 0 <= i < from || end <= i < value.len() ==> is_soft(#[trigger] value[i])
    &&& from < end ==> !is_soft(value[from]) && !is_soft(value[end - 1])
    &&& forall|i: int| to <= i < end ==> #[trigger] value[i] == '.' || value[i] == ' '
    &&& from < to ==> value[to - 1] != '.' && value[to - 1] != ' '
}

proof fn replaced_is(c: char)
    ensures
        dump::safe_char(c) == if is_bad(c) {
            '_'
        } else {
            c
        },
        text::is_whitespace(dump::safe_char(c)) <==> is_soft(c),
{
    text_laws::control_is(c);
}

proof fn without_end_is(value: Seq<char>, to: int)
    requires
        0 <= to <= value.len(),
        forall|i: int| to <= i < value.len() ==> #[trigger] value[i] == '.' || value[i] == ' ',
        to > 0 ==> value[to - 1] != '.' && value[to - 1] != ' ',
    ensures
        dump::without_end(value) == value.take(to),
    decreases value.len(),
{
    if to < value.len() {
        assert(value[value.len() - 1] == '.' || value[value.len() - 1] == ' ');
        let rest = value.drop_last();
        assert forall|i: int| to <= i < rest.len() implies #[trigger] rest[i] == '.' || rest[i]
            == ' ' by {
            assert(rest[i] == value[i]);
        }
        without_end_is(rest, to);
        assert(rest.take(to) =~= value.take(to));
    } else {
        assert(value.take(to) =~= value);
    }
}

/// A name is what is kept of the text, with `_` for each character that is not
/// allowed and every other as it is; a text of which nothing is kept is `unnamed`.
pub proof fn component_is(value: Seq<char>, from: int, to: int, end: int)
    requires
        is_core(value, from, to, end),
    ensures
        dump::safe(value) == if from == to {
            "unnamed"@
        } else {
            Seq::new(
                (to - from) as nat,
                |k: int|
                    if is_bad(value[from + k]) {
                        '_'
                    } else {
                        value[from + k]
                    },
            )
        },
{
    let replaced = value.map_values(|c: char| dump::safe_char(c));
    assert forall|i: int| 0 <= i < value.len() implies (text::is_whitespace(#[trigger] replaced[i])
        <==> is_soft(value[i])) && (replaced[i] == '.' <==> value[i] == '.') && (replaced[i] == ' '
        <==> value[i] == ' ') by {
        replaced_is(value[i]);
    }
    assert(text_laws::is_trimmed(replaced, from, end)) by {
        assert forall|i: int|
            0 <= i < from || end <= i < replaced.len() implies text::is_whitespace(
            #[trigger] replaced[i],
        ) by {
            assert(is_soft(value[i]));
        }
    }
    text_laws::trimmed_is(replaced, from, end);
    let trimmed = replaced.subrange(from, end);
    assert forall|i: int| to - from <= i < trimmed.len() implies #[trigger] trimmed[i] == '.'
        || trimmed[i] == ' ' by {
        assert(trimmed[i] == replaced[from + i]);
        assert(value[from + i] == '.' || value[from + i] == ' ');
    }
    if from < to {
        assert(trimmed[to - from - 1] == replaced[to - 1]);
    }
    without_end_is(trimmed, to - from);
    let output = trimmed.take(to - from);
    assert(dump::without_end(text::trim(replaced)) == output);
    if from < to {
        let wanted = Seq::new(
            (to - from) as nat,
            |k: int|
                if is_bad(value[from + k]) {
                    '_'
                } else {
                    value[from + k]
                },
        );
        assert forall|k: int| 0 <= k < output.len() implies output[k] == wanted[k] by {
            replaced_is(value[from + k]);
            assert(output[k] == replaced[from + k]);
        }
        assert(output =~= wanted);
    }
}

/// Something or nothing is kept of every text.
pub proof fn every_text_has_a_core(value: Seq<char>)
    ensures
        exists|from: int, to: int, end: int| is_core(value, from, to, end),
{
    let replaced = value.map_values(|c: char| dump::safe_char(c));
    text_laws::trim_takes_white_space(replaced);
    let (from, end) = choose|from: int, end: int| #[trigger]
        text_laws::is_trimmed(replaced, from, end) && text::trim(replaced) == replaced.subrange(
            from,
            end,
        );
    assert forall|i: int| 0 <= i < value.len() implies (text::is_whitespace(#[trigger] replaced[i])
        <==> is_soft(value[i])) by {
        replaced_is(value[i]);
    }
    let to = core_end(value, from, end);
    assert forall|i: int| 0 <= i < from || end <= i < value.len() implies is_soft(
        #[trigger] value[i],
    ) by {
        assert(text::is_whitespace(replaced[i]));
    }
    if from < end {
        assert(!text::is_whitespace(replaced[from]));
        assert(!text::is_whitespace(replaced[end - 1]));
    }
    assert(is_core(value, from, to, end));
}

proof fn core_end(value: Seq<char>, from: int, end: int) -> (to: int)
    requires
        0 <= from <= end <= value.len(),
    ensures
        from <= to <= end,
        forall|i: int| to <= i < end ==> #[trigger] value[i] == '.' || value[i] == ' ',
        from < to ==> value[to - 1] != '.' && value[to - 1] != ' ',
    decreases end - from,
{
    if from < end && (value[end - 1] == '.' || value[end - 1] == ' ') {
        core_end(value, from, end - 1)
    } else {
        end
    }
}

/// A text that is a good name is kept as it is, whatever its length: where it holds
/// no character that is not allowed, does not begin or end with white space and does
/// not end in a full stop.
pub proof fn good_name_is_kept(value: Seq<char>)
    requires
        value.len() > 0,
        forall|i: int| 0 <= i < value.len() ==> !is_bad(#[trigger] value[i]),
        !text::is_whitespace(value[0]),
        !text::is_whitespace(value.last()),
        value.last() != '.',
    ensures
        dump::safe(value) == value,
{
    let n = value.len() as int;
    assert(is_core(value, 0, n, n));
    component_is(value, 0, n, n);
    assert(dump::safe(value) =~= value);
}

/// A name that does not end with white space is a good name itself.
pub proof fn names_are_kept(value: Seq<char>)
    ensures
        !text::is_whitespace(dump::safe(value).last()) ==> dump::safe(dump::safe(value))
            == dump::safe(value),
{
    every_text_has_a_core(value);
    let (from, to, end) = choose|from: int, to: int, end: int| is_core(value, from, to, end);
    component_is(value, from, to, end);
    let name = dump::safe(value);
    reveal_strlit("unnamed");
    if !text::is_whitespace(name.last()) {
        assert forall|i: int| 0 <= i < name.len() implies !is_bad(#[trigger] name[i]) by {
            text_laws::control_is(name[i]);
        }
        if from < to {
            replaced_is(value[from]);
            replaced_is(value[to - 1]);
            assert(name[0] == dump::safe_char(value[from]));
            assert(name.last() == dump::safe_char(value[to - 1]));
        }
        good_name_is_kept(name);
    }
}

// ---------------------------------------------------------------- unique names

/// Two names are the same on a system that does not tell cases apart.
pub open spec fn clash(a: Seq<char>, b: Seq<char>) -> bool {
    a.len() == b.len() && forall|i: int| 0 <= i < a.len() ==> alike(#[trigger] a[i], b[i])
}

/// A name is in use.
pub open spec fn is_used(name: Seq<char>, used: Seq<Seq<char>>) -> bool {
    exists|k: int| 0 <= k < used.len() && clash(#[trigger] used[k], name)
}

proof fn taken_is(name: Seq<char>, used: Seq<Seq<char>>)
    ensures
        dump::taken(name, used) <==> is_used(name, used),
{
    assert forall|k: int| 0 <= k < used.len() implies text::same_ignoring_case(
        #[trigger] used[k],
        name,
    ) == clash(used[k], name) by {
        text_laws::same_ignoring_case_is(used[k], name);
    }
}

/// A name in two: what stands before the extension, and the extension, which begins
/// at the last full stop. A full stop at the beginning or at the end begins none.
pub open spec fn is_split(name: Seq<char>, stem: Seq<char>, extension: Seq<char>) -> bool {
    &&& name == stem + extension
    &&& if extension.len() == 0 {
        forall|i: int| 0 < i < name.len() - 1 && #[trigger] name[i] == '.' ==> exists|j: int|
            i < j < name.len() && #[trigger] name[j] == '.'
    } else {
        stem.len() > 0 && extension.len() >= 2 && extension[0] == '.' && forall|i: int|
            0 < i < extension.len() ==> #[trigger] extension[i] != '.'
    }
}

proof fn last_place_is(value: Seq<char>, c: char)
    ensures
        -1 <= dump::last_place(value, c) < value.len(),
        dump::last_place(value, c) >= 0 ==> value[dump::last_place(value, c)] == c,
        forall|i: int| dump::last_place(value, c) < i < value.len() ==> #[trigger] value[i] != c,
    decreases value.len(),
{
    if value.len() > 0 && value.last() != c {
        last_place_is(value.drop_last(), c);
        let at = dump::last_place(value.drop_last(), c);
        assert forall|i: int| at < i < value.len() implies #[trigger] value[i] != c by {
            if i < value.len() - 1 {
                assert(value.drop_last()[i] == value[i]);
            }
        }
    }
}

proof fn parts_are(name: Seq<char>)
    ensures
        is_split(name, dump::parts(name).0, dump::parts(name).1),
{
    last_place_is(name, '.');
    let at = dump::last_place(name, '.');
    let (stem, extension) = dump::parts(name);
    if 0 < at < name.len() - 1 {
        assert(name =~= stem + extension);
        assert forall|i: int| 0 < i < extension.len() implies #[trigger] extension[i] != '.' by {
            assert(extension[i] == name[at + i]);
        }
    } else {
        assert(name =~= stem + extension);
        assert forall|i: int|
            0 < i < name.len() - 1 && #[trigger] name[i] == '.' implies exists|j: int|
            i < j < name.len() && #[trigger] name[j] == '.' by {
            assert(name[at] == '.');
        }
    }
}

/// The name with the beginning of the UUID, and from the second try on with the
/// number of the try, before the extension.
pub open spec fn try_name(
    stem: Seq<char>,
    start: Seq<char>,
    n: nat,
    extension: Seq<char>,
) -> Seq<char> {
    stem + seq!['-', '-'] + start + (if n >= 2 {
        seq!['-'] + text::decimal(n)
    } else {
        Seq::empty()
    }) + extension
}

/// A name that is free is kept; one that is in use gets the first eight characters of
/// the UUID before its extension, and where that is in use too, the first number from
/// two on with which it is not.
pub proof fn unique_is(name: Seq<char>, uuid: Seq<char>, used: Seq<Seq<char>>)
    requires
        uuid.len() >= 8,
        vstd::utf8::is_ascii_chars(uuid),
    ensures
        !is_used(dump::safe(name), used) ==> dump::unique(name, uuid, used) == dump::safe(name),
        is_used(dump::safe(name), used) ==> exists|
            stem: Seq<char>,
            extension: Seq<char>,
            n: nat,
        |
            #![trigger try_name(stem, uuid.take(8), n, extension)]
            {
                &&& is_split(dump::safe(name), stem, extension)
                &&& n >= 1
                &&& dump::unique(name, uuid, used) == try_name(stem, uuid.take(8), n, extension)
                &&& !is_used(try_name(stem, uuid.take(8), n, extension), used)
                &&& forall|m: nat|
                    1 <= m < n ==> is_used(
                        #[trigger] try_name(stem, uuid.take(8), m, extension),
                        used,
                    )
            },
{
    let base = dump::safe(name);
    taken_is(base, used);
    text::byte_prefix_of_ascii(uuid, 8);
    if is_used(base, used) {
        parts_are(base);
        let (stem, extension) = dump::parts(base);
        dump::unique_is_first_free(name, uuid, used);
        let n = choose|n: nat| #[trigger] dump::is_first_free(base, uuid, used, n);
        assert(dump::is_first_free(base, uuid, used, n));
        assert forall|m: nat| m >= 1 implies #[trigger] try_name(
            stem,
            uuid.take(8),
            m,
            extension,
        ) == dump::attempt(base, uuid, m) by {
            reveal_strlit("--");
            reveal_strlit("-");
            assert("--"@ =~= seq!['-', '-']);
            assert("-"@ =~= seq!['-']);
            assert(try_name(stem, uuid.take(8), m, extension) =~= dump::attempt(base, uuid, m));
        }
        taken_is(dump::attempt(base, uuid, n), used);
        assert forall|m: nat| 1 <= m < n implies is_used(
            #[trigger] try_name(stem, uuid.take(8), m, extension),
            used,
        ) by {
            taken_is(dump::attempt(base, uuid, m), used);
            assert(dump::taken(dump::attempt(base, uuid, m), used));
        }
        assert(dump::unique(name, uuid, used) == try_name(stem, uuid.take(8), n, extension));
    }
}

/// Names are given one after the other, each among all that are in use before it, and
/// none is taken away.
pub proof fn names_are_given_in_order(
    used: Seq<Seq<char>>,
    entries: Seq<(Seq<char>, Seq<char>)>,
    k: int,
)
    requires
        0 <= k < entries.len(),
    ensures
        dump::names_after(used, Seq::empty()) == used,
        dump::names_after(used, entries).len() == used.len() + entries.len(),
        dump::names_after(used, entries).take(used.len() + k) == dump::names_after(
            used,
            entries.take(k),
        ),
        dump::names_after(used, entries)[used.len() + k] == dump::unique(
            entries[k].0,
            entries[k].1,
            dump::names_after(used, entries).take(used.len() + k),
        ),
{
    dump::names_in_order(used, entries, k);
}

/// Names that do not clash are all kept.
pub proof fn distinct_names_are_kept(
    used: Seq<Seq<char>>,
    entries: Seq<(Seq<char>, Seq<char>)>,
)
    requires
        forall|i: int, k: int|
            0 <= i < used.len() && 0 <= k < entries.len() ==> !clash(
                #[trigger] used[i],
                dump::safe((#[trigger] entries[k]).0),
            ),
        forall|i: int, k: int|
            0 <= i < k < entries.len() ==> !clash(
                dump::safe((#[trigger] entries[i]).0),
                dump::safe((#[trigger] entries[k]).0),
            ),
    ensures
        dump::names_after(used, entries) == used + entries.map_values(
            |entry: (Seq<char>, Seq<char>)| dump::safe(entry.0),
        ),
    decreases entries.len(),
{
    let keep = |entry: (Seq<char>, Seq<char>)| dump::safe(entry.0);
    if entries.len() == 0 {
        assert(used + entries.map_values(keep) =~= used);
    } else {
        let front = entries.drop_last();
        let last = entries.last();
        assert forall|i: int, k: int| 0 <= i < used.len() && 0 <= k < front.len() implies !clash(
            #[trigger] used[i],
            dump::safe((#[trigger] front[k]).0),
        ) by {
            assert(front[k] == entries[k]);
        }
        assert forall|i: int, k: int| 0 <= i < k < front.len() implies !clash(
            dump::safe((#[trigger] front[i]).0),
            dump::safe((#[trigger] front[k]).0),
        ) by {
            assert(front[i] == entries[i] && front[k] == entries[k]);
        }
        distinct_names_are_kept(used, front);
        let before = dump::names_after(used, front);
        assert(!is_used(dump::safe(last.0), before)) by {
            if is_used(dump::safe(last.0), before) {
                let k = choose|k: int|
                    0 <= k < before.len() && clash(#[trigger] before[k], dump::safe(last.0));
                assert(entries[entries.len() - 1] == last);
                if k < used.len() {
                    assert(before[k] == used[k]);
                } else {
                    assert(before[k] == dump::safe(front[k - used.len()].0));
                    assert(front[k - used.len()] == entries[k - used.len()]);
                }
            }
        }
        taken_is(dump::safe(last.0), before);
        assert(used + entries.map_values(keep) =~= (used + front.map_values(keep)).push(
            keep(last),
        ));
    }
}

// ---------------------------------------------------------------- what is exported

/// An export of everything takes every task of the store, each once.
pub proof fn every_task_is_taken(
    state: State,
    tasks: Seq<TaskRow>,
    lists: Seq<Seq<ArtifactRow>>,
    task: TaskRow,
)
    requires
        state.wf(),
        dump::exports(state, None, tasks, lists),
    ensures
        tasks.contains(task) <==> state.tasks.contains(task),
        tasks.len() == state.tasks.len(),
        lists.len() == tasks.len(),
{
    let (active, completed, archived) = choose|
        active: Seq<TaskRow>,
        completed: Seq<TaskRow>,
        archived: Seq<TaskRow>,
    |
        #![trigger active + completed + archived]
        {
            &&& state.lists_tasks(TaskFilter::Active, active)
            &&& state.lists_tasks(TaskFilter::Completed, completed)
            &&& state.lists_tasks(TaskFilter::Archived, archived)
            &&& tasks == active + completed + archived
        };
    behaviour::list_holds(state, TaskFilter::Active, active, task);
    behaviour::list_holds(state, TaskFilter::Completed, completed, task);
    behaviour::list_holds(state, TaskFilter::Archived, archived, task);
    behaviour::one_list_each(task);
    if state.tasks.contains(task) {
        if active.contains(task) {
            let k = choose|k: int| 0 <= k < active.len() && active[k] == task;
            assert(tasks[k] == task);
        } else if completed.contains(task) {
            let k = choose|k: int| 0 <= k < completed.len() && completed[k] == task;
            assert(tasks[active.len() + k] == task);
        } else {
            let k = choose|k: int| 0 <= k < archived.len() && archived[k] == task;
            assert(tasks[active.len() + completed.len() + k] == task);
        }
    }
    if tasks.contains(task) {
        let k = choose|k: int| 0 <= k < tasks.len() && tasks[k] == task;
        if k < active.len() {
            assert(active[k] == task);
        } else if k < active.len() + completed.len() {
            assert(completed[k - active.len()] == task);
        } else {
            assert(archived[k - active.len() - completed.len()] == task);
        }
    }
    list_length(state, TaskFilter::Active, active);
    list_length(state, TaskFilter::Completed, completed);
    list_length(state, TaskFilter::Archived, archived);
    three_lists(state.tasks);
}

proof fn list_length(state: State, filter: TaskFilter, list: Seq<TaskRow>)
    requires
        state.lists_tasks(filter, list),
    ensures
        list.len() == state.tasks.filter(|task: TaskRow| state::admits(filter, task)).len(),
{
    let source = state.tasks_in(filter);
    order::ordered_holds_same(
        list,
        source,
        source.map_values(|task: TaskRow| state::task_key(task)),
        false,
    );
}

proof fn three_lists(tasks: Seq<TaskRow>)
    ensures
        tasks.len() == tasks.filter(
            |task: TaskRow| state::admits(TaskFilter::Active, task),
        ).len() + tasks.filter(|task: TaskRow| state::admits(TaskFilter::Completed, task)).len()
            + tasks.filter(|task: TaskRow| state::admits(TaskFilter::Archived, task)).len(),
    decreases tasks.len(),
{
    reveal(Seq::filter);
    if tasks.len() > 0 {
        three_lists(tasks.drop_last());
        behaviour::one_list_each(tasks.last());
    }
}

/// An export of one task takes that task alone.
pub proof fn one_task_is_taken(
    state: State,
    key: Seq<char>,
    tasks: Seq<TaskRow>,
    lists: Seq<Seq<ArtifactRow>>,
)
    requires
        dump::exports(state, Some(key), tasks, lists),
    ensures
        state.read_task(key) matches Ok(task) && tasks == seq![task],
        lists.len() == 1,
{
}

/// With a task go all its artifacts, and no others.
pub proof fn artifacts_go_with_their_task(
    state: State,
    key: Option<Seq<char>>,
    tasks: Seq<TaskRow>,
    lists: Seq<Seq<ArtifactRow>>,
    n: int,
    artifact: ArtifactRow,
)
    requires
        state.orderly(),
        dump::exports(state, key, tasks, lists),
        0 <= n < tasks.len(),
        state.tasks.contains(tasks[n]),
    ensures
        lists[n].contains(artifact) <==> state.artifacts.contains(artifact) && artifact.task_uuid
            == tasks[n].uuid,
{
    let i = choose|i: int| 0 <= i < state.tasks.len() && state.tasks[i] == tasks[n];
    ident::canonical_form(state.tasks[i].uuid);
    behaviour::found_by_id_and_uuid(state, i, state.tasks[i].uuid);
    assert(markdown::lists_artifacts_of(state, tasks[n].uuid, lists[n]));
    let none: Option<Seq<char>> = None;
    let uuid = tasks[n].uuid;
    let source = state.artifacts_of(uuid, none);
    let keep = |artifact: ArtifactRow|
        artifact.task_uuid == uuid && (none matches Some(wanted) ==> artifact.artifact_type
            == wanted);
    laws::filter_holds(state.artifacts, keep);
    order::ordered_holds_same(
        lists[n],
        source,
        source.map_values(|artifact: ArtifactRow| state::artifact_key(artifact)),
        false,
    );
    if lists[n].contains(artifact) {
        let k = choose|k: int| 0 <= k < source.len() && source[k] == artifact;
        assert(keep(source[k]));
        assert(state.artifacts.contains(source[k]));
    }
    if state.artifacts.contains(artifact) && artifact.task_uuid == uuid {
        let k = choose|k: int| 0 <= k < state.artifacts.len() && state.artifacts[k] == artifact;
        assert(keep(state.artifacts[k]));
        assert(source.contains(state.artifacts[k]));
    }
}

/// The directories of tasks whose ids give different names are those names.
pub proof fn distinct_directories_are_kept(tasks: Seq<TaskRow>, n: int)
    requires
        0 <= n < tasks.len(),
        forall|i: int, k: int|
            0 <= i < k < tasks.len() ==> !clash(
                dump::safe((#[trigger] tasks[i]).id),
                dump::safe((#[trigger] tasks[k]).id),
            ),
    ensures
        dump::directories(tasks)[n] == dump::safe(tasks[n].id),
{
    let entries = tasks.map_values(|task: TaskRow| (task.id, task.uuid));
    assert forall|i: int, k: int| 0 <= i < k < entries.len() implies !clash(
        dump::safe((#[trigger] entries[i]).0),
        dump::safe((#[trigger] entries[k]).0),
    ) by {
        assert(entries[i].0 == tasks[i].id && entries[k].0 == tasks[k].id);
    }
    distinct_names_are_kept(Seq::empty(), entries);
    assert(dump::directories(tasks)[n] == dump::safe(entries[n].0));
}

/// The names of the artifacts of a task do not clash: no two of them whose types
/// give the same directory have names that clash, and no type gives the name of the
/// file of the task.
pub open spec fn artifacts_distinct(artifacts: Seq<ArtifactRow>) -> bool {
    &&& forall|i: int|
        0 <= i < artifacts.len() ==> dump::safe((#[trigger] artifacts[i]).artifact_type)
            != "task.md"@
    &&& forall|i: int, k: int|
        0 <= i < k < artifacts.len() && dump::safe((#[trigger] artifacts[i]).artifact_type)
            == dump::safe((#[trigger] artifacts[k]).artifact_type) ==> !clash(
            dump::safe(artifacts[i].display_name()),
            dump::safe(artifacts[k].display_name()),
        )
}

/// A name in a directory is that of an artifact of one of the first types.
spec fn is_given(
    artifacts: Seq<ArtifactRow>,
    count: nat,
    directory: Seq<char>,
    name: Seq<char>,
) -> bool {
    exists|i: int|
        0 <= i < artifacts.len() && name == dump::safe((#[trigger] artifacts[i]).display_name())
            && dump::safe(artifacts[i].artifact_type) == directory && dump::types_of(
            artifacts,
        ).take(count as int).contains(artifacts[i].artifact_type)
}

proof fn folder_is(artifacts: Seq<ArtifactRow>, n: int)
    requires
        0 <= n < dump::types_of(artifacts).len(),
        artifacts_distinct(artifacts),
    ensures
        dump::folder(artifacts, n) == dump::safe(dump::types_of(artifacts)[n]),
{
    let kind = dump::types_of(artifacts)[n];
    dump::types_are_complete(artifacts);
    assert(dump::types_of(artifacts).contains(kind));
    let i = choose|i: int|
        0 <= i < artifacts.len() && (#[trigger] artifacts[i]).artifact_type == kind;
    assert(dump::safe(artifacts[i].artifact_type) != "task.md"@);
}

proof fn given_names(artifacts: Seq<ArtifactRow>, count: nat, directory: Seq<char>)
    requires
        artifacts_distinct(artifacts),
        count <= dump::types_of(artifacts).len(),
    ensures
        forall|k: int|
            0 <= k < dump::folder_names(artifacts, count, directory).len() ==> is_given(
                artifacts,
                count,
                directory,
                #[trigger] dump::folder_names(artifacts, count, directory)[k],
            ),
    decreases count, 0int,
{
    if count > 0 {
        let last = (count - 1) as nat;
        let types = dump::types_of(artifacts);
        given_names(artifacts, last, directory);
        let before = dump::folder_names(artifacts, last, directory);
        let after = dump::folder_names(artifacts, count, directory);
        assert forall|k: int| 0 <= k < before.len() implies is_given(
            artifacts,
            count,
            directory,
            #[trigger] before[k],
        ) by {
            assert(is_given(artifacts, last, directory, before[k]));
            let i = choose|i: int|
                0 <= i < artifacts.len() && before[k] == dump::safe(
                    (#[trigger] artifacts[i]).display_name(),
                ) && dump::safe(artifacts[i].artifact_type) == directory && types.take(
                    last as int,
                ).contains(artifacts[i].artifact_type);
            earlier_type(types, last as int, artifacts[i].artifact_type);
        }
        folder_is(artifacts, last as int);
        if dump::folder(artifacts, last as int) == directory {
            group_names(artifacts, last as int);
            let group = dump::of_type(artifacts, types[last as int]);
            laws::filter_holds(
                artifacts,
                |artifact: ArtifactRow| artifact.artifact_type == types[last as int],
            );
            assert forall|k: int| 0 <= k < after.len() implies is_given(
                artifacts,
                count,
                directory,
                #[trigger] after[k],
            ) by {
                if k < before.len() {
                    assert(after[k] == before[k]);
                } else {
                    let artifact = group[k - before.len()];
                    assert(after[k] == dump::safe(artifact.display_name()));
                    assert(artifacts.contains(artifact));
                    let i = choose|i: int| 0 <= i < artifacts.len() && artifacts[i] == artifact;
                    assert(types.take(count as int)[last as int] == artifact.artifact_type);
                    assert(after[k] == dump::safe(artifacts[i].display_name()));
                }
            }
        }
    }
}

proof fn earlier_type(types: Seq<Seq<char>>, n: int, kind: Seq<char>)
    requires
        0 <= n < types.len(),
        types.take(n).contains(kind),
    ensures
        types.take(n + 1).contains(kind),
{
    let k = choose|k: int| 0 <= k < types.take(n).len() && types.take(n)[k] == kind;
    assert(types.take(n + 1)[k] == kind);
}

/// The artifacts of a type get their own names.
proof fn group_names(artifacts: Seq<ArtifactRow>, n: int)
    requires
        artifacts_distinct(artifacts),
        0 <= n < dump::types_of(artifacts).len(),
    ensures
        dump::names_after(dump::used_before(artifacts, n), dump::group_entries(artifacts, n))
            == dump::used_before(artifacts, n) + dump::of_type(
            artifacts,
            dump::types_of(artifacts)[n],
        ).map_values(|artifact: ArtifactRow| dump::safe(artifact.display_name())),
    decreases n, 1int,
{
    let types = dump::types_of(artifacts);
    let kind = types[n];
    let used = dump::used_before(artifacts, n);
    let group = dump::of_type(artifacts, kind);
    let entries = dump::group_entries(artifacts, n);
    let keep = |artifact: ArtifactRow| artifact.artifact_type == kind;
    folder_is(artifacts, n);
    given_names(artifacts, n as nat, dump::folder(artifacts, n));
    laws::filter_holds(artifacts, keep);
    assert forall|i: int, k: int| 0 <= i < used.len() && 0 <= k < entries.len() implies !clash(
        #[trigger] used[i],
        dump::safe((#[trigger] entries[k]).0),
    ) by {
        assert(is_given(artifacts, n as nat, dump::folder(artifacts, n), used[i]));
        let a = choose|a: int|
            0 <= a < artifacts.len() && used[i] == dump::safe(
                (#[trigger] artifacts[a]).display_name(),
            ) && dump::safe(artifacts[a].artifact_type) == dump::folder(artifacts, n) && types.take(
                n,
            ).contains(artifacts[a].artifact_type);
        assert(artifacts.contains(group[k]));
        let b = choose|b: int| 0 <= b < artifacts.len() && artifacts[b] == group[k];
        assert(artifacts[b].artifact_type == kind);
        let t = choose|t: int|
            0 <= t < types.take(n).len() && types.take(n)[t] == artifacts[a].artifact_type;
        dump::types_ascend(artifacts);
        assert(types[t] != types[n]);
        assert(a != b);
        clash_is_symmetric(artifacts[a].display_name(), artifacts[b].display_name());
        if a < b {
            assert(dump::safe(artifacts[a].artifact_type) == dump::safe(
                artifacts[b].artifact_type,
            ));
        } else {
            assert(dump::safe(artifacts[b].artifact_type) == dump::safe(
                artifacts[a].artifact_type,
            ));
        }
    }
    assert forall|i: int, k: int| 0 <= i < k < entries.len() implies !clash(
        dump::safe((#[trigger] entries[i]).0),
        dump::safe((#[trigger] entries[k]).0),
    ) by {
        filter_in_order(artifacts, keep, i, k);
        let (a, b) = choose|a: int, b: int|
            0 <= a < b < artifacts.len() && #[trigger] artifacts[a] == group[i]
                && #[trigger] artifacts[b] == group[k];
        assert(keep(group[i]) && keep(group[k]));
        assert(dump::safe(artifacts[a].artifact_type) == dump::safe(artifacts[b].artifact_type));
    }
    distinct_names_are_kept(used, entries);
    assert(entries.map_values(|entry: (Seq<char>, Seq<char>)| dump::safe(entry.0))
        =~= group.map_values(|artifact: ArtifactRow| dump::safe(artifact.display_name())));
}

proof fn clash_is_symmetric(a: Seq<char>, b: Seq<char>)
    ensures
        clash(dump::safe(a), dump::safe(b)) == clash(dump::safe(b), dump::safe(a)),
{
    let x = dump::safe(a);
    let y = dump::safe(b);
    if clash(x, y) {
        assert forall|i: int| 0 <= i < y.len() implies alike(#[trigger] y[i], x[i]) by {
            assert(alike(x[i], y[i]));
        }
    }
    if clash(y, x) {
        assert forall|i: int| 0 <= i < x.len() implies alike(#[trigger] x[i], y[i]) by {
            assert(alike(y[i], x[i]));
        }
    }
}

proof fn filter_in_order<R>(list: Seq<R>, keep: spec_fn(R) -> bool, i: int, k: int)
    requires
        0 <= i < k < list.filter(keep).len(),
    ensures
        exists|a: int, b: int|
            0 <= a < b < list.len() && #[trigger] list[a] == list.filter(keep)[i]
                && #[trigger] list[b] == list.filter(keep)[k],
    decreases list.len(),
{
    reveal(Seq::filter);
    let front = list.drop_last();
    let kept = list.filter(keep);
    if keep(list.last()) && k == kept.len() - 1 {
        laws::filter_holds(front, keep);
        assert(front.filter(keep)[i] == kept[i]);
        assert(front.contains(front.filter(keep)[i]));
        let a = choose|a: int| 0 <= a < front.len() && front[a] == kept[i];
        assert(list[a] == kept[i]);
        assert(list[list.len() - 1] == kept[k]);
    } else {
        filter_in_order(front, keep, i, k);
        let (a, b) = choose|a: int, b: int|
            0 <= a < b < front.len() && #[trigger] front[a] == front.filter(keep)[i]
                && #[trigger] front[b] == front.filter(keep)[k];
        assert(list[a] == kept[i]);
        assert(list[b] == kept[k]);
    }
}

/// Where names do not clash, the file of an artifact stands in the directory of its
/// task, in that of its type, under its own name, and holds its text.
pub proof fn artifact_file_is(
    tasks: Seq<TaskRow>,
    lists: Seq<Seq<ArtifactRow>>,
    n: int,
    i: int,
)
    requires
        0 <= n < tasks.len(),
        0 <= i < lists[n].len(),
        artifacts_distinct(lists[n]),
    ensures
        dump::tree(tasks, lists).contains(
            FileRow {
                path: dump::directories(tasks)[n] + seq!['/'] + dump::safe(
                    lists[n][i].artifact_type,
                ) + seq!['/'] + dump::safe(lists[n][i].display_name()),
                contents: lists[n][i].body,
            },
        ),
{
    reveal_strlit("/");
    assert("/"@ =~= seq!['/']);
    let list = lists[n];
    let artifact = list[i];
    let types = dump::types_of(list);
    let keep = |other: ArtifactRow| other.artifact_type == artifact.artifact_type;
    dump::types_are_complete(list);
    assert(types.contains(artifact.artifact_type));
    let t = choose|t: int| 0 <= t < types.len() && types[t] == artifact.artifact_type;
    let group = dump::of_type(list, types[t]);
    laws::filter_holds(list, keep);
    assert(keep(list[i]));
    assert(group.contains(list[i]));
    let k = choose|k: int| 0 <= k < group.len() && group[k] == artifact;
    folder_is(list, t);
    group_names(list, t);
    let used = dump::used_before(list, t);
    let directory = dump::directories(tasks)[n];
    let file = dump::nth_files(directory, list, t)[k];
    assert(file.contents == artifact.body);
    assert(file.path == directory + "/"@ + dump::safe(artifact.artifact_type) + "/"@ + dump::safe(
        artifact.display_name(),
    ));
    dump::file_is_in_tree(tasks, lists, n, t, k);
}

/// The file of a task stands in its directory as `task.md`, and holds its text.
pub proof fn task_file_is(tasks: Seq<TaskRow>, lists: Seq<Seq<ArtifactRow>>, n: int)
    requires
        0 <= n < tasks.len(),
    ensures
        dump::tree(tasks, lists).contains(
            FileRow {
                path: dump::directories(tasks)[n] + seq!['/', 't', 'a', 's', 'k', '.', 'm', 'd'],
                contents: tasks[n].body,
            },
        ),
{
    reveal_strlit("/task.md");
    assert("/task.md"@ =~= seq!['/', 't', 'a', 's', 'k', '.', 'm', 'd']);
    dump::every_task_is_exported(tasks, lists, n);
}

/// The directory of a type is its name, unless that is the name of the file of the task;
/// then it has the first eight characters of the UUID of its first artifact before its
/// extension.
pub proof fn folder_name_is(artifact_type: Seq<char>, uuid: Seq<char>)
    requires
        uuid.len() >= 8,
        vstd::utf8::is_ascii_chars(uuid),
        forall|i: int| 0 <= i < 8 ==> ident::is_hex(#[trigger] uuid[i]),
    ensures
        dump::folder_name(artifact_type, uuid) == if dump::safe(artifact_type) == "task.md"@ {
            seq!['t', 'a', 's', 'k', '-', '-'] + uuid.take(8) + seq!['.', 'm', 'd']
        } else {
            dump::safe(artifact_type)
        },
{
    reveal_strlit("task.md");
    let own = seq!['t', 'a', 's', 'k', '.', 'm', 'd'];
    assert("task.md"@ =~= own);
    let used = seq!["task.md"@];
    if dump::safe(artifact_type) == "task.md"@ {
        unique_is(artifact_type, uuid, used);
        assert(clash(used[0], own));
        assert(is_used(dump::safe(artifact_type), used));
        let (stem, extension, n) = choose|stem: Seq<char>, extension: Seq<char>, n: nat|
            #![trigger try_name(stem, uuid.take(8), n, extension)]
            {
                &&& is_split(dump::safe(artifact_type), stem, extension)
                &&& n >= 1
                &&& dump::unique(artifact_type, uuid, used) == try_name(
                    stem,
                    uuid.take(8),
                    n,
                    extension,
                )
                &&& !is_used(try_name(stem, uuid.take(8), n, extension), used)
                &&& forall|m: nat|
                    1 <= m < n ==> is_used(
                        #[trigger] try_name(stem, uuid.take(8), m, extension),
                        used,
                    )
            };
        assert(own[4] == '.');
        if extension.len() == 0 {
            assert(own[4] == '.');
            assert(exists|j: int| 4 < j < own.len() && #[trigger] own[j] == '.');
        }
        assert(own[stem.len() as int] == extension[0]);
        assert(stem.len() == 4) by {
            if stem.len() < 4 {
                assert(own[stem.len() as int] != '.');
            }
            if stem.len() > 4 {
                assert(own[stem.len() as int] != '.');
            }
        }
        assert(stem =~= own.take(4));
        assert(extension =~= own.skip(4));
        let first = try_name(stem, uuid.take(8), 1, extension);
        assert(first.len() > 7);
        if n > 1 {
            assert(is_used(first, used));
            let k = choose|k: int| 0 <= k < used.len() && clash(#[trigger] used[k], first);
            assert(used[k].len() == first.len());
        }
        assert(first =~= seq!['t', 'a', 's', 'k', '-', '-'] + uuid.take(8) + seq!['.', 'm', 'd']);
    }
}

/// The directories of tasks are their ids as names, each made unique by its UUID among
/// those before it.
pub proof fn directories_are_given_in_order(tasks: Seq<TaskRow>, n: int)
    requires
        0 <= n < tasks.len(),
    ensures
        dump::directories(tasks).len() == tasks.len(),
        dump::directories(tasks)[n] == dump::unique(
            tasks[n].id,
            tasks[n].uuid,
            dump::directories(tasks).take(n),
        ),
{
    let entries = tasks.map_values(|task: TaskRow| (task.id, task.uuid));
    names_are_given_in_order(Seq::empty(), entries, n);
    assert(entries[n] == (tasks[n].id, tasks[n].uuid));
}

/// The file of an artifact is named by its own name, made unique by its own UUID among
/// the names that others have in the directory of its type.
pub proof fn artifact_file_is_named(
    tasks: Seq<TaskRow>,
    lists: Seq<Seq<ArtifactRow>>,
    n: int,
    i: int,
)
    requires
        0 <= n < tasks.len(),
        0 <= i < lists[n].len(),
    ensures
        exists|first: Seq<char>, used: Seq<Seq<char>>|
            #![trigger dump::folder_name(lists[n][i].artifact_type, first), dump::unique(lists[n][i].display_name(), lists[n][i].uuid, used)]
            {
                &&& exists|j: int|
                    0 <= j < lists[n].len() && (#[trigger] lists[n][j]).uuid == first
                        && lists[n][j].artifact_type == lists[n][i].artifact_type
                &&& dump::tree(tasks, lists).contains(
                    FileRow {
                        path: dump::directories(tasks)[n] + seq!['/'] + dump::folder_name(
                            lists[n][i].artifact_type,
                            first,
                        ) + seq!['/'] + dump::unique(
                            lists[n][i].display_name(),
                            lists[n][i].uuid,
                            used,
                        ),
                        contents: lists[n][i].body,
                    },
                )
            },
{
    reveal_strlit("/");
    assert("/"@ =~= seq!['/']);
    let list = lists[n];
    let artifact = list[i];
    let types = dump::types_of(list);
    let keep = |other: ArtifactRow| other.artifact_type == artifact.artifact_type;
    dump::types_are_complete(list);
    assert(types.contains(artifact.artifact_type));
    let t = choose|t: int| 0 <= t < types.len() && types[t] == artifact.artifact_type;
    let group = dump::of_type(list, types[t]);
    laws::filter_holds(list, keep);
    assert(keep(list[i]));
    assert(group.contains(list[i]));
    let k = choose|k: int| 0 <= k < group.len() && group[k] == artifact;
    let entries = dump::group_entries(list, t);
    let before = dump::used_before(list, t);
    names_are_given_in_order(before, entries, k);
    let used = dump::names_after(before, entries).take(before.len() + k);
    assert(entries[k] == (artifact.display_name(), artifact.uuid));
    let first = group[0].uuid;
    assert(list.contains(group[0]));
    assert(keep(group[0]));
    let j = choose|j: int| 0 <= j < list.len() && list[j] == group[0];
    assert(list[j].uuid == first && list[j].artifact_type == artifact.artifact_type);
    dump::file_is_in_tree(tasks, lists, n, t, k);
    assert(dump::folder(list, t) == dump::folder_name(artifact.artifact_type, first));
    assert(dump::unique(artifact.display_name(), artifact.uuid, used)
        == dump::names_after(before, entries)[before.len() + k]);
}

/// An export of everything takes the active tasks, then the completed and then the
/// archived ones, each list in its order.
pub proof fn tasks_are_taken_in_order(
    state: State,
    tasks: Seq<TaskRow>,
    lists: Seq<Seq<ArtifactRow>>,
)
    requires
        dump::exports(state, None, tasks, lists),
    ensures
        exists|a: int, b: int|
            #![trigger tasks.take(a), tasks.subrange(a, b)]
            {
                &&& 0 <= a <= b <= tasks.len()
                &&& state.lists_tasks(TaskFilter::Active, tasks.take(a))
                &&& state.lists_tasks(TaskFilter::Completed, tasks.subrange(a, b))
                &&& state.lists_tasks(TaskFilter::Archived, tasks.skip(b))
            },
{
    let (active, completed, archived) = choose|
        active: Seq<TaskRow>,
        completed: Seq<TaskRow>,
        archived: Seq<TaskRow>,
    |
        #![trigger active + completed + archived]
        {
            &&& state.lists_tasks(TaskFilter::Active, active)
            &&& state.lists_tasks(TaskFilter::Completed, completed)
            &&& state.lists_tasks(TaskFilter::Archived, archived)
            &&& tasks == active + completed + archived
        };
    let a = active.len() as int;
    let b = a + completed.len();
    assert(tasks.take(a) =~= active);
    assert(tasks.subrange(a, b) =~= completed);
    assert(tasks.skip(b) =~= archived);
}

} // verus!
