//! How the operations on the store act together.

use vstd::prelude::*;

use crate::error::Failure;
use crate::ident;
use crate::laws;
use crate::like;
use crate::model::{AnnotationRow, ArtifactRow, DocumentRow, NewAnnotationRow, TaskRow};
use crate::order;
use crate::state;
use crate::state::{State, TaskFilter};
use crate::text;

verus! {

// ---------------------------------------------------------------- names

/// A key names at most one task: no key is ambiguous in a store that is in order.
pub proof fn never_ambiguous(state: State, key: Seq<char>)
    requires
        state.orderly(),
    ensures
        match state.find_task(key) {
            Ok(i) => 0 <= i < state.tasks.len() && (state.tasks[i].id == key
                || ident::canonical_uuid(key) == Some(state.tasks[i].uuid)),
            Err(failure) => failure == Failure::NotFound("task not found: "@ + key),
        },
{
    if state.has_id(key) {
        let i = state.id_index(key);
        if let Some(uuid) = ident::canonical_uuid(key) {
            if state.has_task(uuid) {
                let j = state.task_index(uuid);
                assert(ident::canonical_uuid(state.tasks[i].id) != Some(state.tasks[j].uuid));
            }
        }
    }
}

/// Every task is found by its id, and by its UUID in every form.
pub proof fn found_by_id_and_uuid(state: State, i: int, key: Seq<char>)
    requires
        state.orderly(),
        0 <= i < state.tasks.len(),
        key == state.tasks[i].id || ident::canonical_uuid(key) == Some(state.tasks[i].uuid),
    ensures
        state.task_named(key) == Ok::<int, Failure>(i),
        state.read_task(key) == Ok::<TaskRow, Failure>(state.tasks[i]),
{
    state::indices(state, i);
    never_ambiguous(state, key);
    if key != state.tasks[i].id {
        if state.has_id(key) {
            let j = state.id_index(key);
            assert(ident::canonical_uuid(state.tasks[j].id) != Some(state.tasks[i].uuid));
        }
        ident::canonical_form(key);
        assert(!text::is_blank(key)) by {
            ident::uuid_is_not_blank(key);
        }
    }
}

/// Every artifact is found by its UUID in every form.
pub proof fn artifact_found(state: State, i: int, key: Seq<char>)
    requires
        state.wf(),
        0 <= i < state.artifacts.len(),
        ident::canonical_uuid(key) == Some(state.artifacts[i].uuid),
    ensures
        state.artifact_named(key) == Ok::<int, Failure>(i),
        state.read_artifact(key) == Ok::<ArtifactRow, Failure>(state.artifacts[i]),
{
    state::indices(state, i);
}

/// A task that was created is read back as it was created, by its id and by its
/// UUID in every form.
pub proof fn created_task_is_read(
    state: State,
    id: Seq<char>,
    body: Seq<char>,
    uuid: Seq<char>,
    timestamp: Seq<char>,
    key: Seq<char>,
)
    requires
        state.orderly(),
        ident::is_canonical(uuid),
        key == id || ident::canonical_uuid(key) == Some(uuid),
    ensures
        state.create_task(id, body, uuid, timestamp) matches Ok(Some(after)) ==> {
            &&& after.read_task(key) == Ok::<TaskRow, Failure>(
                State::new_task(id, body, uuid, timestamp),
            )
            &&& after.artifacts == state.artifacts
            &&& after.annotations == state.annotations
            &&& after.tasks.drop_last() == state.tasks
        },
{
    if let Ok(Some(after)) = state.create_task(id, body, uuid, timestamp) {
        laws::create_task_keeps_order(state, id, body, uuid, timestamp);
        found_by_id_and_uuid(after, state.tasks.len() as int, key);
        assert(after.tasks.drop_last() =~= state.tasks);
    }
}

/// A second task cannot get the id of a first one, nor its UUID as its id.
pub proof fn taken_names_are_refused(
    state: State,
    i: int,
    id: Seq<char>,
    body: Seq<char>,
    uuid: Seq<char>,
    timestamp: Seq<char>,
)
    requires
        state.orderly(),
        0 <= i < state.tasks.len(),
        !text::is_blank(id),
        id == state.tasks[i].id || ident::canonical_uuid(id) == Some(state.tasks[i].uuid),
    ensures
        state.create_task(id, body, uuid, timestamp) is Err,
{
    state::indices(state, i);
}

// ---------------------------------------------------------------- tasks

/// Every task is in exactly one of the three lists.
pub proof fn one_list_each(task: TaskRow)
    ensures
        state::admits(TaskFilter::Active, task) || state::admits(TaskFilter::Completed, task)
            || state::admits(TaskFilter::Archived, task),
        !(state::admits(TaskFilter::Active, task) && state::admits(TaskFilter::Completed, task)),
        !(state::admits(TaskFilter::Active, task) && state::admits(TaskFilter::Archived, task)),
        !(state::admits(TaskFilter::Completed, task) && state::admits(TaskFilter::Archived, task)),
{
}

/// A list holds the tasks that belong to it and no others.
pub proof fn list_holds(state: State, filter: TaskFilter, list: Seq<TaskRow>, task: TaskRow)
    requires
        state.lists_tasks(filter, list),
    ensures
        list.contains(task) <==> state.tasks.contains(task) && state::admits(filter, task),
{
    let keep = |task: TaskRow| state::admits(filter, task);
    let source = state.tasks_in(filter);
    laws::filter_holds(state.tasks, keep);
    order::ordered_holds_same(
        list,
        source,
        source.map_values(|task: TaskRow| state::task_key(task)),
        false,
    );
    if list.contains(task) {
        assert(source.contains(task));
        let k = choose|k: int| 0 <= k < source.len() && source[k] == task;
        assert(keep(source[k]));
        assert(state.tasks.contains(source[k]));
    }
    if state.tasks.contains(task) && state::admits(filter, task) {
        let i = choose|i: int| 0 <= i < state.tasks.len() && state.tasks[i] == task;
        assert(keep(state.tasks[i]));
        assert(source.contains(state.tasks[i]));
    }
}

/// There is only one list of each kind: the times and UUIDs leave no choice.
pub proof fn task_list_is_unique(
    state: State,
    filter: TaskFilter,
    first: Seq<TaskRow>,
    second: Seq<TaskRow>,
)
    requires
        state.wf(),
        state.lists_tasks(filter, first),
        state.lists_tasks(filter, second),
    ensures
        first == second,
{
    let source = state.tasks_in(filter);
    let keys = source.map_values(|task: TaskRow| state::task_key(task));
    laws::filter_keeps_distinct(
        state.tasks,
        |task: TaskRow| state::admits(filter, task),
        |task: TaskRow| task.uuid,
    );
    let uuids = source.map_values(|task: TaskRow| task.uuid);
    assert(keys.no_duplicates()) by {
        assert forall|a: int, b: int| 0 <= a < b < keys.len() implies keys[a] != keys[b] by {
            assert(uuids[a] != uuids[b]);
            assert(keys[a][1] == uuids[a]);
            assert(keys[b][1] == uuids[b]);
        }
    }
    order::listing_is_unique(first, second, source, keys, false);
}

/// A search finds active tasks only.
pub proof fn search_finds_active(
    state: State,
    query: Seq<char>,
    found: Seq<TaskRow>,
    active: Seq<TaskRow>,
    task: TaskRow,
)
    requires
        state.finds_tasks(query, found),
        state.lists_tasks(TaskFilter::Active, active),
        found.contains(task),
    ensures
        active.contains(task),
{
    let source = state.tasks_found(query);
    let keep = |task: TaskRow|
        task.active() && (like::like(State::pattern(query), task.id) || like::like(
            State::pattern(query),
            task.body,
        ));
    laws::filter_holds(state.tasks, keep);
    order::ordered_holds_same(
        found,
        source,
        source.map_values(|task: TaskRow| state::found_key(task)),
        true,
    );
    let k = choose|k: int| 0 <= k < source.len() && source[k] == task;
    assert(keep(source[k]));
    assert(state.tasks.contains(source[k]));
    list_holds(state, TaskFilter::Active, active, task);
}

/// A query without wildcards finds the active tasks whose id or body holds it,
/// whatever the case of its ASCII letters.
pub proof fn plain_search_finds(
    state: State,
    query: Seq<char>,
    found: Seq<TaskRow>,
    task: TaskRow,
)
    requires
        state.finds_tasks(query, found),
        !query.contains('%'),
        !query.contains('_'),
        !query.contains('\0'),
    ensures
        found.contains(task) <==> {
            &&& state.tasks.contains(task)
            &&& task.active()
            &&& (exists|i: int| #[trigger]
                like::stands_folded(like::until_nul(task.id), query, i)) || (exists|i: int|
             #[trigger]
                like::stands_folded(like::until_nul(task.body), query, i))
        },
{
    let source = state.tasks_found(query);
    let keep = |task: TaskRow|
        task.active() && (like::like(State::pattern(query), task.id) || like::like(
            State::pattern(query),
            task.body,
        ));
    laws::filter_holds(state.tasks, keep);
    order::ordered_holds_same(
        found,
        source,
        source.map_values(|task: TaskRow| state::found_key(task)),
        true,
    );
    like::plain_query_is_found(query, task.id);
    like::plain_query_is_found(query, task.body);
    if source.contains(task) {
        let k = choose|k: int| 0 <= k < source.len() && source[k] == task;
        assert(keep(source[k]));
        assert(state.tasks.contains(source[k]));
    }
    if state.tasks.contains(task) && keep(task) {
        let i = choose|i: int| 0 <= i < state.tasks.len() && state.tasks[i] == task;
        assert(keep(state.tasks[i]));
        assert(source.contains(state.tasks[i]));
    }
}

/// There is only one answer to a search.
pub proof fn search_is_unique(
    state: State,
    query: Seq<char>,
    first: Seq<TaskRow>,
    second: Seq<TaskRow>,
)
    requires
        state.wf(),
        state.finds_tasks(query, first),
        state.finds_tasks(query, second),
    ensures
        first == second,
{
    let source = state.tasks_found(query);
    let keys = source.map_values(|task: TaskRow| state::found_key(task));
    laws::filter_keeps_distinct(
        state.tasks,
        |task: TaskRow|
            task.active() && (like::like(State::pattern(query), task.id)
                || like::like(State::pattern(query), task.body)),
        |task: TaskRow| task.uuid,
    );
    let uuids = source.map_values(|task: TaskRow| task.uuid);
    assert(keys.no_duplicates()) by {
        assert forall|a: int, b: int| 0 <= a < b < keys.len() implies keys[a] != keys[b] by {
            assert(uuids[a] != uuids[b]);
            assert(keys[a][1] == uuids[a]);
            assert(keys[b][1] == uuids[b]);
        }
    }
    order::listing_is_unique(first, second, source, keys, true);
}

/// A renamed task is the same task: it keeps its UUID, its body and the time of
/// its creation, is found by its new id, and no longer by its old one. What
/// belongs to it, and every other task, stays as it is.
pub proof fn rename_keeps_identity(
    state: State,
    i: int,
    key: Seq<char>,
    id: Seq<char>,
    timestamp: Seq<char>,
)
    requires
        state.orderly(),
        state.task_named(key) == Ok::<int, Failure>(i),
    ensures
        state.edit_task(key, Some(id), None, timestamp) matches Ok(after) ==> {
            &&& after.read_task(id) == Ok::<TaskRow, Failure>(
                TaskRow { id, updated_at: timestamp, ..state.tasks[i] },
            )
            &&& after.read_task(state.tasks[i].uuid) == after.read_task(id)
            &&& id != state.tasks[i].id ==> after.read_task(state.tasks[i].id) == Err::<
                TaskRow,
                Failure,
            >(Failure::NotFound("task not found: "@ + state.tasks[i].id))
            &&& after.artifacts == state.artifacts
            &&& after.annotations == state.annotations
            &&& after.tasks.len() == state.tasks.len()
            &&& forall|j: int|
                0 <= j < state.tasks.len() && j != i ==> after.tasks[j] == state.tasks[j]
        },
{
    laws::found_in_range(state, key);
    if let Ok(after) = state.edit_task(key, Some(id), None, timestamp) {
        laws::edit_task_keeps_order(state, key, Some(id), None, timestamp);
        ident::canonical_form(state.tasks[i].uuid);
        found_by_id_and_uuid(after, i, id);
        found_by_id_and_uuid(after, i, state.tasks[i].uuid);
        if id != state.tasks[i].id {
            let former = state.tasks[i].id;
            if after.has_id(former) {
                let j = after.id_index(former);
                assert(state::task_ids(state.tasks)[j] == state::task_ids(state.tasks)[i]);
            }
            if let Some(uuid) = ident::canonical_uuid(former) {
                if after.has_task(uuid) {
                    let j = after.task_index(uuid);
                    assert(state.tasks[j].uuid == uuid);
                    assert(ident::canonical_uuid(state.tasks[i].id) != Some(state.tasks[j].uuid));
                }
            }
        }
    }
}

/// Completing, reopening and archiving never fail on a task that is not archived,
/// and completing and archiving a second time change nothing.
pub proof fn marking_twice(
    state: State,
    key: Seq<char>,
    first: Seq<char>,
    second: Seq<char>,
)
    requires
        state.orderly(),
        state.task_named(key) is Ok,
    ensures
        state.archive_task(key, first) is Ok,
        state.archive_task(key, first)->Ok_0.archive_task(key, second) == state.archive_task(
            key,
            first,
        ),
        state.tasks[state.task_named(key)->Ok_0].archived_at is None ==> {
            &&& state.complete_task(key, first) is Ok
            &&& state.reopen_task(key, first) is Ok
            &&& state.complete_task(key, first)->Ok_0.complete_task(key, second)
                == state.complete_task(key, first)
            &&& state.reopen_task(key, first)->Ok_0.reopen_task(key, second)
                == state.reopen_task(key, first)
        },
{
    let i = state.task_named(key)->Ok_0;
    laws::found_in_range(state, key);
    laws::marking_keeps_order(state, key, first);
    never_ambiguous(state, key);
    let archived = state.archive_task(key, first)->Ok_0;
    assert(archived.tasks[i].archived_at is Some);
    found_by_id_and_uuid(archived, i, key);
    if state.tasks[i].archived_at is None {
        let completed = state.complete_task(key, first)->Ok_0;
        found_by_id_and_uuid(completed, i, key);
        let reopened = state.reopen_task(key, first)->Ok_0;
        found_by_id_and_uuid(reopened, i, key);
    }
}

/// Reopening undoes completing, but for the time of the last change.
pub proof fn reopen_undoes_complete(
    state: State,
    i: int,
    key: Seq<char>,
    first: Seq<char>,
    second: Seq<char>,
)
    requires
        state.orderly(),
        state.task_named(key) == Ok::<int, Failure>(i),
        state.tasks[i].active(),
    ensures
        state.complete_task(key, first) matches Ok(completed) && completed.tasks[i].completed()
            && completed.reopen_task(key, second) == Ok::<State, Failure>(
            state.with_task(i, TaskRow { updated_at: second, ..state.tasks[i] }),
        ),
{
    laws::found_in_range(state, key);
    laws::marking_keeps_order(state, key, first);
    never_ambiguous(state, key);
    let completed = state.complete_task(key, first)->Ok_0;
    found_by_id_and_uuid(completed, i, key);
    assert(completed.reopen_task(key, second)->Ok_0 =~= state.with_task(
        i,
        TaskRow { updated_at: second, ..state.tasks[i] },
    ));
}

/// The id and the body of an archived or completed task cannot be changed, and no
/// artifact can be added to it.
pub proof fn closed_task_is_read_only(
    state: State,
    i: int,
    key: Seq<char>,
    id: Option<Seq<char>>,
    body: Option<Seq<char>>,
    artifact_type: Seq<char>,
    name: Option<Seq<char>>,
    artifact_body: Seq<char>,
    uuid: Seq<char>,
    timestamp: Seq<char>,
)
    requires
        state.task_named(key) == Ok::<int, Failure>(i),
        !state.tasks[i].active(),
    ensures
        state.edit_task(key, id, body, timestamp) is Err,
        state.create_artifact(key, artifact_type, name, artifact_body, uuid, timestamp) is Err,
{
}

/// What belongs to an archived or completed task cannot be changed.
pub proof fn closed_artifact_is_read_only(
    state: State,
    i: int,
    j: int,
    key: Seq<char>,
    value: Seq<char>,
    input: NewAnnotationRow,
    uuid: Seq<char>,
    timestamp: Seq<char>,
)
    requires
        state.orderly(),
        0 <= i < state.tasks.len(),
        !state.tasks[i].active(),
        0 <= j < state.artifacts.len(),
        state.artifacts[j].task_uuid == state.tasks[i].uuid,
        ident::canonical_uuid(key) == Some(state.artifacts[j].uuid),
    ensures
        state.update_artifact(key, value, timestamp) == Err::<State, Failure>(
            state::writable(state.tasks[i])->Err_0,
        ),
        state.rename_artifact(key, value, timestamp) == Err::<State, Failure>(
            state::writable(state.tasks[i])->Err_0,
        ),
        state.create_annotation(key, input, uuid, timestamp) == Err::<State, Failure>(
            state::writable(state.tasks[i])->Err_0,
        ),
{
    artifact_found(state, j, key);
    ident::canonical_form(state.tasks[i].uuid);
    found_by_id_and_uuid(state, i, state.tasks[i].uuid);
}

/// An annotation of an archived or completed task cannot be resolved.
pub proof fn closed_annotation_is_read_only(
    state: State,
    i: int,
    j: int,
    k: int,
    key: Seq<char>,
    timestamp: Seq<char>,
)
    requires
        state.orderly(),
        0 <= i < state.tasks.len(),
        !state.tasks[i].active(),
        0 <= j < state.artifacts.len(),
        state.artifacts[j].task_uuid == state.tasks[i].uuid,
        0 <= k < state.annotations.len(),
        state.annotations[k].artifact_uuid == state.artifacts[j].uuid,
        ident::canonical_uuid(key) == Some(state.annotations[k].uuid),
    ensures
        state.resolve_annotation(key, timestamp) == Err::<State, Failure>(
            state::writable(state.tasks[i])->Err_0,
        ),
{
    state::indices(state, j);
    state::indices(state, k);
    ident::canonical_form(state.tasks[i].uuid);
    found_by_id_and_uuid(state, i, state.tasks[i].uuid);
}

/// What belongs to an active task can be changed: a read-only task is the only
/// obstacle.
pub proof fn active_artifact_is_writable(
    state: State,
    i: int,
    j: int,
    key: Seq<char>,
    value: Seq<char>,
    timestamp: Seq<char>,
)
    requires
        state.orderly(),
        0 <= i < state.tasks.len(),
        state.tasks[i].active(),
        0 <= j < state.artifacts.len(),
        state.artifacts[j].task_uuid == state.tasks[i].uuid,
        ident::canonical_uuid(key) == Some(state.artifacts[j].uuid),
    ensures
        state.update_artifact(key, value, timestamp) matches Ok(after) && after.read_artifact(key)
            == Ok::<ArtifactRow, Failure>(
            ArtifactRow { body: value, updated_at: timestamp, ..state.artifacts[j] },
        ),
        !text::is_blank(value) ==> (state.rename_artifact(key, value, timestamp) matches Ok(after)
            && after.read_artifact(key) == Ok::<ArtifactRow, Failure>(
            ArtifactRow { name: Some(value), updated_at: timestamp, ..state.artifacts[j] },
        )),
{
    artifact_found(state, j, key);
    ident::canonical_form(state.tasks[i].uuid);
    found_by_id_and_uuid(state, i, state.tasks[i].uuid);
    state::indices(state, i);
    laws::changing_artifact_keeps_order(state, key, value, timestamp);
    artifact_found(state.update_artifact(key, value, timestamp)->Ok_0, j, key);
    if !text::is_blank(value) {
        artifact_found(state.rename_artifact(key, value, timestamp)->Ok_0, j, key);
    }
}

/// A deleted task is gone with its artifacts and their annotations, and nothing
/// else is.
pub proof fn delete_removes_all_of_it(state: State, i: int, key: Seq<char>)
    requires
        state.orderly(),
        state.task_named(key) == Ok::<int, Failure>(i),
    ensures
        state.delete_task(key) matches Ok(after) && {
            &&& after.read_task(key) == Err::<TaskRow, Failure>(
                Failure::NotFound("task not found: "@ + key),
            )
            &&& forall|task: TaskRow|
                after.tasks.contains(task) <==> state.tasks.contains(task) && task.uuid
                    != state.tasks[i].uuid
            &&& forall|artifact: ArtifactRow|
                after.artifacts.contains(artifact) <==> state.artifacts.contains(artifact)
                    && artifact.task_uuid != state.tasks[i].uuid
            &&& forall|annotation: AnnotationRow|
                after.annotations.contains(annotation) <==> state.annotations.contains(annotation)
                    && state.target(annotation).task_uuid != state.tasks[i].uuid
        },
{
    laws::found_in_range(state, key);
    never_ambiguous(state, key);
    let uuid = state.tasks[i].uuid;
    let after = state.without_task(uuid);
    let keep_task = |task: TaskRow| task.uuid != uuid;
    let keep_artifact = |artifact: ArtifactRow| artifact.task_uuid != uuid;
    let keep_annotation = |annotation: AnnotationRow|
        !state.owned_by(annotation.artifact_uuid, uuid);
    laws::filter_holds(state.tasks, keep_task);
    laws::filter_holds(state.artifacts, keep_artifact);
    laws::filter_holds(state.annotations, keep_annotation);
    laws::delete_task_keeps_order(state, key);
    assert forall|task: TaskRow|
        after.tasks.contains(task) <==> state.tasks.contains(task) && task.uuid != uuid by {
        if after.tasks.contains(task) {
            let k = choose|k: int| 0 <= k < after.tasks.len() && after.tasks[k] == task;
            assert(keep_task(after.tasks[k]));
        }
        if state.tasks.contains(task) && task.uuid != uuid {
            let k = choose|k: int| 0 <= k < state.tasks.len() && state.tasks[k] == task;
            assert(keep_task(state.tasks[k]));
        }
    }
    assert forall|artifact: ArtifactRow|
        after.artifacts.contains(artifact) <==> state.artifacts.contains(artifact)
            && artifact.task_uuid != uuid by {
        if after.artifacts.contains(artifact) {
            let k = choose|k: int| 0 <= k < after.artifacts.len() && after.artifacts[k] == artifact;
            assert(keep_artifact(after.artifacts[k]));
        }
        if state.artifacts.contains(artifact) && artifact.task_uuid != uuid {
            let k = choose|k: int| 0 <= k < state.artifacts.len() && state.artifacts[k] == artifact;
            assert(keep_artifact(state.artifacts[k]));
        }
    }
    assert forall|annotation: AnnotationRow|
        after.annotations.contains(annotation) <==> state.annotations.contains(annotation)
            && state.target(annotation).task_uuid != uuid by {
        if state.annotations.contains(annotation) {
            let k = choose|k: int|
                0 <= k < state.annotations.len() && state.annotations[k] == annotation;
            assert(state.has_artifact(state.annotations[k].artifact_uuid));
            let t = state.artifact_index(annotation.artifact_uuid);
            assert(state.artifacts[t].uuid == annotation.artifact_uuid);
            if state.owned_by(annotation.artifact_uuid, uuid) {
                let o = choose|o: int|
                    0 <= o < state.artifacts.len() && (#[trigger] state.artifacts[o]).uuid
                        == annotation.artifact_uuid && state.artifacts[o].task_uuid == uuid;
                assert(state::artifact_uuids(state.artifacts)[o] == state::artifact_uuids(
                    state.artifacts,
                )[t]);
            }
            if state.target(annotation).task_uuid != uuid {
                assert(keep_annotation(state.annotations[k]));
            }
        }
        if after.annotations.contains(annotation) {
            let k = choose|k: int|
                0 <= k < after.annotations.len() && after.annotations[k] == annotation;
            assert(keep_annotation(after.annotations[k]));
        }
    }
    if after.has_id(key) {
        let k = after.id_index(key);
        assert(after.tasks.contains(after.tasks[k]));
        let j = choose|j: int| 0 <= j < state.tasks.len() && state.tasks[j] == after.tasks[k];
        if state.tasks[i].id == key {
            assert(state::task_ids(state.tasks)[j] == state::task_ids(state.tasks)[i]);
        } else {
            assert(ident::canonical_uuid(state.tasks[j].id) != Some(state.tasks[i].uuid));
        }
    }
    if let Some(canonical) = ident::canonical_uuid(key) {
        if after.has_task(canonical) {
            let k = after.task_index(canonical);
            assert(after.tasks.contains(after.tasks[k]));
            let j = choose|j: int| 0 <= j < state.tasks.len() && state.tasks[j] == after.tasks[k];
            assert(ident::canonical_uuid(state.tasks[i].id) != Some(state.tasks[j].uuid));
        }
    }
}

// ---------------------------------------------------------------- artifacts and annotations

/// An artifact that was created is read back as it was created, and is in the
/// list of its task.
pub proof fn created_artifact_is_read(
    state: State,
    i: int,
    task_key: Seq<char>,
    artifact_type: Seq<char>,
    name: Option<Seq<char>>,
    body: Seq<char>,
    uuid: Seq<char>,
    timestamp: Seq<char>,
    key: Seq<char>,
)
    requires
        state.orderly(),
        state.task_named(task_key) == Ok::<int, Failure>(i),
        ident::is_canonical(uuid),
        ident::canonical_uuid(key) == Some(uuid),
    ensures
        state.create_artifact(task_key, artifact_type, name, body, uuid, timestamp) matches Ok(
            after,
        ) ==> {
            let artifact = State::new_artifact(
                state.tasks[i].uuid,
                artifact_type,
                name,
                body,
                uuid,
                timestamp,
            );
            &&& after.read_artifact(key) == Ok::<ArtifactRow, Failure>(artifact)
            &&& after.artifacts_of(state.tasks[i].uuid, None) == state.artifacts_of(
                state.tasks[i].uuid,
                None,
            ).push(artifact)
            &&& after.tasks == state.tasks
            &&& after.annotations == state.annotations
        },
{
    if let Ok(after) = state.create_artifact(
        task_key,
        artifact_type,
        name,
        body,
        uuid,
        timestamp,
    ) {
        laws::create_artifact_keeps_order(
            state,
            task_key,
            artifact_type,
            name,
            body,
            uuid,
            timestamp,
        );
        let last = state.artifacts.len() as int;
        artifact_found(after, last, key);
        let none: Option<Seq<char>> = None;
        let owner = state.tasks[i].uuid;
        let keep = |artifact: ArtifactRow|
            artifact.task_uuid == owner && (none matches Some(wanted) ==> artifact.artifact_type
                == wanted);
        laws::filter_step(after.artifacts, keep, last);
        assert(after.artifacts.take(last + 1) =~= after.artifacts);
        assert(after.artifacts.take(last) =~= state.artifacts);
    }
}

/// A list of artifacts holds artifacts of the task, and nothing else.
pub proof fn listed_artifacts_in_store(
    state: State,
    task_uuid: Seq<char>,
    artifact_type: Option<Seq<char>>,
    list: Seq<ArtifactRow>,
)
    requires
        state.lists_artifacts(task_uuid, artifact_type, list),
    ensures
        forall|k: int|
            0 <= k < list.len() ==> state.artifacts.contains(#[trigger] list[k])
                && list[k].task_uuid == task_uuid,
{
    let source = state.artifacts_of(task_uuid, artifact_type);
    let keep = |artifact: ArtifactRow|
        artifact.task_uuid == task_uuid && (artifact_type matches Some(wanted)
            ==> artifact.artifact_type == wanted);
    laws::filter_holds(state.artifacts, keep);
    order::ordered_holds_same(
        list,
        source,
        source.map_values(|artifact: ArtifactRow| state::artifact_key(artifact)),
        false,
    );
    assert forall|k: int| 0 <= k < list.len() implies state.artifacts.contains(#[trigger] list[k])
        && list[k].task_uuid == task_uuid by {
        assert(list.contains(list[k]));
        let j = choose|j: int| 0 <= j < source.len() && source[j] == list[k];
        assert(keep(source[j]));
        assert(state.artifacts.contains(source[j]));
    }
}

/// There is only one list of the artifacts of a task.
pub proof fn artifact_list_is_unique(
    state: State,
    task_uuid: Seq<char>,
    artifact_type: Option<Seq<char>>,
    first: Seq<ArtifactRow>,
    second: Seq<ArtifactRow>,
)
    requires
        state.wf(),
        state.lists_artifacts(task_uuid, artifact_type, first),
        state.lists_artifacts(task_uuid, artifact_type, second),
    ensures
        first == second,
{
    let source = state.artifacts_of(task_uuid, artifact_type);
    let keys = source.map_values(|artifact: ArtifactRow| state::artifact_key(artifact));
    laws::filter_keeps_distinct(
        state.artifacts,
        |artifact: ArtifactRow|
            artifact.task_uuid == task_uuid && (artifact_type matches Some(wanted)
                ==> artifact.artifact_type == wanted),
        |artifact: ArtifactRow| artifact.uuid,
    );
    let uuids = source.map_values(|artifact: ArtifactRow| artifact.uuid);
    assert(keys.no_duplicates()) by {
        assert forall|a: int, b: int| 0 <= a < b < keys.len() implies keys[a] != keys[b] by {
            assert(uuids[a] != uuids[b]);
            assert(keys[a][1] == uuids[a]);
            assert(keys[b][1] == uuids[b]);
        }
    }
    order::listing_is_unique(first, second, source, keys, false);
}

/// There is only one list of the annotations of an artifact.
pub proof fn annotation_list_is_unique(
    state: State,
    artifact_uuid: Seq<char>,
    include_resolved: bool,
    first: Seq<AnnotationRow>,
    second: Seq<AnnotationRow>,
)
    requires
        state.wf(),
        state.lists_annotations(artifact_uuid, include_resolved, first),
        state.lists_annotations(artifact_uuid, include_resolved, second),
    ensures
        first == second,
{
    let source = state.annotations_of(artifact_uuid, include_resolved);
    let keys = source.map_values(|annotation: AnnotationRow| state::annotation_key(annotation));
    laws::filter_keeps_distinct(
        state.annotations,
        |annotation: AnnotationRow|
            annotation.artifact_uuid == artifact_uuid && (include_resolved
                || annotation.resolved_at is None),
        |annotation: AnnotationRow| annotation.uuid,
    );
    let uuids = source.map_values(|annotation: AnnotationRow| annotation.uuid);
    assert(keys.no_duplicates()) by {
        assert forall|a: int, b: int| 0 <= a < b < keys.len() implies keys[a] != keys[b] by {
            assert(uuids[a] != uuids[b]);
            assert(keys[a][1] == uuids[a]);
            assert(keys[b][1] == uuids[b]);
        }
    }
    order::listing_is_unique(first, second, source, keys, false);
}

/// An annotation that was created is among the unresolved ones of its artifact.
pub proof fn created_annotation_is_listed(
    state: State,
    j: int,
    key: Seq<char>,
    input: NewAnnotationRow,
    uuid: Seq<char>,
    timestamp: Seq<char>,
    include_resolved: bool,
)
    requires
        state.wf(),
        0 <= j < state.artifacts.len(),
        ident::canonical_uuid(key) == Some(state.artifacts[j].uuid),
    ensures
        state.create_annotation(key, input, uuid, timestamp) matches Ok(after)
            ==> after.annotations_of(state.artifacts[j].uuid, include_resolved)
            == state.annotations_of(state.artifacts[j].uuid, include_resolved).push(
            State::new_annotation(state.artifacts[j].uuid, input, uuid, timestamp),
        ),
{
    artifact_found(state, j, key);
    if let Ok(after) = state.create_annotation(key, input, uuid, timestamp) {
        let last = state.annotations.len() as int;
        let target = state.artifacts[j].uuid;
        let keep = |annotation: AnnotationRow|
            annotation.artifact_uuid == target && (include_resolved || annotation.resolved_at
                is None);
        laws::filter_step(after.annotations, keep, last);
        assert(after.annotations.take(last + 1) =~= after.annotations);
        assert(after.annotations.take(last) =~= state.annotations);
    }
}

/// A resolved annotation keeps the time at which it was first resolved, and is
/// listed only where resolved ones are asked for.
pub proof fn resolved_annotation(
    state: State,
    key: Seq<char>,
    first: Seq<char>,
    second: Seq<char>,
)
    requires
        state.orderly(),
    ensures
        state.resolve_annotation(key, first) matches Ok(after) ==> {
            let i = state.writable_annotation(key)->Ok_0;
            let annotation = after.annotations[i];
            &&& 0 <= i < state.annotations.len()
            &&& annotation.resolved_at is Some
            &&& after.resolve_annotation(key, second) == Ok::<State, Failure>(after)
            &&& !after.annotations_of(annotation.artifact_uuid, false).contains(annotation)
            &&& after.annotations_of(annotation.artifact_uuid, true).contains(annotation)
        },
{
    if let Ok(after) = state.resolve_annotation(key, first) {
        let i = state.writable_annotation(key)->Ok_0;
        let annotation = after.annotations[i];
        laws::resolve_annotation_keeps_order(state, key, first);
        state::indices(after, i);
        state::indices(state, i);
        assert(annotation.uuid == state.annotations[i].uuid);
        let canonical = ident::canonical_uuid(key)->0;
        assert(state.annotations[i].uuid == canonical);
        assert(after.annotated(i) == state.annotated(i));
        assert(after.writable_annotation(key) == Ok::<int, Failure>(i));
        assert(after.resolve_annotation(key, second)->Ok_0.annotations =~= after.annotations);
        let open = |other: AnnotationRow|
            other.artifact_uuid == annotation.artifact_uuid && (false || other.resolved_at
                is None);
        let all = |other: AnnotationRow|
            other.artifact_uuid == annotation.artifact_uuid && (true || other.resolved_at is None);
        laws::filter_holds(after.annotations, open);
        laws::filter_holds(after.annotations, all);
        let listed = after.annotations_of(annotation.artifact_uuid, false);
        if listed.contains(annotation) {
            let k = choose|k: int| 0 <= k < listed.len() && listed[k] == annotation;
            assert(open(listed[k]));
        }
        assert(all(after.annotations[i]));
    }
}

// ---------------------------------------------------------------- documents

/// A search goes through the text of every task, of every artifact and of every
/// annotation that holds one.
pub proof fn documents_cover(state: State, documents: Seq<DocumentRow>)
    requires
        state.lists_documents(documents),
    ensures
        forall|i: int|
            0 <= i < state.tasks.len() ==> documents.contains(
                State::task_document(#[trigger] state.tasks[i]),
            ),
        forall|i: int|
            0 <= i < state.artifacts.len() ==> documents.contains(
                state.artifact_document(#[trigger] state.artifacts[i]),
            ),
        forall|i: int|
            0 <= i < state.annotations.len() && (#[trigger] state.annotations[i]).body is Some
                ==> documents.contains(state.annotation_document(state.annotations[i])),
{
    let (tasks, artifacts, annotations) = choose|
        tasks: Seq<DocumentRow>,
        artifacts: Seq<DocumentRow>,
        annotations: Seq<DocumentRow>,
    |
        #![trigger tasks + artifacts + annotations]
        {
            &&& state.lists_task_documents(tasks)
            &&& state.lists_artifact_documents(artifacts)
            &&& state.lists_annotation_documents(annotations)
            &&& documents == tasks + artifacts + annotations
        };
    let task_source = state.tasks.map_values(|task: TaskRow| State::task_document(task));
    let artifact_source = state.artifacts.map_values(
        |artifact: ArtifactRow| state.artifact_document(artifact),
    );
    let written = state.annotations_with_body();
    let annotation_source = written.map_values(
        |annotation: AnnotationRow| state.annotation_document(annotation),
    );
    order::ordered_holds_same(
        tasks,
        task_source,
        state.tasks.map_values(|task: TaskRow| seq![task.id]),
        false,
    );
    order::ordered_holds_same(
        artifacts,
        artifact_source,
        state.artifacts.map_values(
            |artifact: ArtifactRow|
                seq![state.owner(artifact).id, artifact.created_at, artifact.uuid],
        ),
        false,
    );
    order::ordered_holds_same(
        annotations,
        annotation_source,
        written.map_values(
            |annotation: AnnotationRow|
                seq![
                    state.owner(state.target(annotation)).id,
                    state.target(annotation).created_at,
                    annotation.created_at,
                    annotation.uuid,
                ],
        ),
        false,
    );
    assert forall|i: int| 0 <= i < state.tasks.len() implies documents.contains(
        State::task_document(#[trigger] state.tasks[i]),
    ) by {
        assert(task_source[i] == State::task_document(state.tasks[i]));
        assert(tasks.contains(task_source[i]));
        let k = choose|k: int| 0 <= k < tasks.len() && tasks[k] == task_source[i];
        assert(documents[k] == task_source[i]);
    }
    assert forall|i: int| 0 <= i < state.artifacts.len() implies documents.contains(
        state.artifact_document(#[trigger] state.artifacts[i]),
    ) by {
        assert(artifact_source[i] == state.artifact_document(state.artifacts[i]));
        assert(artifacts.contains(artifact_source[i]));
        let k = choose|k: int| 0 <= k < artifacts.len() && artifacts[k] == artifact_source[i];
        assert(documents[tasks.len() + k] == artifact_source[i]);
    }
    let keep = |annotation: AnnotationRow| annotation.body is Some;
    laws::filter_holds(state.annotations, keep);
    assert forall|i: int|
        0 <= i < state.annotations.len() && (#[trigger] state.annotations[i]).body
            is Some implies documents.contains(
        state.annotation_document(state.annotations[i]),
    ) by {
        assert(keep(state.annotations[i]));
        assert(written.contains(state.annotations[i]));
        let n = choose|n: int| 0 <= n < written.len() && written[n] == state.annotations[i];
        assert(annotation_source[n] == state.annotation_document(state.annotations[i]));
        assert(annotations.contains(annotation_source[n]));
        let k = choose|k: int|
            0 <= k < annotations.len() && annotations[k] == annotation_source[n];
        assert(documents[tasks.len() + artifacts.len() + k] == annotation_source[n]);
    }
}

/// There is only one order in which a search goes through the texts.
pub proof fn documents_are_unique(
    state: State,
    first: Seq<DocumentRow>,
    second: Seq<DocumentRow>,
)
    requires
        state.wf(),
        state.lists_documents(first),
        state.lists_documents(second),
    ensures
        first == second,
{
    let (t1, a1, n1) = choose|
        tasks: Seq<DocumentRow>,
        artifacts: Seq<DocumentRow>,
        annotations: Seq<DocumentRow>,
    |
        #![trigger tasks + artifacts + annotations]
        {
            &&& state.lists_task_documents(tasks)
            &&& state.lists_artifact_documents(artifacts)
            &&& state.lists_annotation_documents(annotations)
            &&& first == tasks + artifacts + annotations
        };
    let (t2, a2, n2) = choose|
        tasks: Seq<DocumentRow>,
        artifacts: Seq<DocumentRow>,
        annotations: Seq<DocumentRow>,
    |
        #![trigger tasks + artifacts + annotations]
        {
            &&& state.lists_task_documents(tasks)
            &&& state.lists_artifact_documents(artifacts)
            &&& state.lists_annotation_documents(annotations)
            &&& second == tasks + artifacts + annotations
        };
    let task_keys = state.tasks.map_values(|task: TaskRow| seq![task.id]);
    assert(task_keys.no_duplicates()) by {
        let ids = state::task_ids(state.tasks);
        assert forall|a: int, b: int| 0 <= a < b < task_keys.len() implies task_keys[a]
            != task_keys[b] by {
            assert(ids[a] != ids[b]);
            assert(task_keys[a][0] == ids[a]);
            assert(task_keys[b][0] == ids[b]);
        }
    }
    order::listing_is_unique(
        t1,
        t2,
        state.tasks.map_values(|task: TaskRow| State::task_document(task)),
        task_keys,
        false,
    );
    let artifact_keys = state.artifacts.map_values(
        |artifact: ArtifactRow|
            seq![state.owner(artifact).id, artifact.created_at, artifact.uuid],
    );
    assert(artifact_keys.no_duplicates()) by {
        let uuids = state::artifact_uuids(state.artifacts);
        assert forall|a: int, b: int| 0 <= a < b < artifact_keys.len() implies artifact_keys[a]
            != artifact_keys[b] by {
            assert(uuids[a] != uuids[b]);
            assert(artifact_keys[a][2] == uuids[a]);
            assert(artifact_keys[b][2] == uuids[b]);
        }
    }
    order::listing_is_unique(
        a1,
        a2,
        state.artifacts.map_values(|artifact: ArtifactRow| state.artifact_document(artifact)),
        artifact_keys,
        false,
    );
    let written = state.annotations_with_body();
    laws::filter_keeps_distinct(
        state.annotations,
        |annotation: AnnotationRow| annotation.body is Some,
        |annotation: AnnotationRow| annotation.uuid,
    );
    let uuids = written.map_values(|annotation: AnnotationRow| annotation.uuid);
    let annotation_keys = written.map_values(
        |annotation: AnnotationRow|
            seq![
                state.owner(state.target(annotation)).id,
                state.target(annotation).created_at,
                annotation.created_at,
                annotation.uuid,
            ],
    );
    assert(annotation_keys.no_duplicates()) by {
        assert forall|a: int, b: int| 0 <= a < b < annotation_keys.len() implies annotation_keys[a]
            != annotation_keys[b] by {
            assert(uuids[a] != uuids[b]);
            assert(annotation_keys[a][3] == uuids[a]);
            assert(annotation_keys[b][3] == uuids[b]);
        }
    }
    order::listing_is_unique(
        n1,
        n2,
        written.map_values(
            |annotation: AnnotationRow| state.annotation_document(annotation),
        ),
        annotation_keys,
        false,
    );
}

/// Where resolved annotations are not asked for, none is listed; where they are,
/// all annotations of the artifact are.
pub proof fn resolved_are_hidden(
    state: State,
    artifact_uuid: Seq<char>,
    open: Seq<AnnotationRow>,
    all: Seq<AnnotationRow>,
    annotation: AnnotationRow,
)
    requires
        state.lists_annotations(artifact_uuid, false, open),
        state.lists_annotations(artifact_uuid, true, all),
    ensures
        open.contains(annotation) <==> all.contains(annotation) && annotation.resolved_at is None,
        all.contains(annotation) <==> state.annotations.contains(annotation)
            && annotation.artifact_uuid == artifact_uuid,
{
    listed_annotations(state, artifact_uuid, false, open, annotation);
    listed_annotations(state, artifact_uuid, true, all, annotation);
}

proof fn listed_annotations(
    state: State,
    artifact_uuid: Seq<char>,
    include_resolved: bool,
    list: Seq<AnnotationRow>,
    annotation: AnnotationRow,
)
    requires
        state.lists_annotations(artifact_uuid, include_resolved, list),
    ensures
        list.contains(annotation) <==> state.annotations.contains(annotation)
            && annotation.artifact_uuid == artifact_uuid && (include_resolved
            || annotation.resolved_at is None),
{
    let source = state.annotations_of(artifact_uuid, include_resolved);
    let keep = |other: AnnotationRow|
        other.artifact_uuid == artifact_uuid && (include_resolved || other.resolved_at is None);
    laws::filter_holds(state.annotations, keep);
    order::ordered_holds_same(
        list,
        source,
        source.map_values(|other: AnnotationRow| state::annotation_key(other)),
        false,
    );
    if source.contains(annotation) {
        let k = choose|k: int| 0 <= k < source.len() && source[k] == annotation;
        assert(keep(source[k]));
        assert(state.annotations.contains(source[k]));
    }
    if state.annotations.contains(annotation) && keep(annotation) {
        let i = choose|i: int| 0 <= i < state.annotations.len() && state.annotations[i]
            == annotation;
        assert(keep(state.annotations[i]));
        assert(source.contains(state.annotations[i]));
    }
}

} // verus!
