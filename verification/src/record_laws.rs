//! What each operation does to the records, field by field, and in which order
//! records are listed.

use vstd::prelude::*;

use crate::behaviour;
use crate::error::Failure;
use crate::ident;
use crate::model::{
    AnnotationRow, ArtifactInfoRow, ArtifactRow, DocumentRow, NewAnnotationRow, TaskRow,
};
use crate::order;
use crate::output_laws;
use crate::state;
use crate::state::{State, TaskFilter};
use crate::text;

verus! {

// ---------------------------------------------------------------- names

/// A key names a task: it is the id of the task, or its UUID in one of its forms.
pub open spec fn names_task(key: Seq<char>, task: TaskRow) -> bool {
    key == task.id || ident::canonical_uuid(key) == Some(task.uuid)
}

/// Nothing but white space.
pub open spec fn is_empty(value: Seq<char>) -> bool {
    forall|i: int| 0 <= i < value.len() ==> text::is_whitespace(#[trigger] value[i])
}

proof fn key_finds(state: State, i: int, key: Seq<char>)
    requires
        state.orderly(),
        0 <= i < state.tasks.len(),
        names_task(key, state.tasks[i]),
    ensures
        state.find_task(key) == Ok::<int, Failure>(i),
        state.task_named(key) == Ok::<int, Failure>(i),
        !text::is_blank(key),
{
    behaviour::found_by_id_and_uuid(state, i, key);
}

/// A key that names no task is not found; one of nothing but white space is refused.
pub proof fn unknown_key_is_refused(state: State, key: Seq<char>)
    requires
        forall|i: int| 0 <= i < state.tasks.len() ==> !names_task(key, #[trigger] state.tasks[i]),
    ensures
        state.read_task(key) == Err::<TaskRow, Failure>(
            if is_empty(key) {
                Failure::Invalid("task identifier must not be empty"@)
            } else {
                Failure::NotFound("task not found: "@ + key)
            },
        ),
{
    reveal_strlit("task identifier must not be empty");
    reveal_strlit("task identifier");
    reveal_strlit(" must not be empty");
    assert("task identifier"@ + " must not be empty"@ =~= "task identifier must not be empty"@);
    if state.has_id(key) {
        let i = state.id_index(key);
        assert(!names_task(key, state.tasks[i]));
    }
    if let Some(uuid) = ident::canonical_uuid(key) {
        if state.has_task(uuid) {
            let i = state.task_index(uuid);
            assert(!names_task(key, state.tasks[i]));
        }
    }
}

/// A key that is the id of one task and the UUID of another is refused.
pub proof fn ambiguous_key_is_refused(state: State, i: int, j: int, key: Seq<char>)
    requires
        state.wf(),
        0 <= i < state.tasks.len(),
        0 <= j < state.tasks.len(),
        i != j,
        state.tasks[i].id == key,
        ident::canonical_uuid(key) == Some(state.tasks[j].uuid),
    ensures
        state.read_task(key) == Err::<TaskRow, Failure>(
            Failure::Invalid("ambiguous task identifier matches an id and a UUID: "@ + key),
        ),
{
    state::indices(state, i);
    state::indices(state, j);
    ident::uuid_is_not_blank(key);
    assert(state::task_uuids(state.tasks)[i] != state::task_uuids(state.tasks)[j]);
}

// ---------------------------------------------------------------- tasks

/// A new task is added behind the others, with the id, the body and the UUID that it
/// was given, the same time for its creation and its last change, and neither
/// completed nor archived; nothing else changes.
pub proof fn created_task_is(
    state: State,
    id: Seq<char>,
    body: Seq<char>,
    uuid: Seq<char>,
    timestamp: Seq<char>,
)
    requires
        !is_empty(id),
        forall|i: int|
            0 <= i < state.tasks.len() ==> {
                let task = #[trigger] state.tasks[i];
                &&& task.id != id
                &&& task.uuid != uuid
                &&& ident::canonical_uuid(id) != Some(task.uuid)
                &&& ident::canonical_uuid(task.id) != Some(uuid)
            },
        ident::canonical_uuid(id) != Some(uuid),
    ensures
        state.create_task(id, body, uuid, timestamp) matches Ok(Some(after)) && {
            &&& after.tasks.len() == state.tasks.len() + 1
            &&& forall|i: int| 0 <= i < state.tasks.len() ==> after.tasks[i] == state.tasks[i]
            &&& ({
                let task = after.tasks[state.tasks.len() as int];
                &&& task.uuid == uuid
                &&& task.id == id
                &&& task.body == body
                &&& task.created_at == timestamp
                &&& task.updated_at == timestamp
                &&& task.archived_at is None
                &&& task.completed_at is None
            })
            &&& after.artifacts == state.artifacts
            &&& after.annotations == state.annotations
        },
{
    let k = choose|k: int| 0 <= k < id.len() && !text::is_whitespace(#[trigger] id[k]);
    assert(!text::is_blank(id));
}

/// A new task is refused where its id is nothing but white space, is that of another
/// task, or could be taken for the UUID of one.
pub proof fn refused_task_is(
    state: State,
    id: Seq<char>,
    body: Seq<char>,
    uuid: Seq<char>,
    timestamp: Seq<char>,
    i: int,
)
    ensures
        is_empty(id) ==> state.create_task(id, body, uuid, timestamp) == Err::<
            Option<State>,
            Failure,
        >(Failure::Invalid("task id must not be empty"@)),
        !is_empty(id) && 0 <= i < state.tasks.len() && state.tasks[i].id == id
            ==> state.create_task(id, body, uuid, timestamp) == Err::<Option<State>, Failure>(
            Failure::Invalid("task id already exists: "@ + id),
        ),
        !is_empty(id) && 0 <= i < state.tasks.len() && ident::canonical_uuid(id) == Some(
            state.tasks[i].uuid,
        ) && (forall|j: int| 0 <= j < state.tasks.len() ==> (#[trigger] state.tasks[j]).id != id)
            ==> state.create_task(id, body, uuid, timestamp) == Err::<Option<State>, Failure>(
            Failure::Invalid("task id conflicts with an existing task UUID: "@ + id),
        ),
{
    reveal_strlit("task id must not be empty");
    reveal_strlit("task id");
    reveal_strlit(" must not be empty");
    assert("task id"@ + " must not be empty"@ =~= "task id must not be empty"@);
    if !is_empty(id) {
        let k = choose|k: int| 0 <= k < id.len() && !text::is_whitespace(#[trigger] id[k]);
        assert(!text::is_blank(id));
        if 0 <= i < state.tasks.len() {
            if state.tasks[i].id == id {
                assert(state.has_id(id));
            }
            if ident::canonical_uuid(id) == Some(state.tasks[i].uuid) {
                assert(state.has_task(state.tasks[i].uuid));
            }
        }
    } else {
        assert(text::is_blank(id));
    }
}

/// An edited task has the id and the body that it was given, each where it was, and
/// the time of the edit; everything else stays.
pub proof fn edited_task_is(
    state: State,
    i: int,
    key: Seq<char>,
    id: Option<Seq<char>>,
    body: Option<Seq<char>>,
    timestamp: Seq<char>,
)
    requires
        state.orderly(),
        0 <= i < state.tasks.len(),
        names_task(key, state.tasks[i]),
        state.tasks[i].archived_at is None,
        state.tasks[i].completed_at is None,
        id is Some || body is Some,
        id matches Some(id) ==> !is_empty(id),
        id matches Some(id) ==> id == state.tasks[i].id || forall|j: int|
            0 <= j < state.tasks.len() ==> !names_task(id, #[trigger] state.tasks[j]),
    ensures
        state.edit_task(key, id, body, timestamp) matches Ok(after) && {
            &&& after.tasks.len() == state.tasks.len()
            &&& forall|j: int|
                0 <= j < state.tasks.len() && j != i ==> after.tasks[j] == state.tasks[j]
            &&& ({
                let task = after.tasks[i];
                &&& task.uuid == state.tasks[i].uuid
                &&& task.id == if id is Some {
                    id->0
                } else {
                    state.tasks[i].id
                }
                &&& task.body == if body is Some {
                    body->0
                } else {
                    state.tasks[i].body
                }
                &&& task.created_at == state.tasks[i].created_at
                &&& task.updated_at == timestamp
                &&& task.archived_at is None
                &&& task.completed_at is None
            })
            &&& after.artifacts == state.artifacts
            &&& after.annotations == state.annotations
        },
{
    key_finds(state, i, key);
    if let Some(id) = id {
        let k = choose|k: int| 0 <= k < id.len() && !text::is_whitespace(#[trigger] id[k]);
        assert(!text::is_blank(id));
        if id != state.tasks[i].id {
            if state.has_id(id) {
                let j = state.id_index(id);
                assert(!names_task(id, state.tasks[j]));
            }
            if let Some(uuid) = ident::canonical_uuid(id) {
                if state.has_task(uuid) {
                    let j = state.task_index(uuid);
                    assert(!names_task(id, state.tasks[j]));
                }
            }
        }
    }
}

/// An edit is refused where nothing is to be changed, where the id is nothing but
/// white space or names another task, and where the task is archived or completed.
pub proof fn refused_edit_is(
    state: State,
    i: int,
    key: Seq<char>,
    id: Option<Seq<char>>,
    body: Option<Seq<char>>,
    timestamp: Seq<char>,
)
    requires
        state.orderly(),
        0 <= i < state.tasks.len(),
        names_task(key, state.tasks[i]),
    ensures
        id is None && body is None ==> state.edit_task(key, id, body, timestamp) == Err::<
            State,
            Failure,
        >(Failure::Invalid("task edit requires an id or body"@)),
        id is Some && is_empty(id->0) ==> state.edit_task(key, id, body, timestamp) == Err::<
            State,
            Failure,
        >(Failure::Invalid("task id must not be empty"@)),
        (id is Some || body is Some) && !(id is Some && is_empty(id->0))
            && state.tasks[i].archived_at is Some ==> state.edit_task(key, id, body, timestamp)
            == Err::<State, Failure>(
            Failure::Invalid("archived task is read-only: "@ + state.tasks[i].id),
        ),
        (id is Some || body is Some) && !(id is Some && is_empty(id->0))
            && state.tasks[i].archived_at is None && state.tasks[i].completed_at is Some
            ==> state.edit_task(key, id, body, timestamp) == Err::<State, Failure>(
            Failure::Invalid("completed task is read-only: "@ + state.tasks[i].id),
        ),
        id is Some && id->0 != state.tasks[i].id && (exists|j: int|
            0 <= j < state.tasks.len() && names_task(id->0, #[trigger] state.tasks[j]))
            ==> state.edit_task(key, id, body, timestamp) is Err,
{
    reveal_strlit("task id must not be empty");
    reveal_strlit("task id");
    reveal_strlit(" must not be empty");
    assert("task id"@ + " must not be empty"@ =~= "task id must not be empty"@);
    key_finds(state, i, key);
    if id is Some && !is_empty(id->0) {
        let value = id->0;
        let k = choose|k: int| 0 <= k < value.len() && !text::is_whitespace(#[trigger] value[k]);
        assert(!text::is_blank(value));
    }
    if id is Some && is_empty(id->0) {
        assert(text::is_blank(id->0));
    }
    if id is Some && id->0 != state.tasks[i].id && (exists|j: int|
        0 <= j < state.tasks.len() && names_task(id->0, #[trigger] state.tasks[j])) {
        let j = choose|j: int|
            0 <= j < state.tasks.len() && names_task(id->0, #[trigger] state.tasks[j]);
        if state.tasks[j].id == id->0 {
            assert(state.has_id(id->0));
        } else {
            assert(state.has_task(state.tasks[j].uuid));
        }
    }
}

/// One task of a store was replaced.
pub open spec fn one_changed(before: State, after: State, i: int) -> bool {
    &&& after.tasks.len() == before.tasks.len()
    &&& forall|j: int|
        0 <= j < before.tasks.len() && j != i ==> #[trigger] after.tasks[j] == before.tasks[j]
    &&& after.artifacts == before.artifacts
    &&& after.annotations == before.annotations
    &&& after.tasks[i].uuid == before.tasks[i].uuid
    &&& after.tasks[i].id == before.tasks[i].id
    &&& after.tasks[i].body == before.tasks[i].body
    &&& after.tasks[i].created_at == before.tasks[i].created_at
}

/// Completing, reopening and archiving set or clear the time that they are about, and
/// the time of the last change; where there is nothing to do, nothing changes. An
/// archived task can be neither completed nor reopened.
pub proof fn marked_task_is(state: State, i: int, key: Seq<char>, timestamp: Seq<char>)
    requires
        state.orderly(),
        0 <= i < state.tasks.len(),
        names_task(key, state.tasks[i]),
    ensures
        ({
            let task = state.tasks[i];
            let completed = state.complete_task(key, timestamp);
            let reopened = state.reopen_task(key, timestamp);
            let archived = state.archive_task(key, timestamp);
            &&& task.archived_at is Some ==> {
                &&& completed == Err::<State, Failure>(
                    Failure::Invalid("archived task cannot be completed: "@ + task.id),
                )
                &&& reopened == Err::<State, Failure>(
                    Failure::Invalid("archived task cannot be reopened: "@ + task.id),
                )
                &&& archived == Ok::<State, Failure>(state)
            }
            &&& task.archived_at is None ==> {
                &&& task.completed_at is Some ==> completed == Ok::<State, Failure>(state)
                &&& task.completed_at is None ==> (completed matches Ok(after) && one_changed(
                    state,
                    after,
                    i,
                ) && after.tasks[i].completed_at == Some(timestamp) && after.tasks[i].archived_at
                    is None && after.tasks[i].updated_at == timestamp)
                &&& task.completed_at is None ==> reopened == Ok::<State, Failure>(state)
                &&& task.completed_at is Some ==> (reopened matches Ok(after) && one_changed(
                    state,
                    after,
                    i,
                ) && after.tasks[i].completed_at is None && after.tasks[i].archived_at is None
                    && after.tasks[i].updated_at == timestamp)
                &&& archived matches Ok(after) && one_changed(state, after, i)
                    && after.tasks[i].archived_at == Some(timestamp) && after.tasks[i].completed_at
                    == task.completed_at && after.tasks[i].updated_at == timestamp
            }
        }),
{
    key_finds(state, i, key);
}

/// A deleted task is gone, with its artifacts and what was noted on them; everything
/// else stays, in the same order.
pub proof fn deleted_task_is(state: State, i: int, key: Seq<char>)
    requires
        state.orderly(),
        0 <= i < state.tasks.len(),
        names_task(key, state.tasks[i]),
    ensures
        state.delete_task(key) matches Ok(after) && {
            let uuid = state.tasks[i].uuid;
            &&& after.tasks == state.tasks.filter(|task: TaskRow| task.uuid != uuid)
            &&& after.artifacts == state.artifacts.filter(
                |artifact: ArtifactRow| artifact.task_uuid != uuid,
            )
            &&& after.annotations == state.annotations.filter(
                |annotation: AnnotationRow|
                    !(exists|j: int|
                        0 <= j < state.artifacts.len() && (#[trigger] state.artifacts[j]).uuid
                            == annotation.artifact_uuid && state.artifacts[j].task_uuid == uuid),
            )
        },
{
    key_finds(state, i, key);
    let uuid = state.tasks[i].uuid;
    let kept = |annotation: AnnotationRow| !state.owned_by(annotation.artifact_uuid, uuid);
    let wanted = |annotation: AnnotationRow|
        !(exists|j: int|
            0 <= j < state.artifacts.len() && (#[trigger] state.artifacts[j]).uuid
                == annotation.artifact_uuid && state.artifacts[j].task_uuid == uuid);
    assert(kept =~= wanted);
}

// ---------------------------------------------------------------- artifacts

/// A new artifact is added behind the others, with the type, the body and the UUID
/// that it was given, in its task, under its name or one that is made of its type and
/// its UUID; nothing else changes.
pub proof fn created_artifact_is(
    state: State,
    i: int,
    key: Seq<char>,
    artifact_type: Seq<char>,
    name: Option<Seq<char>>,
    body: Seq<char>,
    uuid: Seq<char>,
    timestamp: Seq<char>,
)
    requires
        state.orderly(),
        0 <= i < state.tasks.len(),
        names_task(key, state.tasks[i]),
        state.tasks[i].archived_at is None,
        state.tasks[i].completed_at is None,
        !is_empty(artifact_type),
        name matches Some(name) ==> !is_empty(name),
        ident::is_canonical(uuid),
        forall|j: int|
            0 <= j < state.artifacts.len() ==> (#[trigger] state.artifacts[j]).uuid != uuid,
    ensures
        state.create_artifact(key, artifact_type, name, body, uuid, timestamp) matches Ok(after)
            && {
            &&& after.tasks == state.tasks
            &&& after.annotations == state.annotations
            &&& after.artifacts.len() == state.artifacts.len() + 1
            &&& forall|j: int|
                0 <= j < state.artifacts.len() ==> after.artifacts[j] == state.artifacts[j]
            &&& ({
                let artifact = after.artifacts[state.artifacts.len() as int];
                &&& artifact.uuid == uuid
                &&& artifact.task_uuid == state.tasks[i].uuid
                &&& artifact.artifact_type == artifact_type
                &&& artifact.name == Some(
                    if name is Some {
                        name->0
                    } else {
                        artifact_type + seq!['-', '-'] + uuid.take(8) + seq!['.', 'm', 'd']
                    },
                )
                &&& artifact.body == body
                &&& artifact.created_at == timestamp
                &&& artifact.updated_at == timestamp
            })
        },
{
    key_finds(state, i, key);
    not_blank(artifact_type);
    if let Some(name) = name {
        not_blank(name);
    }
    ident::canonical_has_prefix(uuid);
    reveal_strlit("--");
    reveal_strlit(".md");
    assert("--"@ =~= seq!['-', '-']);
    assert(".md"@ =~= seq!['.', 'm', 'd']);
}

proof fn not_blank(value: Seq<char>)
    ensures
        text::is_blank(value) <==> is_empty(value),
{
    if is_empty(value) {
        assert(text::is_blank(value));
    } else {
        let k = choose|k: int| 0 <= k < value.len() && !text::is_whitespace(#[trigger] value[k]);
        assert(!text::is_blank(value));
    }
}

/// A new artifact is refused where its type or its name is nothing but white space, or
/// its task is archived or completed.
pub proof fn refused_artifact_is(
    state: State,
    i: int,
    key: Seq<char>,
    artifact_type: Seq<char>,
    name: Option<Seq<char>>,
    body: Seq<char>,
    uuid: Seq<char>,
    timestamp: Seq<char>,
)
    requires
        state.orderly(),
        0 <= i < state.tasks.len(),
        names_task(key, state.tasks[i]),
    ensures
        ({
            let created = state.create_artifact(key, artifact_type, name, body, uuid, timestamp);
            let bad_name = name is Some && is_empty(name->0);
            &&& is_empty(artifact_type) ==> created == Err::<State, Failure>(
                Failure::Invalid("artifact type must not be empty"@),
            )
            &&& !is_empty(artifact_type) && bad_name ==> created == Err::<State, Failure>(
                Failure::Invalid("artifact name must not be empty"@),
            )
            &&& !is_empty(artifact_type) && !bad_name && state.tasks[i].archived_at is Some
                ==> created == Err::<State, Failure>(
                Failure::Invalid("archived task is read-only: "@ + state.tasks[i].id),
            )
            &&& !is_empty(artifact_type) && !bad_name && state.tasks[i].archived_at is None
                && state.tasks[i].completed_at is Some ==> created == Err::<State, Failure>(
                Failure::Invalid("completed task is read-only: "@ + state.tasks[i].id),
            )
        }),
{
    key_finds(state, i, key);
    not_blank(artifact_type);
    if let Some(name) = name {
        not_blank(name);
    }
    reveal_strlit("artifact type must not be empty");
    reveal_strlit("artifact name must not be empty");
    reveal_strlit("artifact type");
    reveal_strlit("artifact name");
    reveal_strlit(" must not be empty");
    assert("artifact type"@ + " must not be empty"@ =~= "artifact type must not be empty"@);
    assert("artifact name"@ + " must not be empty"@ =~= "artifact name must not be empty"@);
}

/// A UUID that names no artifact is refused.
pub proof fn unknown_artifact_is_refused(state: State, key: Seq<char>)
    requires
        forall|j: int|
            0 <= j < state.artifacts.len() ==> ident::canonical_uuid(key) != Some(
                (#[trigger] state.artifacts[j]).uuid,
            ),
    ensures
        state.read_artifact(key) == Err::<ArtifactRow, Failure>(
            if ident::canonical_uuid(key) is None {
                Failure::Invalid("invalid UUID: "@ + key)
            } else {
                Failure::NotFound("artifact not found: "@ + key)
            },
        ),
{
    if let Some(uuid) = ident::canonical_uuid(key) {
        if state.has_artifact(uuid) {
            let j = state.artifact_index(uuid);
            assert(Some(state.artifacts[j].uuid) != Some(uuid));
        }
    }
}

/// One artifact of a store was replaced.
pub open spec fn one_artifact_changed(before: State, after: State, j: int) -> bool {
    &&& after.tasks == before.tasks
    &&& after.annotations == before.annotations
    &&& after.artifacts.len() == before.artifacts.len()
    &&& forall|k: int|
        0 <= k < before.artifacts.len() && k != j ==> #[trigger] after.artifacts[k]
            == before.artifacts[k]
    &&& after.artifacts[j].uuid == before.artifacts[j].uuid
    &&& after.artifacts[j].task_uuid == before.artifacts[j].task_uuid
    &&& after.artifacts[j].artifact_type == before.artifacts[j].artifact_type
    &&& after.artifacts[j].created_at == before.artifacts[j].created_at
}

/// A changed artifact of an active task has its new body or its new name and the time
/// of the change; everything else stays. A name of nothing but white space is refused.
pub proof fn changed_artifact_is(
    state: State,
    i: int,
    j: int,
    key: Seq<char>,
    value: Seq<char>,
    timestamp: Seq<char>,
)
    requires
        state.orderly(),
        0 <= i < state.tasks.len(),
        state.tasks[i].archived_at is None,
        state.tasks[i].completed_at is None,
        0 <= j < state.artifacts.len(),
        state.artifacts[j].task_uuid == state.tasks[i].uuid,
        ident::canonical_uuid(key) == Some(state.artifacts[j].uuid),
    ensures
        state.update_artifact(key, value, timestamp) matches Ok(after) && one_artifact_changed(
            state,
            after,
            j,
        ) && after.artifacts[j].body == value && after.artifacts[j].name == state.artifacts[j].name
            && after.artifacts[j].updated_at == timestamp,
        !is_empty(value) ==> (state.rename_artifact(key, value, timestamp) matches Ok(after)
            && one_artifact_changed(state, after, j) && after.artifacts[j].name == Some(value)
            && after.artifacts[j].body == state.artifacts[j].body && after.artifacts[j].updated_at
            == timestamp),
        is_empty(value) ==> state.rename_artifact(key, value, timestamp) == Err::<State, Failure>(
            Failure::Invalid("artifact name must not be empty"@),
        ),
{
    reveal_strlit("artifact name must not be empty");
    reveal_strlit("artifact name");
    reveal_strlit(" must not be empty");
    assert("artifact name"@ + " must not be empty"@ =~= "artifact name must not be empty"@);
    not_blank(value);
    owner_found(state, i, j, key);
}

proof fn owner_found(state: State, i: int, j: int, key: Seq<char>)
    requires
        state.orderly(),
        0 <= i < state.tasks.len(),
        0 <= j < state.artifacts.len(),
        state.artifacts[j].task_uuid == state.tasks[i].uuid,
        ident::canonical_uuid(key) == Some(state.artifacts[j].uuid),
    ensures
        state.artifact_named(key) == Ok::<int, Failure>(j),
        state.task_named(state.artifacts[j].task_uuid) == Ok::<int, Failure>(i),
        state.task_index(state.artifacts[j].task_uuid) == i,
        state.artifact_index(state.artifacts[j].uuid) == j,
{
    behaviour::artifact_found(state, j, key);
    ident::canonical_form(state.tasks[i].uuid);
    key_finds(state, i, state.tasks[i].uuid);
    state::indices(state, i);
    state::indices(state, j);
}

/// What belongs to an archived or completed task is refused to change, with the
/// reason.
pub proof fn closed_artifact_is(
    state: State,
    i: int,
    j: int,
    key: Seq<char>,
    value: Seq<char>,
    input: NewAnnotationRow,
    uuid: Seq<char>,
    timestamp: Seq<char>,
)
    requires
        state.orderly(),
        0 <= i < state.tasks.len(),
        state.tasks[i].archived_at is Some || state.tasks[i].completed_at is Some,
        0 <= j < state.artifacts.len(),
        state.artifacts[j].task_uuid == state.tasks[i].uuid,
        ident::canonical_uuid(key) == Some(state.artifacts[j].uuid),
    ensures
        ({
            let refused = Err::<State, Failure>(
                Failure::Invalid(
                    (if state.tasks[i].archived_at is Some {
                        "archived task is read-only: "@
                    } else {
                        "completed task is read-only: "@
                    }) + state.tasks[i].id,
                ),
            );
            &&& state.update_artifact(key, value, timestamp) == refused
            &&& state.rename_artifact(key, value, timestamp) == refused
            &&& state.create_annotation(key, input, uuid, timestamp) == refused
        }),
{
    owner_found(state, i, j, key);
}

/// What is told of an artifact is what it holds, with the id of its task.
pub proof fn artifact_info_is(state: State, i: int, j: int, key: Seq<char>)
    requires
        state.orderly(),
        0 <= i < state.tasks.len(),
        0 <= j < state.artifacts.len(),
        state.artifacts[j].task_uuid == state.tasks[i].uuid,
        ident::canonical_uuid(key) == Some(state.artifacts[j].uuid),
    ensures
        state.artifact_info(key) matches Ok(info) && {
            &&& info.uuid == state.artifacts[j].uuid
            &&& info.task_uuid == state.tasks[i].uuid
            &&& info.task_id == state.tasks[i].id
            &&& info.artifact_type == state.artifacts[j].artifact_type
            &&& info.name == if state.artifacts[j].name is Some {
                state.artifacts[j].name->0
            } else {
                state.artifacts[j].artifact_type + seq!['-', '-'] + state.artifacts[j].uuid.take(8)
                    + seq!['.', 'm', 'd']
            }
            &&& info.created_at == state.artifacts[j].created_at
            &&& info.updated_at == state.artifacts[j].updated_at
        },
{
    owner_found(state, i, j, key);
    canonical_is_ascii(state.artifacts[j].uuid);
    output_laws::shown_name_is(state.artifacts[j]);
}

proof fn canonical_is_ascii(uuid: Seq<char>)
    requires
        ident::is_canonical(uuid),
    ensures
        vstd::utf8::is_ascii_chars(uuid),
        uuid.len() == 36,
{
    assert forall|i: int| 0 <= i < uuid.len() implies (#[trigger] uuid[i]) as nat <= 127 by {
        assert(uuid[i] == '-' || ident::is_hex(uuid[i]));
    }
}

// ---------------------------------------------------------------- annotations

/// A new annotation is added behind the others, with the kind, the offsets and the
/// texts that it was given, an empty text as none, and not resolved; nothing else
/// changes.
pub proof fn created_annotation_is(
    state: State,
    i: int,
    j: int,
    key: Seq<char>,
    input: NewAnnotationRow,
    uuid: Seq<char>,
    timestamp: Seq<char>,
)
    requires
        state.orderly(),
        0 <= i < state.tasks.len(),
        state.tasks[i].archived_at is None,
        state.tasks[i].completed_at is None,
        0 <= j < state.artifacts.len(),
        state.artifacts[j].task_uuid == state.tasks[i].uuid,
        ident::canonical_uuid(key) == Some(state.artifacts[j].uuid),
        forall|k: int|
            0 <= k < state.annotations.len() ==> (#[trigger] state.annotations[k]).uuid != uuid,
    ensures
        ({
            let created = state.create_annotation(key, input, uuid, timestamp);
            let start = input.start_offset;
            let end = input.end_offset;
            &&& (start is Some) != (end is Some) ==> created == Err::<State, Failure>(
                Failure::Invalid("start and end offsets must be supplied together"@),
            )
            &&& start is Some && end is Some && end->0 < start->0 ==> created == Err::<
                State,
                Failure,
            >(Failure::Invalid("end offset must not be less than start offset"@))
            &&& start is Some && end is Some && start->0 <= end->0 && end->0 > i64::MAX ==> created
                is Err
            &&& start is None && end is None || start is Some && end is Some && start->0 <= end->0
                <= i64::MAX ==> (created matches Ok(after) && {
                &&& after.tasks == state.tasks
                &&& after.artifacts == state.artifacts
                &&& after.annotations.len() == state.annotations.len() + 1
                &&& forall|k: int|
                    0 <= k < state.annotations.len() ==> after.annotations[k]
                        == state.annotations[k]
                &&& ({
                    let annotation = after.annotations[state.annotations.len() as int];
                    &&& annotation.uuid == uuid
                    &&& annotation.artifact_uuid == state.artifacts[j].uuid
                    &&& annotation.kind == input.kind
                    &&& annotation.start_offset == start
                    &&& annotation.end_offset == end
                    &&& annotation.selected_text == if input.selected_text is Some
                        && input.selected_text->0.len() > 0 {
                        input.selected_text
                    } else {
                        None
                    }
                    &&& annotation.body == if input.body is Some && input.body->0.len() > 0 {
                        input.body
                    } else {
                        None
                    }
                    &&& annotation.created_at == timestamp
                    &&& annotation.resolved_at is None
                })
            })
        }),
{
    owner_found(state, i, j, key);
}

/// A resolved annotation has the time at which it was first resolved; everything else
/// stays.
pub proof fn resolved_annotation_is(
    state: State,
    i: int,
    j: int,
    k: int,
    key: Seq<char>,
    timestamp: Seq<char>,
)
    requires
        state.orderly(),
        0 <= i < state.tasks.len(),
        state.tasks[i].archived_at is None,
        state.tasks[i].completed_at is None,
        0 <= j < state.artifacts.len(),
        state.artifacts[j].task_uuid == state.tasks[i].uuid,
        0 <= k < state.annotations.len(),
        state.annotations[k].artifact_uuid == state.artifacts[j].uuid,
        ident::canonical_uuid(key) == Some(state.annotations[k].uuid),
    ensures
        state.resolve_annotation(key, timestamp) matches Ok(after) && {
            let old = state.annotations[k];
            let new = after.annotations[k];
            &&& after.tasks == state.tasks
            &&& after.artifacts == state.artifacts
            &&& after.annotations.len() == state.annotations.len()
            &&& forall|l: int|
                0 <= l < state.annotations.len() && l != k ==> after.annotations[l]
                    == state.annotations[l]
            &&& new.resolved_at == if old.resolved_at is Some {
                old.resolved_at
            } else {
                Some(timestamp)
            }
            &&& new.uuid == old.uuid
            &&& new.artifact_uuid == old.artifact_uuid
            &&& new.kind == old.kind
            &&& new.start_offset == old.start_offset
            &&& new.end_offset == old.end_offset
            &&& new.selected_text == old.selected_text
            &&& new.body == old.body
            &&& new.created_at == old.created_at
        },
{
    ident::canonical_form(state.artifacts[j].uuid);
    owner_found(state, i, j, state.artifacts[j].uuid);
    state::indices(state, k);
    state::indices(state, j);
}

/// An annotation in an archived or completed task is not resolved, with the reason.
pub proof fn closed_annotation_is(
    state: State,
    i: int,
    j: int,
    k: int,
    key: Seq<char>,
    timestamp: Seq<char>,
)
    requires
        state.orderly(),
        0 <= i < state.tasks.len(),
        state.tasks[i].archived_at is Some || state.tasks[i].completed_at is Some,
        0 <= j < state.artifacts.len(),
        state.artifacts[j].task_uuid == state.tasks[i].uuid,
        0 <= k < state.annotations.len(),
        state.annotations[k].artifact_uuid == state.artifacts[j].uuid,
        ident::canonical_uuid(key) == Some(state.annotations[k].uuid),
    ensures
        state.resolve_annotation(key, timestamp) == Err::<State, Failure>(
            Failure::Invalid(
                (if state.tasks[i].archived_at is Some {
                    "archived task is read-only: "@
                } else {
                    "completed task is read-only: "@
                }) + state.tasks[i].id,
            ),
        ),
{
    ident::canonical_form(state.artifacts[j].uuid);
    owner_found(state, i, j, state.artifacts[j].uuid);
    state::indices(state, k);
    state::indices(state, j);
}

/// A UUID that names no annotation is refused.
pub proof fn unknown_annotation_is_refused(state: State, key: Seq<char>, timestamp: Seq<char>)
    requires
        forall|k: int|
            0 <= k < state.annotations.len() ==> ident::canonical_uuid(key) != Some(
                (#[trigger] state.annotations[k]).uuid,
            ),
    ensures
        state.resolve_annotation(key, timestamp) == Err::<State, Failure>(
            if ident::canonical_uuid(key) is None {
                Failure::Invalid("invalid UUID: "@ + key)
            } else {
                Failure::NotFound("annotation not found: "@ + key)
            },
        ),
{
    if let Some(uuid) = ident::canonical_uuid(key) {
        if state.has_annotation(uuid) {
            let k = state.annotation_index(uuid);
            assert(Some(state.annotations[k].uuid) != Some(uuid));
        }
    }
}

// ---------------------------------------------------------------- order

/// One text comes before another: it is the beginning of the other, or has the lower
/// code point where they first differ.
pub open spec fn precedes(a: Seq<char>, b: Seq<char>) -> bool {
    exists|k: int| #[trigger] parts_at(a, b, k)
}

/// Two texts are the same before a place, where the first ends or has the lower code
/// point.
pub open spec fn parts_at(a: Seq<char>, b: Seq<char>, k: int) -> bool {
    &&& 0 <= k <= a.len()
    &&& k < b.len()
    &&& forall|i: int| 0 <= i < k ==> a[i] == b[i]
    &&& k == a.len() || a[k] < b[k]
}

/// Texts are ordered by the code points where they first differ.
pub proof fn text_order_is(a: Seq<char>, b: Seq<char>)
    ensures
        order::text_leq(a, b) <==> a == b || precedes(a, b),
    decreases a.len(),
{
    if a.len() == 0 {
        if b.len() == 0 {
            assert(a =~= b);
        } else {
            assert(parts_at(a, b, 0));
        }
    } else if b.len() == 0 {
        assert forall|k: int| !#[trigger] parts_at(a, b, k) by {}
    } else if a[0] != b[0] {
        if a[0] < b[0] {
            assert(parts_at(a, b, 0));
        } else {
            assert forall|k: int| !#[trigger] parts_at(a, b, k) by {
                if parts_at(a, b, k) && k > 0 {
                    assert(a[0] == b[0]);
                }
            }
        }
    } else {
        let x = a.drop_first();
        let y = b.drop_first();
        text_order_is(x, y);
        if x == y {
            assert(a =~= seq![a[0]] + x);
            assert(b =~= seq![b[0]] + y);
        }
        if precedes(x, y) {
            let k = choose|k: int| #[trigger] parts_at(x, y, k);
            assert forall|i: int| 0 <= i < k + 1 implies a[i] == b[i] by {
                if i > 0 {
                    assert(x[i - 1] == y[i - 1]);
                }
            }
            assert(parts_at(a, b, k + 1));
        }
        if precedes(a, b) {
            let k = choose|k: int| #[trigger] parts_at(a, b, k);
            assert(k > 0);
            assert forall|i: int| 0 <= i < k - 1 implies x[i] == y[i] by {
                assert(a[i + 1] == b[i + 1]);
            }
            assert(parts_at(x, y, k - 1));
        }
    }
}

/// What comes first by one text, and by another where the first is the same.
pub open spec fn by_both(a: Seq<char>, b: Seq<char>, c: Seq<char>, d: Seq<char>) -> bool {
    precedes(a, c) || a == c && (b == d || precedes(b, d))
}

proof fn two_columns(a: Seq<char>, b: Seq<char>, c: Seq<char>, d: Seq<char>)
    ensures
        order::key_leq(seq![a, b], seq![c, d], false) ==> by_both(a, b, c, d),
        order::key_leq(seq![a, b], seq![c, d], true) ==> precedes(c, a) || a == c && (b == d
            || precedes(b, d)),
{
    reveal_with_fuel(order::key_leq, 3);
    let left = seq![a, b];
    let right = seq![c, d];
    assert(left.drop_first() =~= seq![b]);
    assert(right.drop_first() =~= seq![d]);
    assert(seq![b].drop_first() =~= Seq::<Seq<char>>::empty());
    text_order_is(a, c);
    text_order_is(c, a);
    text_order_is(b, d);
}

proof fn ordered_by<R>(
    result: Seq<R>,
    source: Seq<R>,
    key: spec_fn(R) -> Seq<Seq<char>>,
    descending: bool,
)
    requires
        order::ordered(result, source, source.map_values(key), descending),
    ensures
        forall|i: int, j: int|
            0 <= i < j < result.len() ==> order::key_leq(
                key(#[trigger] result[i]),
                key(#[trigger] result[j]),
                descending,
            ),
        result.len() == source.len(),
        forall|item: R| #[trigger] result.contains(item) <==> source.contains(item),
        source.no_duplicates() ==> result.no_duplicates(),
{
    let keys = source.map_values(key);
    order::ordered_holds_same(result, source, keys, descending);
    let order = choose|order: Seq<int>| #[trigger]
        order::is_permutation(order, source.len()) && result == order::picked(source, order)
            && order::is_sorted(order::picked(keys, order), descending);
    let sorted = order::picked(keys, order);
    assert forall|i: int, j: int| 0 <= i < j < result.len() implies order::key_leq(
        key(#[trigger] result[i]),
        key(#[trigger] result[j]),
        descending,
    ) by {
        assert(sorted[i] == key(result[i]));
        assert(sorted[j] == key(result[j]));
        assert(order::key_leq(sorted[i], sorted[j], descending));
    }
    if source.no_duplicates() {
        assert forall|i: int, j: int| 0 <= i < j < result.len() implies result[i] != result[j] by {
            assert(order[i] != order[j]);
            assert(source[order[i]] != source[order[j]]);
        }
    }
}

proof fn rows_are_distinct(state: State)
    requires
        state.wf(),
    ensures
        state.tasks.no_duplicates(),
        state.artifacts.no_duplicates(),
        state.annotations.no_duplicates(),
{
    assert forall|i: int, j: int| 0 <= i < j < state.tasks.len() implies state.tasks[i]
        != state.tasks[j] by {
        assert(state::task_uuids(state.tasks)[i] != state::task_uuids(state.tasks)[j]);
    }
    assert forall|i: int, j: int| 0 <= i < j < state.artifacts.len() implies state.artifacts[i]
        != state.artifacts[j] by {
        assert(state::artifact_uuids(state.artifacts)[i] != state::artifact_uuids(
            state.artifacts,
        )[j]);
    }
    assert forall|i: int, j: int| 0 <= i < j < state.annotations.len() implies state.annotations[i]
        != state.annotations[j] by {
        assert(state::annotation_uuids(state.annotations)[i] != state::annotation_uuids(
            state.annotations,
        )[j]);
    }
}

proof fn filtered<R>(list: Seq<R>, keep: spec_fn(R) -> bool)
    ensures
        forall|item: R| #[trigger]
            list.filter(keep).contains(item) <==> list.contains(item) && keep(item),
        list.no_duplicates() ==> list.filter(keep).no_duplicates(),
    decreases list.len(),
{
    reveal(Seq::filter);
    if list.len() > 0 {
        let front = list.drop_last();
        filtered(front, keep);
        let kept = list.filter(keep);
        assert forall|item: R| #[trigger] kept.contains(item) <==> list.contains(item) && keep(
            item,
        ) by {
            if kept.contains(item) {
                let k = choose|k: int| 0 <= k < kept.len() && kept[k] == item;
                if k < front.filter(keep).len() {
                    assert(front.filter(keep)[k] == item);
                    assert(front.filter(keep).contains(item));
                    let a = choose|a: int| 0 <= a < front.len() && front[a] == item;
                    assert(list[a] == item);
                } else {
                    assert(list[list.len() - 1] == item);
                }
            }
            if list.contains(item) && keep(item) {
                let a = choose|a: int| 0 <= a < list.len() && list[a] == item;
                if a < front.len() {
                    assert(front[a] == item);
                    assert(front.filter(keep).contains(item));
                    let k = choose|k: int|
                        0 <= k < front.filter(keep).len() && front.filter(keep)[k] == item;
                    assert(kept[k] == item);
                } else {
                    assert(kept[kept.len() - 1] == item);
                }
            }
        }
        if list.no_duplicates() {
            assert(front.no_duplicates());
            if keep(list.last()) {
                assert forall|i: int, j: int| 0 <= i < j < kept.len() implies kept[i] != kept[j] by {
                    if j == kept.len() - 1 {
                        assert(front.filter(keep).contains(front.filter(keep)[i]));
                        assert(front.contains(kept[i]));
                        let a = choose|a: int| 0 <= a < front.len() && front[a] == kept[i];
                        assert(list[a] != list[list.len() - 1]);
                    } else {
                        assert(front.filter(keep)[i] != front.filter(keep)[j]);
                    }
                }
            }
        }
    }
}

/// A list of tasks holds those that are neither completed nor archived, those that are
/// completed and not archived, or those that are archived, each once, by the time of
/// their creation and then by UUID.
pub proof fn task_list_is(state: State, filter: TaskFilter, list: Seq<TaskRow>)
    requires
        state.wf(),
        state.lists_tasks(filter, list),
    ensures
        forall|task: TaskRow| #[trigger]
            list.contains(task) <==> state.tasks.contains(task) && match filter {
                TaskFilter::Active => task.archived_at is None && task.completed_at is None,
                TaskFilter::Completed => task.archived_at is None && task.completed_at is Some,
                TaskFilter::Archived => task.archived_at is Some,
            },
        list.no_duplicates(),
        forall|i: int, j: int|
            0 <= i < j < list.len() ==> by_both(
                (#[trigger] list[i]).created_at,
                list[i].uuid,
                (#[trigger] list[j]).created_at,
                list[j].uuid,
            ),
{
    let key = |task: TaskRow| state::task_key(task);
    let keep = |task: TaskRow| state::admits(filter, task);
    rows_are_distinct(state);
    filtered(state.tasks, keep);
    ordered_by(list, state.tasks_in(filter), key, false);
    assert forall|i: int, j: int| 0 <= i < j < list.len() implies by_both(
        (#[trigger] list[i]).created_at,
        list[i].uuid,
        (#[trigger] list[j]).created_at,
        list[j].uuid,
    ) by {
        assert(order::key_leq(key(list[i]), key(list[j]), false));
        two_columns(list[i].created_at, list[i].uuid, list[j].created_at, list[j].uuid);
    }
}

/// Found tasks are listed each once, the last changed first, and then by UUID.
pub proof fn found_tasks_are_ordered(state: State, query: Seq<char>, found: Seq<TaskRow>)
    requires
        state.wf(),
        state.finds_tasks(query, found),
    ensures
        found.no_duplicates(),
        forall|i: int, j: int|
            0 <= i < j < found.len() ==> precedes(
                (#[trigger] found[j]).updated_at,
                (#[trigger] found[i]).updated_at,
            ) || found[i].updated_at == found[j].updated_at && (found[i].uuid == found[j].uuid
                || precedes(found[i].uuid, found[j].uuid)),
{
    let key = |task: TaskRow| state::found_key(task);
    let source = state.tasks_found(query);
    rows_are_distinct(state);
    filtered(
        state.tasks,
        |task: TaskRow|
            task.active() && (crate::like::like(State::pattern(query), task.id)
                || crate::like::like(State::pattern(query), task.body)),
    );
    ordered_by(found, source, key, true);
    assert forall|i: int, j: int| 0 <= i < j < found.len() implies precedes(
        (#[trigger] found[j]).updated_at,
        (#[trigger] found[i]).updated_at,
    ) || found[i].updated_at == found[j].updated_at && (found[i].uuid == found[j].uuid || precedes(
        found[i].uuid,
        found[j].uuid,
    )) by {
        assert(order::key_leq(key(found[i]), key(found[j]), true));
        two_columns(found[i].updated_at, found[i].uuid, found[j].updated_at, found[j].uuid);
    }
}

/// A list of artifacts holds those of the task, of the type that was asked for or of
/// all, each once, by the time of their creation and then by UUID.
pub proof fn artifact_list_is(
    state: State,
    task_uuid: Seq<char>,
    artifact_type: Option<Seq<char>>,
    list: Seq<ArtifactRow>,
)
    requires
        state.wf(),
        state.lists_artifacts(task_uuid, artifact_type, list),
    ensures
        forall|artifact: ArtifactRow| #[trigger]
            list.contains(artifact) <==> state.artifacts.contains(artifact) && artifact.task_uuid
                == task_uuid && (artifact_type is Some ==> artifact.artifact_type
                == artifact_type->0),
        list.no_duplicates(),
        forall|i: int, j: int|
            0 <= i < j < list.len() ==> by_both(
                (#[trigger] list[i]).created_at,
                list[i].uuid,
                (#[trigger] list[j]).created_at,
                list[j].uuid,
            ),
{
    let key = |artifact: ArtifactRow| state::artifact_key(artifact);
    let keep = |artifact: ArtifactRow|
        artifact.task_uuid == task_uuid && (artifact_type matches Some(wanted)
            ==> artifact.artifact_type == wanted);
    rows_are_distinct(state);
    filtered(state.artifacts, keep);
    ordered_by(list, state.artifacts_of(task_uuid, artifact_type), key, false);
    assert forall|i: int, j: int| 0 <= i < j < list.len() implies by_both(
        (#[trigger] list[i]).created_at,
        list[i].uuid,
        (#[trigger] list[j]).created_at,
        list[j].uuid,
    ) by {
        assert(order::key_leq(key(list[i]), key(list[j]), false));
        two_columns(list[i].created_at, list[i].uuid, list[j].created_at, list[j].uuid);
    }
}

/// A list of annotations holds those on the artifact, all or those that are not
/// resolved, each once, by the time of their creation and then by UUID.
pub proof fn annotation_list_is(
    state: State,
    artifact_uuid: Seq<char>,
    include_resolved: bool,
    list: Seq<AnnotationRow>,
)
    requires
        state.wf(),
        state.lists_annotations(artifact_uuid, include_resolved, list),
    ensures
        forall|annotation: AnnotationRow| #[trigger]
            list.contains(annotation) <==> state.annotations.contains(annotation)
                && annotation.artifact_uuid == artifact_uuid && (include_resolved
                || annotation.resolved_at is None),
        list.no_duplicates(),
        forall|i: int, j: int|
            0 <= i < j < list.len() ==> by_both(
                (#[trigger] list[i]).created_at,
                list[i].uuid,
                (#[trigger] list[j]).created_at,
                list[j].uuid,
            ),
{
    let key = |annotation: AnnotationRow| state::annotation_key(annotation);
    let keep = |annotation: AnnotationRow|
        annotation.artifact_uuid == artifact_uuid && (include_resolved || annotation.resolved_at
            is None);
    rows_are_distinct(state);
    filtered(state.annotations, keep);
    ordered_by(list, state.annotations_of(artifact_uuid, include_resolved), key, false);
    assert forall|i: int, j: int| 0 <= i < j < list.len() implies by_both(
        (#[trigger] list[i]).created_at,
        list[i].uuid,
        (#[trigger] list[j]).created_at,
        list[j].uuid,
    ) by {
        assert(order::key_leq(key(list[i]), key(list[j]), false));
        two_columns(list[i].created_at, list[i].uuid, list[j].created_at, list[j].uuid);
    }
}

// ---------------------------------------------------------------- documents

/// A search goes through one text for each task, each artifact and each annotation
/// that holds one.
pub proof fn documents_are_counted(state: State, documents: Seq<DocumentRow>)
    requires
        state.lists_documents(documents),
    ensures
        documents.len() == state.tasks.len() + state.artifacts.len() + state.annotations.filter(
            |annotation: AnnotationRow| annotation.body is Some,
        ).len(),
{
    let (tasks, artifacts, annotations) = choose|
        tasks: Seq<DocumentRow>,
        artifacts: Seq<DocumentRow>,
        annotations: Seq<DocumentRow>,
    |
        #![trigger tasks + artifacts + annotations]
        {
            &&& state.lists_task_documents(tasks)
            &&& state.lists_artifact_documents(artifacts)
            &&& state.lists_annotation_documents(annotations)
            &&& documents == tasks + artifacts + annotations
        };
    order::ordered_holds_same(
        tasks,
        state.tasks.map_values(|task: TaskRow| State::task_document(task)),
        state.tasks.map_values(|task: TaskRow| seq![task.id]),
        false,
    );
    order::ordered_holds_same(
        artifacts,
        state.artifacts.map_values(|artifact: ArtifactRow| state.artifact_document(artifact)),
        state.artifacts.map_values(
            |artifact: ArtifactRow|
                seq![state.owner(artifact).id, artifact.created_at, artifact.uuid],
        ),
        false,
    );
    order::ordered_holds_same(
        annotations,
        state.annotations_with_body().map_values(
            |annotation: AnnotationRow| state.annotation_document(annotation),
        ),
        state.annotations_with_body().map_values(
            |annotation: AnnotationRow|
                seq![
                    state.owner(state.target(annotation)).id,
                    state.target(annotation).created_at,
                    annotation.created_at,
                    annotation.uuid,
                ],
        ),
        false,
    );
}

/// The text of a task stands at its id and `task.md`; that of an artifact at the id of
/// its task, its type and its name, with its UUID; that of an annotation below its
/// artifact, with the UUID of that.
pub proof fn documents_are(state: State, documents: Seq<DocumentRow>, i: int, j: int, k: int)
    requires
        state.orderly(),
        state.lists_documents(documents),
        0 <= i < state.tasks.len(),
    ensures
        documents.contains(
            DocumentRow {
                path: state.tasks[i].id + seq!['/', 't', 'a', 's', 'k', '.', 'm', 'd'],
                artifact_uuid: None,
                body: state.tasks[i].body,
            },
        ),
        0 <= j < state.artifacts.len() && state.artifacts[j].task_uuid == state.tasks[i].uuid ==> {
            let path = state.tasks[i].id + seq!['/'] + state.artifacts[j].artifact_type + seq!['/']
                + state.artifacts[j].display_name();
            &&& documents.contains(
                DocumentRow {
                    path,
                    artifact_uuid: Some(state.artifacts[j].uuid),
                    body: state.artifacts[j].body,
                },
            )
            &&& 0 <= k < state.annotations.len() && state.annotations[k].artifact_uuid
                == state.artifacts[j].uuid && state.annotations[k].body is Some
                ==> documents.contains(
                DocumentRow {
                    path: path + "/annotations/"@ + state.annotations[k].uuid + seq!['.', 'm', 'd'],
                    artifact_uuid: Some(state.artifacts[j].uuid),
                    body: state.annotations[k].body->0,
                },
            )
        },
{
    reveal_strlit("/task.md");
    reveal_strlit("/");
    reveal_strlit(".md");
    assert("/task.md"@ =~= seq!['/', 't', 'a', 's', 'k', '.', 'm', 'd']);
    assert("/"@ =~= seq!['/']);
    assert(".md"@ =~= seq!['.', 'm', 'd']);
    behaviour::documents_cover(state, documents);
    assert(documents.contains(State::task_document(state.tasks[i])));
    if 0 <= j < state.artifacts.len() && state.artifacts[j].task_uuid == state.tasks[i].uuid {
        ident::canonical_form(state.artifacts[j].uuid);
        owner_found(state, i, j, state.artifacts[j].uuid);
        assert(documents.contains(state.artifact_document(state.artifacts[j])));
        if 0 <= k < state.annotations.len() && state.annotations[k].artifact_uuid
            == state.artifacts[j].uuid && state.annotations[k].body is Some {
            assert(documents.contains(state.annotation_document(state.annotations[k])));
        }
    }
}

/// A query that is nothing but white space is refused, and so is one that is too long
/// to be compared with an active task; every other is searched for.
pub proof fn searchable_is(state: State, query: Seq<char>)
    ensures
        state.searchable(query) == if is_empty(query) {
            Err::<(), Failure>(Failure::Invalid("search query must not be empty"@))
        } else if vstd::utf8::encode_utf8(seq!['%'] + query + seq!['%']).len() > 50000 && (
        exists|i: int|
            0 <= i < state.tasks.len() && (#[trigger] state.tasks[i]).archived_at is None
                && state.tasks[i].completed_at is None) {
            Err(Failure::Other("LIKE or GLOB pattern too complex"@))
        } else {
            Ok(())
        },
{
    reveal_strlit("search query must not be empty");
    reveal_strlit("search query");
    reveal_strlit(" must not be empty");
    reveal_strlit("%");
    assert("search query"@ + " must not be empty"@ =~= "search query must not be empty"@);
    assert(State::pattern(query) =~= seq!['%'] + query + seq!['%']);
    not_blank(query);
    if exists|i: int| 0 <= i < state.tasks.len() && (#[trigger] state.tasks[i]).active() {
        let i = choose|i: int| 0 <= i < state.tasks.len() && (#[trigger] state.tasks[i]).active();
        assert(state.tasks[i].archived_at is None && state.tasks[i].completed_at is None);
    }
    if exists|i: int|
        0 <= i < state.tasks.len() && (#[trigger] state.tasks[i]).archived_at is None
            && state.tasks[i].completed_at is None {
        let i = choose|i: int|
            0 <= i < state.tasks.len() && (#[trigger] state.tasks[i]).archived_at is None
                && state.tasks[i].completed_at is None;
        assert(state.tasks[i].active());
    }
}

/// The artifacts of a task are asked for by its key; a type of nothing but white space
/// is refused.
pub proof fn artifacts_are_asked_for(
    state: State,
    i: int,
    key: Seq<char>,
    artifact_type: Option<Seq<char>>,
)
    requires
        state.orderly(),
        0 <= i < state.tasks.len(),
        names_task(key, state.tasks[i]),
    ensures
        state.artifacts_task(key, artifact_type) == if artifact_type is Some && is_empty(
            artifact_type->0,
        ) {
            Err::<int, Failure>(Failure::Invalid("artifact type must not be empty"@))
        } else {
            Ok(i)
        },
{
    key_finds(state, i, key);
    if let Some(wanted) = artifact_type {
        not_blank(wanted);
    }
    reveal_strlit("artifact type must not be empty");
    reveal_strlit("artifact type");
    reveal_strlit(" must not be empty");
    assert("artifact type"@ + " must not be empty"@ =~= "artifact type must not be empty"@);
}

/// What is made of the items of a sequence, in the order of their keys.
pub open spec fn in_order<R, D>(
    result: Seq<D>,
    source: Seq<R>,
    made: spec_fn(R) -> D,
    key: spec_fn(R) -> Seq<Seq<char>>,
    picks: Seq<int>,
) -> bool {
    &&& picks.len() == source.len()
    &&& result.len() == source.len()
    &&& picks.no_duplicates()
    &&& forall|k: int|
        0 <= k < picks.len() ==> 0 <= #[trigger] picks[k] < source.len() && result[k] == made(
            source[picks[k]],
        )
    &&& forall|k: int, l: int|
        0 <= k < l < picks.len() ==> columns_leq(
            key(source[#[trigger] picks[k]]),
            key(source[#[trigger] picks[l]]),
        )
}

/// Keys are compared column by column: the first that differs decides.
pub open spec fn columns_leq(a: Seq<Seq<char>>, b: Seq<Seq<char>>) -> bool {
    a == b || exists|c: int| #[trigger] column_decides(a, b, c)
}

/// The keys are the same before a column, where the first comes first.
pub open spec fn column_decides(a: Seq<Seq<char>>, b: Seq<Seq<char>>, c: int) -> bool {
    &&& 0 <= c < a.len()
    &&& c < b.len()
    &&& forall|i: int| 0 <= i < c ==> a[i] == b[i]
    &&& precedes(a[c], b[c])
}

proof fn columns_are(a: Seq<Seq<char>>, b: Seq<Seq<char>>)
    requires
        a.len() == b.len(),
        order::key_leq(a, b, false),
    ensures
        columns_leq(a, b),
    decreases a.len(),
{
    if a.len() == 0 {
        assert(a =~= b);
    } else if a[0] != b[0] {
        text_order_is(a[0], b[0]);
        assert(column_decides(a, b, 0));
    } else {
        let x = a.drop_first();
        let y = b.drop_first();
        columns_are(x, y);
        if x == y {
            assert(a =~= seq![a[0]] + x);
            assert(b =~= seq![b[0]] + y);
        } else {
            let c = choose|c: int| #[trigger] column_decides(x, y, c);
            assert forall|i: int| 0 <= i < c + 1 implies a[i] == b[i] by {
                if i > 0 {
                    assert(x[i - 1] == y[i - 1]);
                }
            }
            assert(column_decides(a, b, c + 1));
        }
    }
}

proof fn picked_in_order<R, D>(
    result: Seq<D>,
    source: Seq<R>,
    made: spec_fn(R) -> D,
    key: spec_fn(R) -> Seq<Seq<char>>,
    width: nat,
) -> (picks: Seq<int>)
    requires
        order::ordered(result, source.map_values(made), source.map_values(key), false),
        forall|row: R| (#[trigger] key(row)).len() == width,
    ensures
        in_order(result, source, made, key, picks),
{
    let keys = source.map_values(key);
    let rows = source.map_values(made);
    let picks = choose|order: Seq<int>| #[trigger]
        order::is_permutation(order, rows.len()) && result == order::picked(rows, order)
            && order::is_sorted(order::picked(keys, order), false);
    let sorted = order::picked(keys, picks);
    assert forall|k: int| 0 <= k < picks.len() implies 0 <= #[trigger] picks[k] < source.len()
        && result[k] == made(source[picks[k]]) by {
        assert(result[k] == rows[picks[k]]);
    }
    assert forall|k: int, l: int| 0 <= k < l < picks.len() implies columns_leq(
        key(source[#[trigger] picks[k]]),
        key(source[#[trigger] picks[l]]),
    ) by {
        assert(sorted[k] == key(source[picks[k]]));
        assert(sorted[l] == key(source[picks[l]]));
        assert(order::key_leq(sorted[k], sorted[l], false));
        columns_are(sorted[k], sorted[l]);
    }
    picks
}

/// A search goes through the tasks by id, then through the artifacts by the id of their
/// task, time and UUID, then through the annotations by the id of their task, the time
/// of their artifact, their own time and UUID.
pub proof fn documents_are_ordered(state: State, documents: Seq<DocumentRow>)
    requires
        state.lists_documents(documents),
    ensures
        exists|t: Seq<int>, a: Seq<int>, n: Seq<int>, tasks: Seq<DocumentRow>, artifacts: Seq<DocumentRow>, annotations: Seq<DocumentRow>|
            #![trigger t.len(), a.len(), n.len(), tasks + artifacts + annotations]
            {
                &&& documents == tasks + artifacts + annotations
                &&& in_order(
                    tasks,
                    state.tasks,
                    |task: TaskRow| State::task_document(task),
                    |task: TaskRow| seq![task.id],
                    t,
                )
                &&& in_order(
                    artifacts,
                    state.artifacts,
                    |artifact: ArtifactRow| state.artifact_document(artifact),
                    |artifact: ArtifactRow|
                        seq![state.owner(artifact).id, artifact.created_at, artifact.uuid],
                    a,
                )
                &&& in_order(
                    annotations,
                    state.annotations.filter(
                        |annotation: AnnotationRow| annotation.body is Some,
                    ),
                    |annotation: AnnotationRow| state.annotation_document(annotation),
                    |annotation: AnnotationRow|
                        seq![
                            state.owner(state.target(annotation)).id,
                            state.target(annotation).created_at,
                            annotation.created_at,
                            annotation.uuid,
                        ],
                    n,
                )
            },
{
    let (tasks, artifacts, annotations) = choose|
        tasks: Seq<DocumentRow>,
        artifacts: Seq<DocumentRow>,
        annotations: Seq<DocumentRow>,
    |
        #![trigger tasks + artifacts + annotations]
        {
            &&& state.lists_task_documents(tasks)
            &&& state.lists_artifact_documents(artifacts)
            &&& state.lists_annotation_documents(annotations)
            &&& documents == tasks + artifacts + annotations
        };
    let t = picked_in_order(
        tasks,
        state.tasks,
        |task: TaskRow| State::task_document(task),
        |task: TaskRow| seq![task.id],
        1,
    );
    let a = picked_in_order(
        artifacts,
        state.artifacts,
        |artifact: ArtifactRow| state.artifact_document(artifact),
        |artifact: ArtifactRow|
            seq![state.owner(artifact).id, artifact.created_at, artifact.uuid],
        3,
    );
    let n = picked_in_order(
        annotations,
        state.annotations.filter(|annotation: AnnotationRow| annotation.body is Some),
        |annotation: AnnotationRow| state.annotation_document(annotation),
        |annotation: AnnotationRow|
            seq![
                state.owner(state.target(annotation)).id,
                state.target(annotation).created_at,
                annotation.created_at,
                annotation.uuid,
            ],
        4,
    );
    assert(t.len() == state.tasks.len() && a.len() == state.artifacts.len() && n.len() >= 0);
    assert(documents == tasks + artifacts + annotations);
}

// ---------------------------------------------------------------- what is not there

/// Where a key names no task, every operation on it is refused with the same reason.
pub proof fn unknown_task_is_refused_everywhere(
    state: State,
    key: Seq<char>,
    id: Option<Seq<char>>,
    body: Option<Seq<char>>,
    artifact_type: Seq<char>,
    name: Option<Seq<char>>,
    uuid: Seq<char>,
    timestamp: Seq<char>,
)
    requires
        !is_empty(key),
        forall|i: int| 0 <= i < state.tasks.len() ==> !names_task(key, #[trigger] state.tasks[i]),
        !is_empty(artifact_type),
        name matches Some(name) ==> !is_empty(name),
        id is Some || body is Some,
        id matches Some(id) ==> !is_empty(id),
    ensures
        ({
            let failure = Failure::NotFound("task not found: "@ + key);
            let refused = Err::<State, Failure>(failure);
            &&& state.edit_task(key, id, body, timestamp) == refused
            &&& state.complete_task(key, timestamp) == refused
            &&& state.reopen_task(key, timestamp) == refused
            &&& state.archive_task(key, timestamp) == refused
            &&& state.delete_task(key) == refused
            &&& state.create_artifact(
                key,
                artifact_type,
                name,
                Seq::empty(),
                uuid,
                timestamp,
            ) == refused
            &&& state.artifacts_task(key, Some(artifact_type)) == Err::<int, Failure>(failure)
            &&& state.artifacts_task(key, None) == Err::<int, Failure>(failure)
        }),
{
    unknown_key_is_refused(state, key);
    not_blank(key);
    not_blank(artifact_type);
    if let Some(name) = name {
        not_blank(name);
    }
    if let Some(id) = id {
        not_blank(id);
    }
}

/// Where a UUID names no artifact, every operation on it is refused with the same
/// reason.
pub proof fn unknown_artifact_is_refused_everywhere(
    state: State,
    key: Seq<char>,
    value: Seq<char>,
    input: NewAnnotationRow,
    uuid: Seq<char>,
    timestamp: Seq<char>,
)
    requires
        forall|j: int|
            0 <= j < state.artifacts.len() ==> ident::canonical_uuid(key) != Some(
                (#[trigger] state.artifacts[j]).uuid,
            ),
    ensures
        ({
            let failure = if ident::canonical_uuid(key) is None {
                Failure::Invalid("invalid UUID: "@ + key)
            } else {
                Failure::NotFound("artifact not found: "@ + key)
            };
            let refused = Err::<State, Failure>(failure);
            &&& state.update_artifact(key, value, timestamp) == refused
            &&& state.rename_artifact(key, value, timestamp) == refused
            &&& state.create_annotation(key, input, uuid, timestamp) == refused
            &&& state.artifact_info(key) == Err::<ArtifactInfoRow, Failure>(failure)
        }),
{
    unknown_artifact_is_refused(state, key);
}

/// A UUID that a new task cannot have is not used: one that an id could be taken for is
/// passed over, and one that another task has is refused. So it is with those of
/// artifacts and annotations.
pub proof fn used_uuids_are_refused(
    state: State,
    id: Seq<char>,
    body: Seq<char>,
    uuid: Seq<char>,
    timestamp: Seq<char>,
)
    requires
        !is_empty(id),
        forall|i: int|
            0 <= i < state.tasks.len() ==> (#[trigger] state.tasks[i]).id != id
                && ident::canonical_uuid(id) != Some(state.tasks[i].uuid),
    ensures
        ({
            let created = state.create_task(id, body, uuid, timestamp);
            let mistaken = ident::canonical_uuid(id) == Some(uuid) || exists|i: int|
                0 <= i < state.tasks.len() && ident::canonical_uuid((#[trigger] state.tasks[i]).id)
                    == Some(uuid);
            &&& mistaken ==> created == Ok::<Option<State>, Failure>(None)
            &&& !mistaken && (exists|i: int|
                0 <= i < state.tasks.len() && (#[trigger] state.tasks[i]).uuid == uuid) ==> created
                == Err::<Option<State>, Failure>(
                Failure::Other("failed to create task "@ + id),
            )
        }),
{
    not_blank(id);
    if state.has_id(id) {
        let i = state.id_index(id);
        assert(state.tasks[i].id != id);
    }
    if let Some(read) = ident::canonical_uuid(id) {
        if state.has_task(read) {
            let i = state.task_index(read);
            assert(ident::canonical_uuid(id) != Some(state.tasks[i].uuid));
        }
    }
}

/// An artifact that can be reviewed is that which the UUID names, in an active task; a
/// task that is not active is reported as an error that is not about the request.
pub proof fn reviewable_is(state: State, i: int, j: int, key: Seq<char>)
    requires
        state.orderly(),
        0 <= i < state.tasks.len(),
        0 <= j < state.artifacts.len(),
        state.artifacts[j].task_uuid == state.tasks[i].uuid,
        ident::canonical_uuid(key) == Some(state.artifacts[j].uuid),
    ensures
        crate::app::reviewable(state, key) == if state.tasks[i].archived_at is Some {
            Err::<ArtifactRow, Failure>(
                Failure::Other("archived task is read-only: "@ + state.tasks[i].id),
            )
        } else if state.tasks[i].completed_at is Some {
            Err(Failure::Other("completed task is read-only: "@ + state.tasks[i].id))
        } else {
            Ok(state.artifacts[j])
        },
{
    owner_found(state, i, j, key);
}

// ---------------------------------------------------------------- what is written

/// The records that are written are those that are new or changed, and the UUIDs that
/// are deleted are those of which no record is left.
pub proof fn written_changes_are<T: crate::changes::Keyed>(
    before: Seq<T::V>,
    after: Seq<T::V>,
    row: T::V,
    uuid: Seq<char>,
)
    ensures
        crate::changes::saved::<T>(before, after).contains(row) <==> after.contains(row)
            && !before.contains(row),
        crate::changes::removed::<T>(before, after).contains(uuid) <==> (exists|i: int|
            0 <= i < before.len() && T::key(#[trigger] before[i]) == uuid) && !(exists|i: int|
            0 <= i < after.len() && T::key(#[trigger] after[i]) == uuid),
{
    let keep = |row: T::V| !before.contains(row);
    let gone = |row: T::V| !crate::changes::has_key::<T>(after, T::key(row));
    filtered(after, keep);
    filtered(before, gone);
    let rows = before.filter(gone);
    let keys = crate::changes::removed::<T>(before, after);
    if keys.contains(uuid) {
        let k = choose|k: int| 0 <= k < keys.len() && keys[k] == uuid;
        assert(rows.contains(rows[k]));
        let i = choose|i: int| 0 <= i < before.len() && before[i] == rows[k];
        assert(T::key(before[i]) == uuid);
    }
    if (exists|i: int| 0 <= i < before.len() && T::key(#[trigger] before[i]) == uuid) && !(exists|
        i: int,
    |
        0 <= i < after.len() && T::key(#[trigger] after[i]) == uuid) {
        let i = choose|i: int| 0 <= i < before.len() && T::key(#[trigger] before[i]) == uuid;
        assert(before.contains(before[i]));
        assert(gone(before[i]));
        assert(rows.contains(before[i]));
        let k = choose|k: int| 0 <= k < rows.len() && rows[k] == before[i];
        assert(keys[k] == uuid);
    }
}

} // verus!
