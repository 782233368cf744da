//! What every operation on the store keeps.

use vstd::prelude::*;

use crate::ident;
use crate::model::{AnnotationRow, ArtifactRow, NewAnnotationRow, TaskRow};
use crate::state;
use crate::state::State;
use crate::text;

verus! {

// ---------------------------------------------------------------- sequences

/// One more record, seen through a filter.
pub proof fn filter_step<R>(list: Seq<R>, keep: spec_fn(R) -> bool, i: int)
    requires
        0 <= i < list.len(),
    ensures
        list.take(i + 1).filter(keep) == (if keep(list[i]) {
            list.take(i).filter(keep).push(list[i])
        } else {
            list.take(i).filter(keep)
        }),
{
    reveal(Seq::filter);
    assert(list.take(i + 1).drop_last() =~= list.take(i));
}

/// What a filter lets through is what was in the list and is to be kept.
pub proof fn filter_holds<R>(list: Seq<R>, keep: spec_fn(R) -> bool)
    ensures
        forall|k: int|
            0 <= k < list.filter(keep).len() ==> keep(#[trigger] list.filter(keep)[k])
                && list.contains(list.filter(keep)[k]),
        forall|i: int|
            0 <= i < list.len() && keep(#[trigger] list[i]) ==> list.filter(keep).contains(list[i]),
        list.filter(keep).len() <= list.len(),
    decreases list.len(),
{
    reveal(Seq::filter);
    if list.len() > 0 {
        let shorter = list.drop_last();
        filter_holds(shorter, keep);
        let all = list.filter(keep);
        let most = shorter.filter(keep);
        assert forall|k: int| 0 <= k < all.len() implies keep(#[trigger] all[k]) && list.contains(
            all[k],
        ) by {
            if k < most.len() {
                assert(all[k] == most[k]);
                let i = choose|i: int| 0 <= i < shorter.len() && shorter[i] == most[k];
                assert(list[i] == all[k]);
            } else {
                assert(list[list.len() - 1] == all[k]);
            }
        }
        assert forall|i: int| 0 <= i < list.len() && keep(#[trigger] list[i]) implies all.contains(
            list[i],
        ) by {
            if i < shorter.len() {
                assert(shorter[i] == list[i]);
                assert(most.contains(list[i]));
                let k = choose|k: int| 0 <= k < most.len() && most[k] == list[i];
                assert(all[k] == list[i]);
            } else {
                assert(all[all.len() - 1] == list[i]);
            }
        }
    }
}

/// Keys that all differ still do after a filter.
pub proof fn filter_keeps_distinct<R>(
    list: Seq<R>,
    keep: spec_fn(R) -> bool,
    key: spec_fn(R) -> Seq<char>,
)
    requires
        list.map_values(key).no_duplicates(),
    ensures
        list.filter(keep).map_values(key).no_duplicates(),
    decreases list.len(),
{
    reveal(Seq::filter);
    if list.len() > 0 {
        let shorter = list.drop_last();
        assert(shorter.map_values(key) =~= list.map_values(key).drop_last());
        filter_keeps_distinct(shorter, keep, key);
        filter_holds(shorter, keep);
        let all = list.filter(keep).map_values(key);
        let most = shorter.filter(keep);
        if keep(list.last()) {
            assert forall|a: int, b: int| 0 <= a < b < all.len() implies all[a] != all[b] by {
                assert(all[a] == key(most[a]));
                if b < most.len() {
                    assert(most.map_values(key)[a] != most.map_values(key)[b]);
                } else {
                    assert(shorter.contains(most[a]));
                    let i = choose|i: int| 0 <= i < shorter.len() && shorter[i] == most[a];
                    assert(list.map_values(key)[i] != list.map_values(key)[list.len() - 1]);
                }
            }
        }
    }
}

// ---------------------------------------------------------------- validity

/// A store stays valid with one task more.
pub proof fn task_added(state: State, task: TaskRow)
    requires
        state.wf(),
        !state.has_task(task.uuid),
        !state.has_id(task.id),
    ensures
        (State { tasks: state.tasks.push(task), ..state }).wf(),
{
    let after = State { tasks: state.tasks.push(task), ..state };
    let uuids = state::task_uuids(after.tasks);
    let ids = state::task_ids(after.tasks);
    assert forall|a: int, b: int| 0 <= a < b < uuids.len() implies uuids[a] != uuids[b] by {
        assert(uuids[a] == state::task_uuids(state.tasks)[a]);
        assert(state.tasks[a].uuid == uuids[a]);
        if b < state.tasks.len() {
            assert(uuids[b] == state::task_uuids(state.tasks)[b]);
        }
    }
    assert forall|a: int, b: int| 0 <= a < b < ids.len() implies ids[a] != ids[b] by {
        assert(ids[a] == state::task_ids(state.tasks)[a]);
        assert(state.tasks[a].id == ids[a]);
        if b < state.tasks.len() {
            assert(ids[b] == state::task_ids(state.tasks)[b]);
        }
    }
    assert forall|i: int| 0 <= i < after.artifacts.len() implies after.has_task(
        (#[trigger] after.artifacts[i]).task_uuid,
    ) by {
        assert(state.has_task(state.artifacts[i].task_uuid));
        let k = choose|k: int|
            0 <= k < state.tasks.len() && #[trigger] state.tasks[k].uuid
                == state.artifacts[i].task_uuid;
        assert(after.tasks[k].uuid == state.artifacts[i].task_uuid);
    }
    assert forall|i: int| 0 <= i < after.annotations.len() implies after.has_artifact(
        (#[trigger] after.annotations[i]).artifact_uuid,
    ) by {
        assert(state.has_artifact(state.annotations[i].artifact_uuid));
    }
}

/// A store stays valid where a task is replaced by one with the same UUID, and
/// with the same id or a free one.
pub proof fn task_replaced(state: State, i: int, task: TaskRow)
    requires
        state.wf(),
        0 <= i < state.tasks.len(),
        task.uuid == state.tasks[i].uuid,
        task.id == state.tasks[i].id || !state.has_id(task.id),
    ensures
        state.with_task(i, task).wf(),
{
    let after = state.with_task(i, task);
    assert(state::task_uuids(after.tasks) =~= state::task_uuids(state.tasks));
    let ids = state::task_ids(after.tasks);
    let before = state::task_ids(state.tasks);
    assert forall|a: int, b: int| 0 <= a < b < ids.len() implies ids[a] != ids[b] by {
        assert(before[a] != before[b]);
        assert(state.tasks[a].id == before[a]);
        assert(state.tasks[b].id == before[b]);
    }
    assert forall|k: int| 0 <= k < after.artifacts.len() implies after.has_task(
        (#[trigger] after.artifacts[k]).task_uuid,
    ) by {
        assert(state.has_task(state.artifacts[k].task_uuid));
        let j = choose|j: int|
            0 <= j < state.tasks.len() && #[trigger] state.tasks[j].uuid
                == state.artifacts[k].task_uuid;
        assert(after.tasks[j].uuid == state.artifacts[k].task_uuid);
    }
    assert forall|k: int| 0 <= k < after.annotations.len() implies after.has_artifact(
        (#[trigger] after.annotations[k]).artifact_uuid,
    ) by {
        assert(state.has_artifact(state.annotations[k].artifact_uuid));
    }
}

/// A store stays valid without a task, its artifacts and their annotations.
pub proof fn task_removed(state: State, uuid: Seq<char>)
    requires
        state.wf(),
    ensures
        state.without_task(uuid).wf(),
{
    let after = state.without_task(uuid);
    let keep_task = |task: TaskRow| task.uuid != uuid;
    let keep_artifact = |artifact: ArtifactRow| artifact.task_uuid != uuid;
    let keep_annotation = |annotation: AnnotationRow|
        !state.owned_by(annotation.artifact_uuid, uuid);
    filter_keeps_distinct(state.tasks, keep_task, |task: TaskRow| task.uuid);
    filter_keeps_distinct(state.tasks, keep_task, |task: TaskRow| task.id);
    filter_keeps_distinct(state.artifacts, keep_artifact, |artifact: ArtifactRow| artifact.uuid);
    filter_keeps_distinct(
        state.annotations,
        keep_annotation,
        |annotation: AnnotationRow| annotation.uuid,
    );
    filter_holds(state.tasks, keep_task);
    filter_holds(state.artifacts, keep_artifact);
    filter_holds(state.annotations, keep_annotation);
    assert forall|k: int| 0 <= k < after.artifacts.len() implies after.has_task(
        (#[trigger] after.artifacts[k]).task_uuid,
    ) by {
        let artifact = after.artifacts[k];
        assert(keep_artifact(artifact));
        assert(state.artifacts.contains(artifact));
        assert(state.has_task(artifact.task_uuid));
        let j = choose|j: int|
            0 <= j < state.tasks.len() && #[trigger] state.tasks[j].uuid == artifact.task_uuid;
        assert(keep_task(state.tasks[j]));
        assert(after.tasks.contains(state.tasks[j]));
    }
    assert forall|k: int| 0 <= k < after.annotations.len() implies after.has_artifact(
        (#[trigger] after.annotations[k]).artifact_uuid,
    ) by {
        let annotation = after.annotations[k];
        assert(keep_annotation(annotation));
        assert(state.annotations.contains(annotation));
        assert(state.has_artifact(annotation.artifact_uuid));
        let j = choose|j: int|
            0 <= j < state.artifacts.len() && #[trigger] state.artifacts[j].uuid
                == annotation.artifact_uuid;
        assert(keep_artifact(state.artifacts[j]));
        assert(after.artifacts.contains(state.artifacts[j]));
    }
}

/// A store stays valid with one artifact more.
pub proof fn artifact_added(state: State, artifact: ArtifactRow)
    requires
        state.wf(),
        !state.has_artifact(artifact.uuid),
        state.has_task(artifact.task_uuid),
    ensures
        (State { artifacts: state.artifacts.push(artifact), ..state }).wf(),
{
    let after = State { artifacts: state.artifacts.push(artifact), ..state };
    let uuids = state::artifact_uuids(after.artifacts);
    let before = state::artifact_uuids(state.artifacts);
    assert forall|a: int, b: int| 0 <= a < b < uuids.len() implies uuids[a] != uuids[b] by {
        assert(uuids[a] == before[a]);
        assert(state.artifacts[a].uuid == uuids[a]);
        if b < state.artifacts.len() {
            assert(uuids[b] == before[b]);
        }
    }
    assert forall|k: int| 0 <= k < after.artifacts.len() implies after.has_task(
        (#[trigger] after.artifacts[k]).task_uuid,
    ) by {
        if k < state.artifacts.len() {
            assert(state.has_task(state.artifacts[k].task_uuid));
        }
    }
    assert forall|k: int| 0 <= k < after.annotations.len() implies after.has_artifact(
        (#[trigger] after.annotations[k]).artifact_uuid,
    ) by {
        assert(state.has_artifact(state.annotations[k].artifact_uuid));
        let j = choose|j: int|
            0 <= j < state.artifacts.len() && #[trigger] state.artifacts[j].uuid
                == state.annotations[k].artifact_uuid;
        assert(after.artifacts[j].uuid == state.annotations[k].artifact_uuid);
    }
}

/// A store stays valid where an artifact is replaced by one with the same UUID
/// and the same task.
pub proof fn artifact_replaced(state: State, i: int, artifact: ArtifactRow)
    requires
        state.wf(),
        0 <= i < state.artifacts.len(),
        artifact.uuid == state.artifacts[i].uuid,
        artifact.task_uuid == state.artifacts[i].task_uuid,
    ensures
        state.with_artifact(i, artifact).wf(),
{
    let after = state.with_artifact(i, artifact);
    assert(state::artifact_uuids(after.artifacts) =~= state::artifact_uuids(state.artifacts));
    assert forall|k: int| 0 <= k < after.artifacts.len() implies after.has_task(
        (#[trigger] after.artifacts[k]).task_uuid,
    ) by {
        assert(state.has_task(state.artifacts[k].task_uuid));
    }
    assert forall|k: int| 0 <= k < after.annotations.len() implies after.has_artifact(
        (#[trigger] after.annotations[k]).artifact_uuid,
    ) by {
        assert(state.has_artifact(state.annotations[k].artifact_uuid));
        let j = choose|j: int|
            0 <= j < state.artifacts.len() && #[trigger] state.artifacts[j].uuid
                == state.annotations[k].artifact_uuid;
        assert(after.artifacts[j].uuid == state.annotations[k].artifact_uuid);
    }
}

/// A store stays valid with one annotation more.
pub proof fn annotation_added(state: State, annotation: AnnotationRow)
    requires
        state.wf(),
        !state.has_annotation(annotation.uuid),
        state.has_artifact(annotation.artifact_uuid),
    ensures
        (State { annotations: state.annotations.push(annotation), ..state }).wf(),
{
    let after = State { annotations: state.annotations.push(annotation), ..state };
    let uuids = state::annotation_uuids(after.annotations);
    let before = state::annotation_uuids(state.annotations);
    assert forall|a: int, b: int| 0 <= a < b < uuids.len() implies uuids[a] != uuids[b] by {
        assert(uuids[a] == before[a]);
        assert(state.annotations[a].uuid == uuids[a]);
        if b < state.annotations.len() {
            assert(uuids[b] == before[b]);
        }
    }
    assert forall|k: int| 0 <= k < after.artifacts.len() implies after.has_task(
        (#[trigger] after.artifacts[k]).task_uuid,
    ) by {
        assert(state.has_task(state.artifacts[k].task_uuid));
    }
    assert forall|k: int| 0 <= k < after.annotations.len() implies after.has_artifact(
        (#[trigger] after.annotations[k]).artifact_uuid,
    ) by {
        if k < state.annotations.len() {
            assert(state.has_artifact(state.annotations[k].artifact_uuid));
        } else {
            assert(state.has_artifact(annotation.artifact_uuid));
        }
    }
}

/// A store stays valid where an annotation is replaced by one with the same UUID
/// and the same artifact.
pub proof fn annotation_replaced(state: State, i: int, annotation: AnnotationRow)
    requires
        state.wf(),
        0 <= i < state.annotations.len(),
        annotation.uuid == state.annotations[i].uuid,
        annotation.artifact_uuid == state.annotations[i].artifact_uuid,
    ensures
        (State { annotations: state.annotations.update(i, annotation), ..state }).wf(),
{
    let after = State { annotations: state.annotations.update(i, annotation), ..state };
    assert(state::annotation_uuids(after.annotations) =~= state::annotation_uuids(
        state.annotations,
    ));
    assert forall|k: int| 0 <= k < after.artifacts.len() implies after.has_task(
        (#[trigger] after.artifacts[k]).task_uuid,
    ) by {
        assert(state.has_task(state.artifacts[k].task_uuid));
    }
    assert forall|k: int| 0 <= k < after.annotations.len() implies after.has_artifact(
        (#[trigger] after.annotations[k]).artifact_uuid,
    ) by {
        assert(state.has_artifact(state.annotations[k].artifact_uuid));
    }
}

// ---------------------------------------------------------------- operations

/// A task that was created leaves a store in order.
pub proof fn create_task_keeps_order(
    state: State,
    id: Seq<char>,
    body: Seq<char>,
    uuid: Seq<char>,
    timestamp: Seq<char>,
)
    requires
        state.orderly(),
        ident::is_canonical(uuid),
    ensures
        state.create_task(id, body, uuid, timestamp) matches Ok(Some(after)) ==> after.orderly() && (
        ident::is_time(timestamp) ==> state::order_kept(state, after)),
{
    if let Ok(Some(after)) = state.create_task(id, body, uuid, timestamp) {
        let task = State::new_task(id, body, uuid, timestamp);
        task_added(state, task);
        assert forall|i: int, j: int|
            0 <= i < after.tasks.len() && 0 <= j < after.tasks.len() implies ident::canonical_uuid(
            (#[trigger] after.tasks[i]).id,
        ) != Some((#[trigger] after.tasks[j]).uuid) by {
            let last = state.tasks.len();
            if i < last && j < last {
                assert(ident::canonical_uuid(state.tasks[i].id) != Some(state.tasks[j].uuid));
            } else if i < last {
                assert(ident::canonical_uuid(state.tasks[i].id) != Some(uuid));
            } else if j < last {
                if ident::canonical_uuid(id) == Some(state.tasks[j].uuid) {
                    assert(state.has_task(state.tasks[j].uuid));
                }
            }
        }
    }
}

/// A task that was edited leaves a store in order.
pub proof fn edit_task_keeps_order(
    state: State,
    key: Seq<char>,
    id: Option<Seq<char>>,
    body: Option<Seq<char>>,
    timestamp: Seq<char>,
)
    requires
        state.orderly(),
    ensures
        state.edit_task(key, id, body, timestamp) matches Ok(after) ==> after.orderly() && (
        ident::is_time(timestamp) ==> state::order_kept(state, after)),
{
    if let Ok(after) = state.edit_task(key, id, body, timestamp) {
        let n = state.find_task(key)->Ok_0;
        found_in_range(state, key);
        task_replaced(state, n, after.tasks[n]);
        assert forall|i: int, j: int|
            0 <= i < after.tasks.len() && 0 <= j < after.tasks.len() implies ident::canonical_uuid(
            (#[trigger] after.tasks[i]).id,
        ) != Some((#[trigger] after.tasks[j]).uuid) by {
            assert(after.tasks[j].uuid == state.tasks[j].uuid);
            assert(ident::canonical_uuid(state.tasks[i].id) != Some(state.tasks[j].uuid));
            if i == n && after.tasks[n].id != state.tasks[n].id {
                if ident::canonical_uuid(after.tasks[n].id) == Some(state.tasks[j].uuid) {
                    assert(state.has_task(state.tasks[j].uuid));
                }
            }
        }
    }
}

/// A task that was found is in the store.
pub proof fn found_in_range(state: State, key: Seq<char>)
    ensures
        state.find_task(key) matches Ok(i) ==> 0 <= i < state.tasks.len(),
        state.task_named(key) matches Ok(i) ==> 0 <= i < state.tasks.len(),
        state.writable_task(key) matches Ok(i) ==> 0 <= i < state.tasks.len(),
{
}

/// A task that was completed, reopened or archived leaves a store in
/// order.
pub proof fn marking_keeps_order(state: State, key: Seq<char>, timestamp: Seq<char>)
    requires
        state.orderly(),
    ensures
        state.complete_task(key, timestamp) matches Ok(after) ==> after.orderly() && (
        ident::is_time(timestamp) ==> state::order_kept(state, after)),
        state.reopen_task(key, timestamp) matches Ok(after) ==> after.orderly() && (
        ident::is_time(timestamp) ==> state::order_kept(state, after)),
        state.archive_task(key, timestamp) matches Ok(after) ==> after.orderly() && (
        ident::is_time(timestamp) ==> state::order_kept(state, after)),
{
    if let Ok(i) = state.task_named(key) {
        found_in_range(state, key);
        let task = state.tasks[i];
        same_names_keep_order(
            state,
            i,
            TaskRow { completed_at: Some(timestamp), updated_at: timestamp, ..task },
        );
        same_names_keep_order(
            state,
            i,
            TaskRow { completed_at: None, updated_at: timestamp, ..task },
        );
        same_names_keep_order(
            state,
            i,
            TaskRow { archived_at: Some(timestamp), updated_at: timestamp, ..task },
        );
    }
}

proof fn same_names_keep_order(state: State, i: int, task: TaskRow)
    requires
        state.orderly(),
        0 <= i < state.tasks.len(),
        task.uuid == state.tasks[i].uuid,
        task.id == state.tasks[i].id,
    ensures
        state.with_task(i, task).orderly(),
        state.regular() && state::task_times(task) ==> state.with_task(i, task).regular(),
{
    let after = state.with_task(i, task);
    task_replaced(state, i, task);
    assert forall|a: int, b: int|
        0 <= a < after.tasks.len() && 0 <= b < after.tasks.len() implies ident::canonical_uuid(
        (#[trigger] after.tasks[a]).id,
    ) != Some((#[trigger] after.tasks[b]).uuid) by {
        assert(after.tasks[a].id == state.tasks[a].id);
        assert(after.tasks[b].uuid == state.tasks[b].uuid);
    }
}

/// A task that was deleted leaves a store in order.
pub proof fn delete_task_keeps_order(state: State, key: Seq<char>)
    requires
        state.orderly(),
    ensures
        state.delete_task(key) matches Ok(after) ==> after.orderly() && state::order_kept(
            state,
            after,
        ),
{
    if let Ok(n) = state.task_named(key) {
        let uuid = state.tasks[n].uuid;
        let after = state.without_task(uuid);
        task_removed(state, uuid);
        filter_holds(state.tasks, |task: TaskRow| task.uuid != uuid);
        filter_holds(state.artifacts, |artifact: ArtifactRow| artifact.task_uuid != uuid);
        filter_holds(
            state.annotations,
            |annotation: AnnotationRow| !state.owned_by(annotation.artifact_uuid, uuid),
        );
        assert forall|k: int| 0 <= k < after.tasks.len() implies state.tasks.contains(
            #[trigger] after.tasks[k],
        ) by {}
        assert forall|k: int| 0 <= k < after.artifacts.len() implies state.artifacts.contains(
            #[trigger] after.artifacts[k],
        ) by {}
        assert forall|k: int| 0 <= k < after.annotations.len() implies state.annotations.contains(
            #[trigger] after.annotations[k],
        ) by {}
        assert forall|i: int, j: int|
            0 <= i < after.tasks.len() && 0 <= j < after.tasks.len() implies ident::canonical_uuid(
            (#[trigger] after.tasks[i]).id,
        ) != Some((#[trigger] after.tasks[j]).uuid) by {
            let a = choose|a: int| 0 <= a < state.tasks.len() && state.tasks[a] == after.tasks[i];
            let b = choose|b: int| 0 <= b < state.tasks.len() && state.tasks[b] == after.tasks[j];
            assert(ident::canonical_uuid(state.tasks[a].id) != Some(state.tasks[b].uuid));
        }
    }
}

/// An artifact that was created leaves a store in order.
pub proof fn create_artifact_keeps_order(
    state: State,
    task_key: Seq<char>,
    artifact_type: Seq<char>,
    name: Option<Seq<char>>,
    body: Seq<char>,
    uuid: Seq<char>,
    timestamp: Seq<char>,
)
    requires
        state.orderly(),
        ident::is_canonical(uuid),
    ensures
        state.create_artifact(task_key, artifact_type, name, body, uuid, timestamp) matches Ok(
            after,
        ) ==> after.orderly() && (
        ident::is_time(timestamp) ==> state::order_kept(state, after)),
{
    if let Ok(after) = state.create_artifact(
        task_key,
        artifact_type,
        name,
        body,
        uuid,
        timestamp,
    ) {
        let i = state.writable_task(task_key)->Ok_0;
        found_in_range(state, task_key);
        state::indices(state, i);
        let artifact = after.artifacts.last();
        artifact_added(state, artifact);
        if name is None {
            let k = choose|k: int|
                0 <= k < artifact_type.len() && !text::is_whitespace(artifact_type[k]);
            assert(artifact.name->0[k] == artifact_type[k]);
        }
        assert(after.names_given());
        assert(after.namespaces_apart()) by {
            assert(after.tasks == state.tasks);
        }
    }
}

/// An artifact that was changed leaves a store in order.
pub proof fn changing_artifact_keeps_order(
    state: State,
    uuid: Seq<char>,
    value: Seq<char>,
    timestamp: Seq<char>,
)
    requires
        state.orderly(),
    ensures
        state.update_artifact(uuid, value, timestamp) matches Ok(after) ==> after.orderly() && (
        ident::is_time(timestamp) ==> state::order_kept(state, after)),
        state.rename_artifact(uuid, value, timestamp) matches Ok(after) ==> after.orderly() && (
        ident::is_time(timestamp) ==> state::order_kept(state, after)),
{
    if let Ok(i) = state.artifact_named(uuid) {
        let artifact = state.artifacts[i];
        artifact_replaced(
            state,
            i,
            ArtifactRow { body: value, updated_at: timestamp, ..artifact },
        );
        artifact_replaced(
            state,
            i,
            ArtifactRow { name: Some(value), updated_at: timestamp, ..artifact },
        );
    }
    if let Ok(after) = state.update_artifact(uuid, value, timestamp) {
        assert(after.tasks == state.tasks);
        assert(after.namespaces_apart());
        assert(after.names_given());
    }
    if let Ok(after) = state.rename_artifact(uuid, value, timestamp) {
        assert(after.tasks == state.tasks);
        assert(after.namespaces_apart());
        assert(after.names_given());
    }
}

/// An annotation that was created leaves a store in order: its offsets are
/// given together and in order, and it holds no empty text.
pub proof fn create_annotation_keeps_order(
    state: State,
    artifact_uuid: Seq<char>,
    input: NewAnnotationRow,
    uuid: Seq<char>,
    timestamp: Seq<char>,
)
    requires
        state.orderly(),
        ident::is_canonical(uuid),
    ensures
        state.create_annotation(artifact_uuid, input, uuid, timestamp) matches Ok(after)
            ==> after.orderly() && (
        ident::is_time(timestamp) ==> state::order_kept(state, after)),
{
    if let Ok(after) = state.create_annotation(artifact_uuid, input, uuid, timestamp) {
        let i = state.artifact_named(artifact_uuid)->Ok_0;
        state::indices(state, i);
        annotation_added(state, after.annotations.last());
        assert(after.tasks == state.tasks);
        assert(after.namespaces_apart());
        assert(after.names_given());
    }
}

/// An annotation that was resolved leaves a store in order.
pub proof fn resolve_annotation_keeps_order(
    state: State,
    uuid: Seq<char>,
    timestamp: Seq<char>,
)
    requires
        state.orderly(),
    ensures
        state.resolve_annotation(uuid, timestamp) matches Ok(after) ==> after.orderly() && (
        ident::is_time(timestamp) ==> state::order_kept(state, after)),
{
    if let Ok(after) = state.resolve_annotation(uuid, timestamp) {
        let i = state.writable_annotation(uuid)->Ok_0;
        annotation_replaced(state, i, after.annotations[i]);
        assert(after.tasks == state.tasks);
        assert(after.namespaces_apart());
        assert(after.names_given());
    }
}

} // verus!
