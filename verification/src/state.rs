//! What the store holds, and what each operation does to it.

use vstd::prelude::*;

use crate::error::Failure;
use crate::ident;
use crate::like;
use crate::model;
use crate::model::{
    AnnotationRow, ArtifactInfoRow, ArtifactRow, DocumentRow, NewAnnotationRow, TaskRow,
};
use crate::order;
use crate::text;

verus! {

/// The records of the store.
#[verifier::ext_equal]
pub struct State {
    pub tasks: Seq<TaskRow>,
    pub artifacts: Seq<ArtifactRow>,
    pub annotations: Seq<AnnotationRow>,
}

/// The UUIDs of tasks.
pub open spec fn task_uuids(tasks: Seq<TaskRow>) -> Seq<Seq<char>> {
    tasks.map_values(|task: TaskRow| task.uuid)
}

/// The ids of tasks.
pub open spec fn task_ids(tasks: Seq<TaskRow>) -> Seq<Seq<char>> {
    tasks.map_values(|task: TaskRow| task.id)
}

/// The UUIDs of artifacts.
pub open spec fn artifact_uuids(artifacts: Seq<ArtifactRow>) -> Seq<Seq<char>> {
    artifacts.map_values(|artifact: ArtifactRow| artifact.uuid)
}

/// The UUIDs of annotations.
pub open spec fn annotation_uuids(annotations: Seq<AnnotationRow>) -> Seq<Seq<char>> {
    annotations.map_values(|annotation: AnnotationRow| annotation.uuid)
}

/// A value that must hold more than white space.
pub open spec fn non_empty(name: Seq<char>, value: Seq<char>) -> Result<(), Failure> {
    if text::is_blank(value) {
        Err(Failure::Invalid(name + " must not be empty"@))
    } else {
        Ok(())
    }
}

/// The content of an archived or completed task cannot be changed.
pub open spec fn writable(task: TaskRow) -> Result<(), Failure> {
    if task.archived_at is Some {
        Err(Failure::Invalid("archived task is read-only: "@ + task.id))
    } else if task.completed_at is Some {
        Err(Failure::Invalid("completed task is read-only: "@ + task.id))
    } else {
        Ok(())
    }
}

/// Two offsets are given together, in order, or not at all.
pub open spec fn offsets(start: Option<u64>, end: Option<u64>) -> Result<(), Failure> {
    match (start, end) {
        (None, None) => Ok(()),
        (Some(start), Some(end)) => if end >= start {
            Ok(())
        } else {
            Err(Failure::Invalid("end offset must not be less than start offset"@))
        },
        _ => Err(Failure::Invalid("start and end offsets must be supplied together"@)),
    }
}

/// An offset that fits in the 64-bit signed integers that are stored.
pub open spec fn storable(offset: Option<u64>) -> bool {
    offset matches Some(offset) ==> offset <= i64::MAX
}

/// An optional text, where an empty one counts as none.
pub open spec fn normalized(value: Option<Seq<char>>) -> Option<Seq<char>> {
    match value {
        Some(value) => if value.len() == 0 {
            None
        } else {
            Some(value)
        },
        None => None,
    }
}

/// The tasks of a list.
#[derive(Clone, Copy)]
pub enum TaskFilter {
    Active,
    Completed,
    Archived,
}

/// The task belongs to the list.
pub open spec fn admits(filter: TaskFilter, task: TaskRow) -> bool {
    match filter {
        TaskFilter::Active => task.active(),
        TaskFilter::Completed => task.completed(),
        TaskFilter::Archived => task.archived(),
    }
}

/// Tasks are listed by the time of their creation, and by UUID at the same time.
pub open spec fn task_key(task: TaskRow) -> Seq<Seq<char>> {
    seq![task.created_at, task.uuid]
}

/// Found tasks are listed by the time of their last change, and by UUID at the
/// same time.
pub open spec fn found_key(task: TaskRow) -> Seq<Seq<char>> {
    seq![task.updated_at, task.uuid]
}

/// Artifacts are listed by the time of their creation, and by UUID at the same
/// time.
pub open spec fn artifact_key(artifact: ArtifactRow) -> Seq<Seq<char>> {
    seq![artifact.created_at, artifact.uuid]
}

/// Annotations are listed by the time of their creation, and by UUID at the same
/// time.
pub open spec fn annotation_key(annotation: AnnotationRow) -> Seq<Seq<char>> {
    seq![annotation.created_at, annotation.uuid]
}

/// The most bytes that a pattern may have.
pub const PATTERN_LIMIT: usize = 50000;

impl State {
    // ------------------------------------------------------------ validity

    /// A task has the UUID.
    pub open spec fn has_task(self, uuid: Seq<char>) -> bool {
        exists|i: int| 0 <= i < self.tasks.len() && #[trigger] self.tasks[i].uuid == uuid
    }

    /// Which task has the UUID.
    pub open spec fn task_index(self, uuid: Seq<char>) -> int {
        choose|i: int| 0 <= i < self.tasks.len() && #[trigger] self.tasks[i].uuid == uuid
    }

    /// A task has the id.
    pub open spec fn has_id(self, id: Seq<char>) -> bool {
        exists|i: int| 0 <= i < self.tasks.len() && #[trigger] self.tasks[i].id == id
    }

    /// Which task has the id.
    pub open spec fn id_index(self, id: Seq<char>) -> int {
        choose|i: int| 0 <= i < self.tasks.len() && #[trigger] self.tasks[i].id == id
    }

    /// An artifact has the UUID.
    pub open spec fn has_artifact(self, uuid: Seq<char>) -> bool {
        exists|i: int| 0 <= i < self.artifacts.len() && #[trigger] self.artifacts[i].uuid == uuid
    }

    /// Which artifact has the UUID.
    pub open spec fn artifact_index(self, uuid: Seq<char>) -> int {
        choose|i: int| 0 <= i < self.artifacts.len() && #[trigger] self.artifacts[i].uuid == uuid
    }

    /// An annotation has the UUID.
    pub open spec fn has_annotation(self, uuid: Seq<char>) -> bool {
        exists|i: int|
            0 <= i < self.annotations.len() && #[trigger] self.annotations[i].uuid == uuid
    }

    /// Which annotation has the UUID.
    pub open spec fn annotation_index(self, uuid: Seq<char>) -> int {
        choose|i: int|
            0 <= i < self.annotations.len() && #[trigger] self.annotations[i].uuid == uuid
    }

    /// No two tasks share a UUID or an id, no two artifacts and no two annotations
    /// a UUID; every artifact belongs to a task and every annotation to an
    /// artifact.
    pub open spec fn wf(self) -> bool {
        &&& task_uuids(self.tasks).no_duplicates()
        &&& task_ids(self.tasks).no_duplicates()
        &&& artifact_uuids(self.artifacts).no_duplicates()
        &&& annotation_uuids(self.annotations).no_duplicates()
        &&& forall|i: int|
            0 <= i < self.artifacts.len() ==> self.has_task(
                (#[trigger] self.artifacts[i]).task_uuid,
            )
        &&& forall|i: int|
            0 <= i < self.annotations.len() ==> self.has_artifact(
                (#[trigger] self.annotations[i]).artifact_uuid,
            )
    }

    /// No id can be taken for the UUID of a task.
    pub open spec fn namespaces_apart(self) -> bool {
        forall|i: int, j: int|
            0 <= i < self.tasks.len() && 0 <= j < self.tasks.len() ==> ident::canonical_uuid(
                (#[trigger] self.tasks[i]).id,
            ) != Some((#[trigger] self.tasks[j]).uuid)
    }

    /// Every record has a UUID in the stored form.
    pub open spec fn uuids_canonical(self) -> bool {
        &&& forall|i: int|
            0 <= i < self.tasks.len() ==> ident::is_canonical((#[trigger] self.tasks[i]).uuid)
        &&& forall|i: int|
            0 <= i < self.artifacts.len() ==> ident::is_canonical(
                (#[trigger] self.artifacts[i]).uuid,
            )
        &&& forall|i: int|
            0 <= i < self.annotations.len() ==> ident::is_canonical(
                (#[trigger] self.annotations[i]).uuid,
            )
    }

    /// The offsets of every annotation are given together and in order, and no
    /// annotation holds an empty text.
    pub open spec fn annotations_normal(self) -> bool {
        forall|i: int|
            0 <= i < self.annotations.len() ==> {
                let annotation = #[trigger] self.annotations[i];
                &&& offsets(annotation.start_offset, annotation.end_offset) is Ok
                &&& annotation.selected_text == normalized(annotation.selected_text)
                &&& annotation.body == normalized(annotation.body)
            }
    }

    /// Every task has an id, and every artifact a type, that holds more than white
    /// space; so does the name of an artifact, where it has one.
    pub open spec fn names_given(self) -> bool {
        &&& forall|i: int|
            0 <= i < self.tasks.len() ==> !text::is_blank((#[trigger] self.tasks[i]).id)
        &&& forall|i: int|
            0 <= i < self.artifacts.len() ==> {
                let artifact = #[trigger] self.artifacts[i];
                &&& !text::is_blank(artifact.artifact_type)
                &&& artifact.name matches Some(name) ==> !text::is_blank(name)
            }
    }

    /// Every time is one that the clock was read for.
    pub open spec fn times_written(self) -> bool {
        &&& forall|i: int| 0 <= i < self.tasks.len() ==> task_times(#[trigger] self.tasks[i])
        &&& forall|i: int|
            0 <= i < self.artifacts.len() ==> artifact_times(#[trigger] self.artifacts[i])
        &&& forall|i: int|
            0 <= i < self.annotations.len() ==> annotation_times(#[trigger] self.annotations[i])
    }

    /// What holds of every store that was filled by the operations alone, at whatever
    /// times.
    pub open spec fn orderly(self) -> bool {
        &&& self.wf()
        &&& self.namespaces_apart()
        &&& self.uuids_canonical()
        &&& self.annotations_normal()
        &&& self.names_given()
    }

    /// What holds of every store that was filled by the operations alone, at the times
    /// that the clock showed.
    pub open spec fn regular(self) -> bool {
        self.orderly() && self.times_written()
    }

    // ------------------------------------------------------------ tasks

    /// The task that an id or a UUID names.
    pub open spec fn find_task(self, key: Seq<char>) -> Result<int, Failure> {
        let by_id = if self.has_id(key) {
            Some(self.id_index(key))
        } else {
            None
        };
        let by_uuid = match ident::canonical_uuid(key) {
            Some(uuid) => if self.has_task(uuid) {
                Some(self.task_index(uuid))
            } else {
                None
            },
            None => None,
        };
        match (by_id, by_uuid) {
            (Some(i), Some(j)) => if self.tasks[i].uuid != self.tasks[j].uuid {
                Err(
                    Failure::Invalid(
                        "ambiguous task identifier matches an id and a UUID: "@ + key,
                    ),
                )
            } else {
                Ok(i)
            },
            (Some(i), None) => Ok(i),
            (None, Some(j)) => Ok(j),
            (None, None) => Err(Failure::NotFound("task not found: "@ + key)),
        }
    }

    /// The task that an identifier names, which must hold more than white space.
    pub open spec fn task_named(self, key: Seq<char>) -> Result<int, Failure> {
        match non_empty("task identifier"@, key) {
            Err(failure) => Err(failure),
            Ok(()) => self.find_task(key),
        }
    }

    /// The task that an identifier names.
    pub open spec fn read_task(self, key: Seq<char>) -> Result<TaskRow, Failure> {
        match self.task_named(key) {
            Err(failure) => Err(failure),
            Ok(i) => Ok(self.tasks[i]),
        }
    }

    /// An id that a task can get: not taken, and not to be confused with the UUID
    /// of a task.
    pub open spec fn free_id(self, id: Seq<char>) -> Result<(), Failure> {
        if self.has_id(id) {
            Err(Failure::Invalid("task id already exists: "@ + id))
        } else {
            match ident::canonical_uuid(id) {
                Some(uuid) => if self.has_task(uuid) {
                    Err(Failure::Invalid("task id conflicts with an existing task UUID: "@ + id))
                } else {
                    Ok(())
                },
                None => Ok(()),
            }
        }
    }

    /// An id that a new task can get.
    pub open spec fn new_id(self, id: Seq<char>) -> Result<(), Failure> {
        match non_empty("task id"@, id) {
            Err(failure) => Err(failure),
            Ok(()) => self.free_id(id),
        }
    }

    /// The id of a new task, or that of a task in the store, can be taken for the
    /// UUID.
    pub open spec fn uuid_clashes(self, id: Seq<char>, uuid: Seq<char>) -> bool {
        ||| ident::canonical_uuid(id) == Some(uuid)
        ||| exists|i: int|
            0 <= i < self.tasks.len() && ident::canonical_uuid((#[trigger] self.tasks[i]).id)
                == Some(uuid)
    }

    /// A task as it is created.
    pub open spec fn new_task(
        id: Seq<char>,
        body: Seq<char>,
        uuid: Seq<char>,
        timestamp: Seq<char>,
    ) -> TaskRow {
        TaskRow {
            uuid,
            id,
            body,
            created_at: timestamp,
            updated_at: timestamp,
            archived_at: None,
            completed_at: None,
        }
    }

    /// The store with one task more, or nothing where the UUID cannot be used.
    pub open spec fn create_task(
        self,
        id: Seq<char>,
        body: Seq<char>,
        uuid: Seq<char>,
        timestamp: Seq<char>,
    ) -> Result<Option<State>, Failure> {
        match self.new_id(id) {
            Err(failure) => Err(failure),
            Ok(()) => if self.uuid_clashes(id, uuid) {
                Ok(None)
            } else if self.has_task(uuid) {
                Err(Failure::Other("failed to create task "@ + id))
            } else {
                Ok(
                    Some(
                        State {
                            tasks: self.tasks.push(Self::new_task(id, body, uuid, timestamp)),
                            ..self
                        },
                    ),
                )
            },
        }
    }

    /// The store with one task replaced.
    pub open spec fn with_task(self, i: int, task: TaskRow) -> State {
        State { tasks: self.tasks.update(i, task), ..self }
    }

    /// The store after a task got another id, another body, or both.
    pub open spec fn edit_task(
        self,
        key: Seq<char>,
        id: Option<Seq<char>>,
        body: Option<Seq<char>>,
        timestamp: Seq<char>,
    ) -> Result<State, Failure> {
        if text::is_blank(key) {
            Err(Failure::Invalid("task identifier"@ + " must not be empty"@))
        } else if id is Some && text::is_blank(id->0) {
            Err(Failure::Invalid("task id"@ + " must not be empty"@))
        } else if id is None && body is None {
            Err(Failure::Invalid("task edit requires an id or body"@))
        } else {
            match self.find_task(key) {
                Err(failure) => Err(failure),
                Ok(i) => match writable(self.tasks[i]) {
                    Err(failure) => Err(failure),
                    Ok(()) => {
                        let task = self.tasks[i];
                        let new_id = match id {
                            Some(id) => id,
                            None => task.id,
                        };
                        let new_body = match body {
                            Some(body) => body,
                            None => task.body,
                        };
                        if new_id != task.id && self.free_id(new_id) is Err {
                            Err(self.free_id(new_id)->Err_0)
                        } else {
                            Ok(
                                self.with_task(
                                    i,
                                    TaskRow {
                                        id: new_id,
                                        body: new_body,
                                        updated_at: timestamp,
                                        ..task
                                    },
                                ),
                            )
                        }
                    },
                },
            }
        }
    }

    /// The store after a task was completed.
    pub open spec fn complete_task(self, key: Seq<char>, timestamp: Seq<char>) -> Result<
        State,
        Failure,
    > {
        match self.task_named(key) {
            Err(failure) => Err(failure),
            Ok(i) => {
                let task = self.tasks[i];
                if task.archived_at is Some {
                    Err(Failure::Invalid("archived task cannot be completed: "@ + task.id))
                } else if task.completed_at is Some {
                    Ok(self)
                } else {
                    Ok(
                        self.with_task(
                            i,
                            TaskRow {
                                completed_at: Some(timestamp),
                                updated_at: timestamp,
                                ..task
                            },
                        ),
                    )
                }
            },
        }
    }

    /// The store after a task was reopened.
    pub open spec fn reopen_task(self, key: Seq<char>, timestamp: Seq<char>) -> Result<
        State,
        Failure,
    > {
        match self.task_named(key) {
            Err(failure) => Err(failure),
            Ok(i) => {
                let task = self.tasks[i];
                if task.archived_at is Some {
                    Err(Failure::Invalid("archived task cannot be reopened: "@ + task.id))
                } else if task.completed_at is None {
                    Ok(self)
                } else {
                    Ok(
                        self.with_task(
                            i,
                            TaskRow { completed_at: None, updated_at: timestamp, ..task },
                        ),
                    )
                }
            },
        }
    }

    /// The store after a task was archived.
    pub open spec fn archive_task(self, key: Seq<char>, timestamp: Seq<char>) -> Result<
        State,
        Failure,
    > {
        match self.task_named(key) {
            Err(failure) => Err(failure),
            Ok(i) => {
                let task = self.tasks[i];
                if task.archived_at is Some {
                    Ok(self)
                } else {
                    Ok(
                        self.with_task(
                            i,
                            TaskRow {
                                archived_at: Some(timestamp),
                                updated_at: timestamp,
                                ..task
                            },
                        ),
                    )
                }
            },
        }
    }

    /// The store without a task, its artifacts and their annotations.
    pub open spec fn without_task(self, uuid: Seq<char>) -> State {
        State {
            tasks: self.tasks.filter(|task: TaskRow| task.uuid != uuid),
            artifacts: self.artifacts.filter(|artifact: ArtifactRow| artifact.task_uuid != uuid),
            annotations: self.annotations.filter(
                |annotation: AnnotationRow| !self.owned_by(annotation.artifact_uuid, uuid),
            ),
        }
    }

    /// An artifact with the UUID belongs to the task.
    pub open spec fn owned_by(self, artifact_uuid: Seq<char>, task_uuid: Seq<char>) -> bool {
        exists|i: int|
            0 <= i < self.artifacts.len() && (#[trigger] self.artifacts[i]).uuid == artifact_uuid
                && self.artifacts[i].task_uuid == task_uuid
    }

    /// The store after a task was deleted.
    pub open spec fn delete_task(self, key: Seq<char>) -> Result<State, Failure> {
        match self.task_named(key) {
            Err(failure) => Err(failure),
            Ok(i) => Ok(self.without_task(self.tasks[i].uuid)),
        }
    }

    /// The tasks of a list.
    pub open spec fn tasks_in(self, filter: TaskFilter) -> Seq<TaskRow> {
        self.tasks.filter(|task: TaskRow| admits(filter, task))
    }

    /// `result` is the list of tasks in its order.
    pub open spec fn lists_tasks(self, filter: TaskFilter, result: Seq<TaskRow>) -> bool {
        order::ordered(
            result,
            self.tasks_in(filter),
            self.tasks_in(filter).map_values(|task: TaskRow| task_key(task)),
            false,
        )
    }

    /// The pattern for a query: the query with anything before and after it.
    pub open spec fn pattern(query: Seq<char>) -> Seq<char> {
        "%"@ + query + "%"@
    }

    /// The active tasks whose id or body matches the query.
    pub open spec fn tasks_found(self, query: Seq<char>) -> Seq<TaskRow> {
        self.tasks.filter(
            |task: TaskRow|
                task.active() && (like::like(Self::pattern(query), task.id) || like::like(
                    Self::pattern(query),
                    task.body,
                )),
        )
    }

    /// A query that can be searched for. The length of the pattern counts only
    /// where there is a task to compare it with.
    pub open spec fn searchable(self, query: Seq<char>) -> Result<(), Failure> {
        match non_empty("search query"@, query) {
            Err(failure) => Err(failure),
            Ok(()) => if vstd::utf8::encode_utf8(Self::pattern(query)).len() > PATTERN_LIMIT && (
            exists|i: int| 0 <= i < self.tasks.len() && (#[trigger] self.tasks[i]).active()) {
                Err(Failure::Other("LIKE or GLOB pattern too complex"@))
            } else {
                Ok(())
            },
        }
    }

    /// `result` is what a search for the query finds, last changed first.
    pub open spec fn finds_tasks(self, query: Seq<char>, result: Seq<TaskRow>) -> bool {
        order::ordered(
            result,
            self.tasks_found(query),
            self.tasks_found(query).map_values(|task: TaskRow| found_key(task)),
            true,
        )
    }

    // ------------------------------------------------------------ artifacts

    /// The artifact that a UUID names.
    pub open spec fn artifact_named(self, uuid: Seq<char>) -> Result<int, Failure> {
        match ident::canonical_uuid(uuid) {
            None => Err(Failure::Invalid("invalid UUID: "@ + uuid)),
            Some(canonical) => if self.has_artifact(canonical) {
                Ok(self.artifact_index(canonical))
            } else {
                Err(Failure::NotFound("artifact not found: "@ + uuid))
            },
        }
    }

    /// The artifact that a UUID names.
    pub open spec fn read_artifact(self, uuid: Seq<char>) -> Result<ArtifactRow, Failure> {
        match self.artifact_named(uuid) {
            Err(failure) => Err(failure),
            Ok(i) => Ok(self.artifacts[i]),
        }
    }

    /// The task that an identifier names, if its content can be changed.
    pub open spec fn writable_task(self, key: Seq<char>) -> Result<int, Failure> {
        match self.task_named(key) {
            Err(failure) => Err(failure),
            Ok(i) => match writable(self.tasks[i]) {
                Err(failure) => Err(failure),
                Ok(()) => Ok(i),
            },
        }
    }

    /// The artifact that a UUID names, if its task can be changed.
    pub open spec fn writable_artifact(self, uuid: Seq<char>) -> Result<int, Failure> {
        match self.artifact_named(uuid) {
            Err(failure) => Err(failure),
            Ok(i) => match self.writable_task(self.artifacts[i].task_uuid) {
                Err(failure) => Err(failure),
                Ok(_) => Ok(i),
            },
        }
    }

    /// The task that an artifact belongs to is active.
    pub open spec fn owner_active(self, artifact: ArtifactRow) -> bool {
        self.tasks[self.task_index(artifact.task_uuid)].active()
    }

    /// An artifact as it is created.
    pub open spec fn new_artifact(
        task_uuid: Seq<char>,
        artifact_type: Seq<char>,
        name: Option<Seq<char>>,
        body: Seq<char>,
        uuid: Seq<char>,
        timestamp: Seq<char>,
    ) -> ArtifactRow {
        ArtifactRow {
            uuid,
            task_uuid,
            artifact_type,
            name: Some(
                match name {
                    Some(name) => name,
                    None => model::fallback_name(artifact_type, uuid),
                },
            ),
            body,
            created_at: timestamp,
            updated_at: timestamp,
        }
    }

    /// The task that a new artifact goes to.
    pub open spec fn new_artifact_task(
        self,
        task_key: Seq<char>,
        artifact_type: Seq<char>,
        name: Option<Seq<char>>,
    ) -> Result<int, Failure> {
        if text::is_blank(artifact_type) {
            Err(Failure::Invalid("artifact type"@ + " must not be empty"@))
        } else if name is Some && text::is_blank(name->0) {
            Err(Failure::Invalid("artifact name"@ + " must not be empty"@))
        } else {
            self.writable_task(task_key)
        }
    }

    /// The store with one artifact more.
    pub open spec fn create_artifact(
        self,
        task_key: Seq<char>,
        artifact_type: Seq<char>,
        name: Option<Seq<char>>,
        body: Seq<char>,
        uuid: Seq<char>,
        timestamp: Seq<char>,
    ) -> Result<State, Failure> {
        match self.new_artifact_task(task_key, artifact_type, name) {
            Err(failure) => Err(failure),
            Ok(i) => if self.has_artifact(uuid) {
                Err(Failure::Other("UNIQUE constraint failed: artifacts.uuid"@))
            } else {
                Ok(
                    State {
                        artifacts: self.artifacts.push(
                            Self::new_artifact(
                                self.tasks[i].uuid,
                                artifact_type,
                                name,
                                body,
                                uuid,
                                timestamp,
                            ),
                        ),
                        ..self
                    },
                )
            },
        }
    }

    /// The store with one artifact replaced.
    pub open spec fn with_artifact(self, i: int, artifact: ArtifactRow) -> State {
        State { artifacts: self.artifacts.update(i, artifact), ..self }
    }

    /// The store after an artifact got another body.
    pub open spec fn update_artifact(
        self,
        uuid: Seq<char>,
        body: Seq<char>,
        timestamp: Seq<char>,
    ) -> Result<State, Failure> {
        match self.writable_artifact(uuid) {
            Err(failure) => Err(failure),
            Ok(i) => if !self.owner_active(self.artifacts[i]) {
                Err(Failure::NotFound("artifact not found: "@ + uuid))
            } else {
                Ok(
                    self.with_artifact(
                        i,
                        ArtifactRow { body, updated_at: timestamp, ..self.artifacts[i] },
                    ),
                )
            },
        }
    }

    /// The store after an artifact got another name.
    pub open spec fn rename_artifact(
        self,
        uuid: Seq<char>,
        name: Seq<char>,
        timestamp: Seq<char>,
    ) -> Result<State, Failure> {
        match self.writable_artifact(uuid) {
            Err(failure) => Err(failure),
            Ok(i) => match non_empty("artifact name"@, name) {
                Err(failure) => Err(failure),
                Ok(()) => if !self.owner_active(self.artifacts[i]) {
                    Err(Failure::NotFound("artifact not found: "@ + uuid))
                } else {
                    Ok(
                        self.with_artifact(
                            i,
                            ArtifactRow {
                                name: Some(name),
                                updated_at: timestamp,
                                ..self.artifacts[i]
                            },
                        ),
                    )
                },
            },
        }
    }

    /// The artifacts of a task, of one type or of all.
    pub open spec fn artifacts_of(
        self,
        task_uuid: Seq<char>,
        artifact_type: Option<Seq<char>>,
    ) -> Seq<ArtifactRow> {
        self.artifacts.filter(
            |artifact: ArtifactRow|
                artifact.task_uuid == task_uuid && (artifact_type matches Some(wanted)
                    ==> artifact.artifact_type == wanted),
        )
    }

    /// The task whose artifacts are asked for.
    pub open spec fn artifacts_task(
        self,
        task_key: Seq<char>,
        artifact_type: Option<Seq<char>>,
    ) -> Result<int, Failure> {
        if artifact_type is Some && text::is_blank(artifact_type->0) {
            Err(Failure::Invalid("artifact type"@ + " must not be empty"@))
        } else {
            self.task_named(task_key)
        }
    }

    /// `result` is the list of artifacts of a task in its order.
    pub open spec fn lists_artifacts(
        self,
        task_uuid: Seq<char>,
        artifact_type: Option<Seq<char>>,
        result: Seq<ArtifactRow>,
    ) -> bool {
        order::ordered(
            result,
            self.artifacts_of(task_uuid, artifact_type),
            self.artifacts_of(task_uuid, artifact_type).map_values(
                |artifact: ArtifactRow| artifact_key(artifact),
            ),
            false,
        )
    }

    /// An artifact with the id of its task.
    pub open spec fn artifact_info(self, uuid: Seq<char>) -> Result<ArtifactInfoRow, Failure> {
        match self.read_artifact(uuid) {
            Err(failure) => Err(failure),
            Ok(artifact) => match self.read_task(artifact.task_uuid) {
                Err(failure) => Err(failure),
                Ok(task) => Ok(
                    ArtifactInfoRow {
                        uuid: artifact.uuid,
                        task_uuid: artifact.task_uuid,
                        task_id: task.id,
                        artifact_type: artifact.artifact_type,
                        name: artifact.display_name(),
                        created_at: artifact.created_at,
                        updated_at: artifact.updated_at,
                    },
                ),
            },
        }
    }

    // ------------------------------------------------------------ annotations

    /// The artifact that a new annotation goes to.
    pub open spec fn new_annotation_artifact(
        self,
        artifact_uuid: Seq<char>,
        input: NewAnnotationRow,
    ) -> Result<int, Failure> {
        match self.writable_artifact(artifact_uuid) {
            Err(failure) => Err(failure),
            Ok(i) => match offsets(input.start_offset, input.end_offset) {
                Err(failure) => Err(failure),
                Ok(()) => if !storable(input.start_offset) || !storable(input.end_offset) {
                    Err(Failure::Other("out of range integral type conversion attempted"@))
                } else if !self.owner_active(self.artifacts[i]) {
                    Err(Failure::Invalid("task state changed while creating annotation"@))
                } else {
                    Ok(i)
                },
            },
        }
    }

    /// An annotation as it is created.
    pub open spec fn new_annotation(
        artifact_uuid: Seq<char>,
        input: NewAnnotationRow,
        uuid: Seq<char>,
        timestamp: Seq<char>,
    ) -> AnnotationRow {
        AnnotationRow {
            uuid,
            artifact_uuid,
            kind: input.kind,
            start_offset: input.start_offset,
            end_offset: input.end_offset,
            selected_text: normalized(input.selected_text),
            body: normalized(input.body),
            created_at: timestamp,
            resolved_at: None,
        }
    }

    /// The store with one annotation more.
    pub open spec fn create_annotation(
        self,
        artifact_uuid: Seq<char>,
        input: NewAnnotationRow,
        uuid: Seq<char>,
        timestamp: Seq<char>,
    ) -> Result<State, Failure> {
        match self.new_annotation_artifact(artifact_uuid, input) {
            Err(failure) => Err(failure),
            Ok(i) => if self.has_annotation(uuid) {
                Err(Failure::Other("UNIQUE constraint failed: annotations.uuid"@))
            } else {
                Ok(
                    State {
                        annotations: self.annotations.push(
                            Self::new_annotation(self.artifacts[i].uuid, input, uuid, timestamp),
                        ),
                        ..self
                    },
                )
            },
        }
    }

    /// The annotations of an artifact: the unresolved ones, or all.
    pub open spec fn annotations_of(
        self,
        artifact_uuid: Seq<char>,
        include_resolved: bool,
    ) -> Seq<AnnotationRow> {
        self.annotations.filter(
            |annotation: AnnotationRow|
                annotation.artifact_uuid == artifact_uuid && (include_resolved
                    || annotation.resolved_at is None),
        )
    }

    /// `result` is the list of annotations of an artifact in its order.
    pub open spec fn lists_annotations(
        self,
        artifact_uuid: Seq<char>,
        include_resolved: bool,
        result: Seq<AnnotationRow>,
    ) -> bool {
        order::ordered(
            result,
            self.annotations_of(artifact_uuid, include_resolved),
            self.annotations_of(artifact_uuid, include_resolved).map_values(
                |annotation: AnnotationRow| annotation_key(annotation),
            ),
            false,
        )
    }

    /// The artifact that an annotation is on.
    pub open spec fn annotated(self, i: int) -> ArtifactRow {
        self.artifacts[self.artifact_index(self.annotations[i].artifact_uuid)]
    }

    /// The annotation that a UUID names, if its task can be changed.
    pub open spec fn writable_annotation(self, uuid: Seq<char>) -> Result<int, Failure> {
        match ident::canonical_uuid(uuid) {
            None => Err(Failure::Invalid("invalid UUID: "@ + uuid)),
            Some(canonical) => if !self.has_annotation(canonical) {
                Err(Failure::NotFound("annotation not found: "@ + uuid))
            } else {
                let i = self.annotation_index(canonical);
                match self.writable_task(self.annotated(i).task_uuid) {
                    Err(failure) => Err(failure),
                    Ok(_) => if !self.owner_active(self.annotated(i)) {
                        Err(Failure::NotFound("annotation not found: "@ + uuid))
                    } else {
                        Ok(i)
                    },
                }
            },
        }
    }

    /// The store after an annotation was resolved. One that was resolved before
    /// keeps its time.
    pub open spec fn resolve_annotation(self, uuid: Seq<char>, timestamp: Seq<char>) -> Result<
        State,
        Failure,
    > {
        match self.writable_annotation(uuid) {
            Err(failure) => Err(failure),
            Ok(i) => {
                let annotation = self.annotations[i];
                Ok(
                    State {
                        annotations: self.annotations.update(
                            i,
                            AnnotationRow {
                                resolved_at: Some(
                                    match annotation.resolved_at {
                                        Some(resolved_at) => resolved_at,
                                        None => timestamp,
                                    },
                                ),
                                ..annotation
                            },
                        ),
                        ..self
                    },
                )
            },
        }
    }

    // ------------------------------------------------------------ documents

    /// The task of an artifact.
    pub open spec fn owner(self, artifact: ArtifactRow) -> TaskRow {
        self.tasks[self.task_index(artifact.task_uuid)]
    }

    /// The document of a task.
    pub open spec fn task_document(task: TaskRow) -> DocumentRow {
        DocumentRow { path: task.id + "/task.md"@, artifact_uuid: None, body: task.body }
    }

    /// The path of an artifact below its task.
    pub open spec fn artifact_path(self, artifact: ArtifactRow) -> Seq<char> {
        self.owner(artifact).id + "/"@ + artifact.artifact_type + "/"@ + artifact.display_name()
    }

    /// The document of an artifact.
    pub open spec fn artifact_document(self, artifact: ArtifactRow) -> DocumentRow {
        DocumentRow {
            path: self.artifact_path(artifact),
            artifact_uuid: Some(artifact.uuid),
            body: artifact.body,
        }
    }

    /// The artifact of an annotation.
    pub open spec fn target(self, annotation: AnnotationRow) -> ArtifactRow {
        self.artifacts[self.artifact_index(annotation.artifact_uuid)]
    }

    /// The document of an annotation.
    pub open spec fn annotation_document(self, annotation: AnnotationRow) -> DocumentRow {
        DocumentRow {
            path: self.artifact_path(self.target(annotation)) + "/annotations/"@ + annotation.uuid
                + ".md"@,
            artifact_uuid: Some(self.target(annotation).uuid),
            body: annotation.body->0,
        }
    }

    /// The annotations that hold a text.
    pub open spec fn annotations_with_body(self) -> Seq<AnnotationRow> {
        self.annotations.filter(|annotation: AnnotationRow| annotation.body is Some)
    }

    /// `result` is the documents of the tasks by id.
    pub open spec fn lists_task_documents(self, result: Seq<DocumentRow>) -> bool {
        order::ordered(
            result,
            self.tasks.map_values(|task: TaskRow| Self::task_document(task)),
            self.tasks.map_values(|task: TaskRow| seq![task.id]),
            false,
        )
    }

    /// `result` is the documents of the artifacts by task, and within a task in the
    /// order of the artifacts.
    pub open spec fn lists_artifact_documents(self, result: Seq<DocumentRow>) -> bool {
        order::ordered(
            result,
            self.artifacts.map_values(|artifact: ArtifactRow| self.artifact_document(artifact)),
            self.artifacts.map_values(
                |artifact: ArtifactRow|
                    seq![self.owner(artifact).id, artifact.created_at, artifact.uuid],
            ),
            false,
        )
    }

    /// `result` is the documents of the annotations by task, artifact and time.
    pub open spec fn lists_annotation_documents(self, result: Seq<DocumentRow>) -> bool {
        order::ordered(
            result,
            self.annotations_with_body().map_values(
                |annotation: AnnotationRow| self.annotation_document(annotation),
            ),
            self.annotations_with_body().map_values(
                |annotation: AnnotationRow|
                    seq![
                        self.owner(self.target(annotation)).id,
                        self.target(annotation).created_at,
                        annotation.created_at,
                        annotation.uuid,
                    ],
            ),
            false,
        )
    }

    /// `result` is every text that a search goes through: the tasks, then the
    /// artifacts, then the annotations.
    pub open spec fn lists_documents(self, result: Seq<DocumentRow>) -> bool {
        exists|tasks: Seq<DocumentRow>, artifacts: Seq<DocumentRow>, annotations: Seq<DocumentRow>|
            #![trigger tasks + artifacts + annotations]
            {
                &&& self.lists_task_documents(tasks)
                &&& self.lists_artifact_documents(artifacts)
                &&& self.lists_annotation_documents(annotations)
                &&& result == tasks + artifacts + annotations
            }
    }

    /// Every task and every artifact has a UUID with a first eight bytes to show.
    pub open spec fn uuids_cut(self) -> bool {
        &&& forall|i: int|
            0 <= i < self.tasks.len() ==> text::has_byte_prefix((#[trigger] self.tasks[i]).uuid, 8)
        &&& forall|i: int|
            0 <= i < self.artifacts.len() ==> text::has_byte_prefix(
                (#[trigger] self.artifacts[i]).uuid,
                8,
            )
    }

    /// Every artifact has a name to show.
    pub open spec fn all_named(self) -> bool {
        forall|i: int|
            0 <= i < self.artifacts.len() ==> (#[trigger] self.artifacts[i]).has_display_name()
    }
}

/// A change keeps what holds of a store that was filled by the operations alone.
pub open spec fn order_kept(before: State, after: State) -> bool {
    &&& before.orderly() ==> after.orderly()
    &&& before.regular() ==> after.regular()
}

/// The times of a task.
pub open spec fn task_times(task: TaskRow) -> bool {
    &&& ident::is_time(task.created_at)
    &&& ident::is_time(task.updated_at)
    &&& task.completed_at matches Some(time) ==> ident::is_time(time)
    &&& task.archived_at matches Some(time) ==> ident::is_time(time)
}

/// The times of an artifact.
pub open spec fn artifact_times(artifact: ArtifactRow) -> bool {
    ident::is_time(artifact.created_at) && ident::is_time(artifact.updated_at)
}

/// The times of an annotation.
pub open spec fn annotation_times(annotation: AnnotationRow) -> bool {
    &&& ident::is_time(annotation.created_at)
    &&& annotation.resolved_at matches Some(time) ==> ident::is_time(time)
}

// ---------------------------------------------------------------- records by index

/// In a valid store, a record is found under its UUID, and a task under its id.
pub proof fn indices(state: State, i: int)
    requires
        state.wf(),
    ensures
        0 <= i < state.tasks.len() ==> state.has_task(state.tasks[i].uuid) && state.task_index(
            state.tasks[i].uuid,
        ) == i && state.has_id(state.tasks[i].id) && state.id_index(state.tasks[i].id) == i,
        0 <= i < state.artifacts.len() ==> state.has_artifact(state.artifacts[i].uuid)
            && state.artifact_index(state.artifacts[i].uuid) == i,
        0 <= i < state.annotations.len() ==> state.has_annotation(state.annotations[i].uuid)
            && state.annotation_index(state.annotations[i].uuid) == i,
{
    if 0 <= i < state.tasks.len() {
        let a = state.task_index(state.tasks[i].uuid);
        assert(state.tasks[i].uuid == state.tasks[i].uuid);
        assert(task_uuids(state.tasks)[a] == task_uuids(state.tasks)[i]);
        let b = state.id_index(state.tasks[i].id);
        assert(state.tasks[i].id == state.tasks[i].id);
        assert(task_ids(state.tasks)[b] == task_ids(state.tasks)[i]);
    }
    if 0 <= i < state.artifacts.len() {
        let a = state.artifact_index(state.artifacts[i].uuid);
        assert(state.artifacts[i].uuid == state.artifacts[i].uuid);
        assert(artifact_uuids(state.artifacts)[a] == artifact_uuids(state.artifacts)[i]);
    }
    if 0 <= i < state.annotations.len() {
        let a = state.annotation_index(state.annotations[i].uuid);
        assert(state.annotations[i].uuid == state.annotations[i].uuid);
        assert(annotation_uuids(state.annotations)[a] == annotation_uuids(state.annotations)[i]);
    }
}

} // verus!
