//! The store of tasks, artifacts and annotations.

use vstd::prelude::*;

use crate::error;
use crate::error::{invalid, not_found, other, Error, Failure};
use crate::ident;
use crate::laws;
use crate::like;
use crate::model;
use crate::model::{
    Annotation, AnnotationRow, Artifact, ArtifactInfo, ArtifactRow, NewAnnotation, SearchDocument,
    Task, TaskRow,
};
use crate::order;
use crate::state;
use crate::state::{State, TaskFilter};
use crate::text;

verus! {

/// The records of the store.
pub struct Store {
    tasks: Vec<Task>,
    artifacts: Vec<Artifact>,
    annotations: Vec<Annotation>,
}

impl View for Store {
    type V = State;

    closed spec fn view(&self) -> State {
        State {
            tasks: model::rows(self.tasks@),
            artifacts: model::rows(self.artifacts@),
            annotations: model::rows(self.annotations@),
        }
    }
}

/// An operation either took place, and led to the state that it leads to, or
/// reported its error and left the store as it was.
pub open spec fn took_place(
    result: Result<(), Error>,
    before: State,
    after: State,
    outcome: Result<State, Failure>,
) -> bool {
    match (outcome, result) {
        (Ok(state), Ok(())) => after == state,
        (Err(failure), Err(error)) => error@ == failure && after == before,
        _ => false,
    }
}

/// A value that must hold more than white space.
pub fn validate_non_empty(name: &str, value: &str) -> (result: Result<(), Error>)
    ensures
        error::done(result) == state::non_empty(name@, value@),
{
    if text::blank(value) {
        return Err(invalid(text::concat2(name, " must not be empty")));
    }
    Ok(())
}

/// Two offsets are given together, in order, or not at all.
pub fn validate_offsets(start: Option<u64>, end: Option<u64>) -> (result: Result<(), Error>)
    ensures
        error::done(result) == state::offsets(start, end),
{
    match (start, end) {
        (None, None) => Ok(()),
        (Some(start), Some(end)) => if end >= start {
            Ok(())
        } else {
            Err(invalid("end offset must not be less than start offset".to_owned()))
        },
        _ => Err(invalid("start and end offsets must be supplied together".to_owned())),
    }
}

/// An optional text, where an empty one counts as none.
pub fn normalize_optional(value: Option<String>) -> (result: Option<String>)
    ensures
        text::optional(result) == state::normalized(text::optional(value)),
{
    match value {
        Some(value) => {
            if text::chars_of(value.as_str()).len() == 0 {
                None
            } else {
                Some(value)
            }
        },
        None => None,
    }
}

/// The content of an archived or completed task cannot be changed.
pub fn ensure_task_writable(task: &Task) -> (result: Result<(), Error>)
    ensures
        error::done(result) == state::writable(task@),
{
    if task.archived_at.is_some() {
        return Err(invalid(text::concat2("archived task is read-only: ", task.id.as_str())));
    }
    if task.completed_at.is_some() {
        return Err(invalid(text::concat2("completed task is read-only: ", task.id.as_str())));
    }
    Ok(())
}

fn storable(offset: Option<u64>) -> (answer: bool)
    ensures
        answer == state::storable(offset),
{
    match offset {
        Some(offset) => offset <= 9223372036854775807u64,
        None => true,
    }
}

impl Store {
    // ------------------------------------------------------------ lookup

    fn task_with_uuid(&self, uuid: &str) -> (found: Option<usize>)
        requires
            self@.wf(),
        ensures
            match found {
                Some(i) => i < self.tasks@.len() && self@.has_task(uuid@) && i == self@.task_index(
                    uuid@,
                ),
                None => !self@.has_task(uuid@),
            },
    {
        for i in 0..self.tasks.len()
            invariant
                self@.wf(),
                forall|j: int| 0 <= j < i ==> (#[trigger] self@.tasks[j]).uuid != uuid@,
        {
            assert(self@.tasks[i as int] == self.tasks@[i as int]@);
            if text::same(self.tasks[i].uuid.as_str(), uuid) {
                proof {
                    state::indices(self@, i as int);
                }
                return Some(i);
            }
        }
        None
    }

    fn task_with_id(&self, id: &str) -> (found: Option<usize>)
        requires
            self@.wf(),
        ensures
            match found {
                Some(i) => i < self.tasks@.len() && self@.has_id(id@) && i == self@.id_index(id@),
                None => !self@.has_id(id@),
            },
    {
        for i in 0..self.tasks.len()
            invariant
                self@.wf(),
                forall|j: int| 0 <= j < i ==> (#[trigger] self@.tasks[j]).id != id@,
        {
            assert(self@.tasks[i as int] == self.tasks@[i as int]@);
            if text::same(self.tasks[i].id.as_str(), id) {
                proof {
                    state::indices(self@, i as int);
                }
                return Some(i);
            }
        }
        None
    }

    fn artifact_with_uuid(&self, uuid: &str) -> (found: Option<usize>)
        requires
            self@.wf(),
        ensures
            match found {
                Some(i) => i < self.artifacts@.len() && self@.has_artifact(uuid@) && i
                    == self@.artifact_index(uuid@),
                None => !self@.has_artifact(uuid@),
            },
    {
        for i in 0..self.artifacts.len()
            invariant
                self@.wf(),
                forall|j: int| 0 <= j < i ==> (#[trigger] self@.artifacts[j]).uuid != uuid@,
        {
            assert(self@.artifacts[i as int] == self.artifacts@[i as int]@);
            if text::same(self.artifacts[i].uuid.as_str(), uuid) {
                proof {
                    state::indices(self@, i as int);
                }
                return Some(i);
            }
        }
        None
    }

    fn annotation_with_uuid(&self, uuid: &str) -> (found: Option<usize>)
        requires
            self@.wf(),
        ensures
            match found {
                Some(i) => i < self.annotations@.len() && self@.has_annotation(uuid@) && i
                    == self@.annotation_index(uuid@),
                None => !self@.has_annotation(uuid@),
            },
    {
        for i in 0..self.annotations.len()
            invariant
                self@.wf(),
                forall|j: int| 0 <= j < i ==> (#[trigger] self@.annotations[j]).uuid != uuid@,
        {
            assert(self@.annotations[i as int] == self.annotations@[i as int]@);
            if text::same(self.annotations[i].uuid.as_str(), uuid) {
                proof {
                    state::indices(self@, i as int);
                }
                return Some(i);
            }
        }
        None
    }

    /// The task that an id or a UUID names.
    fn find_task(&self, key: &str) -> (found: Result<usize, Error>)
        requires
            self@.wf(),
        ensures
            match found {
                Ok(i) => i < self.tasks@.len() && self@.find_task(key@) == Ok::<int, Failure>(
                    i as int,
                ),
                Err(error) => self@.find_task(key@) == Err::<int, Failure>(error@),
            },
    {
        let by_id = self.task_with_id(key);
        let by_uuid = match ident::normalized_uuid(key) {
            Some(uuid) => self.task_with_uuid(uuid.as_str()),
            None => None,
        };
        match (by_id, by_uuid) {
            (Some(i), Some(j)) => {
                assert(self@.tasks[i as int] == self.tasks@[i as int]@);
                assert(self@.tasks[j as int] == self.tasks@[j as int]@);
                if !text::same(self.tasks[i].uuid.as_str(), self.tasks[j].uuid.as_str()) {
                    Err(
                        invalid(
                            text::concat2(
                                "ambiguous task identifier matches an id and a UUID: ",
                                key,
                            ),
                        ),
                    )
                } else {
                    Ok(i)
                }
            },
            (Some(i), None) => Ok(i),
            (None, Some(j)) => Ok(j),
            (None, None) => Err(not_found(text::concat2("task not found: ", key))),
        }
    }

    /// The task that an identifier names, which must hold more than white space.
    fn task_named(&self, key: &str) -> (found: Result<usize, Error>)
        requires
            self@.wf(),
        ensures
            match found {
                Ok(i) => i < self.tasks@.len() && self@.task_named(key@) == Ok::<int, Failure>(
                    i as int,
                ),
                Err(error) => self@.task_named(key@) == Err::<int, Failure>(error@),
            },
    {
        match validate_non_empty("task identifier", key) {
            Err(error) => Err(error),
            Ok(()) => self.find_task(key),
        }
    }

    /// The artifact that a UUID names.
    fn artifact_named(&self, uuid: &str) -> (found: Result<usize, Error>)
        requires
            self@.wf(),
        ensures
            match found {
                Ok(i) => i < self.artifacts@.len() && self@.artifact_named(uuid@) == Ok::<
                    int,
                    Failure,
                >(i as int),
                Err(error) => self@.artifact_named(uuid@) == Err::<int, Failure>(error@),
            },
    {
        match ident::require_uuid(uuid) {
            Err(error) => Err(error),
            Ok(canonical) => match self.artifact_with_uuid(canonical.as_str()) {
                Some(i) => Ok(i),
                None => Err(not_found(text::concat2("artifact not found: ", uuid))),
            },
        }
    }

    /// The task that an identifier names, if its content can be changed.
    fn writable_task(&self, key: &str) -> (found: Result<usize, Error>)
        requires
            self@.wf(),
        ensures
            match found {
                Ok(i) => i < self.tasks@.len() && self@.writable_task(key@) == Ok::<int, Failure>(
                    i as int,
                ),
                Err(error) => self@.writable_task(key@) == Err::<int, Failure>(error@),
            },
    {
        match self.task_named(key) {
            Err(error) => Err(error),
            Ok(i) => {
                assert(self@.tasks[i as int] == self.tasks@[i as int]@);
                match ensure_task_writable(&self.tasks[i]) {
                    Err(error) => Err(error),
                    Ok(()) => Ok(i),
                }
            },
        }
    }

    /// The artifact that a UUID names, if its task can be changed.
    fn writable_artifact(&self, uuid: &str) -> (found: Result<usize, Error>)
        requires
            self@.wf(),
        ensures
            match found {
                Ok(i) => i < self.artifacts@.len() && self@.writable_artifact(uuid@) == Ok::<
                    int,
                    Failure,
                >(i as int),
                Err(error) => self@.writable_artifact(uuid@) == Err::<int, Failure>(error@),
            },
    {
        match self.artifact_named(uuid) {
            Err(error) => Err(error),
            Ok(i) => {
                assert(self@.artifacts[i as int] == self.artifacts@[i as int]@);
                match self.writable_task(self.artifacts[i].task_uuid.as_str()) {
                    Err(error) => Err(error),
                    Ok(_) => Ok(i),
                }
            },
        }
    }

    /// Which task an artifact belongs to.
    fn owner_of(&self, artifact: usize) -> (i: usize)
        requires
            self@.wf(),
            artifact < self.artifacts@.len(),
        ensures
            i < self.tasks@.len(),
            i == self@.task_index(self@.artifacts[artifact as int].task_uuid),
    {
        assert(self@.artifacts[artifact as int] == self.artifacts@[artifact as int]@);
        assert(self@.has_task(self@.artifacts[artifact as int].task_uuid));
        match self.task_with_uuid(self.artifacts[artifact].task_uuid.as_str()) {
            Some(i) => i,
            None => 0,
        }
    }

    /// Which artifact an annotation is on.
    fn target_of(&self, annotation: usize) -> (i: usize)
        requires
            self@.wf(),
            annotation < self.annotations@.len(),
        ensures
            i < self.artifacts@.len(),
            i == self@.artifact_index(self@.annotations[annotation as int].artifact_uuid),
    {
        assert(self@.annotations[annotation as int] == self.annotations@[annotation as int]@);
        assert(self@.has_artifact(self@.annotations[annotation as int].artifact_uuid));
        match self.artifact_with_uuid(self.annotations[annotation].artifact_uuid.as_str()) {
            Some(i) => i,
            None => 0,
        }
    }

    fn owner_active(&self, artifact: usize) -> (answer: bool)
        requires
            self@.wf(),
            artifact < self.artifacts@.len(),
        ensures
            answer == self@.owner_active(self@.artifacts[artifact as int]),
    {
        let i = self.owner_of(artifact);
        assert(self@.tasks[i as int] == self.tasks@[i as int]@);
        self.tasks[i].archived_at.is_none() && self.tasks[i].completed_at.is_none()
    }

    // ------------------------------------------------------------ tasks

    /// An id that a task can get.
    fn free_id(&self, id: &str) -> (result: Result<(), Error>)
        requires
            self@.wf(),
        ensures
            error::done(result) == self@.free_id(id@),
    {
        if self.task_with_id(id).is_some() {
            return Err(invalid(text::concat2("task id already exists: ", id)));
        }
        if let Some(uuid) = ident::normalized_uuid(id) {
            if self.task_with_uuid(uuid.as_str()).is_some() {
                return Err(
                    invalid(text::concat2("task id conflicts with an existing task UUID: ", id)),
                );
            }
        }
        Ok(())
    }

    fn is_uuid_of(id: &str, uuid: &str) -> (answer: bool)
        ensures
            answer == (ident::canonical_uuid(id@) == Some(uuid@)),
    {
        match ident::normalized_uuid(id) {
            Some(canonical) => text::same(canonical.as_str(), uuid),
            None => false,
        }
    }

    /// The id of a new task, or that of a task in the store, can be taken for the
    /// UUID.
    fn uuid_clashes(&self, id: &str, uuid: &str) -> (answer: bool)
        ensures
            answer == self@.uuid_clashes(id@, uuid@),
    {
        if Self::is_uuid_of(id, uuid) {
            return true;
        }
        for i in 0..self.tasks.len()
            invariant
                ident::canonical_uuid(id@) != Some(uuid@),
                forall|j: int|
                    0 <= j < i ==> ident::canonical_uuid((#[trigger] self@.tasks[j]).id) != Some(
                        uuid@,
                    ),
        {
            assert(self@.tasks[i as int] == self.tasks@[i as int]@);
            if Self::is_uuid_of(self.tasks[i].id.as_str(), uuid) {
                return true;
            }
        }
        false
    }

    /// Creates a task under the given UUID. Where that UUID could be confused with
    /// the id of a task, nothing is created and the answer is `None`.
    pub fn create_task(
        &mut self,
        id: &str,
        body: &str,
        uuid: &str,
        timestamp: &str,
    ) -> (result: Result<Option<Task>, Error>)
        requires
            old(self)@.wf(),
        ensures
            final(self)@.wf(),
            match (old(self)@.create_task(id@, body@, uuid@, timestamp@), result) {
                (Ok(Some(state)), Ok(Some(task))) => final(self)@ == state && task@
                    == State::new_task(id@, body@, uuid@, timestamp@),
                (Ok(None), Ok(None)) => final(self)@ == old(self)@,
                (Err(failure), Err(error)) => error@ == failure && final(self)@ == old(self)@,
                _ => false,
            },
    {
        if let Err(error) = validate_non_empty("task id", id) {
            return Err(error);
        }
        if let Err(error) = self.free_id(id) {
            return Err(error);
        }
        if self.uuid_clashes(id, uuid) {
            return Ok(None);
        }
        if self.task_with_uuid(uuid).is_some() {
            return Err(other(text::concat2("failed to create task ", id)));
        }
        let task = Task {
            uuid: uuid.to_owned(),
            id: id.to_owned(),
            body: body.to_owned(),
            created_at: timestamp.to_owned(),
            updated_at: timestamp.to_owned(),
            archived_at: None,
            completed_at: None,
        };
        proof {
            laws::task_added(self@, task@);
        }
        self.tasks.push(task.clone());
        assert(model::rows(self.tasks@) =~= model::rows(old(self).tasks@).push(task@));
        Ok(Some(task))
    }

    /// The task that an identifier names.
    pub fn read_task(&self, key: &str) -> (result: Result<Task, Error>)
        requires
            self@.wf(),
        ensures
            error::viewed(result) == self@.read_task(key@),
    {
        match self.task_named(key) {
            Err(error) => Err(error),
            Ok(i) => {
                assert(self@.tasks[i as int] == self.tasks@[i as int]@);
                Ok(self.tasks[i].clone())
            },
        }
    }

    fn replace_task(&mut self, i: usize, task: Task)
        requires
            i < old(self).tasks@.len(),
            old(self)@.wf(),
            task@.uuid == old(self)@.tasks[i as int].uuid,
            task@.id == old(self)@.tasks[i as int].id || !old(self)@.has_id(task@.id),
        ensures
            final(self)@ == old(self)@.with_task(i as int, task@),
            final(self)@.wf(),
    {
        proof {
            laws::task_replaced(self@, i as int, task@);
        }
        let ghost row = task@;
        self.tasks.set(i, task);
        assert(model::rows(self.tasks@) =~= model::rows(old(self).tasks@).update(i as int, row));
    }

    /// Gives a task another id, another body, or both.
    pub fn edit_task(
        &mut self,
        key: &str,
        id: Option<&str>,
        body: Option<&str>,
        timestamp: &str,
    ) -> (result: Result<(), Error>)
        requires
            old(self)@.wf(),
        ensures
            final(self)@.wf(),
            took_place(
                result,
                old(self)@,
                final(self)@,
                old(self)@.edit_task(
                    key@,
                    text::optional_str(id),
                    text::optional_str(body),
                    timestamp@,
                ),
            ),
    {
        if let Err(error) = validate_non_empty("task identifier", key) {
            return Err(error);
        }
        if let Some(id) = id {
            if let Err(error) = validate_non_empty("task id", id) {
                return Err(error);
            }
        }
        if id.is_none() && body.is_none() {
            return Err(invalid("task edit requires an id or body".to_owned()));
        }
        let i = match self.find_task(key) {
            Err(error) => {
                return Err(error);
            },
            Ok(i) => i,
        };
        assert(self@.tasks[i as int] == self.tasks@[i as int]@);
        if let Err(error) = ensure_task_writable(&self.tasks[i]) {
            return Err(error);
        }
        let mut task = self.tasks[i].clone();
        if let Some(id) = id {
            if !text::same(id, task.id.as_str()) {
                if let Err(error) = self.free_id(id) {
                    return Err(error);
                }
                task.id = id.to_owned();
            }
        }
        if let Some(body) = body {
            task.body = body.to_owned();
        }
        task.updated_at = timestamp.to_owned();
        self.replace_task(i, task);
        Ok(())
    }

    /// Completes a task.
    pub fn complete_task(&mut self, key: &str, timestamp: &str) -> (result: Result<(), Error>)
        requires
            old(self)@.wf(),
        ensures
            final(self)@.wf(),
            took_place(
                result,
                old(self)@,
                final(self)@,
                old(self)@.complete_task(key@, timestamp@),
            ),
    {
        let i = match self.task_named(key) {
            Err(error) => {
                return Err(error);
            },
            Ok(i) => i,
        };
        assert(self@.tasks[i as int] == self.tasks@[i as int]@);
        let mut task = self.tasks[i].clone();
        if task.archived_at.is_some() {
            return Err(
                invalid(text::concat2("archived task cannot be completed: ", task.id.as_str())),
            );
        }
        if task.completed_at.is_some() {
            return Ok(());
        }
        task.completed_at = Some(timestamp.to_owned());
        task.updated_at = timestamp.to_owned();
        self.replace_task(i, task);
        Ok(())
    }

    /// Reopens a completed task.
    pub fn reopen_task(&mut self, key: &str, timestamp: &str) -> (result: Result<(), Error>)
        requires
            old(self)@.wf(),
        ensures
            final(self)@.wf(),
            took_place(
                result,
                old(self)@,
                final(self)@,
                old(self)@.reopen_task(key@, timestamp@),
            ),
    {
        let i = match self.task_named(key) {
            Err(error) => {
                return Err(error);
            },
            Ok(i) => i,
        };
        assert(self@.tasks[i as int] == self.tasks@[i as int]@);
        let mut task = self.tasks[i].clone();
        if task.archived_at.is_some() {
            return Err(
                invalid(text::concat2("archived task cannot be reopened: ", task.id.as_str())),
            );
        }
        if task.completed_at.is_none() {
            return Ok(());
        }
        task.completed_at = None;
        task.updated_at = timestamp.to_owned();
        self.replace_task(i, task);
        Ok(())
    }

    /// Archives a task.
    pub fn archive_task(&mut self, key: &str, timestamp: &str) -> (result: Result<(), Error>)
        requires
            old(self)@.wf(),
        ensures
            final(self)@.wf(),
            took_place(
                result,
                old(self)@,
                final(self)@,
                old(self)@.archive_task(key@, timestamp@),
            ),
    {
        let i = match self.task_named(key) {
            Err(error) => {
                return Err(error);
            },
            Ok(i) => i,
        };
        assert(self@.tasks[i as int] == self.tasks@[i as int]@);
        let mut task = self.tasks[i].clone();
        if task.archived_at.is_some() {
            return Ok(());
        }
        task.archived_at = Some(timestamp.to_owned());
        task.updated_at = timestamp.to_owned();
        self.replace_task(i, task);
        Ok(())
    }

    /// Whether an artifact with the UUID belongs to the task.
    fn owned_by(&self, artifact_uuid: &str, task_uuid: &str) -> (answer: bool)
        ensures
            answer == self@.owned_by(artifact_uuid@, task_uuid@),
    {
        for i in 0..self.artifacts.len()
            invariant
                forall|j: int|
                    0 <= j < i ==> !((#[trigger] self@.artifacts[j]).uuid == artifact_uuid@
                        && self@.artifacts[j].task_uuid == task_uuid@),
        {
            assert(self@.artifacts[i as int] == self.artifacts@[i as int]@);
            if text::same(self.artifacts[i].uuid.as_str(), artifact_uuid) && text::same(
                self.artifacts[i].task_uuid.as_str(),
                task_uuid,
            ) {
                return true;
            }
        }
        false
    }

    /// Deletes a task, its artifacts and their annotations.
    pub fn delete_task(&mut self, key: &str) -> (result: Result<(), Error>)
        requires
            old(self)@.wf(),
        ensures
            final(self)@.wf(),
            took_place(result, old(self)@, final(self)@, old(self)@.delete_task(key@)),
    {
        let i = match self.task_named(key) {
            Err(error) => {
                return Err(error);
            },
            Ok(i) => i,
        };
        assert(self@.tasks[i as int] == self.tasks@[i as int]@);
        let uuid = self.tasks[i].uuid.clone();
        let tasks = self.tasks_without(uuid.as_str());
        let artifacts = self.artifacts_without(uuid.as_str());
        let annotations = self.annotations_without(uuid.as_str());
        proof {
            laws::task_removed(self@, uuid@);
        }
        self.tasks = tasks;
        self.artifacts = artifacts;
        self.annotations = annotations;
        Ok(())
    }

    fn tasks_without(&self, uuid: &str) -> (result: Vec<Task>)
        ensures
            model::rows(result@) == self@.without_task(uuid@).tasks,
    {
        let mut result: Vec<Task> = Vec::new();
        let ghost keep = |task: TaskRow| task.uuid != uuid@;
        assert(self@.tasks.take(0).filter(keep) =~= Seq::empty()) by {
            reveal(Seq::filter);
        }
        for i in 0..self.tasks.len()
            invariant
                keep == (|task: TaskRow| task.uuid != uuid@),
                model::rows(result@) == self@.tasks.take(i as int).filter(keep),
        {
            proof {
                laws::filter_step(self@.tasks, keep, i as int);
            }
            assert(self@.tasks[i as int] == self.tasks@[i as int]@);
            if !text::same(self.tasks[i].uuid.as_str(), uuid) {
                let ghost before = result@;
                result.push(self.tasks[i].clone());
                assert(model::rows(result@) =~= model::rows(before).push(self@.tasks[i as int]));
            }
        }
        assert(self@.tasks.take(self@.tasks.len() as int) =~= self@.tasks);
        result
    }

    fn artifacts_without(&self, uuid: &str) -> (result: Vec<Artifact>)
        ensures
            model::rows(result@) == self@.without_task(uuid@).artifacts,
    {
        let mut result: Vec<Artifact> = Vec::new();
        let ghost keep = |artifact: ArtifactRow| artifact.task_uuid != uuid@;
        assert(self@.artifacts.take(0).filter(keep) =~= Seq::empty()) by {
            reveal(Seq::filter);
        }
        for i in 0..self.artifacts.len()
            invariant
                keep == (|artifact: ArtifactRow| artifact.task_uuid != uuid@),
                model::rows(result@) == self@.artifacts.take(i as int).filter(keep),
        {
            proof {
                laws::filter_step(self@.artifacts, keep, i as int);
            }
            assert(self@.artifacts[i as int] == self.artifacts@[i as int]@);
            if !text::same(self.artifacts[i].task_uuid.as_str(), uuid) {
                let ghost before = result@;
                result.push(self.artifacts[i].clone());
                assert(model::rows(result@) =~= model::rows(before).push(
                    self@.artifacts[i as int],
                ));
            }
        }
        assert(self@.artifacts.take(self@.artifacts.len() as int) =~= self@.artifacts);
        result
    }

    fn annotations_without(&self, uuid: &str) -> (result: Vec<Annotation>)
        ensures
            model::rows(result@) == self@.without_task(uuid@).annotations,
    {
        let mut result: Vec<Annotation> = Vec::new();
        let ghost state = self@;
        let ghost keep = |annotation: AnnotationRow|
            !state.owned_by(annotation.artifact_uuid, uuid@);
        assert(self@.annotations.take(0).filter(keep) =~= Seq::empty()) by {
            reveal(Seq::filter);
        }
        for i in 0..self.annotations.len()
            invariant
                state == self@,
                keep == (|annotation: AnnotationRow|
                    !state.owned_by(annotation.artifact_uuid, uuid@)),
                model::rows(result@) == self@.annotations.take(i as int).filter(keep),
        {
            proof {
                laws::filter_step(self@.annotations, keep, i as int);
            }
            assert(self@.annotations[i as int] == self.annotations@[i as int]@);
            if !self.owned_by(self.annotations[i].artifact_uuid.as_str(), uuid) {
                let ghost before = result@;
                result.push(self.annotations[i].clone());
                assert(model::rows(result@) =~= model::rows(before).push(
                    self@.annotations[i as int],
                ));
            }
        }
        assert(self@.annotations.take(self@.annotations.len() as int) =~= self@.annotations);
        result
    }

    fn admits(filter: TaskFilter, task: &Task) -> (answer: bool)
        ensures
            answer == state::admits(filter, task@),
    {
        match filter {
            TaskFilter::Active => task.archived_at.is_none() && task.completed_at.is_none(),
            TaskFilter::Completed => task.archived_at.is_none() && task.completed_at.is_some(),
            TaskFilter::Archived => task.archived_at.is_some(),
        }
    }

    /// The tasks of a list, by the time of their creation.
    fn tasks_listed(&self, filter: TaskFilter) -> (result: Vec<Task>)
        ensures
            self@.lists_tasks(filter, model::rows(result@)),
    {
        let mut source: Vec<Task> = Vec::new();
        let mut keys: Vec<Vec<String>> = Vec::new();
        let ghost keep = |task: TaskRow| state::admits(filter, task);
        let ghost key = |task: TaskRow| state::task_key(task);
        assert(self@.tasks.take(0).filter(keep) =~= Seq::empty()) by {
            reveal(Seq::filter);
        }
        for i in 0..self.tasks.len()
            invariant
                keep == (|task: TaskRow| state::admits(filter, task)),
                key == (|task: TaskRow| state::task_key(task)),
                model::rows(source@) == self@.tasks.take(i as int).filter(keep),
                order::key_views(keys@) == model::rows(source@).map_values(key),
        {
            proof {
                laws::filter_step(self@.tasks, keep, i as int);
            }
            assert(self@.tasks[i as int] == self.tasks@[i as int]@);
            let task = &self.tasks[i];
            if Self::admits(filter, task) {
                let ghost source_before = source@;
                let ghost keys_before = keys@;
                source.push(task.clone());
                let columns = vec![task.created_at.clone(), task.uuid.clone()];
                assert(text::texts(columns@) =~= state::task_key(task@));
                keys.push(columns);
                assert(model::rows(source@) =~= model::rows(source_before).push(task@));
                assert(order::key_views(keys@) =~= order::key_views(keys_before).push(
                    state::task_key(task@),
                ));
                assert(model::rows(source@).map_values(key) =~= model::rows(
                    source_before,
                ).map_values(key).push(state::task_key(task@)));
            }
        }
        assert(self@.tasks.take(self@.tasks.len() as int) =~= self@.tasks);
        assert(keys@.len() == order::key_views(keys@).len());
        assert(source@.len() == model::rows(source@).map_values(key).len());
        order::arranged(&source, &keys, false)
    }

    /// The active tasks.
    pub fn list_tasks(&self) -> (result: Vec<Task>)
        ensures
            self@.lists_tasks(TaskFilter::Active, model::rows(result@)),
    {
        self.tasks_listed(TaskFilter::Active)
    }

    /// The completed tasks that are not archived.
    pub fn list_completed_tasks(&self) -> (result: Vec<Task>)
        ensures
            self@.lists_tasks(TaskFilter::Completed, model::rows(result@)),
    {
        self.tasks_listed(TaskFilter::Completed)
    }

    /// The archived tasks.
    pub fn list_archived_tasks(&self) -> (result: Vec<Task>)
        ensures
            self@.lists_tasks(TaskFilter::Archived, model::rows(result@)),
    {
        self.tasks_listed(TaskFilter::Archived)
    }

    fn any_active(&self) -> (answer: bool)
        ensures
            answer == exists|i: int|
                0 <= i < self@.tasks.len() && (#[trigger] self@.tasks[i]).active(),
    {
        for i in 0..self.tasks.len()
            invariant
                forall|j: int| 0 <= j < i ==> !(#[trigger] self@.tasks[j]).active(),
        {
            assert(self@.tasks[i as int] == self.tasks@[i as int]@);
            if Self::admits(TaskFilter::Active, &self.tasks[i]) {
                return true;
            }
        }
        false
    }

    /// The active tasks whose id or body holds the query, last changed first. In
    /// the query, `%` stands for any run of characters and `_` for any one.
    pub fn search_tasks(&self, query: &str) -> (result: Result<Vec<Task>, Error>)
        ensures
            match (self@.searchable(query@), result) {
                (Ok(()), Ok(tasks)) => self@.finds_tasks(query@, model::rows(tasks@)),
                (Err(failure), Err(error)) => error@ == failure,
                _ => false,
            },
    {
        if let Err(error) = validate_non_empty("search query", query) {
            return Err(error);
        }
        let pattern = text::concat3("%", query, "%");
        if pattern.as_str().as_bytes().len() > state::PATTERN_LIMIT && self.any_active() {
            return Err(other("LIKE or GLOB pattern too complex".to_owned()));
        }
        let mut source: Vec<Task> = Vec::new();
        let mut keys: Vec<Vec<String>> = Vec::new();
        let ghost sought = pattern@;
        let ghost keep = |task: TaskRow|
            task.active() && (like::like(sought, task.id) || like::like(sought, task.body));
        let ghost key = |task: TaskRow| state::found_key(task);
        assert(self@.tasks.take(0).filter(keep) =~= Seq::empty()) by {
            reveal(Seq::filter);
        }
        for i in 0..self.tasks.len()
            invariant
                sought == pattern@,
                keep == (|task: TaskRow|
                    task.active() && (like::like(sought, task.id) || like::like(
                        sought,
                        task.body,
                    ))),
                key == (|task: TaskRow| state::found_key(task)),
                model::rows(source@) == self@.tasks.take(i as int).filter(keep),
                order::key_views(keys@) == model::rows(source@).map_values(key),
        {
            proof {
                laws::filter_step(self@.tasks, keep, i as int);
            }
            assert(self@.tasks[i as int] == self.tasks@[i as int]@);
            let task = &self.tasks[i];
            if Self::admits(TaskFilter::Active, task) && (like::is_like(
                pattern.as_str(),
                task.id.as_str(),
            ) || like::is_like(pattern.as_str(), task.body.as_str())) {
                let ghost source_before = source@;
                let ghost keys_before = keys@;
                source.push(task.clone());
                let columns = vec![task.updated_at.clone(), task.uuid.clone()];
                assert(text::texts(columns@) =~= state::found_key(task@));
                keys.push(columns);
                assert(model::rows(source@) =~= model::rows(source_before).push(task@));
                assert(order::key_views(keys@) =~= order::key_views(keys_before).push(
                    state::found_key(task@),
                ));
                assert(model::rows(source@).map_values(key) =~= model::rows(
                    source_before,
                ).map_values(key).push(state::found_key(task@)));
            }
        }
        assert(self@.tasks.take(self@.tasks.len() as int) =~= self@.tasks);
        assert(keys@.len() == order::key_views(keys@).len());
        assert(source@.len() == model::rows(source@).map_values(key).len());
        assert(self@.tasks_found(query@) == self@.tasks.filter(keep)) by {
            assert(sought == State::pattern(query@));
        }
        Ok(order::arranged(&source, &keys, true))
    }

    // ------------------------------------------------------------ artifacts

    /// Creates an artifact under the given UUID. Without a name it gets one made
    /// from its type and its UUID.
    pub fn create_artifact_with_name(
        &mut self,
        task_key: &str,
        artifact_type: &str,
        name: Option<&str>,
        body: &str,
        uuid: &str,
        timestamp: &str,
    ) -> (result: Result<Artifact, Error>)
        requires
            old(self)@.wf(),
            name is None ==> text::has_byte_prefix(uuid@, 8),
        ensures
            final(self)@.wf(),
            match (
                old(self)@.create_artifact(
                    task_key@,
                    artifact_type@,
                    text::optional_str(name),
                    body@,
                    uuid@,
                    timestamp@,
                ),
                result,
            ) {
                (Ok(state), Ok(artifact)) => final(self)@ == state && artifact@
                    == state.artifacts.last(),
                (Err(failure), Err(error)) => error@ == failure && final(self)@ == old(self)@,
                _ => false,
            },
    {
        if let Err(error) = validate_non_empty("artifact type", artifact_type) {
            return Err(error);
        }
        if let Some(name) = name {
            if let Err(error) = validate_non_empty("artifact name", name) {
                return Err(error);
            }
        }
        let i = match self.writable_task(task_key) {
            Err(error) => {
                return Err(error);
            },
            Ok(i) => i,
        };
        if self.artifact_with_uuid(uuid).is_some() {
            return Err(other("UNIQUE constraint failed: artifacts.uuid".to_owned()));
        }
        assert(self@.tasks[i as int] == self.tasks@[i as int]@);
        let name = match name {
            Some(name) => name.to_owned(),
            None => model::artifact_fallback_name(artifact_type, uuid),
        };
        let artifact = Artifact {
            uuid: uuid.to_owned(),
            task_uuid: self.tasks[i].uuid.clone(),
            artifact_type: artifact_type.to_owned(),
            name: Some(name),
            body: body.to_owned(),
            created_at: timestamp.to_owned(),
            updated_at: timestamp.to_owned(),
        };
        proof {
            state::indices(self@, i as int);
            laws::artifact_added(self@, artifact@);
        }
        self.artifacts.push(artifact.clone());
        assert(model::rows(self.artifacts@) =~= model::rows(old(self).artifacts@).push(artifact@));
        Ok(artifact)
    }

    /// The artifact that a UUID names.
    pub fn read_artifact(&self, uuid: &str) -> (result: Result<Artifact, Error>)
        requires
            self@.wf(),
        ensures
            error::viewed(result) == self@.read_artifact(uuid@),
    {
        match self.artifact_named(uuid) {
            Err(error) => Err(error),
            Ok(i) => {
                assert(self@.artifacts[i as int] == self.artifacts@[i as int]@);
                Ok(self.artifacts[i].clone())
            },
        }
    }

    fn replace_artifact(&mut self, i: usize, artifact: Artifact)
        requires
            i < old(self).artifacts@.len(),
            old(self)@.wf(),
            artifact@.uuid == old(self)@.artifacts[i as int].uuid,
            artifact@.task_uuid == old(self)@.artifacts[i as int].task_uuid,
        ensures
            final(self)@ == old(self)@.with_artifact(i as int, artifact@),
            final(self)@.wf(),
    {
        proof {
            laws::artifact_replaced(self@, i as int, artifact@);
        }
        let ghost row = artifact@;
        self.artifacts.set(i, artifact);
        assert(model::rows(self.artifacts@) =~= model::rows(old(self).artifacts@).update(
            i as int,
            row,
        ));
    }

    /// Gives an artifact another body.
    pub fn update_artifact(&mut self, uuid: &str, body: &str, timestamp: &str) -> (result: Result<
        (),
        Error,
    >)
        requires
            old(self)@.wf(),
        ensures
            final(self)@.wf(),
            took_place(
                result,
                old(self)@,
                final(self)@,
                old(self)@.update_artifact(uuid@, body@, timestamp@),
            ),
    {
        let i = match self.writable_artifact(uuid) {
            Err(error) => {
                return Err(error);
            },
            Ok(i) => i,
        };
        if !self.owner_active(i) {
            return Err(not_found(text::concat2("artifact not found: ", uuid)));
        }
        assert(self@.artifacts[i as int] == self.artifacts@[i as int]@);
        let mut artifact = self.artifacts[i].clone();
        artifact.body = body.to_owned();
        artifact.updated_at = timestamp.to_owned();
        self.replace_artifact(i, artifact);
        Ok(())
    }

    /// Gives an artifact another name.
    pub fn rename_artifact(&mut self, uuid: &str, name: &str, timestamp: &str) -> (result: Result<
        (),
        Error,
    >)
        requires
            old(self)@.wf(),
        ensures
            final(self)@.wf(),
            took_place(
                result,
                old(self)@,
                final(self)@,
                old(self)@.rename_artifact(uuid@, name@, timestamp@),
            ),
    {
        let i = match self.writable_artifact(uuid) {
            Err(error) => {
                return Err(error);
            },
            Ok(i) => i,
        };
        if let Err(error) = validate_non_empty("artifact name", name) {
            return Err(error);
        }
        if !self.owner_active(i) {
            return Err(not_found(text::concat2("artifact not found: ", uuid)));
        }
        assert(self@.artifacts[i as int] == self.artifacts@[i as int]@);
        let mut artifact = self.artifacts[i].clone();
        artifact.name = Some(name.to_owned());
        artifact.updated_at = timestamp.to_owned();
        self.replace_artifact(i, artifact);
        Ok(())
    }

    /// The artifacts of a task, of one type or of all, by the time of their
    /// creation.
    pub fn list_artifacts(&self, task_key: &str, artifact_type: Option<&str>) -> (result: Result<
        Vec<Artifact>,
        Error,
    >)
        requires
            self@.wf(),
        ensures
            match (
                self@.artifacts_task(task_key@, text::optional_str(artifact_type)),
                result,
            ) {
                (Ok(i), Ok(artifacts)) => self@.lists_artifacts(
                    self@.tasks[i].uuid,
                    text::optional_str(artifact_type),
                    model::rows(artifacts@),
                ),
                (Err(failure), Err(error)) => error@ == failure,
                _ => false,
            },
    {
        if let Some(wanted) = artifact_type {
            if let Err(error) = validate_non_empty("artifact type", wanted) {
                return Err(error);
            }
        }
        let task = match self.task_named(task_key) {
            Err(error) => {
                return Err(error);
            },
            Ok(i) => i,
        };
        assert(self@.tasks[task as int] == self.tasks@[task as int]@);
        let ghost owner = self@.tasks[task as int].uuid;
        let ghost sought = text::optional_str(artifact_type);
        let mut source: Vec<Artifact> = Vec::new();
        let mut keys: Vec<Vec<String>> = Vec::new();
        let ghost keep = |artifact: ArtifactRow|
            artifact.task_uuid == owner && (sought matches Some(wanted) ==> artifact.artifact_type
                == wanted);
        let ghost key = |artifact: ArtifactRow| state::artifact_key(artifact);
        assert(self@.artifacts.take(0).filter(keep) =~= Seq::empty()) by {
            reveal(Seq::filter);
        }
        for i in 0..self.artifacts.len()
            invariant
                task < self.tasks@.len(),
                owner == self.tasks@[task as int]@.uuid,
                sought == text::optional_str(artifact_type),
                keep == (|artifact: ArtifactRow|
                    artifact.task_uuid == owner && (sought matches Some(wanted)
                        ==> artifact.artifact_type == wanted)),
                key == (|artifact: ArtifactRow| state::artifact_key(artifact)),
                model::rows(source@) == self@.artifacts.take(i as int).filter(keep),
                order::key_views(keys@) == model::rows(source@).map_values(key),
        {
            proof {
                laws::filter_step(self@.artifacts, keep, i as int);
            }
            assert(self@.artifacts[i as int] == self.artifacts@[i as int]@);
            let artifact = &self.artifacts[i];
            let of_type = match artifact_type {
                Some(wanted) => text::same(artifact.artifact_type.as_str(), wanted),
                None => true,
            };
            if of_type && text::same(artifact.task_uuid.as_str(), self.tasks[task].uuid.as_str()) {
                let ghost source_before = source@;
                let ghost keys_before = keys@;
                source.push(artifact.clone());
                let columns = vec![artifact.created_at.clone(), artifact.uuid.clone()];
                assert(text::texts(columns@) =~= state::artifact_key(artifact@));
                keys.push(columns);
                assert(model::rows(source@) =~= model::rows(source_before).push(artifact@));
                assert(order::key_views(keys@) =~= order::key_views(keys_before).push(
                    state::artifact_key(artifact@),
                ));
                assert(model::rows(source@).map_values(key) =~= model::rows(
                    source_before,
                ).map_values(key).push(state::artifact_key(artifact@)));
            }
        }
        assert(self@.artifacts.take(self@.artifacts.len() as int) =~= self@.artifacts);
        assert(keys@.len() == order::key_views(keys@).len());
        assert(source@.len() == model::rows(source@).map_values(key).len());
        Ok(order::arranged(&source, &keys, false))
    }

    /// An artifact with the id of its task.
    pub fn artifact_info(&self, uuid: &str) -> (result: Result<ArtifactInfo, Error>)
        requires
            self@.wf(),
            self@.read_artifact(uuid@) matches Ok(artifact) ==> artifact.has_display_name(),
        ensures
            error::viewed(result) == self@.artifact_info(uuid@),
    {
        let artifact = match self.read_artifact(uuid) {
            Err(error) => {
                return Err(error);
            },
            Ok(artifact) => artifact,
        };
        let task = match self.read_task(artifact.task_uuid.as_str()) {
            Err(error) => {
                return Err(error);
            },
            Ok(task) => task,
        };
        let name = artifact.display_name();
        Ok(
            ArtifactInfo {
                uuid: artifact.uuid,
                task_uuid: artifact.task_uuid,
                task_id: task.id,
                artifact_type: artifact.artifact_type,
                name,
                created_at: artifact.created_at,
                updated_at: artifact.updated_at,
            },
        )
    }

    // ------------------------------------------------------------ annotations

    /// Creates an annotation under the given UUID.
    pub fn create_annotation(
        &mut self,
        artifact_uuid: &str,
        input: NewAnnotation,
        uuid: &str,
        timestamp: &str,
    ) -> (result: Result<Annotation, Error>)
        requires
            old(self)@.wf(),
        ensures
            final(self)@.wf(),
            match (
                old(self)@.create_annotation(artifact_uuid@, input@, uuid@, timestamp@),
                result,
            ) {
                (Ok(state), Ok(annotation)) => final(self)@ == state && annotation@
                    == state.annotations.last(),
                (Err(failure), Err(error)) => error@ == failure && final(self)@ == old(self)@,
                _ => false,
            },
    {
        let i = match self.writable_artifact(artifact_uuid) {
            Err(error) => {
                return Err(error);
            },
            Ok(i) => i,
        };
        if let Err(error) = validate_offsets(input.start_offset, input.end_offset) {
            return Err(error);
        }
        if !storable(input.start_offset) || !storable(input.end_offset) {
            return Err(other("out of range integral type conversion attempted".to_owned()));
        }
        if !self.owner_active(i) {
            return Err(invalid("task state changed while creating annotation".to_owned()));
        }
        if self.annotation_with_uuid(uuid).is_some() {
            return Err(other("UNIQUE constraint failed: annotations.uuid".to_owned()));
        }
        assert(self@.artifacts[i as int] == self.artifacts@[i as int]@);
        let annotation = Annotation {
            uuid: uuid.to_owned(),
            artifact_uuid: self.artifacts[i].uuid.clone(),
            kind: input.kind,
            start_offset: input.start_offset,
            end_offset: input.end_offset,
            selected_text: normalize_optional(input.selected_text),
            body: normalize_optional(input.body),
            created_at: timestamp.to_owned(),
            resolved_at: None,
        };
        proof {
            state::indices(self@, i as int);
            laws::annotation_added(self@, annotation@);
        }
        self.annotations.push(annotation.clone());
        assert(model::rows(self.annotations@) =~= model::rows(old(self).annotations@).push(
            annotation@,
        ));
        Ok(annotation)
    }

    /// The annotations of an artifact by the time of their creation: the
    /// unresolved ones, or all.
    pub fn list_annotations(&self, artifact_uuid: &str, include_resolved: bool) -> (result: Result<
        Vec<Annotation>,
        Error,
    >)
        requires
            self@.wf(),
        ensures
            match (self@.read_artifact(artifact_uuid@), result) {
                (Ok(artifact), Ok(annotations)) => self@.lists_annotations(
                    artifact.uuid,
                    include_resolved,
                    model::rows(annotations@),
                ),
                (Err(failure), Err(error)) => error@ == failure,
                _ => false,
            },
    {
        let artifact = match self.read_artifact(artifact_uuid) {
            Err(error) => {
                return Err(error);
            },
            Ok(artifact) => artifact,
        };
        let ghost target = artifact@.uuid;
        let mut source: Vec<Annotation> = Vec::new();
        let mut keys: Vec<Vec<String>> = Vec::new();
        let ghost keep = |annotation: AnnotationRow|
            annotation.artifact_uuid == target && (include_resolved || annotation.resolved_at
                is None);
        let ghost key = |annotation: AnnotationRow| state::annotation_key(annotation);
        assert(self@.annotations.take(0).filter(keep) =~= Seq::empty()) by {
            reveal(Seq::filter);
        }
        for i in 0..self.annotations.len()
            invariant
                target == artifact@.uuid,
                keep == (|annotation: AnnotationRow|
                    annotation.artifact_uuid == target && (include_resolved
                        || annotation.resolved_at is None)),
                key == (|annotation: AnnotationRow| state::annotation_key(annotation)),
                model::rows(source@) == self@.annotations.take(i as int).filter(keep),
                order::key_views(keys@) == model::rows(source@).map_values(key),
        {
            proof {
                laws::filter_step(self@.annotations, keep, i as int);
            }
            assert(self@.annotations[i as int] == self.annotations@[i as int]@);
            let annotation = &self.annotations[i];
            if (include_resolved || annotation.resolved_at.is_none()) && text::same(
                annotation.artifact_uuid.as_str(),
                artifact.uuid.as_str(),
            ) {
                let ghost source_before = source@;
                let ghost keys_before = keys@;
                source.push(annotation.clone());
                let columns = vec![annotation.created_at.clone(), annotation.uuid.clone()];
                assert(text::texts(columns@) =~= state::annotation_key(annotation@));
                keys.push(columns);
                assert(model::rows(source@) =~= model::rows(source_before).push(annotation@));
                assert(order::key_views(keys@) =~= order::key_views(keys_before).push(
                    state::annotation_key(annotation@),
                ));
                assert(model::rows(source@).map_values(key) =~= model::rows(
                    source_before,
                ).map_values(key).push(state::annotation_key(annotation@)));
            }
        }
        assert(self@.annotations.take(self@.annotations.len() as int) =~= self@.annotations);
        assert(keys@.len() == order::key_views(keys@).len());
        assert(source@.len() == model::rows(source@).map_values(key).len());
        Ok(order::arranged(&source, &keys, false))
    }

    /// Resolves an annotation.
    pub fn resolve_annotation(&mut self, uuid: &str, timestamp: &str) -> (result: Result<(), Error>)
        requires
            old(self)@.wf(),
        ensures
            final(self)@.wf(),
            took_place(
                result,
                old(self)@,
                final(self)@,
                old(self)@.resolve_annotation(uuid@, timestamp@),
            ),
    {
        let canonical = match ident::require_uuid(uuid) {
            Err(error) => {
                return Err(error);
            },
            Ok(canonical) => canonical,
        };
        let i = match self.annotation_with_uuid(canonical.as_str()) {
            None => {
                return Err(not_found(text::concat2("annotation not found: ", uuid)));
            },
            Some(i) => i,
        };
        let target = self.target_of(i);
        assert(self@.artifacts[target as int] == self.artifacts@[target as int]@);
        if let Err(error) = self.writable_task(self.artifacts[target].task_uuid.as_str()) {
            return Err(error);
        }
        if !self.owner_active(target) {
            return Err(not_found(text::concat2("annotation not found: ", uuid)));
        }
        assert(self@.annotations[i as int] == self.annotations@[i as int]@);
        let mut annotation = self.annotations[i].clone();
        if annotation.resolved_at.is_none() {
            annotation.resolved_at = Some(timestamp.to_owned());
        }
        let ghost row = annotation@;
        proof {
            laws::annotation_replaced(self@, i as int, annotation@);
        }
        self.annotations.set(i, annotation);
        assert(model::rows(self.annotations@) =~= model::rows(old(self).annotations@).update(
            i as int,
            row,
        ));
        Ok(())
    }

    // ------------------------------------------------------------ documents

    /// Whether every artifact has a name to show.
    pub fn all_named(&self) -> (answer: bool)
        ensures
            answer == self@.all_named(),
    {
        for i in 0..self.artifacts.len()
            invariant
                forall|j: int| 0 <= j < i ==> (#[trigger] self@.artifacts[j]).has_display_name(),
        {
            assert(self@.artifacts[i as int] == self.artifacts@[i as int]@);
            if !self.artifacts[i].can_be_shown() {
                return false;
            }
        }
        true
    }

    fn task_documents(&self) -> (result: Vec<SearchDocument>)
        ensures
            self@.lists_task_documents(model::rows(result@)),
    {
        let mut source: Vec<SearchDocument> = Vec::new();
        let mut keys: Vec<Vec<String>> = Vec::new();
        for i in 0..self.tasks.len()
            invariant
                source@.len() == i,
                keys@.len() == i,
                forall|j: int|
                    0 <= j < i ==> (#[trigger] source@[j])@ == State::task_document(
                        self@.tasks[j],
                    ),
                forall|j: int|
                    0 <= j < i ==> order::key_view(#[trigger] keys@[j]) == seq![
                        self@.tasks[j].id,
                    ],
        {
            assert(self@.tasks[i as int] == self.tasks@[i as int]@);
            let task = &self.tasks[i];
            source.push(
                SearchDocument {
                    path: text::concat2(task.id.as_str(), "/task.md"),
                    artifact_uuid: None,
                    body: task.body.clone(),
                },
            );
            let columns = vec![task.id.clone()];
            assert(text::texts(columns@) =~= seq![task@.id]);
            keys.push(columns);
        }
        assert(model::rows(source@) =~= self@.tasks.map_values(
            |task: TaskRow| State::task_document(task),
        ));
        assert(order::key_views(keys@) =~= self@.tasks.map_values(|task: TaskRow| seq![task.id]));
        order::arranged(&source, &keys, false)
    }

    /// The path of an artifact below its task.
    fn artifact_path(&self, artifact: usize) -> (path: String)
        requires
            self@.wf(),
            self@.all_named(),
            artifact < self.artifacts@.len(),
        ensures
            path@ == self@.artifact_path(self@.artifacts[artifact as int]),
    {
        let owner = self.owner_of(artifact);
        assert(self@.tasks[owner as int] == self.tasks@[owner as int]@);
        assert(self@.artifacts[artifact as int] == self.artifacts@[artifact as int]@);
        let name = self.artifacts[artifact].display_name();
        let folder = text::concat3(
            self.tasks[owner].id.as_str(),
            "/",
            self.artifacts[artifact].artifact_type.as_str(),
        );
        text::concat3(folder.as_str(), "/", name.as_str())
    }

    fn artifact_documents(&self) -> (result: Vec<SearchDocument>)
        requires
            self@.wf(),
            self@.all_named(),
        ensures
            self@.lists_artifact_documents(model::rows(result@)),
    {
        let mut source: Vec<SearchDocument> = Vec::new();
        let mut keys: Vec<Vec<String>> = Vec::new();
        let ghost state = self@;
        for i in 0..self.artifacts.len()
            invariant
                state == self@,
                self@.wf(),
                self@.all_named(),
                source@.len() == i,
                keys@.len() == i,
                forall|j: int|
                    0 <= j < i ==> (#[trigger] source@[j])@ == state.artifact_document(
                        state.artifacts[j],
                    ),
                forall|j: int|
                    0 <= j < i ==> order::key_view(#[trigger] keys@[j]) == seq![
                        state.owner(state.artifacts[j]).id,
                        state.artifacts[j].created_at,
                        state.artifacts[j].uuid,
                    ],
        {
            assert(self@.artifacts[i as int] == self.artifacts@[i as int]@);
            let owner = self.owner_of(i);
            assert(self@.tasks[owner as int] == self.tasks@[owner as int]@);
            let artifact = &self.artifacts[i];
            source.push(
                SearchDocument {
                    path: self.artifact_path(i),
                    artifact_uuid: Some(artifact.uuid.clone()),
                    body: artifact.body.clone(),
                },
            );
            let columns = vec![
                self.tasks[owner].id.clone(),
                artifact.created_at.clone(),
                artifact.uuid.clone(),
            ];
            assert(text::texts(columns@) =~= seq![
                state.owner(artifact@).id,
                artifact@.created_at,
                artifact@.uuid,
            ]);
            keys.push(columns);
        }
        assert(model::rows(source@) =~= state.artifacts.map_values(
            |artifact: ArtifactRow| state.artifact_document(artifact),
        ));
        assert(order::key_views(keys@) =~= state.artifacts.map_values(
            |artifact: ArtifactRow|
                seq![state.owner(artifact).id, artifact.created_at, artifact.uuid],
        ));
        order::arranged(&source, &keys, false)
    }

    fn annotation_documents(&self) -> (result: Vec<SearchDocument>)
        requires
            self@.wf(),
            self@.all_named(),
        ensures
            self@.lists_annotation_documents(model::rows(result@)),
    {
        let mut source: Vec<SearchDocument> = Vec::new();
        let mut keys: Vec<Vec<String>> = Vec::new();
        let ghost state = self@;
        let ghost keep = |annotation: AnnotationRow| annotation.body is Some;
        let ghost document = |annotation: AnnotationRow| state.annotation_document(annotation);
        let ghost key = |annotation: AnnotationRow|
            seq![
                state.owner(state.target(annotation)).id,
                state.target(annotation).created_at,
                annotation.created_at,
                annotation.uuid,
            ];
        assert(self@.annotations.take(0).filter(keep) =~= Seq::empty()) by {
            reveal(Seq::filter);
        }
        for i in 0..self.annotations.len()
            invariant
                state == self@,
                self@.wf(),
                self@.all_named(),
                keep == (|annotation: AnnotationRow| annotation.body is Some),
                document == (|annotation: AnnotationRow| state.annotation_document(annotation)),
                key == (|annotation: AnnotationRow|
                    seq![
                        state.owner(state.target(annotation)).id,
                        state.target(annotation).created_at,
                        annotation.created_at,
                        annotation.uuid,
                    ]),
                model::rows(source@) == state.annotations.take(i as int).filter(keep).map_values(
                    document,
                ),
                order::key_views(keys@) == state.annotations.take(i as int).filter(
                    keep,
                ).map_values(key),
        {
            proof {
                laws::filter_step(state.annotations, keep, i as int);
            }
            let ghost done = state.annotations.take(i as int).filter(keep);
            assert(self@.annotations[i as int] == self.annotations@[i as int]@);
            let annotation = &self.annotations[i];
            if let Some(body) = &annotation.body {
                let target = self.target_of(i);
                let owner = self.owner_of(target);
                assert(self@.artifacts[target as int] == self.artifacts@[target as int]@);
                assert(self@.tasks[owner as int] == self.tasks@[owner as int]@);
                let artifact_path = self.artifact_path(target);
                let folder = text::concat2(artifact_path.as_str(), "/annotations/");
                let ghost source_before = source@;
                let ghost keys_before = keys@;
                source.push(
                    SearchDocument {
                        path: text::concat3(folder.as_str(), annotation.uuid.as_str(), ".md"),
                        artifact_uuid: Some(self.artifacts[target].uuid.clone()),
                        body: body.clone(),
                    },
                );
                let columns = vec![
                    self.tasks[owner].id.clone(),
                    self.artifacts[target].created_at.clone(),
                    annotation.created_at.clone(),
                    annotation.uuid.clone(),
                ];
                assert(text::texts(columns@) =~= key(annotation@));
                keys.push(columns);
                assert(model::rows(source@) =~= model::rows(source_before).push(
                    document(annotation@),
                ));
                assert(order::key_views(keys@) =~= order::key_views(keys_before).push(
                    key(annotation@),
                ));
                assert(done.push(annotation@).map_values(document) =~= done.map_values(
                    document,
                ).push(document(annotation@)));
                assert(done.push(annotation@).map_values(key) =~= done.map_values(key).push(
                    key(annotation@),
                ));
            }
        }
        assert(state.annotations.take(state.annotations.len() as int) =~= state.annotations);
        assert(keys@.len() == order::key_views(keys@).len());
        assert(source@.len() == model::rows(source@).len());
        order::arranged(&source, &keys, false)
    }

    /// Every text that a search goes through: the tasks, then the artifacts, then
    /// the annotations.
    pub fn search_documents(&self) -> (result: Vec<SearchDocument>)
        requires
            self@.wf(),
            self@.all_named(),
        ensures
            self@.lists_documents(model::rows(result@)),
    {
        let mut tasks = self.task_documents();
        let mut artifacts = self.artifact_documents();
        let mut annotations = self.annotation_documents();
        let ghost parts = (tasks@, artifacts@, annotations@);
        tasks.append(&mut artifacts);
        tasks.append(&mut annotations);
        assert(model::rows(tasks@) =~= model::rows(parts.0) + model::rows(parts.1) + model::rows(
            parts.2,
        ));
        tasks
    }

    // ------------------------------------------------------------ records

    /// A store without records.
    pub fn new() -> (store: Self)
        ensures
            store@ == (State {
                tasks: Seq::empty(),
                artifacts: Seq::empty(),
                annotations: Seq::empty(),
            }),
            store@.regular(),
    {
        let store = Store { tasks: Vec::new(), artifacts: Vec::new(), annotations: Vec::new() };
        assert(store@.tasks =~= Seq::empty());
        assert(store@.artifacts =~= Seq::empty());
        assert(store@.annotations =~= Seq::empty());
        store
    }

    /// The store of the given records, if they make a valid one.
    pub fn from_records(
        tasks: Vec<Task>,
        artifacts: Vec<Artifact>,
        annotations: Vec<Annotation>,
    ) -> (result: Option<Self>)
        ensures
            ({
                let state = State {
                    tasks: model::rows(tasks@),
                    artifacts: model::rows(artifacts@),
                    annotations: model::rows(annotations@),
                };
                match result {
                    Some(store) => store@ == state && state.wf(),
                    None => !state.wf(),
                }
            }),
    {
        let store = Store { tasks, artifacts, annotations };
        if store.is_valid() {
            Some(store)
        } else {
            None
        }
    }

    fn is_valid(&self) -> (answer: bool)
        ensures
            answer == self@.wf(),
    {
        let mut uuids: Vec<&str> = Vec::new();
        let mut ids: Vec<&str> = Vec::new();
        for i in 0..self.tasks.len()
            invariant
                uuids@.len() == i,
                ids@.len() == i,
                forall|j: int|
                    0 <= j < i ==> (#[trigger] uuids@[j])@ == state::task_uuids(self@.tasks)[j],
                forall|j: int|
                    0 <= j < i ==> (#[trigger] ids@[j])@ == state::task_ids(self@.tasks)[j],
        {
            assert(self@.tasks[i as int] == self.tasks@[i as int]@);
            uuids.push(self.tasks[i].uuid.as_str());
            ids.push(self.tasks[i].id.as_str());
        }
        let mut artifacts: Vec<&str> = Vec::new();
        let mut owners: Vec<&str> = Vec::new();
        for i in 0..self.artifacts.len()
            invariant
                artifacts@.len() == i,
                owners@.len() == i,
                forall|j: int|
                    0 <= j < i ==> (#[trigger] artifacts@[j])@ == state::artifact_uuids(
                        self@.artifacts,
                    )[j],
                forall|j: int|
                    0 <= j < i ==> (#[trigger] owners@[j])@ == self@.artifacts[j].task_uuid,
        {
            assert(self@.artifacts[i as int] == self.artifacts@[i as int]@);
            artifacts.push(self.artifacts[i].uuid.as_str());
            owners.push(self.artifacts[i].task_uuid.as_str());
        }
        let mut annotations: Vec<&str> = Vec::new();
        let mut targets: Vec<&str> = Vec::new();
        for i in 0..self.annotations.len()
            invariant
                annotations@.len() == i,
                targets@.len() == i,
                forall|j: int|
                    0 <= j < i ==> (#[trigger] annotations@[j])@ == state::annotation_uuids(
                        self@.annotations,
                    )[j],
                forall|j: int|
                    0 <= j < i ==> (#[trigger] targets@[j])@ == self@.annotations[j].artifact_uuid,
        {
            assert(self@.annotations[i as int] == self.annotations@[i as int]@);
            annotations.push(self.annotations[i].uuid.as_str());
            targets.push(self.annotations[i].artifact_uuid.as_str());
        }
        proof {
            assert(str_views(uuids@) =~= state::task_uuids(self@.tasks));
            assert(str_views(ids@) =~= state::task_ids(self@.tasks));
            assert(str_views(artifacts@) =~= state::artifact_uuids(self@.artifacts));
            assert(str_views(annotations@) =~= state::annotation_uuids(self@.annotations));
            assert forall|uuid: Seq<char>| #[trigger]
                str_views(uuids@).contains(uuid) == self@.has_task(uuid) by {
                if self@.has_task(uuid) {
                    let k = self@.task_index(uuid);
                    assert(str_views(uuids@)[k] == uuid);
                }
                if str_views(uuids@).contains(uuid) {
                    let k = choose|k: int|
                        0 <= k < str_views(uuids@).len() && str_views(uuids@)[k] == uuid;
                    assert(self@.tasks[k].uuid == uuid);
                }
            }
            assert forall|uuid: Seq<char>| #[trigger]
                str_views(artifacts@).contains(uuid) == self@.has_artifact(uuid) by {
                if self@.has_artifact(uuid) {
                    let k = self@.artifact_index(uuid);
                    assert(str_views(artifacts@)[k] == uuid);
                }
                if str_views(artifacts@).contains(uuid) {
                    let k = choose|k: int|
                        0 <= k < str_views(artifacts@).len() && str_views(artifacts@)[k] == uuid;
                    assert(self@.artifacts[k].uuid == uuid);
                }
            }
        }
        if !(all_differ(&uuids) && all_differ(&ids) && all_differ(&artifacts) && all_differ(
            &annotations,
        )) {
            return false;
        }
        for i in 0..owners.len()
            invariant
                owners@.len() == self@.artifacts.len(),
                forall|uuid: Seq<char>| #[trigger]
                    str_views(uuids@).contains(uuid) == self@.has_task(uuid),
                forall|j: int|
                    0 <= j < owners@.len() ==> (#[trigger] owners@[j])@
                        == self@.artifacts[j].task_uuid,
                forall|j: int|
                    0 <= j < i ==> self@.has_task((#[trigger] self@.artifacts[j]).task_uuid),
        {
            if !is_among(owners[i], &uuids) {
                assert(!self@.has_task(self@.artifacts[i as int].task_uuid));
                return false;
            }
        }
        for i in 0..targets.len()
            invariant
                targets@.len() == self@.annotations.len(),
                forall|uuid: Seq<char>| #[trigger]
                    str_views(artifacts@).contains(uuid) == self@.has_artifact(uuid),
                forall|j: int|
                    0 <= j < targets@.len() ==> (#[trigger] targets@[j])@
                        == self@.annotations[j].artifact_uuid,
                forall|j: int|
                    0 <= j < i ==> self@.has_artifact(
                        (#[trigger] self@.annotations[j]).artifact_uuid,
                    ),
        {
            if !is_among(targets[i], &artifacts) {
                assert(!self@.has_artifact(self@.annotations[i as int].artifact_uuid));
                return false;
            }
        }
        true
    }

    /// The tasks.
    pub fn tasks(&self) -> (tasks: &Vec<Task>)
        ensures
            model::rows(tasks@) == self@.tasks,
    {
        &self.tasks
    }

    /// The artifacts.
    pub fn artifacts(&self) -> (artifacts: &Vec<Artifact>)
        ensures
            model::rows(artifacts@) == self@.artifacts,
    {
        &self.artifacts
    }

    /// The annotations.
    pub fn annotations(&self) -> (annotations: &Vec<Annotation>)
        ensures
            model::rows(annotations@) == self@.annotations,
    {
        &self.annotations
    }
}

/// The views of a list of borrowed texts.
spec fn str_views(list: Seq<&str>) -> Seq<Seq<char>> {
    list.map_values(|text: &str| text@)
}

fn is_among(value: &str, list: &Vec<&str>) -> (answer: bool)
    ensures
        answer == str_views(list@).contains(value@),
{
    for i in 0..list.len()
        invariant
            forall|j: int| 0 <= j < i ==> str_views(list@)[j] != value@,
    {
        if text::same(list[i], value) {
            assert(str_views(list@)[i as int] == value@);
            return true;
        }
    }
    false
}

fn all_differ(list: &Vec<&str>) -> (answer: bool)
    ensures
        answer == str_views(list@).no_duplicates(),
{
    let ghost views = str_views(list@);
    for i in 0..list.len()
        invariant
            views == str_views(list@),
            forall|a: int, b: int| 0 <= a < b < i ==> views[a] != views[b],
    {
        for j in 0..i
            invariant
                i < list@.len(),
                views == str_views(list@),
                forall|a: int, b: int| 0 <= a < b < i ==> views[a] != views[b],
                forall|a: int| 0 <= a < j ==> views[a] != views[i as int],
        {
            if text::same(list[j], list[i]) {
                assert(views[j as int] == views[i as int]);
                return false;
            }
        }
    }
    true
}

} // verus!
