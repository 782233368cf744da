//! The application: the store, with the clock and the source of UUIDs.

use vstd::prelude::*;

use crate::error;
use crate::error::{other, Error, Failure};
use crate::ident;
use crate::laws;
use crate::model;
use crate::model::{
    Annotation, Artifact, ArtifactInfo, ArtifactRow, NewAnnotation, SearchDocument, Task,
};
use crate::state;
use crate::state::{State, TaskFilter};
use crate::store;
use crate::store::Store;
use crate::text;

verus! {

/// The application.
pub struct App {
    auth_path: String,
    store: Store,
}

impl View for App {
    type V = State;

    closed spec fn view(&self) -> State {
        self.store@
    }
}

/// What creating a task comes to, for one of the UUIDs and times that could be
/// drawn. A UUID that no task can have is not used; that none was left is an
/// error.
pub open spec fn task_created(
    before: State,
    id: Seq<char>,
    body: Seq<char>,
    uuid: Seq<char>,
    timestamp: Seq<char>,
    result: Result<Task, Error>,
    after: State,
) -> bool {
    &&& ident::is_canonical(uuid)
    &&& ident::is_time(timestamp)
    &&& match (before.create_task(id, body, uuid, timestamp), result) {
        (Ok(Some(state)), Ok(task)) => after == state && task@ == State::new_task(
            id,
            body,
            uuid,
            timestamp,
        ),
        (Ok(None), Err(error)) => error@ == Failure::Other("failed to create task "@ + id) && after
            == before,
        (Err(failure), Err(error)) => error@ == failure && after == before,
        _ => false,
    }
}

/// What creating an artifact comes to, for one of the UUIDs and times that could
/// be drawn.
pub open spec fn artifact_created(
    before: State,
    task_key: Seq<char>,
    artifact_type: Seq<char>,
    name: Option<Seq<char>>,
    body: Seq<char>,
    uuid: Seq<char>,
    timestamp: Seq<char>,
    result: Result<Artifact, Error>,
    after: State,
) -> bool {
    &&& ident::is_canonical(uuid)
    &&& ident::is_time(timestamp)
    &&& match (
        before.create_artifact(task_key, artifact_type, name, body, uuid, timestamp),
        result,
    ) {
        (Ok(state), Ok(artifact)) => after == state && artifact@ == state.artifacts.last(),
        (Err(failure), Err(error)) => error@ == failure && after == before,
        _ => false,
    }
}

/// What creating an annotation comes to, for one of the UUIDs and times that
/// could be drawn.
pub open spec fn annotation_created(
    before: State,
    artifact_uuid: Seq<char>,
    input: model::NewAnnotationRow,
    uuid: Seq<char>,
    timestamp: Seq<char>,
    result: Result<Annotation, Error>,
    after: State,
) -> bool {
    &&& ident::is_canonical(uuid)
    &&& ident::is_time(timestamp)
    &&& match (before.create_annotation(artifact_uuid, input, uuid, timestamp), result) {
        (Ok(state), Ok(annotation)) => after == state && annotation@ == state.annotations.last(),
        (Err(failure), Err(error)) => error@ == failure && after == before,
        _ => false,
    }
}

/// An artifact that can be changed, with an error that is not about the request
/// where its task is read-only.
pub open spec fn reviewable(state: State, artifact_uuid: Seq<char>) -> Result<
    ArtifactRow,
    Failure,
> {
    match state.read_artifact(artifact_uuid) {
        Err(failure) => Err(failure),
        Ok(artifact) => match state.read_task(artifact.task_uuid) {
            Err(failure) => Err(failure),
            Ok(task) => match state::writable(task) {
                Err(failure) => Err(Failure::Other(failure.message())),
                Ok(()) => Ok(artifact),
            },
        },
    }
}

impl App {
    /// The application on a store, with the path of the file that holds the
    /// password hash.
    pub fn new(auth_path: String, store: Store) -> (app: Self)
        ensures
            app@ == store@,
            app.auth_path() == auth_path@,
    {
        App { auth_path, store }
    }

    /// The path of the file that holds the password hash.
    pub closed spec fn auth_path(self) -> Seq<char> {
        self.auth_path@
    }

    /// The path of the file that holds the password hash, which is kept apart from
    /// the records.
    pub fn password_path(&self) -> (path: String)
        ensures
            path@ == self.auth_path(),
    {
        self.auth_path.clone()
    }

    /// The records.
    pub fn store(&self) -> (store: &Store)
        ensures
            store@ == self@,
    {
        &self.store
    }

    // ------------------------------------------------------------ tasks

    /// Creates a task.
    pub fn create_task(&mut self, id: &str, body: &str) -> (result: Result<Task, Error>)
        requires
            old(self)@.wf(),
        ensures
            final(self)@.wf(),
            state::order_kept(old(self)@, final(self)@),
            final(self).auth_path() == old(self).auth_path(),
            exists|uuid: Seq<char>, timestamp: Seq<char>| #[trigger]
                task_created(old(self)@, id@, body@, uuid, timestamp, result, final(self)@),
    {
        let timestamp = ident::now();
        let mut left: u64 = u64::MAX;
        loop
            invariant
                self@ == old(self)@,
                self.auth_path() == old(self).auth_path(),
                old(self)@.wf(),
                ident::is_time(timestamp@),
            decreases left,
        {
            let uuid = ident::new_uuid();
            proof {
                if self@.orderly() {
                    laws::create_task_keeps_order(self@, id@, body@, uuid@, timestamp@);
                }
            }
            match self.store.create_task(id, body, uuid.as_str(), timestamp.as_str()) {
                Err(error) => {
                    let result = Err(error);
                    assert(task_created(
                        old(self)@,
                        id@,
                        body@,
                        uuid@,
                        timestamp@,
                        result,
                        self@,
                    ));
                    return result;
                },
                Ok(Some(task)) => {
                    let result = Ok(task);
                    assert(task_created(
                        old(self)@,
                        id@,
                        body@,
                        uuid@,
                        timestamp@,
                        result,
                        self@,
                    ));
                    return result;
                },
                Ok(None) => {
                    if left == 0 {
                        let result = Err(other(text::concat2("failed to create task ", id)));
                        assert(task_created(
                            old(self)@,
                            id@,
                            body@,
                            uuid@,
                            timestamp@,
                            result,
                            self@,
                        ));
                        return result;
                    }
                },
            }
            left = left - 1;
        }
    }

    /// The task that an id or a UUID names.
    pub fn read_task(&self, key: &str) -> (result: Result<Task, Error>)
        requires
            self@.wf(),
        ensures
            error::viewed(result) == self@.read_task(key@),
    {
        self.store.read_task(key)
    }

    /// The active tasks.
    pub fn list_tasks(&self) -> (result: Vec<Task>)
        ensures
            self@.lists_tasks(TaskFilter::Active, model::rows(result@)),
    {
        self.store.list_tasks()
    }

    /// The completed tasks that are not archived.
    pub fn list_completed_tasks(&self) -> (result: Vec<Task>)
        ensures
            self@.lists_tasks(TaskFilter::Completed, model::rows(result@)),
    {
        self.store.list_completed_tasks()
    }

    /// The archived tasks.
    pub fn list_archived_tasks(&self) -> (result: Vec<Task>)
        ensures
            self@.lists_tasks(TaskFilter::Archived, model::rows(result@)),
    {
        self.store.list_archived_tasks()
    }

    /// The active tasks whose id or body holds the query.
    pub fn search_tasks(&self, query: &str) -> (result: Result<Vec<Task>, Error>)
        ensures
            match (self@.searchable(query@), result) {
                (Ok(()), Ok(tasks)) => self@.finds_tasks(query@, model::rows(tasks@)),
                (Err(failure), Err(error)) => error@ == failure,
                _ => false,
            },
    {
        self.store.search_tasks(query)
    }

    /// Gives a task another id, another body, or both.
    pub fn edit_task(&mut self, key: &str, id: Option<&str>, body: Option<&str>) -> (result: Result<
        (),
        Error,
    >)
        requires
            old(self)@.wf(),
        ensures
            final(self)@.wf(),
            state::order_kept(old(self)@, final(self)@),
            final(self).auth_path() == old(self).auth_path(),
            exists|timestamp: Seq<char>|
                ident::is_time(timestamp) && store::took_place(
                    result,
                    old(self)@,
                    final(self)@,
                    #[trigger] old(self)@.edit_task(
                        key@,
                        text::optional_str(id),
                        text::optional_str(body),
                        timestamp,
                    ),
                ),
    {
        let timestamp = ident::now();
        proof {
            if self@.orderly() {
                laws::edit_task_keeps_order(
                    self@,
                    key@,
                    text::optional_str(id),
                    text::optional_str(body),
                    timestamp@,
                );
            }
        }
        self.store.edit_task(key, id, body, timestamp.as_str())
    }

    /// Gives a task another body.
    pub fn update_task(&mut self, key: &str, body: &str) -> (result: Result<(), Error>)
        requires
            old(self)@.wf(),
        ensures
            final(self)@.wf(),
            state::order_kept(old(self)@, final(self)@),
            final(self).auth_path() == old(self).auth_path(),
            exists|timestamp: Seq<char>|
                ident::is_time(timestamp) && store::took_place(
                    result,
                    old(self)@,
                    final(self)@,
                    #[trigger] old(self)@.edit_task(key@, None, Some(body@), timestamp),
                ),
    {
        self.edit_task(key, None, Some(body))
    }

    /// Gives a task another id.
    pub fn rename_task(&mut self, key: &str, id: &str) -> (result: Result<(), Error>)
        requires
            old(self)@.wf(),
        ensures
            final(self)@.wf(),
            state::order_kept(old(self)@, final(self)@),
            final(self).auth_path() == old(self).auth_path(),
            exists|timestamp: Seq<char>|
                ident::is_time(timestamp) && store::took_place(
                    result,
                    old(self)@,
                    final(self)@,
                    #[trigger] old(self)@.edit_task(key@, Some(id@), None, timestamp),
                ),
    {
        self.edit_task(key, Some(id), None)
    }

    /// Completes a task.
    pub fn complete_task(&mut self, key: &str) -> (result: Result<(), Error>)
        requires
            old(self)@.wf(),
        ensures
            final(self)@.wf(),
            state::order_kept(old(self)@, final(self)@),
            final(self).auth_path() == old(self).auth_path(),
            exists|timestamp: Seq<char>|
                ident::is_time(timestamp) && store::took_place(
                    result,
                    old(self)@,
                    final(self)@,
                    #[trigger] old(self)@.complete_task(key@, timestamp),
                ),
    {
        let timestamp = ident::now();
        proof {
            if self@.orderly() {
                laws::marking_keeps_order(self@, key@, timestamp@);
            }
        }
        self.store.complete_task(key, timestamp.as_str())
    }

    /// Reopens a completed task.
    pub fn reopen_task(&mut self, key: &str) -> (result: Result<(), Error>)
        requires
            old(self)@.wf(),
        ensures
            final(self)@.wf(),
            state::order_kept(old(self)@, final(self)@),
            final(self).auth_path() == old(self).auth_path(),
            exists|timestamp: Seq<char>|
                ident::is_time(timestamp) && store::took_place(
                    result,
                    old(self)@,
                    final(self)@,
                    #[trigger] old(self)@.reopen_task(key@, timestamp),
                ),
    {
        let timestamp = ident::now();
        proof {
            if self@.orderly() {
                laws::marking_keeps_order(self@, key@, timestamp@);
            }
        }
        self.store.reopen_task(key, timestamp.as_str())
    }

    /// Archives a task.
    pub fn archive_task(&mut self, key: &str) -> (result: Result<(), Error>)
        requires
            old(self)@.wf(),
        ensures
            final(self)@.wf(),
            state::order_kept(old(self)@, final(self)@),
            final(self).auth_path() == old(self).auth_path(),
            exists|timestamp: Seq<char>|
                ident::is_time(timestamp) && store::took_place(
                    result,
                    old(self)@,
                    final(self)@,
                    #[trigger] old(self)@.archive_task(key@, timestamp),
                ),
    {
        let timestamp = ident::now();
        proof {
            if self@.orderly() {
                laws::marking_keeps_order(self@, key@, timestamp@);
            }
        }
        self.store.archive_task(key, timestamp.as_str())
    }

    /// Deletes a task, its artifacts and their annotations.
    pub fn delete_task(&mut self, key: &str) -> (result: Result<(), Error>)
        requires
            old(self)@.wf(),
        ensures
            final(self)@.wf(),
            state::order_kept(old(self)@, final(self)@),
            final(self).auth_path() == old(self).auth_path(),
            store::took_place(result, old(self)@, final(self)@, old(self)@.delete_task(key@)),
    {
        proof {
            if self@.orderly() {
                laws::delete_task_keeps_order(self@, key@);
            }
        }
        self.store.delete_task(key)
    }

    // ------------------------------------------------------------ artifacts

    /// Creates an artifact that gets its name from its type and its UUID.
    pub fn create_artifact(&mut self, task_key: &str, artifact_type: &str, body: &str) -> (result:
        Result<Artifact, Error>)
        requires
            old(self)@.wf(),
        ensures
            final(self)@.wf(),
            state::order_kept(old(self)@, final(self)@),
            final(self).auth_path() == old(self).auth_path(),
            exists|uuid: Seq<char>, timestamp: Seq<char>| #[trigger]
                artifact_created(
                    old(self)@,
                    task_key@,
                    artifact_type@,
                    None,
                    body@,
                    uuid,
                    timestamp,
                    result,
                    final(self)@,
                ),
    {
        self.create_artifact_with_name(task_key, artifact_type, None, body)
    }

    /// Creates an artifact, with a name or without.
    pub fn create_artifact_with_name(
        &mut self,
        task_key: &str,
        artifact_type: &str,
        name: Option<&str>,
        body: &str,
    ) -> (result: Result<Artifact, Error>)
        requires
            old(self)@.wf(),
        ensures
            final(self)@.wf(),
            state::order_kept(old(self)@, final(self)@),
            final(self).auth_path() == old(self).auth_path(),
            exists|uuid: Seq<char>, timestamp: Seq<char>| #[trigger]
                artifact_created(
                    old(self)@,
                    task_key@,
                    artifact_type@,
                    text::optional_str(name),
                    body@,
                    uuid,
                    timestamp,
                    result,
                    final(self)@,
                ),
    {
        let timestamp = ident::now();
        let uuid = ident::new_uuid();
        proof {
            ident::canonical_has_prefix(uuid@);
            if self@.orderly() {
                laws::create_artifact_keeps_order(
                    self@,
                    task_key@,
                    artifact_type@,
                    text::optional_str(name),
                    body@,
                    uuid@,
                    timestamp@,
                );
            }
        }
        let result = self.store.create_artifact_with_name(
            task_key,
            artifact_type,
            name,
            body,
            uuid.as_str(),
            timestamp.as_str(),
        );
        assert(artifact_created(
            old(self)@,
            task_key@,
            artifact_type@,
            text::optional_str(name),
            body@,
            uuid@,
            timestamp@,
            result,
            self@,
        ));
        result
    }

    /// The artifact that a UUID names.
    pub fn read_artifact(&self, uuid: &str) -> (result: Result<Artifact, Error>)
        requires
            self@.wf(),
        ensures
            error::viewed(result) == self@.read_artifact(uuid@),
    {
        self.store.read_artifact(uuid)
    }

    /// Gives an artifact another body.
    pub fn update_artifact(&mut self, uuid: &str, body: &str) -> (result: Result<(), Error>)
        requires
            old(self)@.wf(),
        ensures
            final(self)@.wf(),
            state::order_kept(old(self)@, final(self)@),
            final(self).auth_path() == old(self).auth_path(),
            exists|timestamp: Seq<char>|
                ident::is_time(timestamp) && store::took_place(
                    result,
                    old(self)@,
                    final(self)@,
                    #[trigger] old(self)@.update_artifact(uuid@, body@, timestamp),
                ),
    {
        let timestamp = ident::now();
        proof {
            if self@.orderly() {
                laws::changing_artifact_keeps_order(self@, uuid@, body@, timestamp@);
            }
        }
        self.store.update_artifact(uuid, body, timestamp.as_str())
    }

    /// Gives an artifact another name.
    pub fn rename_artifact(&mut self, uuid: &str, name: &str) -> (result: Result<(), Error>)
        requires
            old(self)@.wf(),
        ensures
            final(self)@.wf(),
            state::order_kept(old(self)@, final(self)@),
            final(self).auth_path() == old(self).auth_path(),
            exists|timestamp: Seq<char>|
                ident::is_time(timestamp) && store::took_place(
                    result,
                    old(self)@,
                    final(self)@,
                    #[trigger] old(self)@.rename_artifact(uuid@, name@, timestamp),
                ),
    {
        let timestamp = ident::now();
        proof {
            if self@.orderly() {
                laws::changing_artifact_keeps_order(self@, uuid@, name@, timestamp@);
            }
        }
        self.store.rename_artifact(uuid, name, timestamp.as_str())
    }

    /// The artifacts of a task, of one type or of all.
    pub fn list_artifacts(&self, task_key: &str, artifact_type: Option<&str>) -> (result: Result<
        Vec<Artifact>,
        Error,
    >)
        requires
            self@.wf(),
        ensures
            match (
                self@.artifacts_task(task_key@, text::optional_str(artifact_type)),
                result,
            ) {
                (Ok(i), Ok(artifacts)) => self@.lists_artifacts(
                    self@.tasks[i].uuid,
                    text::optional_str(artifact_type),
                    model::rows(artifacts@),
                ),
                (Err(failure), Err(error)) => error@ == failure,
                _ => false,
            },
    {
        self.store.list_artifacts(task_key, artifact_type)
    }

    /// An artifact with the id of its task.
    pub fn artifact_info(&self, uuid: &str) -> (result: Result<ArtifactInfo, Error>)
        requires
            self@.wf(),
            self@.read_artifact(uuid@) matches Ok(artifact) ==> artifact.has_display_name(),
        ensures
            error::viewed(result) == self@.artifact_info(uuid@),
    {
        self.store.artifact_info(uuid)
    }

    /// An artifact that can be changed. That its task is read-only is reported as an
    /// error that is not about the request.
    pub fn ensure_artifact_writable(&self, artifact_uuid: &str) -> (result: Result<Artifact, Error>)
        requires
            self@.wf(),
        ensures
            error::viewed(result) == reviewable(self@, artifact_uuid@),
    {
        let artifact = match self.read_artifact(artifact_uuid) {
            Err(error) => {
                return Err(error);
            },
            Ok(artifact) => artifact,
        };
        let task = match self.read_task(artifact.task_uuid.as_str()) {
            Err(error) => {
                return Err(error);
            },
            Ok(task) => task,
        };
        match store::ensure_task_writable(&task) {
            Err(error) => Err(other(error.message())),
            Ok(()) => Ok(artifact),
        }
    }

    // ------------------------------------------------------------ annotations

    /// Creates an annotation.
    pub fn create_annotation(&mut self, artifact_uuid: &str, input: NewAnnotation) -> (result:
        Result<Annotation, Error>)
        requires
            old(self)@.wf(),
        ensures
            final(self)@.wf(),
            state::order_kept(old(self)@, final(self)@),
            final(self).auth_path() == old(self).auth_path(),
            exists|uuid: Seq<char>, timestamp: Seq<char>| #[trigger]
                annotation_created(
                    old(self)@,
                    artifact_uuid@,
                    input@,
                    uuid,
                    timestamp,
                    result,
                    final(self)@,
                ),
    {
        let uuid = ident::new_uuid();
        let timestamp = ident::now();
        proof {
            if self@.orderly() {
                laws::create_annotation_keeps_order(
                    self@,
                    artifact_uuid@,
                    input@,
                    uuid@,
                    timestamp@,
                );
            }
        }
        let ghost row = input@;
        let result = self.store.create_annotation(
            artifact_uuid,
            input,
            uuid.as_str(),
            timestamp.as_str(),
        );
        assert(annotation_created(
            old(self)@,
            artifact_uuid@,
            row,
            uuid@,
            timestamp@,
            result,
            self@,
        ));
        result
    }

    /// The annotations of an artifact: the unresolved ones, or all.
    pub fn list_annotations(&self, artifact_uuid: &str, include_resolved: bool) -> (result: Result<
        Vec<Annotation>,
        Error,
    >)
        requires
            self@.wf(),
        ensures
            match (self@.read_artifact(artifact_uuid@), result) {
                (Ok(artifact), Ok(annotations)) => self@.lists_annotations(
                    artifact.uuid,
                    include_resolved,
                    model::rows(annotations@),
                ),
                (Err(failure), Err(error)) => error@ == failure,
                _ => false,
            },
    {
        self.store.list_annotations(artifact_uuid, include_resolved)
    }

    /// Resolves an annotation.
    pub fn resolve_annotation(&mut self, uuid: &str) -> (result: Result<(), Error>)
        requires
            old(self)@.wf(),
        ensures
            final(self)@.wf(),
            state::order_kept(old(self)@, final(self)@),
            final(self).auth_path() == old(self).auth_path(),
            exists|timestamp: Seq<char>|
                ident::is_time(timestamp) && store::took_place(
                    result,
                    old(self)@,
                    final(self)@,
                    #[trigger] old(self)@.resolve_annotation(uuid@, timestamp),
                ),
    {
        let timestamp = ident::now();
        proof {
            if self@.orderly() {
                laws::resolve_annotation_keeps_order(self@, uuid@, timestamp@);
            }
        }
        self.store.resolve_annotation(uuid, timestamp.as_str())
    }

    /// Every text that a search goes through.
    pub fn search_documents(&self) -> (result: Vec<SearchDocument>)
        requires
            self@.wf(),
            self@.all_named(),
        ensures
            self@.lists_documents(model::rows(result@)),
    {
        self.store.search_documents()
    }
}

} // verus!
