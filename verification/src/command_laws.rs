//! What the commands do to the records and print, said of the records alone.

use vstd::prelude::*;

use crate::behaviour;
use crate::bind::Target;
use crate::cli;
use crate::cli::{
    AnnotationCommand, ArtifactCommand, Output, Printed, ServeAction, ServeCommand, TaskCommand,
};
use crate::error::{Error, Failure};
use crate::ident;
use crate::markdown;
use crate::model::{AnnotationRow, ArtifactRow, NewAnnotationRow, TaskRow};
use crate::record_laws;
use crate::record_laws::{is_empty, names_task, one_artifact_changed, one_changed};
use crate::state::{State, TaskFilter};
use crate::text;

verus! {

/// A command printed nothing.
pub open spec fn is_silent(result: Result<Output, Error>) -> bool {
    result matches Ok(output) && output@ == Printed::Nothing
}

/// A command printed a text.
pub open spec fn printed(result: Result<Output, Error>, value: Seq<char>) -> bool {
    result matches Ok(output) && output@ == Printed::Text(value)
}

/// A command was refused, with the reason, and changed nothing.
pub open spec fn is_refused(
    result: Result<Output, Error>,
    before: State,
    after: State,
    failure: Failure,
) -> bool {
    after == before && (result matches Err(error) && error@ == failure)
}

proof fn task_is_found(state: State, i: int, key: Seq<char>)
    requires
        state.orderly(),
        0 <= i < state.tasks.len(),
        names_task(key, state.tasks[i]),
    ensures
        state.read_task(key) == Ok::<TaskRow, Failure>(state.tasks[i]),
{
    behaviour::found_by_id_and_uuid(state, i, key);
}

// ---------------------------------------------------------------- tasks

/// Creating a task prints its UUID alone, and adds the task with the input as its
/// body.
pub proof fn create_command_is(
    id: String,
    input: Seq<char>,
    before: State,
    after: State,
    result: Result<Output, Error>,
)
    requires
        cli::task_command(TaskCommand::Create { id }, input, before, after, result),
    ensures
        match result {
            Ok(output) => {
                &&& after.tasks.len() == before.tasks.len() + 1
                &&& after.tasks.drop_last() == before.tasks
                &&& after.artifacts == before.artifacts
                &&& after.annotations == before.annotations
                &&& after.tasks.last().id == id@
                &&& after.tasks.last().body == input
                &&& ident::is_canonical(after.tasks.last().uuid)
                &&& ident::is_time(after.tasks.last().created_at)
                &&& after.tasks.last().updated_at == after.tasks.last().created_at
                &&& after.tasks.last().archived_at is None
                &&& after.tasks.last().completed_at is None
                &&& output@ == Printed::Text(after.tasks.last().uuid + seq!['\n'])
            },
            Err(_) => after == before,
        },
        is_empty(id@) ==> is_refused(
            result,
            before,
            after,
            Failure::Invalid("task id must not be empty"@),
        ),
        !is_empty(id@) && (exists|i: int|
            0 <= i < before.tasks.len() && (#[trigger] before.tasks[i]).id == id@) ==> is_refused(
            result,
            before,
            after,
            Failure::Invalid("task id already exists: "@ + id@),
        ),
{
    reveal_strlit("\n");
    assert("\n"@ =~= seq!['\n']);
    let (uuid, timestamp) = choose|uuid: Seq<char>, timestamp: Seq<char>| #[trigger]
        cli::task_creation_prints(before, id@, input, uuid, timestamp, result, after);
    if result is Ok {
        assert(after.tasks.drop_last() =~= before.tasks);
    }
    record_laws::refused_task_is(before, id@, input, uuid, timestamp, 0);
    if !is_empty(id@) && (exists|i: int|
        0 <= i < before.tasks.len() && (#[trigger] before.tasks[i]).id == id@) {
        let i = choose|i: int|
            0 <= i < before.tasks.len() && (#[trigger] before.tasks[i]).id == id@;
        record_laws::refused_task_is(before, id@, input, uuid, timestamp, i);
    }
}

/// Reading a task prints its body as it is, and changes nothing.
pub proof fn read_command_is(
    key: String,
    input: Seq<char>,
    before: State,
    after: State,
    result: Result<Output, Error>,
    i: int,
)
    requires
        before.orderly(),
        0 <= i < before.tasks.len(),
        names_task(key@, before.tasks[i]),
        cli::task_command(TaskCommand::Read { id_or_uuid: key }, input, before, after, result),
    ensures
        after == before,
        printed(result, before.tasks[i].body),
{
    task_is_found(before, i, key@);
}

/// Updating a task gives it the input as its body, and prints nothing.
pub proof fn update_command_is(
    key: String,
    input: Seq<char>,
    before: State,
    after: State,
    result: Result<Output, Error>,
    i: int,
)
    requires
        before.orderly(),
        0 <= i < before.tasks.len(),
        names_task(key@, before.tasks[i]),
        before.tasks[i].archived_at is None,
        before.tasks[i].completed_at is None,
        cli::task_command(TaskCommand::Update { id_or_uuid: key }, input, before, after, result),
    ensures
        is_silent(result),
        after.tasks.len() == before.tasks.len(),
        forall|j: int|
            0 <= j < before.tasks.len() && j != i ==> after.tasks[j] == before.tasks[j],
        after.tasks[i].body == input,
        after.tasks[i].id == before.tasks[i].id,
        after.tasks[i].uuid == before.tasks[i].uuid,
        after.artifacts == before.artifacts,
        after.annotations == before.annotations,
{
    let timestamp = choose|timestamp: Seq<char>|
        ident::is_time(timestamp) && cli::silent(
            #[trigger] before.edit_task(key@, None, Some(input), timestamp),
            before,
            after,
            result,
        );
    record_laws::edited_task_is(before, i, key@, None, Some(input), timestamp);
}

/// Renaming a task gives it the id, and prints nothing.
pub proof fn rename_command_is(
    key: String,
    id: String,
    input: Seq<char>,
    before: State,
    after: State,
    result: Result<Output, Error>,
    i: int,
)
    requires
        before.orderly(),
        0 <= i < before.tasks.len(),
        names_task(key@, before.tasks[i]),
        before.tasks[i].archived_at is None,
        before.tasks[i].completed_at is None,
        !is_empty(id@),
        id@ == before.tasks[i].id || forall|j: int|
            0 <= j < before.tasks.len() ==> !names_task(id@, #[trigger] before.tasks[j]),
        cli::task_command(
            TaskCommand::Rename { id_or_uuid: key, id },
            input,
            before,
            after,
            result,
        ),
    ensures
        is_silent(result),
        after.tasks.len() == before.tasks.len(),
        forall|j: int|
            0 <= j < before.tasks.len() && j != i ==> after.tasks[j] == before.tasks[j],
        after.tasks[i].id == id@,
        after.tasks[i].body == before.tasks[i].body,
        after.tasks[i].uuid == before.tasks[i].uuid,
        after.artifacts == before.artifacts,
        after.annotations == before.annotations,
{
    let timestamp = choose|timestamp: Seq<char>|
        ident::is_time(timestamp) && cli::silent(
            #[trigger] before.edit_task(key@, Some(id@), None, timestamp),
            before,
            after,
            result,
        );
    record_laws::edited_task_is(before, i, key@, Some(id@), None, timestamp);
}

/// Completing an active task marks it as completed, reopening a completed one takes
/// the mark away, and archiving marks it as archived; each prints nothing.
pub proof fn marking_commands_are(
    key: String,
    input: Seq<char>,
    before: State,
    after: State,
    result: Result<Output, Error>,
    i: int,
)
    requires
        before.orderly(),
        0 <= i < before.tasks.len(),
        names_task(key@, before.tasks[i]),
        before.tasks[i].archived_at is None,
    ensures
        cli::task_command(
            TaskCommand::Complete { id_or_uuid: key },
            input,
            before,
            after,
            result,
        ) ==> is_silent(result) && (if before.tasks[i].completed_at is Some {
            after == before
        } else {
            one_changed(before, after, i) && after.tasks[i].completed_at is Some
                && after.tasks[i].archived_at is None
        }),
        cli::task_command(TaskCommand::Reopen { id_or_uuid: key }, input, before, after, result)
            ==> is_silent(result) && (if before.tasks[i].completed_at is None {
            after == before
        } else {
            one_changed(before, after, i) && after.tasks[i].completed_at is None
                && after.tasks[i].archived_at is None
        }),
        cli::task_command(TaskCommand::Archive { id_or_uuid: key }, input, before, after, result)
            ==> is_silent(result) && one_changed(before, after, i) && after.tasks[i].archived_at
            is Some && after.tasks[i].completed_at == before.tasks[i].completed_at,
{
    if cli::task_command(
        TaskCommand::Complete { id_or_uuid: key },
        input,
        before,
        after,
        result,
    ) {
        let timestamp = choose|timestamp: Seq<char>|
            ident::is_time(timestamp) && cli::silent(
                #[trigger] before.complete_task(key@, timestamp),
                before,
                after,
                result,
            );
        record_laws::marked_task_is(before, i, key@, timestamp);
    }
    if cli::task_command(
        TaskCommand::Reopen { id_or_uuid: key },
        input,
        before,
        after,
        result,
    ) {
        let timestamp = choose|timestamp: Seq<char>|
            ident::is_time(timestamp) && cli::silent(
                #[trigger] before.reopen_task(key@, timestamp),
                before,
                after,
                result,
            );
        record_laws::marked_task_is(before, i, key@, timestamp);
    }
    if cli::task_command(
        TaskCommand::Archive { id_or_uuid: key },
        input,
        before,
        after,
        result,
    ) {
        let timestamp = choose|timestamp: Seq<char>|
            ident::is_time(timestamp) && cli::silent(
                #[trigger] before.archive_task(key@, timestamp),
                before,
                after,
                result,
            );
        record_laws::marked_task_is(before, i, key@, timestamp);
    }
}

/// Deleting a task takes it away where that was confirmed, and is refused otherwise.
pub proof fn delete_command_is(
    key: String,
    confirm: bool,
    input: Seq<char>,
    before: State,
    after: State,
    result: Result<Output, Error>,
    i: int,
)
    requires
        before.orderly(),
        0 <= i < before.tasks.len(),
        names_task(key@, before.tasks[i]),
        cli::task_command(
            TaskCommand::Delete { id_or_uuid: key, confirm },
            input,
            before,
            after,
            result,
        ),
    ensures
        !confirm ==> is_refused(
            result,
            before,
            after,
            Failure::Other("task deletion requires --confirm"@),
        ),
        confirm ==> is_silent(result) && after.tasks == before.tasks.filter(
            |task: TaskRow| task.uuid != before.tasks[i].uuid,
        ) && after.artifacts == before.artifacts.filter(
            |artifact: ArtifactRow| artifact.task_uuid != before.tasks[i].uuid,
        ),
{
    record_laws::deleted_task_is(before, i, key@);
}

/// A list of tasks is that of the archived ones, of the completed ones or of the active
/// ones, as it was asked for.
pub proof fn list_command_is(
    json: bool,
    archived: bool,
    completed: bool,
    input: Seq<char>,
    before: State,
    after: State,
    result: Result<Output, Error>,
)
    requires
        cli::task_command(
            TaskCommand::List { json, archived, completed },
            input,
            before,
            after,
            result,
        ),
    ensures
        after == before,
        result is Ok,
        exists|tasks: Seq<TaskRow>|
            #![trigger cli::task_lines(tasks)]
            {
                &&& archived ==> before.lists_tasks(TaskFilter::Archived, tasks)
                &&& !archived && completed ==> before.lists_tasks(TaskFilter::Completed, tasks)
                &&& !archived && !completed ==> before.lists_tasks(TaskFilter::Active, tasks)
                &&& json ==> result->Ok_0@ == Printed::Tasks(tasks)
                &&& !json ==> result->Ok_0@ == Printed::Text(cli::task_lines(tasks))
            },
{
    let tasks = choose|tasks: Seq<TaskRow>| #[trigger]
        before.lists_tasks(cli::filter_of(archived, completed), tasks) && result->Ok_0@
            == cli::tasks_printed(tasks, json);
    assert(cli::task_lines(tasks) == cli::task_lines(tasks));
}

/// A search prints the tasks that it finds, as lines or as records.
pub proof fn search_command_is(
    query: String,
    json: bool,
    input: Seq<char>,
    before: State,
    after: State,
    result: Result<Output, Error>,
)
    requires
        cli::task_command(TaskCommand::Search { query, json }, input, before, after, result),
    ensures
        after == before,
        match before.searchable(query@) {
            Ok(()) => result is Ok && exists|tasks: Seq<TaskRow>|
                #![trigger cli::task_lines(tasks)]
                {
                    &&& before.finds_tasks(query@, tasks)
                    &&& json ==> result->Ok_0@ == Printed::Tasks(tasks)
                    &&& !json ==> result->Ok_0@ == Printed::Text(cli::task_lines(tasks))
                },
            Err(failure) => is_refused(result, before, after, failure),
        },
{
    if before.searchable(query@) is Ok {
        let tasks = choose|tasks: Seq<TaskRow>| #[trigger]
            before.finds_tasks(query@, tasks) && result->Ok_0@ == cli::tasks_printed(tasks, json);
        assert(cli::task_lines(tasks) == cli::task_lines(tasks));
    }
}

/// The context of a task is printed with all its artifacts.
pub proof fn context_command_is(
    key: String,
    input: Seq<char>,
    before: State,
    after: State,
    result: Result<Output, Error>,
    i: int,
)
    requires
        before.orderly(),
        0 <= i < before.tasks.len(),
        names_task(key@, before.tasks[i]),
        cli::task_command(TaskCommand::Context { id_or_uuid: key }, input, before, after, result),
    ensures
        after == before,
        exists|artifacts: Seq<ArtifactRow>| #[trigger]
            before.lists_artifacts(before.tasks[i].uuid, None, artifacts) && printed(
                result,
                markdown::context(before.tasks[i], artifacts),
            ),
{
    task_is_found(before, i, key@);
    ident::canonical_form(before.tasks[i].uuid);
    behaviour::found_by_id_and_uuid(before, i, before.tasks[i].uuid);
    let artifacts = choose|artifacts: Seq<ArtifactRow>| #[trigger]
        markdown::lists_artifacts_of(before, before.tasks[i].uuid, artifacts)
            && result->Ok_0@ == Printed::Text(markdown::context(before.tasks[i], artifacts));
    assert(before.lists_artifacts(before.tasks[i].uuid, None, artifacts));
}

/// A command on a task that there is not is refused.
pub proof fn unknown_task_is_refused(
    key: String,
    input: Seq<char>,
    before: State,
    after: State,
    result: Result<Output, Error>,
)
    requires
        !is_empty(key@),
        forall|i: int|
            0 <= i < before.tasks.len() ==> !names_task(key@, #[trigger] before.tasks[i]),
        cli::task_command(TaskCommand::Read { id_or_uuid: key }, input, before, after, result)
            || cli::task_command(
            TaskCommand::Complete { id_or_uuid: key },
            input,
            before,
            after,
            result,
        ) || cli::task_command(
            TaskCommand::Archive { id_or_uuid: key },
            input,
            before,
            after,
            result,
        ) || cli::task_command(
            TaskCommand::Delete { id_or_uuid: key, confirm: true },
            input,
            before,
            after,
            result,
        ),
    ensures
        is_refused(result, before, after, Failure::NotFound("task not found: "@ + key@)),
{
    record_laws::unknown_key_is_refused(before, key@);
}

// ---------------------------------------------------------------- artifacts

/// Creating an artifact prints its UUID alone, and adds the artifact with the input as
/// its body to the task.
pub proof fn create_artifact_command_is(
    key: String,
    artifact_type: String,
    name: Option<String>,
    input: Seq<char>,
    before: State,
    after: State,
    result: Result<Output, Error>,
    i: int,
)
    requires
        before.orderly(),
        0 <= i < before.tasks.len(),
        names_task(key@, before.tasks[i]),
        cli::artifact_command(
            ArtifactCommand::Create { task_id_or_uuid: key, artifact_type, name },
            input,
            before,
            after,
            result,
        ),
    ensures
        match result {
            Ok(output) => {
                &&& after.tasks == before.tasks
                &&& after.annotations == before.annotations
                &&& after.artifacts.len() == before.artifacts.len() + 1
                &&& after.artifacts.drop_last() == before.artifacts
                &&& after.artifacts.last().task_uuid == before.tasks[i].uuid
                &&& after.artifacts.last().artifact_type == artifact_type@
                &&& name matches Some(name) ==> after.artifacts.last().name == Some(name@)
                &&& name is None ==> after.artifacts.last().name == Some(
                    artifact_type@ + seq!['-', '-'] + after.artifacts.last().uuid.take(8) + seq![
                        '.',
                        'm',
                        'd',
                    ],
                )
                &&& after.artifacts.last().body == input
                &&& ident::is_time(after.artifacts.last().created_at)
                &&& after.artifacts.last().updated_at == after.artifacts.last().created_at
                &&& ident::is_canonical(after.artifacts.last().uuid)
                &&& output@ == Printed::Text(after.artifacts.last().uuid + seq!['\n'])
            },
            Err(_) => after == before,
        },
{
    reveal_strlit("\n");
    reveal_strlit("--");
    reveal_strlit(".md");
    assert("\n"@ =~= seq!['\n']);
    assert("--"@ =~= seq!['-', '-']);
    assert(".md"@ =~= seq!['.', 'm', 'd']);
    behaviour::found_by_id_and_uuid(before, i, key@);
    let (uuid, timestamp) = choose|uuid: Seq<char>, timestamp: Seq<char>| #[trigger]
        cli::artifact_creation_prints(
            before,
            key@,
            artifact_type@,
            text::optional(name),
            input,
            uuid,
            timestamp,
            result,
            after,
        );
    ident::canonical_has_prefix(uuid);
    if result is Ok {
        assert(after.artifacts.drop_last() =~= before.artifacts);
    }
}

/// Reading an artifact prints its body as it is; updating it gives it the input as its
/// body, and renaming it the name.
pub proof fn artifact_commands_are(
    key: String,
    new_name: String,
    input: Seq<char>,
    before: State,
    after: State,
    result: Result<Output, Error>,
    i: int,
    j: int,
)
    requires
        before.orderly(),
        0 <= i < before.tasks.len(),
        0 <= j < before.artifacts.len(),
        before.artifacts[j].task_uuid == before.tasks[i].uuid,
        ident::canonical_uuid(key@) == Some(before.artifacts[j].uuid),
    ensures
        cli::artifact_command(ArtifactCommand::Read { uuid: key }, input, before, after, result)
            ==> after == before && printed(result, before.artifacts[j].body),
        cli::artifact_command(ArtifactCommand::Update { uuid: key }, input, before, after, result)
            && before.tasks[i].archived_at is None && before.tasks[i].completed_at is None
            ==> is_silent(result) && one_artifact_changed(before, after, j)
            && after.artifacts[j].body == input && after.artifacts[j].name
            == before.artifacts[j].name,
        cli::artifact_command(
            ArtifactCommand::Rename { uuid: key, new_name },
            input,
            before,
            after,
            result,
        ) && before.tasks[i].archived_at is None && before.tasks[i].completed_at is None
            && !is_empty(new_name@) ==> is_silent(result) && one_artifact_changed(before, after, j)
            && after.artifacts[j].name == Some(new_name@) && after.artifacts[j].body
            == before.artifacts[j].body,
{
    behaviour::artifact_found(before, j, key@);
    if before.tasks[i].archived_at is None && before.tasks[i].completed_at is None {
        if cli::artifact_command(
            ArtifactCommand::Update { uuid: key },
            input,
            before,
            after,
            result,
        ) {
            let timestamp = choose|timestamp: Seq<char>|
                ident::is_time(timestamp) && cli::silent(
                    #[trigger] before.update_artifact(key@, input, timestamp),
                    before,
                    after,
                    result,
                );
            record_laws::changed_artifact_is(before, i, j, key@, input, timestamp);
        }
        if cli::artifact_command(
            ArtifactCommand::Rename { uuid: key, new_name },
            input,
            before,
            after,
            result,
        ) && !is_empty(new_name@) {
            let timestamp = choose|timestamp: Seq<char>|
                ident::is_time(timestamp) && cli::silent(
                    #[trigger] before.rename_artifact(key@, new_name@, timestamp),
                    before,
                    after,
                    result,
                );
            record_laws::changed_artifact_is(before, i, j, key@, new_name@, timestamp);
        }
    }
}

/// What is noted on an artifact and not resolved is printed as feedback, as records or
/// as a review.
pub proof fn feedback_commands_are(
    key: String,
    json: bool,
    input: Seq<char>,
    before: State,
    after: State,
    result: Result<Output, Error>,
    j: int,
)
    requires
        before.orderly(),
        0 <= j < before.artifacts.len(),
        ident::canonical_uuid(key@) == Some(before.artifacts[j].uuid),
    ensures
        cli::artifact_command(
            ArtifactCommand::Feedback { uuid: key, json },
            input,
            before,
            after,
            result,
        ) ==> after == before && result is Ok && exists|annotations: Seq<AnnotationRow>|
         #[trigger]
            before.lists_annotations(before.artifacts[j].uuid, false, annotations)
                && result->Ok_0@ == if json {
                Printed::Annotations(annotations)
            } else {
                Printed::Text(markdown::feedback(annotations, 1))
            },
        cli::artifact_command(ArtifactCommand::Review { uuid: key }, input, before, after, result)
            ==> after == before && exists|annotations: Seq<AnnotationRow>| #[trigger]
            before.lists_annotations(before.artifacts[j].uuid, false, annotations) && printed(
                result,
                markdown::review(before.artifacts[j].uuid, annotations),
            ),
{
    behaviour::artifact_found(before, j, key@);
    if cli::artifact_command(
        ArtifactCommand::Review { uuid: key },
        input,
        before,
        after,
        result,
    ) {
        let annotations = choose|annotations: Seq<AnnotationRow>| #[trigger]
            before.lists_annotations(before.artifacts[j].uuid, false, annotations)
                && result->Ok_0@ == Printed::Text(
                markdown::review(before.artifacts[j].uuid, annotations),
            );
        assert(before.lists_annotations(before.artifacts[j].uuid, false, annotations));
    }
}

/// The artifacts of a task are printed, of the type that was asked for or of all; and
/// what there is to tell of one.
pub proof fn listing_commands_are(
    key: String,
    of_type: Option<String>,
    json: bool,
    input: Seq<char>,
    before: State,
    after: State,
    result: Result<Output, Error>,
    i: int,
)
    requires
        before.orderly(),
        0 <= i < before.tasks.len(),
        names_task(key@, before.tasks[i]),
        of_type matches Some(wanted) ==> !is_empty(wanted@),
        cli::artifact_command(
            ArtifactCommand::List { task_id_or_uuid: key, of_type, json },
            input,
            before,
            after,
            result,
        ),
    ensures
        after == before,
        result is Ok,
        exists|artifacts: Seq<ArtifactRow>| #[trigger]
            before.lists_artifacts(before.tasks[i].uuid, text::optional(of_type), artifacts)
                && result->Ok_0@ == if json {
                Printed::Artifacts(artifacts)
            } else {
                Printed::Text(cli::artifact_lines(artifacts))
            },
{
    record_laws::artifacts_are_asked_for(before, i, key@, text::optional(of_type));
}

/// What there is to tell of an artifact is printed.
pub proof fn info_command_is(
    key: String,
    json: bool,
    input: Seq<char>,
    before: State,
    after: State,
    result: Result<Output, Error>,
)
    requires
        cli::artifact_command(
            ArtifactCommand::Info { uuid: key, json },
            input,
            before,
            after,
            result,
        ),
    ensures
        after == before,
        match before.artifact_info(key@) {
            Ok(info) => if json {
                result matches Ok(output) && output@ == Printed::Info(info)
            } else {
                printed(result, cli::info_lines(info))
            },
            Err(failure) => is_refused(result, before, after, failure),
        },
{
}

// ---------------------------------------------------------------- annotations

/// Creating an annotation prints its UUID alone, and adds the annotation with the input
/// as its body to the artifact; an empty input counts as none.
pub proof fn create_annotation_command_is(
    key: String,
    kind: crate::model::AnnotationKind,
    start: Option<u64>,
    end: Option<u64>,
    selected: Option<String>,
    input: Seq<char>,
    before: State,
    after: State,
    result: Result<Output, Error>,
    j: int,
)
    requires
        before.orderly(),
        0 <= j < before.artifacts.len(),
        ident::canonical_uuid(key@) == Some(before.artifacts[j].uuid),
        cli::annotation_command(
            AnnotationCommand::Create {
                artifact_uuid: key,
                kind,
                start_offset: start,
                end_offset: end,
                selected_text: selected,
            },
            input,
            before,
            after,
            result,
        ),
    ensures
        match result {
            Ok(output) => {
                &&& after.tasks == before.tasks
                &&& after.artifacts == before.artifacts
                &&& after.annotations.len() == before.annotations.len() + 1
                &&& after.annotations.drop_last() == before.annotations
                &&& after.annotations.last().artifact_uuid == before.artifacts[j].uuid
                &&& after.annotations.last().kind == kind
                &&& after.annotations.last().start_offset == start
                &&& after.annotations.last().end_offset == end
                &&& selected is Some && selected->0@.len() > 0
                    ==> after.annotations.last().selected_text == Some(selected->0@)
                &&& selected is None || selected->0@.len() == 0
                    ==> after.annotations.last().selected_text is None
                &&& input.len() > 0 ==> after.annotations.last().body == Some(input)
                &&& input.len() == 0 ==> after.annotations.last().body is None
                &&& after.annotations.last().resolved_at is None
                &&& ident::is_time(after.annotations.last().created_at)
                &&& ident::is_canonical(after.annotations.last().uuid)
                &&& output@ == Printed::Text(after.annotations.last().uuid + seq!['\n'])
            },
            Err(_) => after == before,
        },
{
    reveal_strlit("\n");
    assert("\n"@ =~= seq!['\n']);
    behaviour::artifact_found(before, j, key@);
    let row = NewAnnotationRow {
        kind,
        start_offset: start,
        end_offset: end,
        selected_text: text::optional(selected),
        body: Some(input),
    };
    let (uuid, timestamp) = choose|uuid: Seq<char>, timestamp: Seq<char>| #[trigger]
        cli::annotation_creation_prints(before, key@, row, uuid, timestamp, result, after);
    if result is Ok {
        assert(after.annotations.drop_last() =~= before.annotations);
    }
}

/// Annotations are printed, all or those that are not resolved; resolving one prints
/// nothing.
pub proof fn annotation_commands_are(
    key: String,
    all: bool,
    json: bool,
    input: Seq<char>,
    before: State,
    after: State,
    result: Result<Output, Error>,
    j: int,
)
    requires
        before.orderly(),
        0 <= j < before.artifacts.len(),
        ident::canonical_uuid(key@) == Some(before.artifacts[j].uuid),
    ensures
        cli::annotation_command(
            AnnotationCommand::List { artifact_uuid: key, all, json },
            input,
            before,
            after,
            result,
        ) ==> after == before && result is Ok && exists|annotations: Seq<AnnotationRow>|
         #[trigger]
            before.lists_annotations(before.artifacts[j].uuid, all, annotations) && result->Ok_0@
                == if json {
                Printed::Annotations(annotations)
            } else {
                Printed::Text(cli::annotation_lines(annotations))
            },
{
    behaviour::artifact_found(before, j, key@);
}

/// Resolving an annotation of an active task resolves it and prints nothing.
pub proof fn resolve_command_is(
    key: String,
    input: Seq<char>,
    before: State,
    after: State,
    result: Result<Output, Error>,
    i: int,
    j: int,
    k: int,
)
    requires
        before.orderly(),
        0 <= i < before.tasks.len(),
        before.tasks[i].archived_at is None,
        before.tasks[i].completed_at is None,
        0 <= j < before.artifacts.len(),
        before.artifacts[j].task_uuid == before.tasks[i].uuid,
        0 <= k < before.annotations.len(),
        before.annotations[k].artifact_uuid == before.artifacts[j].uuid,
        ident::canonical_uuid(key@) == Some(before.annotations[k].uuid),
        cli::annotation_command(
            AnnotationCommand::Resolve { uuid: key },
            input,
            before,
            after,
            result,
        ),
    ensures
        is_silent(result),
        after.annotations[k].resolved_at is Some,
        before.annotations[k].resolved_at is Some ==> after.annotations[k]
            == before.annotations[k],
        after.annotations.len() == before.annotations.len(),
        forall|l: int|
            0 <= l < before.annotations.len() && l != k ==> after.annotations[l]
                == before.annotations[l],
        after.tasks == before.tasks,
        after.artifacts == before.artifacts,
{
    let timestamp = choose|timestamp: Seq<char>|
        ident::is_time(timestamp) && cli::silent(
            #[trigger] before.resolve_annotation(key@, timestamp),
            before,
            after,
            result,
        );
    record_laws::resolved_annotation_is(before, i, j, k, key@, timestamp);
}

// ---------------------------------------------------------------- the server

/// A server is started on the address that it was given, on the Tailscale address or on
/// port 3000 of this machine; an address with Tailscale, or one that is none, is
/// refused.
pub proof fn serve_command_is(
    bind: Option<Seq<char>>,
    valid: bool,
    tailscale: bool,
    result: Result<ServeAction, Error>,
)
    requires
        cli::serve_command(ServeCommand::Foreground, bind, valid, tailscale, result),
    ensures
        bind is Some && tailscale ==> (result matches Err(error) && error@ == Failure::Other(
            "--bind cannot be used with --tailscale"@,
        )),
        bind is Some && !tailscale && !valid ==> (result matches Err(error) && error@
            == Failure::Other("invalid bind address; expected IP:PORT"@)),
        bind is Some && !tailscale && valid ==> (result matches Ok(ServeAction::Serve(target))
            && target@ == Target::Address(bind->0)),
        bind is None && tailscale ==> (result matches Ok(ServeAction::Serve(target)) && target@
            == Target::Tailscale),
        bind is None && !tailscale ==> (result matches Ok(ServeAction::Serve(target)) && target@
            == Target::Address("127.0.0.1:3000"@)),
{
}

/// A service is installed with the options after the subcommand before those in front
/// of it; an address with Tailscale, or one that is none, is refused.
pub proof fn install_command_is(
    own: Option<String>,
    own_tailscale: bool,
    bind: Option<Seq<char>>,
    valid: bool,
    tailscale: bool,
    result: Result<ServeAction, Error>,
)
    requires
        cli::serve_command(
            ServeCommand::Install { bind: own, tailscale: own_tailscale },
            bind,
            valid,
            tailscale,
            result,
        ),
    ensures
        ({
            let chosen = if own is Some {
                Some(own->0@)
            } else {
                bind
            };
            &&& chosen is Some && (own_tailscale || tailscale) ==> (result matches Err(error)
                && error@ == Failure::Other("--bind cannot be used with --tailscale"@))
            &&& chosen is Some && !own_tailscale && !tailscale && !valid ==> (result matches Err(
                error,
            ) && error@ == Failure::Other("invalid bind address; expected IP:PORT"@))
            &&& (chosen is None || !own_tailscale && !tailscale && valid) ==> (result matches Ok(
                ServeAction::Install(options),
            ) && options.bind() == chosen && options.tailscale == (own_tailscale || tailscale))
        }),
{
}

/// The other commands on the server come to what they say.
pub proof fn plain_serve_commands_are(
    bind: Option<Seq<char>>,
    valid: bool,
    tailscale: bool,
    result: Result<ServeAction, Error>,
)
    ensures
        cli::serve_command(ServeCommand::SetPassword, bind, valid, tailscale, result)
            ==> result matches Ok(ServeAction::SetPassword),
        cli::serve_command(ServeCommand::ClearPassword, bind, valid, tailscale, result)
            ==> result matches Ok(ServeAction::ClearPassword),
        cli::serve_command(ServeCommand::Status, bind, valid, tailscale, result)
            ==> result matches Ok(ServeAction::Status),
        cli::serve_command(ServeCommand::Restart, bind, valid, tailscale, result)
            ==> result matches Ok(ServeAction::Restart),
        cli::serve_command(ServeCommand::Uninstall, bind, valid, tailscale, result)
            ==> result matches Ok(ServeAction::Uninstall),
{
}

/// An export is asked for with its target last, and a task before it or none.
pub proof fn dump_command_is(args: Seq<Seq<char>>)
    ensures
        args.len() == 1 ==> cli::dump_request(args) == Ok::<
            (Option<Seq<char>>, Seq<char>),
            Failure,
        >((None, args[0])),
        args.len() == 2 ==> cli::dump_request(args) == Ok::<
            (Option<Seq<char>>, Seq<char>),
            Failure,
        >((Some(args[0]), args[1])),
        args.len() == 0 || args.len() > 2 ==> cli::dump_request(args) == Err::<
            (Option<Seq<char>>, Seq<char>),
            Failure,
        >(Failure::Other("dump accepts an optional task key followed by one target path"@)),
{
}

} // verus!
