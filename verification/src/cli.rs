//! The commands of the command line, and what they print.

use vstd::prelude::*;
use vstd::string::*;

use crate::app;
use crate::app::App;
use crate::bind;
use crate::bind::BindTarget;
use crate::error::{other, Error, Failure};
use crate::grep;
use crate::ident;
use crate::markdown;
use crate::model;
use crate::model::{
    Annotation, AnnotationKind, AnnotationRow, Artifact, ArtifactInfo, ArtifactInfoRow,
    ArtifactRow, DocumentRow, GrepMatch, MatchRow, NewAnnotation, NewAnnotationRow, Task, TaskRow,
};
use crate::order;
use crate::service::InstallOptions;
use crate::state;
use crate::state::{State, TaskFilter};
use crate::store;
use crate::text;

verus! {

// ---------------------------------------------------------------- fields

/// A character in a tab-separated field.
pub open spec fn field_char(c: char) -> Seq<char> {
    if c == '\\' {
        seq!['\\', '\\']
    } else if c == '\t' {
        seq!['\\', 't']
    } else if c == '\r' {
        seq!['\\', 'r']
    } else if c == '\n' {
        seq!['\\', 'n']
    } else {
        seq![c]
    }
}

/// A text as a tab-separated field.
pub open spec fn field(value: Seq<char>) -> Seq<char> {
    text::mapped(value, |c: char| field_char(c))
}

/// A text as a tab-separated field: backslashes, tabs and line breaks are escaped.
pub fn tsv_field(value: &str) -> (output: String)
    ensures
        output@ == field(value@),
{
    let chars = text::chars_of(value);
    let mut output = String::new();
    let ghost map = |c: char| field_char(c);
    assert(value@.take(0) =~= Seq::empty());
    for i in 0..chars.len()
        invariant
            chars@ == value@,
            map == (|c: char| field_char(c)),
            output@ == text::mapped(value@.take(i as int), map),
    {
        proof {
            text::mapped_step(value@, map, i as int);
        }
        let c = chars[i];
        if c == '\\' {
            output.push('\\');
            output.push('\\');
        } else if c == '\t' {
            output.push('\\');
            output.push('t');
        } else if c == '\r' {
            output.push('\\');
            output.push('r');
        } else if c == '\n' {
            output.push('\\');
            output.push('n');
        } else {
            output.push(c);
        }
        assert(output@ =~= text::mapped(value@.take(i as int), map) + field_char(c));
    }
    assert(value@.take(value@.len() as int) =~= value@);
    output
}

/// A field holds no tab and no line break, so a record is one line and its fields
/// can be told apart.
pub proof fn field_has_no_separator(value: Seq<char>)
    ensures
        !field(value).contains('\t'),
        !field(value).contains('\r'),
        !field(value).contains('\n'),
    decreases value.len(),
{
    if value.len() > 0 {
        let front = field(value.drop_last());
        let last = field_char(value.last());
        field_has_no_separator(value.drop_last());
        assert(field(value) == front + last);
        assert forall|i: int| 0 <= i < field(value).len() implies field(value)[i] != '\t'
            && field(value)[i] != '\r' && field(value)[i] != '\n' by {
            if i < front.len() {
                assert(front.contains(front[i]));
            } else {
                assert(field(value)[i] == last[i - front.len()]);
            }
        }
    }
}

/// Two texts with the same field are the same: nothing is lost in a field.
pub proof fn field_is_injective(a: Seq<char>, b: Seq<char>)
    requires
        field(a) == field(b),
    ensures
        a == b,
    decreases a.len(),
{
    let map = |c: char| field_char(c);
    if a.len() == 0 {
        if b.len() > 0 {
            assert(field(b).len() >= 1);
        }
        assert(a =~= b);
    } else if b.len() == 0 {
        assert(field(a).len() >= 1);
    } else {
        let x = a.drop_first();
        let y = b.drop_first();
        assert(a =~= seq![a[0]] + x);
        assert(b =~= seq![b[0]] + y);
        text::mapped_append(seq![a[0]], x, map);
        text::mapped_append(seq![b[0]], y, map);
        single_field(a[0]);
        single_field(b[0]);
        let whole = field(a);
        assert(whole =~= field_char(a[0]) + field(x));
        assert(whole =~= field_char(b[0]) + field(y));
        assert(whole[0] == field_char(a[0])[0]);
        assert(whole[0] == field_char(b[0])[0]);
        if whole[0] == '\\' {
            assert(whole[1] == field_char(a[0])[1]);
            assert(whole[1] == field_char(b[0])[1]);
        }
        assert(a[0] == b[0]);
        let n = field_char(a[0]).len() as int;
        assert(whole.skip(n) =~= field(x));
        assert(whole.skip(n) =~= field(y));
        field_is_injective(x, y);
    }
}

proof fn single_field(c: char)
    ensures
        text::mapped(seq![c], |c: char| field_char(c)) == field_char(c),
{
    let map = |c: char| field_char(c);
    assert(seq![c].drop_last() =~= Seq::<char>::empty());
    assert(text::mapped(Seq::<char>::empty(), map) =~= Seq::<char>::empty());
    assert(text::mapped(seq![c], map) =~= field_char(c));
}

/// A number, or `\N` for none.
pub open spec fn number_field(value: Option<u64>) -> Seq<char> {
    match value {
        Some(number) => text::decimal(number as nat),
        None => "\\N"@,
    }
}

/// A number, or `\N` for none.
pub fn optional_number(value: Option<u64>) -> (output: String)
    ensures
        output@ == number_field(value),
{
    match value {
        Some(number) => text::decimal_of(number as u128),
        None => "\\N".to_owned(),
    }
}

// ---------------------------------------------------------------- records

/// The line of a task: its UUID, its id and the time of its last change.
pub open spec fn task_line(task: TaskRow) -> Seq<char> {
    task.uuid + "\t"@ + field(task.id) + "\t"@ + task.updated_at + "\n"@
}

/// The lines of a list of tasks.
pub open spec fn task_lines(tasks: Seq<TaskRow>) -> Seq<char>
    decreases tasks.len(),
{
    if tasks.len() == 0 {
        Seq::empty()
    } else {
        task_lines(tasks.drop_last()) + task_line(tasks.last())
    }
}

proof fn occurrences_of_separators(c: char)
    ensures
        text::occurrences("\t"@, c) == if c == '\t' {
            1nat
        } else {
            0
        },
        text::occurrences("\n"@, c) == if c == '\n' {
            1nat
        } else {
            0
        },
{
    reveal_strlit("\t");
    reveal_strlit("\n");
    reveal_with_fuel(text::occurrences, 2);
    assert("\t"@.drop_last() =~= Seq::<char>::empty());
    assert("\n"@.drop_last() =~= Seq::<char>::empty());
}

/// A text without tabs and line breaks.
pub open spec fn is_one_field(value: Seq<char>) -> bool {
    !value.contains('\t') && !value.contains('\n')
}

/// The line of a task holds two tabs and ends with its only line break, whatever
/// its id holds, where its UUID and its time hold neither.
pub proof fn task_line_has_three_fields(task: TaskRow)
    requires
        is_one_field(task.uuid),
        is_one_field(task.updated_at),
    ensures
        text::occurrences(task_line(task), '\t') == 2,
        text::occurrences(task_line(task), '\n') == 1,
        task_line(task).last() == '\n',
{
    reveal_strlit("\n");
    field_has_no_separator(task.id);
    separators_in_line(task, '\t');
    separators_in_line(task, '\n');
}

proof fn separators_in_line(task: TaskRow, c: char)
    requires
        !task.uuid.contains(c),
        !field(task.id).contains(c),
        !task.updated_at.contains(c),
    ensures
        text::occurrences(task_line(task), c) == 2 * text::occurrences("\t"@, c) + text::occurrences("\n"@, c),
        c == '\t' ==> text::occurrences(task_line(task), c) == 2,
        c == '\n' ==> text::occurrences(task_line(task), c) == 1,
{
    let a = task.uuid + "\t"@;
    let b = a + field(task.id);
    let d = b + "\t"@;
    let e = d + task.updated_at;
    text::occurs_nowhere(task.uuid, c);
    text::occurs_nowhere(field(task.id), c);
    text::occurs_nowhere(task.updated_at, c);
    text::occurrences_in_both(task.uuid, "\t"@, c);
    text::occurrences_in_both(a, field(task.id), c);
    text::occurrences_in_both(b, "\t"@, c);
    text::occurrences_in_both(d, task.updated_at, c);
    text::occurrences_in_both(e, "\n"@, c);
    occurrences_of_separators(c);
}

/// A list of tasks is printed as one line for each, of three fields with two tabs
/// between, whatever the ids hold, where the UUIDs and the times hold no tab and no
/// line break.
pub proof fn listed_tasks_are_lines(tasks: Seq<TaskRow>)
    requires
        forall|k: int|
            0 <= k < tasks.len() ==> is_one_field((#[trigger] tasks[k]).uuid) && is_one_field(
                tasks[k].updated_at,
            ),
    ensures
        text::occurrences(task_lines(tasks), '\n') == tasks.len(),
        text::occurrences(task_lines(tasks), '\t') == 2 * tasks.len(),
        forall|k: int|
            0 <= k < tasks.len() ==> {
                let line = task_line(#[trigger] tasks[k]);
                &&& text::occurrences(line, '\t') == 2
                &&& text::occurrences(line, '\n') == 1
                &&& line.last() == '\n'
            },
    decreases tasks.len(),
{
    if tasks.len() > 0 {
        let front = tasks.drop_last();
        assert forall|k: int| 0 <= k < front.len() implies is_one_field((#[trigger] front[k]).uuid)
            && is_one_field(front[k].updated_at) by {
            assert(front[k] == tasks[k]);
        }
        listed_tasks_are_lines(front);
        assert(is_one_field(tasks[tasks.len() - 1].uuid));
        task_line_has_three_fields(tasks.last());
        text::occurrences_in_both(task_lines(front), task_line(tasks.last()), '\n');
        text::occurrences_in_both(task_lines(front), task_line(tasks.last()), '\t');
        assert forall|k: int| 0 <= k < tasks.len() implies {
            let line = task_line(#[trigger] tasks[k]);
            &&& text::occurrences(line, '\t') == 2
            &&& text::occurrences(line, '\n') == 1
            &&& line.last() == '\n'
        } by {
            if k < front.len() {
                assert(front[k] == tasks[k]);
            }
        }
    }
}

/// A task with a UUID in the stored form and a time that the clock was read for has
/// no tab and no line break in either.
pub proof fn written_fields_are_whole(task: TaskRow)
    requires
        ident::is_canonical(task.uuid),
        ident::is_time(task.updated_at),
    ensures
        is_one_field(task.uuid),
        is_one_field(task.updated_at),
{
    assert forall|i: int| 0 <= i < task.uuid.len() implies task.uuid[i] != '\t' && task.uuid[i]
        != '\n' by {
        assert(task.uuid[i] == '-' || ident::is_hex(task.uuid[i]));
    }
    assert forall|i: int| 0 <= i < task.updated_at.len() implies task.updated_at[i] != '\t'
        && task.updated_at[i] != '\n' by {
        assert(ident::is_time_char(task.updated_at[i]));
    }
}

/// The line of an artifact: its UUID, its type, its name and the time of its last
/// change.
pub open spec fn artifact_line(artifact: ArtifactRow) -> Seq<char> {
    artifact.uuid + "\t"@ + field(artifact.artifact_type) + "\t"@ + field(
        artifact.display_name(),
    ) + "\t"@ + artifact.updated_at + "\n"@
}

/// The lines of a list of artifacts.
pub open spec fn artifact_lines(artifacts: Seq<ArtifactRow>) -> Seq<char>
    decreases artifacts.len(),
{
    if artifacts.len() == 0 {
        Seq::empty()
    } else {
        artifact_lines(artifacts.drop_last()) + artifact_line(artifacts.last())
    }
}

/// The line of an annotation: its UUID, its kind, its offsets and the time at
/// which it was resolved.
pub open spec fn annotation_line(annotation: AnnotationRow) -> Seq<char> {
    annotation.uuid + "\t"@ + model::kind_word(annotation.kind) + "\t"@ + number_field(
        annotation.start_offset,
    ) + "\t"@ + number_field(annotation.end_offset) + "\t"@ + (match annotation.resolved_at {
        Some(resolved_at) => resolved_at,
        None => "\\N"@,
    }) + "\n"@
}

/// The lines of a list of annotations.
pub open spec fn annotation_lines(annotations: Seq<AnnotationRow>) -> Seq<char>
    decreases annotations.len(),
{
    if annotations.len() == 0 {
        Seq::empty()
    } else {
        annotation_lines(annotations.drop_last()) + annotation_line(annotations.last())
    }
}

/// The line of a match: where it stands, its number and the line itself.
pub open spec fn match_line(found: MatchRow) -> Seq<char> {
    model::located(found.path, found.artifact_uuid) + ":"@ + text::decimal(
        found.line_number as nat,
    ) + ":"@ + found.line + "\n"@
}

/// The lines of a list of matches.
pub open spec fn match_lines(matches: Seq<MatchRow>) -> Seq<char>
    decreases matches.len(),
{
    if matches.len() == 0 {
        Seq::empty()
    } else {
        match_lines(matches.drop_last()) + match_line(matches.last())
    }
}

/// The lines that describe an artifact.
pub open spec fn info_lines(info: ArtifactInfoRow) -> Seq<char> {
    "Artifact UUID: "@ + info.uuid + "\nTask ID:      "@ + info.task_id + "\nTask UUID:    "@
        + info.task_uuid + "\nType:         "@ + info.artifact_type + "\nName:         "@ + info.name
        + "\n"@
}

/// The lines of a list of tasks.
pub fn print_tasks(tasks: &Vec<Task>) -> (output: String)
    ensures
        output@ == task_lines(model::rows(tasks@)),
{
    let ghost list = model::rows(tasks@);
    let mut output = String::new();
    assert(list.take(0) =~= Seq::empty());
    for i in 0..tasks.len()
        invariant
            list == model::rows(tasks@),
            output@ == task_lines(list.take(i as int)),
    {
        assert(list.take(i + 1).drop_last() =~= list.take(i as int));
        assert(list[i as int] == tasks@[i as int]@);
        let id = tsv_field(tasks[i].id.as_str());
        output.append(tasks[i].uuid.as_str());
        output.append("\t");
        output.append(id.as_str());
        output.append("\t");
        output.append(tasks[i].updated_at.as_str());
        output.append("\n");
        assert(output@ =~= task_lines(list.take(i as int)) + task_line(list[i as int]));
    }
    assert(list.take(list.len() as int) =~= list);
    output
}

/// The lines of a list of artifacts.
pub fn print_artifacts(artifacts: &Vec<Artifact>) -> (output: String)
    requires
        forall|k: int|
            0 <= k < artifacts@.len() ==> (#[trigger] artifacts@[k])@.has_display_name(),
    ensures
        output@ == artifact_lines(model::rows(artifacts@)),
{
    let ghost list = model::rows(artifacts@);
    let mut output = String::new();
    assert(list.take(0) =~= Seq::empty());
    for i in 0..artifacts.len()
        invariant
            list == model::rows(artifacts@),
            forall|k: int|
                0 <= k < artifacts@.len() ==> (#[trigger] artifacts@[k])@.has_display_name(),
            output@ == artifact_lines(list.take(i as int)),
    {
        assert(list.take(i + 1).drop_last() =~= list.take(i as int));
        assert(list[i as int] == artifacts@[i as int]@);
        let artifact_type = tsv_field(artifacts[i].artifact_type.as_str());
        let shown = artifacts[i].display_name();
        let name = tsv_field(shown.as_str());
        output.append(artifacts[i].uuid.as_str());
        output.append("\t");
        output.append(artifact_type.as_str());
        output.append("\t");
        output.append(name.as_str());
        output.append("\t");
        output.append(artifacts[i].updated_at.as_str());
        output.append("\n");
        assert(output@ =~= artifact_lines(list.take(i as int)) + artifact_line(list[i as int]));
    }
    assert(list.take(list.len() as int) =~= list);
    output
}

fn line_of_annotation(annotation: &Annotation) -> (output: String)
    ensures
        output@ == annotation_line(annotation@),
{
    let start = optional_number(annotation.start_offset);
    let end = optional_number(annotation.end_offset);
    let mut output = text::concat3(annotation.uuid.as_str(), "\t", annotation.kind.as_str());
    output.append("\t");
    output.append(start.as_str());
    output.append("\t");
    output.append(end.as_str());
    output.append("\t");
    match &annotation.resolved_at {
        Some(resolved_at) => output.append(resolved_at.as_str()),
        None => output.append("\\N"),
    }
    output.append("\n");
    output
}

/// The lines of a list of annotations.
pub fn print_annotations(annotations: &Vec<Annotation>) -> (output: String)
    ensures
        output@ == annotation_lines(model::rows(annotations@)),
{
    let ghost list = model::rows(annotations@);
    let mut output = String::new();
    assert(list.take(0) =~= Seq::empty());
    for i in 0..annotations.len()
        invariant
            list == model::rows(annotations@),
            output@ == annotation_lines(list.take(i as int)),
    {
        assert(list.take(i + 1).drop_last() =~= list.take(i as int));
        assert(list[i as int] == annotations@[i as int]@);
        let line = line_of_annotation(&annotations[i]);
        output.append(line.as_str());
        assert(output@ =~= annotation_lines(list.take(i as int)) + annotation_line(
            list[i as int],
        ));
    }
    assert(list.take(list.len() as int) =~= list);
    output
}

/// The lines of a list of matches.
pub fn print_matches(matches: &Vec<GrepMatch>) -> (output: String)
    ensures
        output@ == match_lines(model::rows(matches@)),
{
    let ghost list = model::rows(matches@);
    let mut output = String::new();
    assert(list.take(0) =~= Seq::empty());
    for i in 0..matches.len()
        invariant
            list == model::rows(matches@),
            output@ == match_lines(list.take(i as int)),
    {
        assert(list.take(i + 1).drop_last() =~= list.take(i as int));
        assert(list[i as int] == matches@[i as int]@);
        let found = &matches[i];
        let path = model::locate(found.path.as_str(), &found.artifact_uuid);
        let number = text::decimal_of(found.line_number as u128);
        output.append(path.as_str());
        output.append(":");
        output.append(number.as_str());
        output.append(":");
        output.append(found.line.as_str());
        output.append("\n");
        assert(output@ =~= match_lines(list.take(i as int)) + match_line(list[i as int]));
    }
    assert(list.take(list.len() as int) =~= list);
    output
}

/// The lines that describe an artifact.
pub fn print_info(info: &ArtifactInfo) -> (output: String)
    ensures
        output@ == info_lines(info@),
{
    let mut output = text::concat3(
        "Artifact UUID: ",
        info.uuid.as_str(),
        "\nTask ID:      ",
    );
    output.append(info.task_id.as_str());
    output.append("\nTask UUID:    ");
    output.append(info.task_uuid.as_str());
    output.append("\nType:         ");
    output.append(info.artifact_type.as_str());
    output.append("\nName:         ");
    output.append(info.name.as_str());
    output.append("\n");
    output
}

// ---------------------------------------------------------------- commands

/// What a command prints: a text, or records as JSON.
#[derive(Debug, PartialEq, Eq)]
pub enum Output {
    Nothing,
    Text(String),
    Tasks(Vec<Task>),
    Artifacts(Vec<Artifact>),
    Annotations(Vec<Annotation>),
    Info(ArtifactInfo),
    Matches(Vec<GrepMatch>),
}

/// The view of what a command prints.
pub enum Printed {
    Nothing,
    Text(Seq<char>),
    Tasks(Seq<TaskRow>),
    Artifacts(Seq<ArtifactRow>),
    Annotations(Seq<AnnotationRow>),
    Info(ArtifactInfoRow),
    Matches(Seq<MatchRow>),
}

impl View for Output {
    type V = Printed;

    open spec fn view(&self) -> Printed {
        match self {
            Output::Nothing => Printed::Nothing,
            Output::Text(value) => Printed::Text(value@),
            Output::Tasks(tasks) => Printed::Tasks(model::rows(tasks@)),
            Output::Artifacts(artifacts) => Printed::Artifacts(model::rows(artifacts@)),
            Output::Annotations(annotations) => Printed::Annotations(model::rows(annotations@)),
            Output::Info(info) => Printed::Info(info@),
            Output::Matches(matches) => Printed::Matches(model::rows(matches@)),
        }
    }
}

/// A command on tasks.
#[derive(Debug)]
pub enum TaskCommand {
    Create { id: String },
    Read { id_or_uuid: String },
    Update { id_or_uuid: String },
    Rename { id_or_uuid: String, id: String },
    Search { query: String, json: bool },
    List { json: bool, archived: bool, completed: bool },
    Complete { id_or_uuid: String },
    Reopen { id_or_uuid: String },
    Archive { id_or_uuid: String },
    Delete { id_or_uuid: String, confirm: bool },
    Context { id_or_uuid: String },
}

/// A command on artifacts.
#[derive(Debug)]
pub enum ArtifactCommand {
    Create { task_id_or_uuid: String, artifact_type: String, name: Option<String> },
    Read { uuid: String },
    Update { uuid: String },
    Rename { uuid: String, new_name: String },
    List { task_id_or_uuid: String, of_type: Option<String>, json: bool },
    Info { uuid: String, json: bool },
    Feedback { uuid: String, json: bool },
    Review { uuid: String },
}

/// A command on annotations.
#[derive(Debug)]
pub enum AnnotationCommand {
    Create {
        artifact_uuid: String,
        kind: AnnotationKind,
        start_offset: Option<u64>,
        end_offset: Option<u64>,
        selected_text: Option<String>,
    },
    List { artifact_uuid: String, all: bool, json: bool },
    Resolve { uuid: String },
}

/// A command that changes the store and prints nothing.
pub open spec fn silent(
    outcome: Result<State, Failure>,
    before: State,
    after: State,
    result: Result<Output, Error>,
) -> bool {
    match (outcome, result) {
        (Ok(state), Ok(output)) => after == state && output@ == Printed::Nothing,
        (Err(failure), Err(error)) => error@ == failure && after == before,
        _ => false,
    }
}

/// A command that prints a text, or fails.
pub open spec fn prints(outcome: Result<Seq<char>, Failure>, result: Result<Output, Error>) -> bool {
    match (outcome, result) {
        (Ok(value), Ok(output)) => output@ == Printed::Text(value),
        (Err(failure), Err(error)) => error@ == failure,
        _ => false,
    }
}

/// A list of tasks as it is printed.
pub open spec fn tasks_printed(tasks: Seq<TaskRow>, json: bool) -> Printed {
    if json {
        Printed::Tasks(tasks)
    } else {
        Printed::Text(task_lines(tasks))
    }
}

/// A list of artifacts as it is printed.
pub open spec fn artifacts_printed(artifacts: Seq<ArtifactRow>, json: bool) -> Printed {
    if json {
        Printed::Artifacts(artifacts)
    } else {
        Printed::Text(artifact_lines(artifacts))
    }
}

/// A list of annotations as it is printed.
pub open spec fn annotations_printed(annotations: Seq<AnnotationRow>, json: bool) -> Printed {
    if json {
        Printed::Annotations(annotations)
    } else {
        Printed::Text(annotation_lines(annotations))
    }
}

/// A created task prints its UUID alone.
pub open spec fn task_creation_prints(
    before: State,
    id: Seq<char>,
    body: Seq<char>,
    uuid: Seq<char>,
    timestamp: Seq<char>,
    result: Result<Output, Error>,
    after: State,
) -> bool {
    &&& ident::is_canonical(uuid)
    &&& ident::is_time(timestamp)
    &&& match (before.create_task(id, body, uuid, timestamp), result) {
        (Ok(Some(state)), Ok(output)) => after == state && output@ == Printed::Text(uuid + "\n"@),
        (Ok(None), Err(error)) => error@ == Failure::Other("failed to create task "@ + id) && after
            == before,
        (Err(failure), Err(error)) => error@ == failure && after == before,
        _ => false,
    }
}

/// Which list of tasks is asked for.
pub open spec fn filter_of(archived: bool, completed: bool) -> TaskFilter {
    if archived {
        TaskFilter::Archived
    } else if completed {
        TaskFilter::Completed
    } else {
        TaskFilter::Active
    }
}

/// What a command on tasks does and prints, with `input` as its standard input.
pub open spec fn task_command(
    command: TaskCommand,
    input: Seq<char>,
    before: State,
    after: State,
    result: Result<Output, Error>,
) -> bool {
    match command {
        TaskCommand::Create { id } => exists|uuid: Seq<char>, timestamp: Seq<char>| #[trigger]
            task_creation_prints(before, id@, input, uuid, timestamp, result, after),
        TaskCommand::Read { id_or_uuid } => after == before && prints(
            match before.read_task(id_or_uuid@) {
                Ok(task) => Ok(task.body),
                Err(failure) => Err(failure),
            },
            result,
        ),
        TaskCommand::Update { id_or_uuid } => exists|timestamp: Seq<char>|
            ident::is_time(timestamp) && silent(
                #[trigger] before.edit_task(id_or_uuid@, None, Some(input), timestamp),
                before,
                after,
                result,
            ),
        TaskCommand::Rename { id_or_uuid, id } => exists|timestamp: Seq<char>|
            ident::is_time(timestamp) && silent(
                #[trigger] before.edit_task(id_or_uuid@, Some(id@), None, timestamp),
                before,
                after,
                result,
            ),
        TaskCommand::Search { query, json } => after == before && match (
            before.searchable(query@),
            result,
        ) {
            (Ok(()), Ok(output)) => exists|tasks: Seq<TaskRow>| #[trigger]
                before.finds_tasks(query@, tasks) && output@ == tasks_printed(tasks, json),
            (Err(failure), Err(error)) => error@ == failure,
            _ => false,
        },
        TaskCommand::List { json, archived, completed } => after == before && (result matches Ok(
            output,
        ) && exists|tasks: Seq<TaskRow>| #[trigger]
            before.lists_tasks(filter_of(archived, completed), tasks) && output@ == tasks_printed(
                tasks,
                json,
            )),
        TaskCommand::Complete { id_or_uuid } => exists|timestamp: Seq<char>|
            ident::is_time(timestamp) && silent(
                #[trigger] before.complete_task(id_or_uuid@, timestamp),
                before,
                after,
                result,
            ),
        TaskCommand::Reopen { id_or_uuid } => exists|timestamp: Seq<char>|
            ident::is_time(timestamp) && silent(#[trigger] before.reopen_task(id_or_uuid@, timestamp), before, after, result),
        TaskCommand::Archive { id_or_uuid } => exists|timestamp: Seq<char>|
            ident::is_time(timestamp) && silent(#[trigger] before.archive_task(id_or_uuid@, timestamp), before, after, result),
        TaskCommand::Delete { id_or_uuid, confirm } => silent(
            if confirm {
                before.delete_task(id_or_uuid@)
            } else {
                Err(Failure::Other("task deletion requires --confirm"@))
            },
            before,
            after,
            result,
        ),
        TaskCommand::Context { id_or_uuid } => after == before && match (
            before.read_task(id_or_uuid@),
            result,
        ) {
            (Ok(task), Ok(output)) => exists|artifacts: Seq<ArtifactRow>| #[trigger]
                markdown::lists_artifacts_of(before, task.uuid, artifacts) && output@
                    == Printed::Text(markdown::context(task, artifacts)),
            (Ok(task), Err(error)) => before.task_named(task.uuid) == Err::<int, Failure>(error@),
            (Err(failure), Err(error)) => error@ == failure,
            _ => false,
        },
    }
}

fn nothing_or(result: Result<(), Error>) -> (output: Result<Output, Error>)
    ensures
        match (result, output) {
            (Ok(()), Ok(output)) => output@ == Printed::Nothing,
            (Err(first), Err(second)) => second@ == first@,
            _ => false,
        },
{
    match result {
        Ok(()) => Ok(Output::Nothing),
        Err(error) => Err(error),
    }
}

fn text_or(result: Result<String, Error>) -> (output: Result<Output, Error>)
    ensures
        match (result, output) {
            (Ok(value), Ok(output)) => output@ == Printed::Text(value@),
            (Err(first), Err(second)) => second@ == first@,
            _ => false,
        },
{
    match result {
        Ok(value) => Ok(Output::Text(value)),
        Err(error) => Err(error),
    }
}

fn output_tasks(tasks: Vec<Task>, json: bool) -> (output: Output)
    ensures
        output@ == tasks_printed(model::rows(tasks@), json),
{
    if json {
        Output::Tasks(tasks)
    } else {
        Output::Text(print_tasks(&tasks))
    }
}

/// Whether a command on tasks reads its standard input.
pub fn task_reads_input(command: &TaskCommand) -> (answer: bool)
    ensures
        answer == (*command is Create || *command is Update),
{
    match command {
        TaskCommand::Create { .. } => true,
        TaskCommand::Update { .. } => true,
        _ => false,
    }
}

/// Whether a command on tasks leaves the store as it is.
pub fn task_only_reads(command: &TaskCommand) -> (answer: bool)
    ensures
        answer == (*command is Read || *command is Search || *command is List || *command is Context),
        answer ==> forall|
            input: Seq<char>,
            before: State,
            after: State,
            result: Result<Output, Error>,
        | #[trigger]
            task_command(*command, input, before, after, result) ==> after == before,
{
    match command {
        TaskCommand::Read { .. } => true,
        TaskCommand::Search { .. } => true,
        TaskCommand::List { .. } => true,
        TaskCommand::Context { .. } => true,
        _ => false,
    }
}

/// Runs a command on tasks, with `input` as its standard input.
pub fn run_task(app: &mut App, command: TaskCommand, input: &str) -> (result: Result<Output, Error>)
    requires
        old(app)@.wf(),
    ensures
        final(app)@.wf(),
        state::order_kept(old(app)@, final(app)@),
        final(app).auth_path() == old(app).auth_path(),
        task_command(command, input@, old(app)@, final(app)@, result),
{
    match command {
        TaskCommand::Create { id } => {
            let created = app.create_task(id.as_str(), input);
            let ghost drawn = choose|uuid: Seq<char>, timestamp: Seq<char>| #[trigger]
                app::task_created(old(app)@, id@, input@, uuid, timestamp, created, app@);
            match created {
                Ok(task) => {
                    let result = Ok(Output::Text(text::concat2(task.uuid.as_str(), "\n")));
                    assert(task_creation_prints(
                        old(app)@,
                        id@,
                        input@,
                        drawn.0,
                        drawn.1,
                        result,
                        app@,
                    ));
                    result
                },
                Err(error) => {
                    let result = Err(error);
                    assert(task_creation_prints(
                        old(app)@,
                        id@,
                        input@,
                        drawn.0,
                        drawn.1,
                        result,
                        app@,
                    ));
                    result
                },
            }
        },
        TaskCommand::Read { id_or_uuid } => match app.read_task(id_or_uuid.as_str()) {
            Ok(task) => Ok(Output::Text(task.body)),
            Err(error) => Err(error),
        },
        TaskCommand::Update { id_or_uuid } => nothing_or(
            app.update_task(id_or_uuid.as_str(), input),
        ),
        TaskCommand::Rename { id_or_uuid, id } => nothing_or(
            app.rename_task(id_or_uuid.as_str(), id.as_str()),
        ),
        TaskCommand::Search { query, json } => match app.search_tasks(query.as_str()) {
            Ok(tasks) => Ok(output_tasks(tasks, json)),
            Err(error) => Err(error),
        },
        TaskCommand::List { json, archived, completed } => {
            let tasks = if archived {
                app.list_archived_tasks()
            } else if completed {
                app.list_completed_tasks()
            } else {
                app.list_tasks()
            };
            Ok(output_tasks(tasks, json))
        },
        TaskCommand::Complete { id_or_uuid } => nothing_or(
            app.complete_task(id_or_uuid.as_str()),
        ),
        TaskCommand::Reopen { id_or_uuid } => nothing_or(app.reopen_task(id_or_uuid.as_str())),
        TaskCommand::Archive { id_or_uuid } => nothing_or(app.archive_task(id_or_uuid.as_str())),
        TaskCommand::Delete { id_or_uuid, confirm } => {
            if !confirm {
                return Err(other("task deletion requires --confirm".to_owned()));
            }
            nothing_or(app.delete_task(id_or_uuid.as_str()))
        },
        TaskCommand::Context { id_or_uuid } => text_or(app.context_markdown(id_or_uuid.as_str())),
    }
}

/// A created artifact prints its UUID alone.
pub open spec fn artifact_creation_prints(
    before: State,
    task_key: Seq<char>,
    artifact_type: Seq<char>,
    name: Option<Seq<char>>,
    body: Seq<char>,
    uuid: Seq<char>,
    timestamp: Seq<char>,
    result: Result<Output, Error>,
    after: State,
) -> bool {
    &&& ident::is_canonical(uuid)
    &&& ident::is_time(timestamp)
    &&& match (
        before.create_artifact(task_key, artifact_type, name, body, uuid, timestamp),
        result,
    ) {
        (Ok(state), Ok(output)) => after == state && output@ == Printed::Text(uuid + "\n"@),
        (Err(failure), Err(error)) => error@ == failure && after == before,
        _ => false,
    }
}

/// What a command on artifacts does and prints, with `input` as its standard
/// input.
pub open spec fn artifact_command(
    command: ArtifactCommand,
    input: Seq<char>,
    before: State,
    after: State,
    result: Result<Output, Error>,
) -> bool {
    match command {
        ArtifactCommand::Create { task_id_or_uuid, artifact_type, name } => exists|
            uuid: Seq<char>,
            timestamp: Seq<char>,
        | #[trigger]
            artifact_creation_prints(
                before,
                task_id_or_uuid@,
                artifact_type@,
                text::optional(name),
                input,
                uuid,
                timestamp,
                result,
                after,
            ),
        ArtifactCommand::Read { uuid } => after == before && prints(
            match before.read_artifact(uuid@) {
                Ok(artifact) => Ok(artifact.body),
                Err(failure) => Err(failure),
            },
            result,
        ),
        ArtifactCommand::Update { uuid } => exists|timestamp: Seq<char>|
            ident::is_time(timestamp) && silent(
                #[trigger] before.update_artifact(uuid@, input, timestamp),
                before,
                after,
                result,
            ),
        ArtifactCommand::Rename { uuid, new_name } => exists|timestamp: Seq<char>|
            ident::is_time(timestamp) && silent(
                #[trigger] before.rename_artifact(uuid@, new_name@, timestamp),
                before,
                after,
                result,
            ),
        ArtifactCommand::List { task_id_or_uuid, of_type, json } => after == before && match (
            before.artifacts_task(task_id_or_uuid@, text::optional(of_type)),
            result,
        ) {
            (Ok(i), Ok(output)) => exists|artifacts: Seq<ArtifactRow>| #[trigger]
                before.lists_artifacts(
                    before.tasks[i].uuid,
                    text::optional(of_type),
                    artifacts,
                ) && output@ == artifacts_printed(artifacts, json),
            (Err(failure), Err(error)) => error@ == failure,
            _ => false,
        },
        ArtifactCommand::Info { uuid, json } => after == before && match (
            before.artifact_info(uuid@),
            result,
        ) {
            (Ok(info), Ok(output)) => output@ == if json {
                Printed::Info(info)
            } else {
                Printed::Text(info_lines(info))
            },
            (Err(failure), Err(error)) => error@ == failure,
            _ => false,
        },
        ArtifactCommand::Feedback { uuid, json } => after == before && match (
            before.read_artifact(uuid@),
            result,
        ) {
            (Ok(artifact), Ok(output)) => exists|annotations: Seq<AnnotationRow>| #[trigger]
                before.lists_annotations(artifact.uuid, false, annotations) && output@ == if json {
                    Printed::Annotations(annotations)
                } else {
                    Printed::Text(markdown::feedback(annotations, 1))
                },
            (Err(failure), Err(error)) => error@ == failure,
            _ => false,
        },
        ArtifactCommand::Review { uuid } => after == before && match (
            before.read_artifact(uuid@),
            result,
        ) {
            (Ok(artifact), Ok(output)) => exists|annotations: Seq<AnnotationRow>| #[trigger]
                before.lists_annotations(artifact.uuid, false, annotations) && output@
                    == Printed::Text(markdown::review(artifact.uuid, annotations)),
            (Err(failure), Err(error)) => error@ == failure,
            _ => false,
        },
    }
}

/// The artifacts that a command shows have names to show.
pub open spec fn can_be_named(command: ArtifactCommand, state: State) -> bool {
    match command {
        ArtifactCommand::List { task_id_or_uuid, of_type, json } => json || match (
        state.artifacts_task(task_id_or_uuid@, text::optional(of_type))) {
            Ok(i) => forall|artifact: ArtifactRow| #[trigger]
                state.artifacts_of(state.tasks[i].uuid, text::optional(of_type)).contains(artifact)
                    ==> artifact.has_display_name(),
            Err(_) => true,
        },
        ArtifactCommand::Info { uuid, json } => match state.read_artifact(uuid@) {
            Ok(artifact) => artifact.has_display_name(),
            Err(_) => true,
        },
        _ => true,
    }
}

/// Whether the artifacts that a command shows have names to show.
pub fn artifacts_can_be_named(app: &App, command: &ArtifactCommand) -> (answer: bool)
    requires
        app@.wf(),
    ensures
        answer == can_be_named(*command, app@),
{
    match command {
        ArtifactCommand::List { task_id_or_uuid, of_type, json } => {
            if *json {
                return true;
            }
            match app.list_artifacts(task_id_or_uuid.as_str(), text::borrow_optional(of_type)) {
                Err(_) => true,
                Ok(artifacts) => {
                    let ghost list = model::rows(artifacts@);
                    let ghost owner = app@.tasks[app@.artifacts_task(
                        task_id_or_uuid@,
                        text::optional(*of_type),
                    )->Ok_0].uuid;
                    let ghost source = app@.artifacts_of(owner, text::optional(*of_type));
                    proof {
                        order::ordered_holds_same(
                            list,
                            source,
                            source.map_values(
                                |artifact: ArtifactRow| state::artifact_key(artifact),
                            ),
                            false,
                        );
                    }
                    for i in 0..artifacts.len()
                        invariant
                            list == model::rows(artifacts@),
                            forall|item: ArtifactRow| #[trigger]
                                list.contains(item) <==> source.contains(item),
                            source == app@.artifacts_of(owner, text::optional(*of_type)),
                            owner == app@.tasks[app@.artifacts_task(
                                task_id_or_uuid@,
                                text::optional(*of_type),
                            )->Ok_0].uuid,
                            app@.artifacts_task(task_id_or_uuid@, text::optional(*of_type)) is Ok,
                            *command == (ArtifactCommand::List {
                                task_id_or_uuid: *task_id_or_uuid,
                                of_type: *of_type,
                                json: false,
                            }),
                            forall|k: int|
                                0 <= k < i ==> (#[trigger] list[k]).has_display_name(),
                    {
                        assert(list[i as int] == artifacts@[i as int]@);
                        if !artifacts[i].can_be_shown() {
                            assert(list.contains(list[i as int]));
                            assert(source.contains(list[i as int]));
                            return false;
                        }
                    }
                    assert forall|artifact: ArtifactRow| #[trigger]
                        source.contains(artifact) implies artifact.has_display_name() by {
                        assert(list.contains(artifact));
                    }
                    true
                },
            }
        },
        ArtifactCommand::Info { uuid, json: _ } => match app.read_artifact(uuid.as_str()) {
            Err(_) => true,
            Ok(artifact) => artifact.can_be_shown(),
        },
        _ => true,
    }
}

/// Whether a command on artifacts reads its standard input.
pub fn artifact_reads_input(command: &ArtifactCommand) -> (answer: bool)
    ensures
        answer == (*command is Create || *command is Update),
{
    match command {
        ArtifactCommand::Create { .. } => true,
        ArtifactCommand::Update { .. } => true,
        _ => false,
    }
}

/// Whether a command on artifacts leaves the store as it is.
pub fn artifact_only_reads(command: &ArtifactCommand) -> (answer: bool)
    ensures
        answer == (*command is Read || *command is List || *command is Info || *command is Feedback || *command is Review),
        answer ==> forall|
            input: Seq<char>,
            before: State,
            after: State,
            result: Result<Output, Error>,
        | #[trigger]
            artifact_command(*command, input, before, after, result) ==> after == before,
{
    match command {
        ArtifactCommand::Read { .. } => true,
        ArtifactCommand::List { .. } => true,
        ArtifactCommand::Info { .. } => true,
        ArtifactCommand::Feedback { .. } => true,
        ArtifactCommand::Review { .. } => true,
        _ => false,
    }
}

/// Runs a command on artifacts, with `input` as its standard input.
pub fn run_artifact(app: &mut App, command: ArtifactCommand, input: &str) -> (result: Result<
    Output,
    Error,
>)
    requires
        old(app)@.wf(),
        can_be_named(command, old(app)@),
    ensures
        final(app)@.wf(),
        state::order_kept(old(app)@, final(app)@),
        final(app).auth_path() == old(app).auth_path(),
        artifact_command(command, input@, old(app)@, final(app)@, result),
{
    match command {
        ArtifactCommand::Create { task_id_or_uuid, artifact_type, name } => {
            let created = app.create_artifact_with_name(
                task_id_or_uuid.as_str(),
                artifact_type.as_str(),
                text::borrow_optional(&name),
                input,
            );
            let ghost drawn = choose|uuid: Seq<char>, timestamp: Seq<char>| #[trigger]
                app::artifact_created(
                    old(app)@,
                    task_id_or_uuid@,
                    artifact_type@,
                    text::optional(name),
                    input@,
                    uuid,
                    timestamp,
                    created,
                    app@,
                );
            let result = match created {
                Ok(artifact) => Ok(Output::Text(text::concat2(artifact.uuid.as_str(), "\n"))),
                Err(error) => Err(error),
            };
            assert(artifact_creation_prints(
                old(app)@,
                task_id_or_uuid@,
                artifact_type@,
                text::optional(name),
                input@,
                drawn.0,
                drawn.1,
                result,
                app@,
            ));
            result
        },
        ArtifactCommand::Read { uuid } => match app.read_artifact(uuid.as_str()) {
            Ok(artifact) => Ok(Output::Text(artifact.body)),
            Err(error) => Err(error),
        },
        ArtifactCommand::Update { uuid } => nothing_or(app.update_artifact(uuid.as_str(), input)),
        ArtifactCommand::Rename { uuid, new_name } => nothing_or(
            app.rename_artifact(uuid.as_str(), new_name.as_str()),
        ),
        ArtifactCommand::List { task_id_or_uuid, of_type, json } => {
            match app.list_artifacts(
                task_id_or_uuid.as_str(),
                text::borrow_optional(&of_type),
            ) {
                Err(error) => Err(error),
                Ok(artifacts) => {
                    if json {
                        return Ok(Output::Artifacts(artifacts));
                    }
                    proof {
                        let i = app@.artifacts_task(
                            task_id_or_uuid@,
                            text::optional(of_type),
                        )->Ok_0;
                        let source = app@.artifacts_of(app@.tasks[i].uuid, text::optional(of_type));
                        let list = model::rows(artifacts@);
                        order::ordered_holds_same(
                            list,
                            source,
                            source.map_values(
                                |artifact: ArtifactRow| state::artifact_key(artifact),
                            ),
                            false,
                        );
                        assert forall|k: int| 0 <= k < artifacts@.len() implies (
                        #[trigger] artifacts@[k])@.has_display_name() by {
                            assert(list[k] == artifacts@[k]@);
                            assert(list.contains(list[k]));
                            assert(source.contains(list[k]));
                        }
                    }
                    Ok(Output::Text(print_artifacts(&artifacts)))
                },
            }
        },
        ArtifactCommand::Info { uuid, json } => {
            match app.artifact_info(uuid.as_str()) {
                Err(error) => Err(error),
                Ok(info) => if json {
                    Ok(Output::Info(info))
                } else {
                    Ok(Output::Text(print_info(&info)))
                },
            }
        },
        ArtifactCommand::Feedback { uuid, json } => {
            if json {
                match app.list_annotations(uuid.as_str(), false) {
                    Ok(annotations) => Ok(Output::Annotations(annotations)),
                    Err(error) => Err(error),
                }
            } else {
                text_or(app.feedback_markdown(uuid.as_str()))
            }
        },
        ArtifactCommand::Review { uuid } => text_or(app.review_markdown(uuid.as_str())),
    }
}

/// A created annotation prints its UUID alone.
pub open spec fn annotation_creation_prints(
    before: State,
    artifact_uuid: Seq<char>,
    input: NewAnnotationRow,
    uuid: Seq<char>,
    timestamp: Seq<char>,
    result: Result<Output, Error>,
    after: State,
) -> bool {
    &&& ident::is_canonical(uuid)
    &&& ident::is_time(timestamp)
    &&& match (before.create_annotation(artifact_uuid, input, uuid, timestamp), result) {
        (Ok(state), Ok(output)) => after == state && output@ == Printed::Text(uuid + "\n"@),
        (Err(failure), Err(error)) => error@ == failure && after == before,
        _ => false,
    }
}

/// What a command on annotations does and prints, with `input` as its standard
/// input.
pub open spec fn annotation_command(
    command: AnnotationCommand,
    input: Seq<char>,
    before: State,
    after: State,
    result: Result<Output, Error>,
) -> bool {
    match command {
        AnnotationCommand::Create {
            artifact_uuid,
            kind,
            start_offset,
            end_offset,
            selected_text,
        } => exists|uuid: Seq<char>, timestamp: Seq<char>| #[trigger]
            annotation_creation_prints(
                before,
                artifact_uuid@,
                NewAnnotationRow {
                    kind,
                    start_offset,
                    end_offset,
                    selected_text: text::optional(selected_text),
                    body: Some(input),
                },
                uuid,
                timestamp,
                result,
                after,
            ),
        AnnotationCommand::List { artifact_uuid, all, json } => after == before && match (
            before.read_artifact(artifact_uuid@),
            result,
        ) {
            (Ok(artifact), Ok(output)) => exists|annotations: Seq<AnnotationRow>| #[trigger]
                before.lists_annotations(artifact.uuid, all, annotations) && output@
                    == annotations_printed(annotations, json),
            (Err(failure), Err(error)) => error@ == failure,
            _ => false,
        },
        AnnotationCommand::Resolve { uuid } => exists|timestamp: Seq<char>|
            ident::is_time(timestamp) && silent(#[trigger] before.resolve_annotation(uuid@, timestamp), before, after, result),
    }
}

/// Whether a command on annotations reads its standard input.
pub fn annotation_reads_input(command: &AnnotationCommand) -> (answer: bool)
    ensures
        answer == (*command is Create),
{
    match command {
        AnnotationCommand::Create { .. } => true,
        _ => false,
    }
}

/// Whether a command on annotations leaves the store as it is.
pub fn annotation_only_reads(command: &AnnotationCommand) -> (answer: bool)
    ensures
        answer == (*command is List),
        answer ==> forall|
            input: Seq<char>,
            before: State,
            after: State,
            result: Result<Output, Error>,
        | #[trigger]
            annotation_command(*command, input, before, after, result) ==> after == before,
{
    match command {
        AnnotationCommand::List { .. } => true,
        _ => false,
    }
}

/// Runs a command on annotations, with `input` as its standard input.
pub fn run_annotation(app: &mut App, command: AnnotationCommand, input: &str) -> (result: Result<
    Output,
    Error,
>)
    requires
        old(app)@.wf(),
    ensures
        final(app)@.wf(),
        state::order_kept(old(app)@, final(app)@),
        final(app).auth_path() == old(app).auth_path(),
        annotation_command(command, input@, old(app)@, final(app)@, result),
{
    match command {
        AnnotationCommand::Create {
            artifact_uuid,
            kind,
            start_offset,
            end_offset,
            selected_text,
        } => {
            let wanted = NewAnnotation {
                kind,
                start_offset,
                end_offset,
                selected_text,
                body: Some(input.to_owned()),
            };
            let ghost row = wanted@;
            let created = app.create_annotation(artifact_uuid.as_str(), wanted);
            let ghost drawn = choose|uuid: Seq<char>, timestamp: Seq<char>| #[trigger]
                app::annotation_created(
                    old(app)@,
                    artifact_uuid@,
                    row,
                    uuid,
                    timestamp,
                    created,
                    app@,
                );
            let result = match created {
                Ok(annotation) => Ok(Output::Text(text::concat2(annotation.uuid.as_str(), "\n"))),
                Err(error) => Err(error),
            };
            assert(annotation_creation_prints(
                old(app)@,
                artifact_uuid@,
                row,
                drawn.0,
                drawn.1,
                result,
                app@,
            ));
            result
        },
        AnnotationCommand::List { artifact_uuid, all, json } => {
            match app.list_annotations(artifact_uuid.as_str(), all) {
                Err(error) => Err(error),
                Ok(annotations) => if json {
                    Ok(Output::Annotations(annotations))
                } else {
                    Ok(Output::Text(print_annotations(&annotations)))
                },
            }
        },
        AnnotationCommand::Resolve { uuid } => nothing_or(app.resolve_annotation(uuid.as_str())),
    }
}

/// Searches all texts for a pattern.
pub fn run_grep(app: &App, pattern: &str, json: bool) -> (result: Result<Output, Error>)
    requires
        app@.wf(),
        app@.all_named(),
    ensures
        match (grep::pattern_matches(pattern@, Seq::empty()), result) {
            (Ok(_), Ok(output)) => exists|documents: Seq<DocumentRow>| #[trigger]
                app@.lists_documents(documents) && output@ == if json {
                    Printed::Matches(grep::found(pattern@, documents))
                } else {
                    Printed::Text(match_lines(grep::found(pattern@, documents)))
                },
            (Err(reason), Err(error)) => error@ == Failure::Invalid(reason),
            _ => false,
        },
{
    match app.grep(pattern) {
        Err(error) => Err(error),
        Ok(matches) => if json {
            Ok(Output::Matches(matches))
        } else {
            Ok(Output::Text(print_matches(&matches)))
        },
    }
}

/// What an export is asked for: an optional task key and, last, the target.
pub open spec fn dump_request(args: Seq<Seq<char>>) -> Result<
    (Option<Seq<char>>, Seq<char>),
    Failure,
> {
    if args.len() == 1 {
        Ok((None, args[0]))
    } else if args.len() == 2 {
        Ok((Some(args[0]), args[1]))
    } else {
        Err(Failure::Other("dump accepts an optional task key followed by one target path"@))
    }
}

/// What an export is asked for.
pub fn dump_arguments(args: &Vec<String>) -> (result: Result<(Option<String>, String), Error>)
    ensures
        match (dump_request(text::texts(args@)), result) {
            (Ok(request), Ok(found)) => text::optional(found.0) == request.0 && found.1@
                == request.1,
            (Err(failure), Err(error)) => error@ == failure,
            _ => false,
        },
{
    if args.len() == 1 {
        Ok((None, args[0].clone()))
    } else if args.len() == 2 {
        Ok((Some(args[0].clone()), args[1].clone()))
    } else {
        Err(
            other(
                "dump accepts an optional task key followed by one target path".to_owned(),
            ),
        )
    }
}

/// A command on the server.
#[derive(Debug)]
pub enum ServeCommand {
    /// Serve until the program is stopped.
    Foreground,
    SetPassword,
    ClearPassword,
    /// Install the service, with options of its own.
    Install { bind: Option<String>, tailscale: bool },
    Status,
    Restart,
    Uninstall,
}

/// What a command on the server comes to.
#[derive(Debug)]
pub enum ServeAction {
    Serve(BindTarget),
    SetPassword,
    ClearPassword,
    Install(InstallOptions),
    Status,
    Restart,
    Uninstall,
}

/// What a command on the server comes to, with the options in front of it. The
/// address of an installed service is written down as it is; that of Tailscale is
/// looked up when the service starts. `valid` says whether the address that counts
/// is an IP address with a port.
pub open spec fn serve_command(
    command: ServeCommand,
    bind: Option<Seq<char>>,
    valid: bool,
    tailscale: bool,
    result: Result<ServeAction, Error>,
) -> bool {
    match command {
        ServeCommand::Foreground => match (bind::target(bind, valid, tailscale), result) {
            (Ok(target), Ok(ServeAction::Serve(found))) => found@ == target,
            (Err(failure), Err(error)) => error@ == failure,
            _ => false,
        },
        ServeCommand::SetPassword => result matches Ok(ServeAction::SetPassword),
        ServeCommand::ClearPassword => result matches Ok(ServeAction::ClearPassword),
        ServeCommand::Install { bind: install_bind, tailscale: install_tailscale } => match (
            bind::merged(
                text::optional(install_bind),
                bind,
                valid,
                install_tailscale || tailscale,
            ),
            result,
        ) {
            (Ok(merged), Ok(ServeAction::Install(options))) => options.bind() == merged
                && options.tailscale == (install_tailscale || tailscale),
            (Err(failure), Err(error)) => error@ == failure,
            _ => false,
        },
        ServeCommand::Status => result matches Ok(ServeAction::Status),
        ServeCommand::Restart => result matches Ok(ServeAction::Restart),
        ServeCommand::Uninstall => result matches Ok(ServeAction::Uninstall),
    }
}

/// The address that counts for a command on the server, with the option in front of
/// it.
pub open spec fn serve_bind(command: ServeCommand, bind: Option<Seq<char>>) -> Option<Seq<char>> {
    match command {
        ServeCommand::Foreground => bind,
        ServeCommand::Install { bind: install_bind, tailscale: _ } => bind::preferred(
            text::optional(install_bind),
            bind,
        ),
        _ => None,
    }
}

/// The address that counts for a command on the server, with the option in front of
/// it.
pub fn bind_of(command: &ServeCommand, bind: Option<&str>) -> (result: Option<String>)
    ensures
        text::optional(result) == serve_bind(*command, text::optional_str(bind)),
{
    match command {
        ServeCommand::Foreground => text::own_optional(bind),
        ServeCommand::Install { bind: install_bind, tailscale: _ } => match install_bind {
            Some(install_bind) => Some(install_bind.clone()),
            None => text::own_optional(bind),
        },
        _ => None,
    }
}

/// What a command on the server comes to, with the options in front of it. `valid`
/// says whether the address that counts, as [`bind_of`] gives it, is an IP address
/// with a port.
pub fn run_serve(
    command: ServeCommand,
    bind: Option<String>,
    valid: bool,
    tailscale: bool,
) -> (result: Result<ServeAction, Error>)
    ensures
        serve_command(command, text::optional(bind), valid, tailscale, result),
{
    match command {
        ServeCommand::Foreground => match bind::parse_bind_address(
            text::borrow_optional(&bind),
            valid,
            tailscale,
        ) {
            Ok(target) => Ok(ServeAction::Serve(target)),
            Err(error) => Err(error),
        },
        ServeCommand::SetPassword => Ok(ServeAction::SetPassword),
        ServeCommand::ClearPassword => Ok(ServeAction::ClearPassword),
        ServeCommand::Install { bind: install_bind, tailscale: install_tailscale } => {
            match bind::merge_bind(install_bind, bind, valid, install_tailscale, tailscale) {
                Ok(merged) => Ok(
                    ServeAction::Install(
                        InstallOptions { bind: merged, tailscale: install_tailscale || tailscale },
                    ),
                ),
                Err(error) => Err(error),
            }
        },
        ServeCommand::Status => Ok(ServeAction::Status),
        ServeCommand::Restart => Ok(ServeAction::Restart),
        ServeCommand::Uninstall => Ok(ServeAction::Uninstall),
    }
}

/// The service is started with an address or with Tailscale, never with both.
pub proof fn installed_with_one_address(
    command: ServeCommand,
    bind: Option<Seq<char>>,
    valid: bool,
    tailscale: bool,
    options: InstallOptions,
)
    requires
        serve_command(command, bind, valid, tailscale, Ok(ServeAction::Install(options))),
    ensures
        !(options.bind() is Some && options.tailscale),
{
}

} // verus!
