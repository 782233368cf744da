use alx::cli::{
    annotation_only_reads, annotation_reads_input, artifact_only_reads, artifact_reads_input,
    dump_arguments, optional_number, run_annotation, run_artifact, run_grep, run_task,
    task_only_reads, task_reads_input, tsv_field, AnnotationCommand, ArtifactCommand, Output,
    TaskCommand,
};
use alx::dump::DumpFile;
use alx::grep::select_lines;
use alx::model::SearchDocument;
use alx::store::Store;
use alx::{AnnotationKind, App, AGENT_SKILL};

fn new_app() -> App {
    App::new("password.hash".to_owned(), Store::new())
}

fn text(output: Output) -> String {
    match output {
        Output::Text(text) => text,
        Output::Nothing => String::new(),
        other => panic!("unexpected output: {other:?}"),
    }
}

fn task(app: &mut App, command: TaskCommand, input: &str) -> String {
    text(run_task(app, command, input).unwrap())
}

fn artifact(app: &mut App, command: ArtifactCommand, input: &str) -> String {
    text(run_artifact(app, command, input).unwrap())
}

fn annotation(app: &mut App, command: AnnotationCommand, input: &str) -> String {
    text(run_annotation(app, command, input).unwrap())
}

fn task_error(app: &mut App, command: TaskCommand, input: &str) -> String {
    run_task(app, command, input).unwrap_err().message()
}

fn read(key: &str) -> TaskCommand {
    TaskCommand::Read {
        id_or_uuid: key.to_owned(),
    }
}

fn list(json: bool, archived: bool, completed: bool) -> TaskCommand {
    TaskCommand::List {
        json,
        archived,
        completed,
    }
}

fn listed_tasks(app: &mut App, archived: bool, completed: bool) -> Vec<alx::model::Task> {
    match run_task(app, list(true, archived, completed), "").unwrap() {
        Output::Tasks(tasks) => tasks,
        other => panic!("unexpected output: {other:?}"),
    }
}

fn list_artifacts(key: &str, of_type: Option<&str>, json: bool) -> ArtifactCommand {
    ArtifactCommand::List {
        task_id_or_uuid: key.to_owned(),
        of_type: of_type.map(str::to_owned),
        json,
    }
}

fn listed_artifacts(app: &mut App, key: &str) -> Vec<alx::model::Artifact> {
    match run_artifact(app, list_artifacts(key, None, true), "").unwrap() {
        Output::Artifacts(artifacts) => artifacts,
        other => panic!("unexpected output: {other:?}"),
    }
}

fn create_task_with(app: &mut App, id: &str, body: &str) -> String {
    task(app, TaskCommand::Create { id: id.to_owned() }, body)
        .trim()
        .to_owned()
}

fn create_task(app: &mut App) -> String {
    create_task_with(app, "ARE-1175", "Task body\n")
}

fn create_artifact_with(app: &mut App, artifact_type: &str, name: Option<&str>, body: &str) -> String {
    artifact(
        app,
        ArtifactCommand::Create {
            task_id_or_uuid: "ARE-1175".to_owned(),
            artifact_type: artifact_type.to_owned(),
            name: name.map(str::to_owned),
        },
        body,
    )
    .trim()
    .to_owned()
}

fn create_artifact(app: &mut App) -> String {
    create_artifact_with(app, "research", None, "# Findings\n\nOld\n")
}

fn file<'a>(files: &'a [DumpFile], path: &str) -> Option<&'a str> {
    files
        .iter()
        .find(|file| file.path == path)
        .map(|file| file.contents.as_str())
}

#[test]
fn artifact_info_resolves_its_owning_task() {
    let mut app = new_app();
    let task_uuid = create_task(&mut app);
    let artifact_uuid = create_artifact(&mut app);

    let command = ArtifactCommand::Info {
        uuid: artifact_uuid.clone(),
        json: true,
    };
    let info = match run_artifact(&mut app, command, "").unwrap() {
        Output::Info(info) => info,
        other => panic!("unexpected output: {other:?}"),
    };
    assert_eq!(info.uuid, artifact_uuid);
    assert_eq!(info.task_uuid, task_uuid);
    assert_eq!(info.task_id, "ARE-1175");
    assert_eq!(info.artifact_type, "research");

    let command = ArtifactCommand::Info {
        uuid: artifact_uuid.clone(),
        json: false,
    };
    let plain = artifact(&mut app, command, "");
    assert!(plain.contains(&format!("Artifact UUID: {artifact_uuid}\n")));
    assert!(plain.contains("Task ID:      ARE-1175\n"));
    assert!(plain.contains(&format!("Task UUID:    {task_uuid}\n")));
    assert!(plain.contains("Type:         research\n"));
    assert!(plain.contains(&format!(
        "Name:         research--{}.md\n",
        &artifact_uuid[..8]
    )));
}

#[test]
fn grep_searches_tasks_artifacts_and_annotations_with_locations() {
    let mut app = new_app();
    create_task(&mut app);
    let artifact_uuid = create_artifact(&mut app);
    let annotation_uuid = annotation(
        &mut app,
        AnnotationCommand::Create {
            artifact_uuid: artifact_uuid.clone(),
            kind: AnnotationKind::Comment,
            start_offset: None,
            end_offset: None,
            selected_text: None,
        },
        "Old feedback\n",
    )
    .trim()
    .to_owned();

    let output = text(run_grep(&app, "body|Old", false).unwrap());
    assert!(output.contains("ARE-1175/task.md:1:Task body\n"));
    assert!(output.contains(&format!(
        "ARE-1175/research/research--{}.md [{artifact_uuid}]:3:Old\n",
        &artifact_uuid[..8],
    )));
    assert!(output.contains(&format!(
        "ARE-1175/research/research--{}.md/annotations/{annotation_uuid}.md [{artifact_uuid}]:1:Old feedback\n",
        &artifact_uuid[..8],
    )));

    let matches = match run_grep(&app, "^# Findings$", true).unwrap() {
        Output::Matches(matches) => matches,
        other => panic!("unexpected output: {other:?}"),
    };
    assert_eq!(matches.len(), 1);
    assert_eq!(
        matches[0].artifact_uuid.as_deref(),
        Some(artifact_uuid.as_str())
    );
    assert_eq!(matches[0].line_number, 1);
    assert_eq!(matches[0].line, "# Findings");
}

#[test]
fn grep_refuses_what_is_no_pattern() {
    let app = new_app();
    let error = run_grep(&app, "(", false).unwrap_err();
    assert!(matches!(error, alx::error::Error::Domain(_)));
    assert_eq!(run_grep(&app, "x", false).unwrap(), Output::Text(String::new()));
    let document = SearchDocument {
        path: "p".to_owned(),
        artifact_uuid: None,
        body: String::new(),
    };
    let lines = vec!["a".to_owned(), "b".to_owned(), "c".to_owned()];
    let found = select_lines(&document, &lines, &vec![true, false, true]);
    let numbers: Vec<u64> = found.iter().map(|found| found.line_number).collect();
    assert_eq!(numbers, vec![1, 3]);
    assert_eq!(found[1].line, "c");
    assert_eq!(found[1].path, "p");
}

#[test]
fn dump_writes_a_file_tree_with_task_and_artifact_files() {
    let mut app = new_app();
    create_task(&mut app);
    let artifact_uuid = create_artifact(&mut app);
    let files = app.dump(None).unwrap();

    assert_eq!(file(&files, "ARE-1175/task.md").unwrap(), "Task body\n");
    assert_eq!(
        file(
            &files,
            &format!("ARE-1175/research/research--{}.md", &artifact_uuid[..8])
        )
        .unwrap(),
        "# Findings\n\nOld\n"
    );
    assert_eq!(files.len(), 2);
}

#[test]
fn dump_with_task_key_limits_output_and_includes_inactive_tasks_by_default() {
    let mut app = new_app();
    create_task(&mut app);
    create_artifact(&mut app);
    create_task_with(&mut app, "ARE-2", "Other task\n");
    app.archive_task("ARE-2").unwrap();
    create_task_with(&mut app, "ARE-3", "Completed task\n");
    app.complete_task("ARE-3").unwrap();

    let single = app.dump(Some("ARE-1175")).unwrap();
    assert!(file(&single, "ARE-1175/task.md").is_some());
    assert!(!single.iter().any(|file| file.path.starts_with("ARE-2")));

    let all = app.dump(None).unwrap();
    assert!(file(&all, "ARE-1175/task.md").is_some());
    assert!(file(&all, "ARE-2/task.md").is_some());
    assert!(file(&all, "ARE-3/task.md").is_some());

    assert!(app
        .dump(Some("missing"))
        .unwrap_err()
        .message()
        .contains("task not found"));
}

#[test]
fn dump_suffixes_duplicate_artifact_names_and_sanitizes_unsafe_components() {
    let mut app = new_app();
    create_task(&mut app);
    create_artifact_with(&mut app, "a/b", Some("findings.md"), "first");
    let second = create_artifact_with(&mut app, "a/b", Some("findings.md"), "second");

    let files = app.dump(None).unwrap();
    assert_eq!(file(&files, "ARE-1175/a_b/findings.md").unwrap(), "first");
    assert_eq!(
        file(
            &files,
            &format!("ARE-1175/a_b/findings--{}.md", &second[..8])
        )
        .unwrap(),
        "second"
    );
}

#[test]
fn dump_of_one_task_lists_its_files_in_order() {
    let mut app = new_app();
    create_task(&mut app);
    let artifact_uuid = create_artifact(&mut app);
    create_task_with(&mut app, "ARE-2", "Other task\n");

    let files = app.dump(Some("ARE-1175")).unwrap();
    let names: Vec<String> = files.iter().map(|file| file.path.clone()).collect();
    assert_eq!(
        names,
        vec![
            "ARE-1175/task.md".to_owned(),
            format!("ARE-1175/research/research--{}.md", &artifact_uuid[..8]),
        ]
    );
    assert_eq!(file(&files, "ARE-1175/task.md").unwrap(), "Task body\n");
}

#[test]
fn create_read_list_search_and_context_stdout_contracts() {
    let mut app = new_app();
    let task_uuid = create_task(&mut app);
    assert!(alx::ident::require_uuid(&task_uuid).is_ok());

    assert_eq!(task(&mut app, read(&task_uuid), ""), "Task body\n");

    let plain_list = task(&mut app, list(false, false, false), "");
    let fields: Vec<_> = plain_list.trim_end().split('\t').collect();
    assert_eq!(fields.len(), 3);
    assert_eq!(fields[0], task_uuid);
    assert_eq!(fields[1], "ARE-1175");
    assert!(fields[2].contains('T'));
    let search = TaskCommand::Search {
        query: "body".to_owned(),
        json: false,
    };
    assert_eq!(task(&mut app, search, ""), plain_list);

    let listed = listed_tasks(&mut app, false, false);
    assert_eq!(listed.len(), 1);
    assert_eq!(listed[0].uuid, task_uuid);
    assert_eq!(listed[0].id, "ARE-1175");
    assert_eq!(listed[0].body, "Task body\n");
    let search = TaskCommand::Search {
        query: "body".to_owned(),
        json: true,
    };
    assert_eq!(run_task(&mut app, search, "").unwrap(), Output::Tasks(listed));

    let artifact_uuid = create_artifact(&mut app);
    let plain_artifacts = artifact(
        &mut app,
        list_artifacts("ARE-1175", Some("research"), false),
        "",
    );
    let fields: Vec<_> = plain_artifacts.trim_end().split('\t').collect();
    assert_eq!(fields.len(), 4);
    assert_eq!(fields[0], artifact_uuid);
    assert_eq!(fields[1], "research");
    assert_eq!(fields[2], format!("research--{}.md", &artifact_uuid[..8]));
    assert!(fields[3].contains('T'));
    let artifacts = listed_artifacts(&mut app, "ARE-1175");
    assert_eq!(artifacts.len(), 1);
    assert_eq!(artifacts[0].uuid, artifact_uuid);
    assert_eq!(
        artifacts[0].name.as_deref(),
        Some(format!("research--{}.md", &artifact_uuid[..8]).as_str())
    );
    assert_eq!(artifacts[0].body, "# Findings\n\nOld\n");

    let expected_context = format!(
        "# Task: ARE-1175\n\nTask body\n\n\n## Agent instructions\n\nWhen creating an artifact, provide a short descriptive filename with `--name` when there is an obvious one. Use the artifact UUID for all subsequent operations.\n\n## Artifacts\n\n### research ({artifact_uuid})\n\n# Findings\n\nOld\n\n"
    );
    let context = TaskCommand::Context {
        id_or_uuid: "ARE-1175".to_owned(),
    };
    assert_eq!(task(&mut app, context, ""), expected_context);
}

#[test]
fn task_complete_list_and_reopen_manage_the_completed_state() {
    let mut app = new_app();
    let task_uuid = create_task(&mut app);
    let key = || "ARE-1175".to_owned();

    let output = run_task(&mut app, TaskCommand::Complete { id_or_uuid: key() }, "").unwrap();
    assert_eq!(output, Output::Nothing);
    assert_eq!(task(&mut app, list(false, false, false), ""), "");
    let completed = listed_tasks(&mut app, false, true);
    assert_eq!(completed[0].uuid, task_uuid);
    assert!(completed[0].completed_at.is_some());

    assert!(
        task_error(&mut app, TaskCommand::Update { id_or_uuid: key() }, "blocked")
            .contains("read-only")
    );

    let output = run_task(&mut app, TaskCommand::Reopen { id_or_uuid: key() }, "").unwrap();
    assert_eq!(output, Output::Nothing);
    assert!(task(&mut app, list(false, false, false), "")
        .starts_with(&format!("{task_uuid}\tARE-1175\t")));
}

#[test]
fn task_archive_and_confirmation_gated_delete_have_no_stdout() {
    let mut app = new_app();
    let task_uuid = create_task(&mut app);
    create_artifact(&mut app);
    let key = || "ARE-1175".to_owned();

    let output = run_task(&mut app, TaskCommand::Archive { id_or_uuid: key() }, "").unwrap();
    assert_eq!(output, Output::Nothing);
    assert_eq!(task(&mut app, list(false, false, false), ""), "");
    let archived = listed_tasks(&mut app, true, false);
    assert_eq!(archived[0].uuid, task_uuid);
    assert!(archived[0].archived_at.is_some());

    let delete = |confirm: bool| TaskCommand::Delete {
        id_or_uuid: "ARE-1175".to_owned(),
        confirm,
    };
    assert!(task_error(&mut app, delete(false), "").contains("requires --confirm"));
    assert_eq!(run_task(&mut app, delete(true), "").unwrap(), Output::Nothing);
    assert!(task_error(&mut app, read("ARE-1175"), "").contains("task not found"));
}

#[test]
fn plain_task_output_escapes_tsv_control_characters() {
    let mut app = new_app();
    create_task_with(&mut app, "A\tB\\C\nD\rE", "body");
    let output = task(&mut app, list(false, false, false), "");
    assert_eq!(output.lines().count(), 1);
    let fields: Vec<_> = output.trim_end().split('\t').collect();
    assert_eq!(fields.len(), 3);
    assert_eq!(fields[1], "A\\tB\\\\C\\nD\\rE");
}

#[test]
fn artifact_names_can_be_set_and_renamed_without_changing_uuid_or_type() {
    let mut app = new_app();
    create_task(&mut app);
    let artifact_uuid = create_artifact_with(
        &mut app,
        "research",
        Some("meilisearch-index-findings.md"),
        "findings",
    );

    let rename = ArtifactCommand::Rename {
        uuid: artifact_uuid.clone(),
        new_name: "pwa-filter-semantics.md".to_owned(),
    };
    assert_eq!(run_artifact(&mut app, rename, "").unwrap(), Output::Nothing);

    let artifacts = listed_artifacts(&mut app, "ARE-1175");
    assert_eq!(artifacts[0].uuid, artifact_uuid);
    assert_eq!(artifacts[0].artifact_type, "research");
    assert_eq!(
        artifacts[0].name.as_deref(),
        Some("pwa-filter-semantics.md")
    );
    assert_eq!(artifacts[0].body, "findings");
}

#[test]
fn task_update_has_no_stdout_and_replaces_body() {
    let mut app = new_app();
    let task_uuid = create_task(&mut app);
    let update = |key: &str| TaskCommand::Update {
        id_or_uuid: key.to_owned(),
    };

    let output = run_task(&mut app, update("ARE-1175"), "revised body\n").unwrap();
    assert_eq!(output, Output::Nothing);
    assert_eq!(task(&mut app, read(&task_uuid), ""), "revised body\n");

    assert!(task_error(&mut app, update("missing"), "body").contains("task not found"));
}

#[test]
fn task_rename_has_no_stdout_and_keeps_uuid_body_and_artifacts() {
    let mut app = new_app();
    let task_uuid = create_task(&mut app);
    let artifact_uuid = create_artifact(&mut app);
    let rename = |from: &str, to: &str| TaskCommand::Rename {
        id_or_uuid: from.to_owned(),
        id: to.to_owned(),
    };

    let output = run_task(&mut app, rename("ARE-1175", "ARE-1176"), "").unwrap();
    assert_eq!(output, Output::Nothing);

    assert!(task_error(&mut app, read("ARE-1175"), "").contains("task not found"));
    assert_eq!(task(&mut app, read("ARE-1176"), ""), "Task body\n");
    let tasks = listed_tasks(&mut app, false, false);
    assert_eq!(tasks[0].uuid, task_uuid);
    assert_eq!(tasks[0].id, "ARE-1176");
    let artifacts = listed_artifacts(&mut app, "ARE-1176");
    assert_eq!(artifacts[0].uuid, artifact_uuid);

    create_task_with(&mut app, "ARE-1177", "other");
    assert!(task_error(&mut app, rename("ARE-1176", "ARE-1177"), "").contains("already exists"));
}

#[test]
fn artifact_update_has_no_stdout_and_replaces_body() {
    let mut app = new_app();
    create_task(&mut app);
    let artifact_uuid = create_artifact(&mut app);

    let update = ArtifactCommand::Update {
        uuid: artifact_uuid.clone(),
    };
    assert_eq!(run_artifact(&mut app, update, "replacement").unwrap(), Output::Nothing);
    let read = ArtifactCommand::Read {
        uuid: artifact_uuid,
    };
    assert_eq!(artifact(&mut app, read, ""), "replacement");
}

#[test]
fn annotation_cli_creates_lists_feedback_and_resolves() {
    let mut app = new_app();
    create_task(&mut app);
    let artifact_uuid = create_artifact(&mut app);
    let annotation_uuid = annotation(
        &mut app,
        AnnotationCommand::Create {
            artifact_uuid: artifact_uuid.clone(),
            kind: AnnotationKind::Question,
            start_offset: Some(0),
            end_offset: Some(8),
            selected_text: Some("Findings".to_owned()),
        },
        "Why?",
    )
    .trim()
    .to_owned();
    let listing = |all: bool, json: bool| AnnotationCommand::List {
        artifact_uuid: artifact_uuid.clone(),
        all,
        json,
    };

    assert_eq!(
        annotation(&mut app, listing(false, false), ""),
        format!("{annotation_uuid}\tquestion\t0\t8\t\\N\n")
    );
    let feedback = |json: bool| ArtifactCommand::Feedback {
        uuid: artifact_uuid.clone(),
        json,
    };
    assert_eq!(
        artifact(&mut app, feedback(false), ""),
        "# Feedback\n\n## Question\n\n> Findings\n\nWhy?\n"
    );
    let review = ArtifactCommand::Review {
        uuid: artifact_uuid.clone(),
    };
    assert_eq!(
        artifact(&mut app, review, ""),
        format!(
            "# Artifact Review\n\nArtifact UUID: {artifact_uuid}\n\nYou must review and address all unresolved feedback below.\n\nRules:\n- Read the current artifact before making changes.\n- Address every unresolved `comment`, `question`, and `scratch`.\n- Treat `good` annotations as guidance to preserve that part unless conflicting feedback requires otherwise.\n- Do not resolve annotations until their feedback has been addressed.\n- Update the existing artifact instead of creating a replacement unless explicitly requested.\n\n## Feedback\n\n### Question\n\n> Findings\n\nWhy?\n"
        )
    );
    let unresolved = match run_artifact(&mut app, feedback(true), "").unwrap() {
        Output::Annotations(annotations) => annotations,
        other => panic!("unexpected output: {other:?}"),
    };
    assert_eq!(unresolved.len(), 1);
    assert_eq!(unresolved[0].uuid, annotation_uuid);
    assert_eq!(unresolved[0].selected_text.as_deref(), Some("Findings"));
    assert_eq!(unresolved[0].body.as_deref(), Some("Why?"));
    assert!(unresolved[0].resolved_at.is_none());

    let resolve = AnnotationCommand::Resolve {
        uuid: annotation_uuid.clone(),
    };
    assert_eq!(run_annotation(&mut app, resolve, "").unwrap(), Output::Nothing);
    assert_eq!(annotation(&mut app, listing(false, false), ""), "");
    let all_plain = annotation(&mut app, listing(true, false), "");
    let fields: Vec<_> = all_plain.trim_end().split('\t').collect();
    assert_eq!(fields.len(), 5);
    assert_eq!(fields[0], annotation_uuid);
    assert_ne!(fields[4], "\\N");
    let all = match run_annotation(&mut app, listing(true, true), "").unwrap() {
        Output::Annotations(annotations) => annotations,
        other => panic!("unexpected output: {other:?}"),
    };
    assert_eq!(all.len(), 1);
    assert!(all[0].resolved_at.is_some());
}

#[test]
fn skill_holds_the_instructions_for_agents() {
    assert!(AGENT_SKILL.contains(
        "When creating an artifact, provide a short descriptive filename with `--name` when there is an obvious one. Use the artifact UUID for all subsequent operations."
    ));
    assert!(AGENT_SKILL.starts_with("---\nname: alx\n"));
    assert!(AGENT_SKILL.ends_with("does not modify the database.\n"));
}

#[test]
fn fields_are_told_apart() {
    assert_eq!(tsv_field("a\\tb"), "a\\\\tb");
    assert_ne!(tsv_field("a\\tb"), tsv_field("a\tb"));
    assert_eq!(optional_number(None), "\\N");
    assert_eq!(optional_number(Some(u64::MAX)), u64::MAX.to_string());
    assert_eq!(optional_number(Some(0)), "0");
}

#[test]
fn commands_know_whether_they_read_input() {
    assert!(task_reads_input(&TaskCommand::Create { id: String::new() }));
    assert!(task_reads_input(&TaskCommand::Update {
        id_or_uuid: String::new()
    }));
    assert!(!task_reads_input(&read("x")));
    assert!(artifact_reads_input(&ArtifactCommand::Update {
        uuid: String::new()
    }));
    assert!(!artifact_reads_input(&ArtifactCommand::Read {
        uuid: String::new()
    }));
    assert!(!annotation_reads_input(&AnnotationCommand::Resolve {
        uuid: String::new()
    }));
}

#[test]
fn dump_takes_an_optional_key_and_a_target() {
    let args = |values: &[&str]| values.iter().map(|value| value.to_string()).collect();
    assert_eq!(
        dump_arguments(&args(&["target"])).unwrap(),
        (None, "target".to_owned())
    );
    assert_eq!(
        dump_arguments(&args(&["key", "target"])).unwrap(),
        (Some("key".to_owned()), "target".to_owned())
    );
    assert_eq!(
        dump_arguments(&args(&[])).unwrap_err().message(),
        "dump accepts an optional task key followed by one target path"
    );
    assert!(dump_arguments(&args(&["a", "b", "c"])).is_err());
}

#[test]
fn every_listed_task_is_one_line_of_three_fields() {
    let mut app = App::new(String::new(), Store::new());
    app.create_task("a\tb\r\nc\\", "x\ty").unwrap();
    app.create_task("plain", "").unwrap();
    let command = TaskCommand::List {
        json: false,
        archived: false,
        completed: false,
    };
    let Output::Text(printed) = run_task(&mut app, command, "").unwrap() else {
        panic!("a list is printed as a text");
    };
    assert_eq!(printed.lines().count(), 2);
    assert!(printed.lines().all(|line| line.matches('\t').count() == 2));
    assert!(printed.contains("\ta\\tb\\r\\nc\\\\\t"));
}

#[test]
fn commands_that_only_read_are_told_apart() {
    assert!(task_only_reads(&read("T")));
    assert!(task_only_reads(&list(false, true, false)));
    assert!(!task_only_reads(&TaskCommand::Create { id: "T".to_owned() }));
    assert!(artifact_only_reads(&ArtifactCommand::Read { uuid: "u".to_owned() }));
    assert!(!artifact_only_reads(&ArtifactCommand::Update { uuid: "u".to_owned() }));
    assert!(annotation_only_reads(&AnnotationCommand::List {
        artifact_uuid: "u".to_owned(),
        all: true,
        json: false,
    }));
    assert!(!annotation_only_reads(&AnnotationCommand::Resolve { uuid: "u".to_owned() }));
}
