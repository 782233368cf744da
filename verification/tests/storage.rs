use alx::app::App;
use alx::changes::changes;
use alx::ident::random_token;
use alx::model::{Annotation, AnnotationKind, Artifact, NewAnnotation, SearchDocument, Task};
use alx::schema::{migration_steps, Column, Columns, MigrationStep};
use alx::store::Store;

fn test_app() -> App {
    App::new("password.hash".to_owned(), Store::new())
}

fn recorded_versions(columns: Columns) -> Vec<u8> {
    let mut versions = Vec::new();
    for step in migration_steps(columns) {
        if let MigrationStep::RecordVersion(version) = step {
            versions.push(version);
        }
    }
    versions
}

fn comment(body: Option<&str>) -> NewAnnotation {
    NewAnnotation {
        kind: AnnotationKind::Comment,
        start_offset: None,
        end_offset: None,
        selected_text: None,
        body: body.map(str::to_owned),
    }
}

#[test]
fn migrates_and_supports_task_crud_and_lookup() {
    let mut app = test_app();
    let columns = Columns {
        artifact_name: true,
        task_archived_at: true,
        task_completed_at: true,
    };
    assert_eq!(recorded_versions(columns), vec![1, 2, 3, 4]);

    let task = app.create_task("ARE-1175", "Investigate search").unwrap();
    assert_eq!(app.read_task("ARE-1175").unwrap(), task);
    assert_eq!(app.read_task(&task.uuid).unwrap(), task);
    assert_eq!(app.list_tasks(), vec![task.clone()]);
    assert_eq!(app.search_tasks("search").unwrap(), vec![task]);
}

#[test]
fn completed_tasks_are_read_only_and_reopenable() {
    let mut app = test_app();
    let task = app.create_task("COMPLETE-1", "body").unwrap();
    let artifact = app.create_artifact(&task.uuid, "notes", "text").unwrap();
    let annotation = app
        .create_annotation(
            &artifact.uuid,
            NewAnnotation {
                kind: AnnotationKind::Comment,
                start_offset: None,
                end_offset: None,
                selected_text: None,
                body: Some("feedback".into()),
            },
        )
        .unwrap();

    app.complete_task("COMPLETE-1").unwrap();
    app.complete_task(&task.uuid).unwrap();
    assert!(app.list_tasks().is_empty());
    assert!(app.search_tasks("body").unwrap().is_empty());
    let completed = app.list_completed_tasks();
    assert_eq!(completed.len(), 1);
    assert!(completed[0].completed_at.is_some());
    assert!(completed[0].archived_at.is_none());

    assert!(app.update_task(&task.uuid, "changed").is_err());
    assert!(app.create_artifact(&task.uuid, "more", "blocked").is_err());
    assert!(app.update_artifact(&artifact.uuid, "changed").is_err());
    assert!(app.rename_artifact(&artifact.uuid, "changed.md").is_err());
    assert!(app
        .create_annotation(
            &artifact.uuid,
            NewAnnotation {
                kind: AnnotationKind::Good,
                start_offset: None,
                end_offset: None,
                selected_text: None,
                body: None,
            },
        )
        .is_err());
    assert!(app.resolve_annotation(&annotation.uuid).is_err());

    app.reopen_task("COMPLETE-1").unwrap();
    app.reopen_task(&task.uuid).unwrap();
    assert!(app.list_completed_tasks().is_empty());
    assert_eq!(app.list_tasks().len(), 1);
    app.update_task(&task.uuid, "changed").unwrap();
    app.update_artifact(&artifact.uuid, "changed").unwrap();
    app.resolve_annotation(&annotation.uuid).unwrap();

    app.complete_task(&task.uuid).unwrap();
    app.archive_task(&task.uuid).unwrap();
    assert!(app.list_completed_tasks().is_empty());
    assert_eq!(app.list_archived_tasks().len(), 1);
    assert!(app.reopen_task(&task.uuid).is_err());
}

#[test]
fn archives_tasks_and_permanently_deletes_their_content() {
    let mut app = test_app();
    let task = app.create_task("ARCHIVE-1", "searchable body").unwrap();
    let artifact = app
        .create_artifact(&task.uuid, "notes", "artifact body")
        .unwrap();
    app.create_annotation(&artifact.uuid, comment(Some("feedback")))
        .unwrap();

    app.archive_task("ARCHIVE-1").unwrap();
    app.archive_task(&task.uuid).unwrap();
    assert!(app.list_tasks().is_empty());
    assert!(app.search_tasks("searchable").unwrap().is_empty());
    let archived = app.list_archived_tasks();
    assert_eq!(archived.len(), 1);
    assert!(archived[0].archived_at.is_some());
    assert_eq!(app.read_task("ARCHIVE-1").unwrap().uuid, task.uuid);

    app.delete_task("ARCHIVE-1").unwrap();
    assert!(app.list_archived_tasks().is_empty());
    assert!(app.read_task(&task.uuid).is_err());
    assert!(app.read_artifact(&artifact.uuid).is_err());
}

#[test]
fn normalizes_uuid_lookups_and_rejects_cross_namespace_collisions() {
    let mut app = test_app();
    let task = app.create_task("T-UUID", "body").unwrap();
    assert_eq!(
        app.read_task(&task.uuid.to_uppercase()).unwrap().uuid,
        task.uuid
    );

    let error = app.create_task(&task.uuid, "collision").unwrap_err();
    assert!(error.message().contains("conflicts"));

    let artifact = app.create_artifact("T-UUID", "notes", "old").unwrap();
    let uppercase_artifact = artifact.uuid.to_uppercase();
    assert_eq!(
        app.read_artifact(&uppercase_artifact).unwrap().uuid,
        artifact.uuid
    );
    app.update_artifact(&uppercase_artifact, "new").unwrap();
    let annotation = app
        .create_annotation(&uppercase_artifact, comment(Some("note")))
        .unwrap();
    assert_eq!(annotation.artifact_uuid, artifact.uuid);
    assert_eq!(
        app.list_annotations(&uppercase_artifact, false)
            .unwrap()
            .len(),
        1
    );
    app.resolve_annotation(&annotation.uuid.to_uppercase())
        .unwrap();
    assert!(app
        .list_annotations(&uppercase_artifact, false)
        .unwrap()
        .is_empty());
}

fn old_task() -> Task {
    Task {
        uuid: "01900000-0000-7000-8000-000000000001".to_owned(),
        id: "OLD-1".to_owned(),
        body: "task".to_owned(),
        created_at: "2025-01-01T00:00:00Z".to_owned(),
        updated_at: "2025-01-01T00:00:00Z".to_owned(),
        archived_at: None,
        completed_at: None,
    }
}

fn old_artifact() -> Artifact {
    Artifact {
        uuid: "01900000-0000-7000-8000-000000000002".to_owned(),
        task_uuid: "01900000-0000-7000-8000-000000000001".to_owned(),
        artifact_type: "research".to_owned(),
        name: None,
        body: "body".to_owned(),
        created_at: "2025-01-01T00:00:00Z".to_owned(),
        updated_at: "2025-01-01T00:00:00Z".to_owned(),
    }
}

#[test]
fn migrates_existing_tasks_and_artifacts_with_nullable_metadata() {
    let columns = Columns {
        artifact_name: false,
        task_archived_at: false,
        task_completed_at: false,
    };
    assert_eq!(recorded_versions(columns), vec![1, 2, 3, 4]);
    let store = Store::from_records(vec![old_task()], vec![old_artifact()], Vec::new()).unwrap();
    let app = App::new("password.hash".to_owned(), store);
    assert_eq!(app.read_task("OLD-1").unwrap().archived_at, None);
    assert_eq!(app.read_task("OLD-1").unwrap().completed_at, None);
    let artifact = app
        .read_artifact("01900000-0000-7000-8000-000000000002")
        .unwrap();
    assert_eq!(artifact.name, None);
    assert_eq!(artifact.display_name(), "research--01900000.md");
}

#[test]
fn permits_duplicate_artifact_types_and_keeps_them_in_context() {
    let mut app = test_app();
    let task = app.create_task("ARE-1", "Task body").unwrap();
    let first = app.create_artifact(&task.uuid, "notes", "First").unwrap();
    let second = app.create_artifact("ARE-1", "notes", "Second").unwrap();

    let artifacts = app.list_artifacts("ARE-1", Some("notes")).unwrap();
    assert_eq!(artifacts.len(), 2);
    assert_eq!(artifacts[0].uuid, first.uuid);
    assert_eq!(artifacts[1].uuid, second.uuid);

    let context = app.context_markdown("ARE-1").unwrap();
    assert!(context.contains("# Task: ARE-1"));
    assert!(context.contains(&format!("### notes ({})", first.uuid)));
    assert!(context.contains(&format!("### notes ({})", second.uuid)));
    assert!(context.contains("First"));
    assert!(context.contains("Second"));
}

#[test]
fn names_allow_duplicates_and_do_not_change_identity_type_or_references() {
    let mut app = test_app();
    app.create_task("T-NAMES", "body").unwrap();
    let first = app
        .create_artifact_with_name("T-NAMES", "research", Some("same.md"), "one")
        .unwrap();
    let second = app
        .create_artifact_with_name("T-NAMES", "plan", Some("other.md"), "two")
        .unwrap();
    let annotation = app
        .create_annotation(&first.uuid, comment(Some("note")))
        .unwrap();

    app.rename_artifact(&first.uuid, "renamed.md").unwrap();
    app.rename_artifact(&second.uuid, "renamed.md").unwrap();

    let renamed = app.read_artifact(&first.uuid).unwrap();
    assert_eq!(renamed.uuid, first.uuid);
    assert_eq!(renamed.task_uuid, first.task_uuid);
    assert_eq!(renamed.artifact_type, "research");
    assert_eq!(renamed.name.as_deref(), Some("renamed.md"));
    assert_eq!(renamed.body, "one");
    assert_eq!(app.read_artifact(&second.uuid).unwrap().name, renamed.name);
    assert_eq!(
        app.list_annotations(&first.uuid, false).unwrap()[0].uuid,
        annotation.uuid
    );
}

#[test]
fn updates_tasks_and_artifacts_and_reports_missing_records() {
    let mut app = test_app();
    let task = app.create_task("T-1", "body").unwrap();
    app.update_task("T-1", "revised").unwrap();
    let updated = app.read_task(&task.uuid).unwrap();
    assert_eq!(updated.body, "revised");
    assert_eq!(updated.id, task.id);
    assert!(updated.updated_at >= task.updated_at);
    let artifact = app.create_artifact("T-1", "plan", "old").unwrap();
    app.update_artifact(&artifact.uuid, "new").unwrap();
    assert_eq!(app.read_artifact(&artifact.uuid).unwrap().body, "new");
    assert!(app
        .read_task("missing")
        .unwrap_err()
        .message()
        .contains("not found"));
}

#[test]
fn feedback_is_grouped_and_resolved_annotations_are_filtered() {
    let mut app = test_app();
    app.create_task("T-2", "body").unwrap();
    let artifact = app.create_artifact("T-2", "research", "text").unwrap();
    let question = app
        .create_annotation(
            &artifact.uuid,
            NewAnnotation {
                kind: AnnotationKind::Question,
                start_offset: Some(0),
                end_offset: Some(4),
                selected_text: Some("line one\nline two".into()),
                body: Some("Are we sure?".into()),
            },
        )
        .unwrap();
    app.create_annotation(
        &artifact.uuid,
        NewAnnotation {
            kind: AnnotationKind::Good,
            start_offset: None,
            end_offset: None,
            selected_text: Some("Keep this".into()),
            body: None,
        },
    )
    .unwrap();

    let feedback = app.feedback_markdown(&artifact.uuid).unwrap();
    assert!(feedback.starts_with("# Feedback\n"));
    assert!(feedback.contains("## Question"));
    assert!(feedback.contains("> line one\n> line two"));
    assert!(feedback.contains("Are we sure?"));
    assert!(feedback.contains("## Good"));

    let review = app.review_markdown(&artifact.uuid).unwrap();
    assert!(review.starts_with(&format!(
        "# Artifact Review\n\nArtifact UUID: {}\n",
        artifact.uuid
    )));
    assert!(review.contains("\n## Feedback\n"));
    assert!(review.contains("\n### Question\n"));
    assert!(review.contains("\n### Good\n"));
    assert!(!review.contains("\n# Feedback\n"));

    app.resolve_annotation(&question.uuid).unwrap();
    let unresolved = app.list_annotations(&artifact.uuid, false).unwrap();
    assert_eq!(unresolved.len(), 1);
    assert_eq!(unresolved[0].kind, AnnotationKind::Good);
    assert_eq!(app.list_annotations(&artifact.uuid, true).unwrap().len(), 2);
    assert!(!app
        .feedback_markdown(&artifact.uuid)
        .unwrap()
        .contains("Are we sure?"));
}

#[test]
fn validates_annotation_offsets_and_input() {
    let mut app = test_app();
    app.create_task("T-3", "body").unwrap();
    let artifact = app.create_artifact("T-3", "x", "body").unwrap();
    let error = app
        .create_annotation(
            &artifact.uuid,
            NewAnnotation {
                kind: AnnotationKind::Comment,
                start_offset: Some(4),
                end_offset: Some(2),
                selected_text: None,
                body: None,
            },
        )
        .unwrap_err();
    assert!(error.message().contains("end offset"));
    assert!(app.create_task(" ", "").is_err());
    assert!(app.create_artifact("T-3", "", "").is_err());
}

// ---------------------------------------------------------------- operations one by one

fn message<T>(result: Result<T, alx::error::Error>) -> String {
    match result {
        Ok(_) => panic!("expected an error"),
        Err(error) => error.message(),
    }
}

#[test]
fn created_task_is_found_in_every_form_of_its_uuid() {
    let mut app = test_app();
    let task = app.create_task("FORMS", "body").unwrap();
    let digits = task.uuid.replace('-', "");
    assert_eq!(app.read_task(&digits).unwrap(), task);
    assert_eq!(app.read_task(&format!("{{{}}}", task.uuid)).unwrap(), task);
    assert_eq!(app.read_task(&format!("urn:uuid:{}", task.uuid)).unwrap(), task);
    assert_eq!(&task.uuid[14..15], "7");
    assert!(task.created_at.contains('T'));
    assert_eq!(task.created_at, task.updated_at);
}

#[test]
fn task_errors_name_what_is_wrong() {
    let mut app = test_app();
    let task = app.create_task("ONE", "body").unwrap();
    app.create_task("TWO", "body").unwrap();
    assert_eq!(message(app.create_task("", "")), "task id must not be empty");
    assert_eq!(message(app.create_task("ONE", "")), "task id already exists: ONE");
    assert_eq!(
        message(app.create_task(&task.uuid, "")),
        format!("task id conflicts with an existing task UUID: {}", task.uuid)
    );
    assert_eq!(message(app.read_task(" \t")), "task identifier must not be empty");
    assert_eq!(message(app.read_task("three")), "task not found: three");
    assert_eq!(message(app.rename_task("ONE", "")), "task id must not be empty");
    assert_eq!(message(app.rename_task("ONE", "TWO")), "task id already exists: TWO");
    assert_eq!(message(app.edit_task("ONE", None, None)), "task edit requires an id or body");
    assert_eq!(message(app.search_tasks(" ")), "search query must not be empty");
    app.complete_task("ONE").unwrap();
    assert_eq!(message(app.update_task("ONE", "x")), "completed task is read-only: ONE");
    app.archive_task("ONE").unwrap();
    assert_eq!(message(app.update_task("ONE", "x")), "archived task is read-only: ONE");
    assert_eq!(message(app.complete_task("ONE")), "archived task cannot be completed: ONE");
    assert_eq!(message(app.reopen_task("ONE")), "archived task cannot be reopened: ONE");
}

#[test]
fn ambiguous_identifiers_are_refused() {
    let mut first = old_task();
    first.id = "01900000-0000-7000-8000-000000000009".to_owned();
    let mut second = old_task();
    second.uuid = "01900000-0000-7000-8000-000000000009".to_owned();
    second.id = "SECOND".to_owned();
    let store = Store::from_records(vec![first, second], Vec::new(), Vec::new()).unwrap();
    let app = App::new("password.hash".to_owned(), store);
    assert_eq!(
        message(app.read_task("01900000-0000-7000-8000-000000000009")),
        "ambiguous task identifier matches an id and a UUID: 01900000-0000-7000-8000-000000000009"
    );
    assert_eq!(app.read_task("SECOND").unwrap().id, "SECOND");
}

#[test]
fn a_uuid_that_could_be_an_id_is_not_used() {
    let mut store = Store::new();
    let uuid = "01900000-0000-7000-8000-00000000000a";
    assert_eq!(store.create_task(uuid, "body", uuid, "now").unwrap(), None);
    let other = "01900000-0000-7000-8000-00000000000b";
    let task = store.create_task(uuid, "body", other, "now").unwrap().unwrap();
    assert_eq!(task.uuid, other);
    assert_eq!(store.create_task("next", "", uuid, "now").unwrap(), None);
    assert_eq!(
        message(store.create_task("next", "", other, "now")),
        "failed to create task next"
    );
}

#[test]
fn records_that_break_a_rule_make_no_store() {
    let mut twin = old_task();
    twin.uuid = "01900000-0000-7000-8000-000000000003".to_owned();
    assert!(Store::from_records(vec![old_task(), twin], Vec::new(), Vec::new()).is_none());
    assert!(Store::from_records(vec![old_task(), old_task()], Vec::new(), Vec::new()).is_none());
    assert!(Store::from_records(Vec::new(), vec![old_artifact()], Vec::new()).is_none());
    let stray = Annotation {
        uuid: "01900000-0000-7000-8000-000000000004".to_owned(),
        artifact_uuid: "01900000-0000-7000-8000-000000000005".to_owned(),
        kind: AnnotationKind::Good,
        start_offset: None,
        end_offset: None,
        selected_text: None,
        body: None,
        created_at: String::new(),
        resolved_at: None,
    };
    assert!(
        Store::from_records(vec![old_task()], vec![old_artifact()], vec![stray]).is_none()
    );
}

#[test]
fn artifact_errors_name_what_is_wrong() {
    let mut app = test_app();
    app.create_task("ONE", "body").unwrap();
    let artifact = app.create_artifact("ONE", "notes", "text").unwrap();
    assert_eq!(message(app.create_artifact("ONE", " ", "")), "artifact type must not be empty");
    assert_eq!(
        message(app.create_artifact_with_name("ONE", "notes", Some(""), "")),
        "artifact name must not be empty"
    );
    assert_eq!(message(app.create_artifact("none", "notes", "")), "task not found: none");
    assert_eq!(message(app.read_artifact("nonsense")), "invalid UUID: nonsense");
    let missing = "01900000-0000-7000-8000-00000000ffff";
    assert_eq!(
        message(app.read_artifact(missing)),
        format!("artifact not found: {missing}")
    );
    assert_eq!(
        message(app.rename_artifact(&artifact.uuid, " ")),
        "artifact name must not be empty"
    );
    assert_eq!(
        message(app.list_artifacts("ONE", Some(""))),
        "artifact type must not be empty"
    );
    assert_eq!(
        artifact.name.as_deref(),
        Some(format!("notes--{}.md", &artifact.uuid[..8]).as_str())
    );
    let mut store = Store::new();
    let task = store
        .create_task("T", "", "01900000-0000-7000-8000-000000000001", "now")
        .unwrap()
        .unwrap();
    let uuid = "01900000-0000-7000-8000-000000000002";
    store
        .create_artifact_with_name(&task.id, "notes", Some("n"), "", uuid, "now")
        .unwrap();
    assert_eq!(
        message(store.create_artifact_with_name(&task.id, "notes", Some("n"), "", uuid, "now")),
        "UNIQUE constraint failed: artifacts.uuid"
    );
}

#[test]
fn annotation_errors_name_what_is_wrong() {
    let mut app = test_app();
    app.create_task("ONE", "body").unwrap();
    let artifact = app.create_artifact("ONE", "notes", "text").unwrap();
    let mut input = comment(None);
    input.start_offset = Some(1);
    assert_eq!(
        message(app.create_annotation(&artifact.uuid, input.clone())),
        "start and end offsets must be supplied together"
    );
    input.end_offset = Some(0);
    assert_eq!(
        message(app.create_annotation(&artifact.uuid, input.clone())),
        "end offset must not be less than start offset"
    );
    input.end_offset = Some(u64::MAX);
    assert_eq!(
        message(app.create_annotation(&artifact.uuid, input)),
        "out of range integral type conversion attempted"
    );
    assert_eq!(message(app.resolve_annotation("x")), "invalid UUID: x");
    let missing = "01900000-0000-7000-8000-00000000ffff";
    assert_eq!(
        message(app.resolve_annotation(missing)),
        format!("annotation not found: {missing}")
    );
    let mut store = Store::new();
    store
        .create_task("T", "", "01900000-0000-7000-8000-000000000001", "now")
        .unwrap();
    let artifact = store
        .create_artifact_with_name(
            "T",
            "notes",
            None,
            "",
            "01900000-0000-7000-8000-000000000002",
            "now",
        )
        .unwrap();
    let uuid = "01900000-0000-7000-8000-000000000003";
    store
        .create_annotation(&artifact.uuid, comment(None), uuid, "now")
        .unwrap();
    assert_eq!(
        message(store.create_annotation(&artifact.uuid, comment(None), uuid, "now")),
        "UNIQUE constraint failed: annotations.uuid"
    );
}

#[test]
fn empty_texts_are_not_kept_and_resolving_keeps_the_first_time() {
    let mut store = Store::new();
    store
        .create_task("T", "", "01900000-0000-7000-8000-000000000001", "t0")
        .unwrap();
    let artifact = store
        .create_artifact_with_name(
            "T",
            "notes",
            None,
            "",
            "01900000-0000-7000-8000-000000000002",
            "t1",
        )
        .unwrap();
    let mut input = comment(Some(""));
    input.selected_text = Some(String::new());
    let uuid = "01900000-0000-7000-8000-000000000003";
    let annotation = store
        .create_annotation(&artifact.uuid, input, uuid, "t2")
        .unwrap();
    assert_eq!(annotation.body, None);
    assert_eq!(annotation.selected_text, None);
    store.resolve_annotation(uuid, "t3").unwrap();
    store.resolve_annotation(uuid, "t4").unwrap();
    let all = store.list_annotations(&artifact.uuid, true).unwrap();
    assert_eq!(all[0].resolved_at.as_deref(), Some("t3"));
    assert!(store.list_annotations(&artifact.uuid, false).unwrap().is_empty());
}

#[test]
fn reopening_undoes_completing_but_for_the_time() {
    let mut store = Store::new();
    let created = store
        .create_task("T", "b", "01900000-0000-7000-8000-000000000001", "t0")
        .unwrap()
        .unwrap();
    store.complete_task("T", "t1").unwrap();
    store.complete_task("T", "t2").unwrap();
    assert_eq!(store.read_task("T").unwrap().completed_at.as_deref(), Some("t1"));
    store.reopen_task("T", "t3").unwrap();
    let mut expected = created;
    expected.updated_at = "t3".to_owned();
    assert_eq!(store.read_task("T").unwrap(), expected);
}

#[test]
fn lists_follow_times_and_uuids() {
    let mut store = Store::new();
    let uuids = [
        "01900000-0000-7000-8000-000000000003",
        "01900000-0000-7000-8000-000000000001",
        "01900000-0000-7000-8000-000000000002",
    ];
    store.create_task("c", "find", uuids[0], "t1").unwrap();
    store.create_task("a", "find", uuids[1], "t1").unwrap();
    store.create_task("b", "find", uuids[2], "t0").unwrap();
    let listed: Vec<String> = store.list_tasks().into_iter().map(|task| task.id).collect();
    assert_eq!(listed, vec!["b", "a", "c"]);
    let found: Vec<String> = store
        .search_tasks("FIND")
        .unwrap()
        .into_iter()
        .map(|task| task.id)
        .collect();
    assert_eq!(found, vec!["a", "c", "b"]);
}

#[test]
fn search_reads_wildcards_and_ignores_ascii_case_only() {
    let mut app = test_app();
    app.create_task("one", "Straße 50% off").unwrap();
    app.create_task("two", "plain").unwrap();
    assert_eq!(app.search_tasks("s_ra").unwrap().len(), 1);
    assert_eq!(app.search_tasks("STRA").unwrap().len(), 1);
    assert_eq!(app.search_tasks("p%n").unwrap().len(), 1);
    assert_eq!(app.search_tasks("ẞ").unwrap().len(), 0);
    assert_eq!(app.search_tasks("TWO").unwrap()[0].id, "two");
    let long = "x".repeat(49_999);
    assert_eq!(message(app.search_tasks(&long)), "LIKE or GLOB pattern too complex");
    assert!(test_app().search_tasks(&long).unwrap().is_empty());
}

#[test]
fn a_rename_keeps_the_task_and_what_belongs_to_it() {
    let mut app = test_app();
    let task = app.create_task("OLD", "body").unwrap();
    let artifact = app.create_artifact("OLD", "notes", "text").unwrap();
    app.rename_task("OLD", "NEW").unwrap();
    let renamed = app.read_task("NEW").unwrap();
    assert_eq!(renamed.uuid, task.uuid);
    assert_eq!(renamed.body, task.body);
    assert_eq!(renamed.created_at, task.created_at);
    assert_eq!(message(app.read_task("OLD")), "task not found: OLD");
    assert_eq!(app.list_artifacts("NEW", None).unwrap(), vec![artifact]);
}

#[test]
fn a_deleted_task_takes_nothing_else_with_it() {
    let mut app = test_app();
    app.create_task("GONE", "").unwrap();
    app.create_artifact("GONE", "notes", "").unwrap();
    app.create_task("KEPT", "").unwrap();
    let kept = app.create_artifact("KEPT", "notes", "").unwrap();
    let annotation = app.create_annotation(&kept.uuid, comment(Some("x"))).unwrap();
    app.delete_task("GONE").unwrap();
    assert_eq!(app.store().tasks().len(), 1);
    assert_eq!(app.store().artifacts(), &vec![kept.clone()]);
    assert_eq!(app.list_annotations(&kept.uuid, false).unwrap(), vec![annotation]);
}

#[test]
fn writable_artifacts_are_told_from_others() {
    let mut app = test_app();
    app.create_task("T", "").unwrap();
    let artifact = app.create_artifact("T", "notes", "").unwrap();
    assert_eq!(app.ensure_artifact_writable(&artifact.uuid).unwrap(), artifact);
    app.complete_task("T").unwrap();
    let error = app.ensure_artifact_writable(&artifact.uuid).unwrap_err();
    assert_eq!(
        error,
        alx::error::Error::Other("completed task is read-only: T".to_owned())
    );
    assert_eq!(app.password_path(), "password.hash");
}

#[test]
fn tokens_are_random_digits() {
    let token = random_token();
    assert_eq!(token.len(), 48);
    assert!(token.chars().all(|c| c.is_ascii_digit() || ('a'..='f').contains(&c)));
    assert_ne!(token, random_token());
}

#[test]
fn migrations_add_missing_columns_before_their_version() {
    let steps = migration_steps(Columns {
        artifact_name: true,
        task_archived_at: false,
        task_completed_at: false,
    });
    assert_eq!(
        steps,
        vec![
            MigrationStep::CreateTables,
            MigrationStep::RecordVersion(1),
            MigrationStep::RecordVersion(2),
            MigrationStep::AddColumn(Column::TaskArchivedAt),
            MigrationStep::RecordVersion(3),
            MigrationStep::AddColumn(Column::TaskCompletedAt),
            MigrationStep::RecordVersion(4),
        ]
    );
}

#[test]
fn changes_are_what_has_to_be_written() {
    let before = Store::from_records(vec![old_task()], vec![old_artifact()], Vec::new()).unwrap();
    let mut after = Store::from_records(vec![old_task()], vec![old_artifact()], Vec::new()).unwrap();
    let none = changes(&before, &after);
    assert!(none.saved_tasks.is_empty() && none.removed_tasks.is_empty());
    assert!(none.saved_artifacts.is_empty() && none.removed_artifacts.is_empty());

    let added = after
        .create_task("NEW-1", "", "01900000-0000-7000-8000-000000000007", "t1")
        .unwrap()
        .unwrap();
    after
        .rename_artifact("01900000-0000-7000-8000-000000000002", "renamed.md", "t2")
        .unwrap();
    let some = changes(&before, &after);
    assert_eq!(some.saved_tasks, vec![added]);
    assert_eq!(some.saved_artifacts[0].name.as_deref(), Some("renamed.md"));
    assert_eq!(some.saved_artifacts.len(), 1);
    assert!(some.removed_tasks.is_empty());

    after.delete_task("OLD-1").unwrap();
    let gone = changes(&before, &after);
    assert_eq!(gone.removed_tasks, vec!["01900000-0000-7000-8000-000000000001"]);
    assert_eq!(gone.removed_artifacts, vec!["01900000-0000-7000-8000-000000000002"]);
    assert!(gone.removed_annotations.is_empty() && gone.saved_annotations.is_empty());
}

#[test]
fn documents_are_listed_and_shown() {
    let mut store = Store::from_records(vec![old_task()], vec![old_artifact()], Vec::new()).unwrap();
    store
        .create_annotation(
            "01900000-0000-7000-8000-000000000002",
            comment(Some("remark")),
            "01900000-0000-7000-8000-000000000003",
            "t1",
        )
        .unwrap();
    store
        .create_annotation(
            "01900000-0000-7000-8000-000000000002",
            comment(None),
            "01900000-0000-7000-8000-000000000004",
            "t2",
        )
        .unwrap();
    assert!(store.all_named());
    let shown: Vec<String> = store
        .search_documents()
        .iter()
        .map(SearchDocument::display_path)
        .collect();
    let artifact = "OLD-1/research/research--01900000.md";
    assert_eq!(
        shown,
        vec![
            "OLD-1/task.md".to_owned(),
            format!("{artifact} [01900000-0000-7000-8000-000000000002]"),
            format!(
                "{artifact}/annotations/01900000-0000-7000-8000-000000000003.md [01900000-0000-7000-8000-000000000002]"
            ),
        ]
    );
    assert_eq!(AnnotationKind::from_str("scratch").unwrap(), AnnotationKind::Scratch);
    assert_eq!(AnnotationKind::Scratch.title(), "Scratch");
    assert_eq!(
        message(AnnotationKind::from_str("other")),
        "unsupported annotation kind: other"
    );
}
