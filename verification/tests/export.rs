use alx::app::App;
use alx::cli::{artifacts_can_be_named, ArtifactCommand};
use alx::dump::{safe_component, tree_can_be_named, unique_component};
use alx::model::{Artifact, Task};
use alx::store::Store;

const UUID_OF_B: &str = "01900000-0000-7000-8000-00000000000b";
const UUID: &str = "01900000-0000-7000-8000-000000000001";

#[test]
fn components_are_safe() {
    assert_eq!(safe_component("a/b\\c:d*e?f\"g<h>i|j\u{0}k\u{85}"), "a_b_c_d_e_f_g_h_i_j_k_");
    assert_eq!(safe_component("  name. . "), "name");
    assert_eq!(safe_component(".."), "unnamed");
    assert_eq!(safe_component(""), "unnamed");
    assert_eq!(safe_component(".hidden"), ".hidden");
    assert_eq!(safe_component("a\u{a0}."), "a\u{a0}");
}

#[test]
fn components_are_unique_in_any_case() {
    let mut used: Vec<String> = Vec::new();
    assert_eq!(unique_component("Notes.md", UUID, &mut used), "Notes.md");
    assert_eq!(unique_component("notes.MD", UUID, &mut used), "notes--01900000.MD");
    assert_eq!(unique_component("NOTES.md", UUID, &mut used), "NOTES--01900000-2.md");
    assert_eq!(unique_component("notes.md", UUID, &mut used), "notes--01900000-3.md");
    assert_eq!(unique_component("plain", UUID, &mut used), "plain");
    assert_eq!(unique_component("plain", UUID, &mut used), "plain--01900000");
    assert_eq!(unique_component(".env", UUID, &mut used), ".env");
    assert_eq!(unique_component(".env", UUID, &mut used), ".env--01900000");
    assert_eq!(used.len(), 8);
}

#[test]
fn types_are_ordered_and_artifacts_keep_their_order() {
    let mut store = Store::new();
    let uuid = |n: u32| format!("0190000{n}-0000-7000-8000-000000000000");
    store.create_task("T", "t", &uuid(0), "t0").unwrap();
    for (n, artifact_type, name) in [(1, "b", "x"), (2, "a", "y"), (3, "b", "X"), (4, "B", "z")] {
        store
            .create_artifact_with_name("T", artifact_type, Some(name), name, &uuid(n), "t1")
            .unwrap();
    }
    let app = App::new(String::new(), store);
    let paths: Vec<String> = app
        .dump(None)
        .unwrap()
        .into_iter()
        .map(|file| file.path)
        .collect();
    assert_eq!(
        paths,
        vec!["T/task.md", "T/B/z", "T/a/y", "T/b/x", "T/b/X--01900003"]
    );
}

#[test]
fn every_artifact_gets_a_file_of_its_own() {
    let mut app = App::new(String::new(), Store::new());
    app.create_task("T", "b").unwrap();
    app.create_artifact_with_name("T", "a/b", Some("x.md"), "1").unwrap();
    let second = app
        .create_artifact_with_name("T", "a_b", Some("x.md"), "2")
        .unwrap();
    app.create_artifact_with_name("T", "Task.md", Some("x.md"), "3").unwrap();
    let fourth = app
        .create_artifact_with_name("T", "task.md", Some("x.md"), "4")
        .unwrap();
    app.create_artifact_with_name("T", "a_b", Some("y.md"), "5").unwrap();
    let files: Vec<(String, String)> = app
        .dump(None)
        .unwrap()
        .into_iter()
        .map(|file| (file.path, file.contents))
        .collect();
    assert_eq!(
        files,
        vec![
            ("T/task.md".to_owned(), "b".to_owned()),
            ("T/Task.md/x.md".to_owned(), "3".to_owned()),
            ("T/a_b/x.md".to_owned(), "1".to_owned()),
            (format!("T/a_b/x--{}.md", &second.uuid[..8]), "2".to_owned()),
            ("T/a_b/y.md".to_owned(), "5".to_owned()),
            (format!("T/task--{}.md/x.md", &fourth.uuid[..8]), "4".to_owned()),
        ]
    );
}

#[test]
fn directories_of_tasks_differ() {
    let mut store = Store::new();
    store
        .create_task("a/b", "one", "01900001-0000-7000-8000-000000000000", "t0")
        .unwrap();
    store
        .create_task("A:B", "two", "01900002-0000-7000-8000-000000000000", "t1")
        .unwrap();
    let app = App::new(String::new(), store);
    let files = app.dump(None).unwrap();
    assert_eq!(files[0].path, "a_b/task.md");
    assert_eq!(files[1].path, "A_B--01900002/task.md");
    assert_eq!(files[1].contents, "two");
}

fn task(uuid: &str, id: &str) -> Task {
    Task {
        uuid: uuid.to_owned(),
        id: id.to_owned(),
        body: String::new(),
        created_at: "t0".to_owned(),
        updated_at: "t0".to_owned(),
        archived_at: None,
        completed_at: None,
    }
}

fn artifact(uuid: &str, task_uuid: &str, artifact_type: &str, name: Option<&str>) -> Artifact {
    Artifact {
        uuid: uuid.to_owned(),
        task_uuid: task_uuid.to_owned(),
        artifact_type: artifact_type.to_owned(),
        name: name.map(str::to_owned),
        body: uuid.to_owned(),
        created_at: "t0".to_owned(),
        updated_at: "t0".to_owned(),
    }
}

#[test]
fn short_uuids_matter_only_where_they_are_shown() {
    let named = |artifacts: Vec<Artifact>| {
        tree_can_be_named(&vec![task("short", "T")], &vec![artifacts])
    };
    assert!(named(vec![artifact("a", "short", "x", Some("n")), artifact("b", "short", "y", Some("n"))]));
    assert!(!named(vec![artifact("a", "short", "x", None)]));
    assert!(!named(vec![artifact("a", "short", "x", Some("n")), artifact("b", "short", "x", Some("N"))]));
    assert!(!named(vec![artifact("a", "short", "x/", Some("n")), artifact("b", "short", "x_", Some("n"))]));
    assert!(named(vec![artifact("a", "short", "x/", Some("n")), artifact("b", "short", "x_", Some("m"))]));
    assert!(!named(vec![artifact("a", "short", "task.md", Some("n"))]));
    assert!(named(vec![artifact("a", "short", "Task.md", Some("n"))]));
    assert!(named(vec![artifact("12345678", "short", "task.md", None)]));
    assert!(!tree_can_be_named(&vec![task("a", "T"), task("b", "t")], &vec![]));
    assert!(tree_can_be_named(&vec![task("a", "T"), task("12345678", "t")], &vec![]));
}

#[test]
fn only_the_artifacts_that_are_shown_need_names() {
    let canonical = "01900000-0000-7000-8000-000000000001";
    let other = "01900000-0000-7000-8000-000000000002";
    let store = Store::from_records(
        vec![task(canonical, "T"), task(other, "U")],
        vec![artifact("a", other, "x", None), artifact(UUID_OF_B, canonical, "x", None)],
        Vec::new(),
    )
    .unwrap();
    let app = App::new(String::new(), store);
    let list = |key: &str, of_type: Option<&str>, json: bool| ArtifactCommand::List {
        task_id_or_uuid: key.to_owned(),
        of_type: of_type.map(str::to_owned),
        json,
    };
    assert!(artifacts_can_be_named(&app, &list("T", None, false)));
    assert!(!artifacts_can_be_named(&app, &list("U", None, false)));
    assert!(artifacts_can_be_named(&app, &list("U", Some("y"), false)));
    assert!(artifacts_can_be_named(&app, &list("U", None, true)));
    assert!(artifacts_can_be_named(&app, &list("none", None, false)));
    let info = |uuid: &str| ArtifactCommand::Info { uuid: uuid.to_owned(), json: false };
    assert!(artifacts_can_be_named(&app, &info(UUID_OF_B)));
    assert_eq!(app.exported(Some("T")).unwrap().1.len(), 1);
    assert_eq!(app.exported(None).unwrap().0.len(), 2);
    assert!(app.exported(Some("none")).is_err());
}
