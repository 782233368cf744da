//! The steps that bring a database up to date.

use vstd::prelude::*;

use crate::ident;
use crate::model::{AnnotationRow, ArtifactRow, TaskRow};
use crate::state;
use crate::state::State;

verus! {

/// The columns that were added to the tables since the first version.
#[derive(Clone, Copy, Debug, PartialEq, Eq, Structural)]
pub enum Column {
    ArtifactName,
    TaskArchivedAt,
    TaskCompletedAt,
}

/// A step of a migration.
#[derive(Clone, Copy, Debug, PartialEq, Eq, Structural)]
pub enum MigrationStep {
    /// Create the tables that are missing.
    CreateTables,
    /// Add a column that is missing.
    AddColumn(Column),
    /// Record that a version is reached, if that is not recorded yet.
    RecordVersion(u8),
}

/// The columns that a database has.
#[derive(Clone, Copy, Debug, PartialEq, Eq, Structural)]
pub struct Columns {
    pub artifact_name: bool,
    pub task_archived_at: bool,
    pub task_completed_at: bool,
}

/// The step that adds a column where it is missing.
pub open spec fn added(present: bool, column: Column) -> Seq<MigrationStep> {
    if present {
        Seq::empty()
    } else {
        seq![MigrationStep::AddColumn(column)]
    }
}

/// The steps of a migration: each column that is missing is added before the
/// version that needs it is recorded.
pub open spec fn steps(columns: Columns) -> Seq<MigrationStep> {
    seq![MigrationStep::CreateTables, MigrationStep::RecordVersion(1)] + added(
        columns.artifact_name,
        Column::ArtifactName,
    ) + seq![MigrationStep::RecordVersion(2)] + added(
        columns.task_archived_at,
        Column::TaskArchivedAt,
    ) + seq![MigrationStep::RecordVersion(3)] + added(
        columns.task_completed_at,
        Column::TaskCompletedAt,
    ) + seq![MigrationStep::RecordVersion(4)]
}

/// The steps of a migration, where the tables have these columns.
pub fn migration_steps(columns: Columns) -> (result: Vec<MigrationStep>)
    ensures
        result@ == steps(columns),
{
    let mut result = vec![MigrationStep::CreateTables, MigrationStep::RecordVersion(1)];
    if !columns.artifact_name {
        result.push(MigrationStep::AddColumn(Column::ArtifactName));
    }
    result.push(MigrationStep::RecordVersion(2));
    if !columns.task_archived_at {
        result.push(MigrationStep::AddColumn(Column::TaskArchivedAt));
    }
    result.push(MigrationStep::RecordVersion(3));
    if !columns.task_completed_at {
        result.push(MigrationStep::AddColumn(Column::TaskCompletedAt));
    }
    result.push(MigrationStep::RecordVersion(4));
    assert(result@ =~= steps(columns));
    result
}

/// A database as far as migrations go: its columns, the versions that are recorded
/// in it, and the rows of the tables that have changed.
#[verifier::ext_equal]
pub struct Database {
    pub columns: Columns,
    pub versions: Set<u8>,
    pub tasks: Seq<TaskRow>,
    pub artifacts: Seq<ArtifactRow>,
}

/// A database has the column.
pub open spec fn has_column(columns: Columns, column: Column) -> bool {
    match column {
        Column::ArtifactName => columns.artifact_name,
        Column::TaskArchivedAt => columns.task_archived_at,
        Column::TaskCompletedAt => columns.task_completed_at,
    }
}

/// The rows of tasks after a column was added, which holds nothing yet.
pub open spec fn tasks_with(tasks: Seq<TaskRow>, column: Column) -> Seq<TaskRow> {
    match column {
        Column::ArtifactName => tasks,
        Column::TaskArchivedAt => tasks.map_values(
            |task: TaskRow| TaskRow { archived_at: None, ..task },
        ),
        Column::TaskCompletedAt => tasks.map_values(
            |task: TaskRow| TaskRow { completed_at: None, ..task },
        ),
    }
}

/// The rows of artifacts after a column was added, which holds nothing yet.
pub open spec fn artifacts_with(artifacts: Seq<ArtifactRow>, column: Column) -> Seq<ArtifactRow> {
    match column {
        Column::ArtifactName => artifacts.map_values(
            |artifact: ArtifactRow| ArtifactRow { name: None, ..artifact },
        ),
        _ => artifacts,
    }
}

/// The database after a step. A column that is there cannot be added; one that is
/// added holds nothing in any row.
pub open spec fn after_step(database: Option<Database>, step: MigrationStep) -> Option<Database> {
    match database {
        None => None,
        Some(database) => match step {
            MigrationStep::CreateTables => Some(database),
            MigrationStep::RecordVersion(version) => Some(
                Database { versions: database.versions.insert(version), ..database },
            ),
            MigrationStep::AddColumn(column) => if has_column(database.columns, column) {
                None
            } else {
                Some(
                    Database {
                        columns: match column {
                            Column::ArtifactName => Columns {
                                artifact_name: true,
                                ..database.columns
                            },
                            Column::TaskArchivedAt => Columns {
                                task_archived_at: true,
                                ..database.columns
                            },
                            Column::TaskCompletedAt => Columns {
                                task_completed_at: true,
                                ..database.columns
                            },
                        },
                        tasks: tasks_with(database.tasks, column),
                        artifacts: artifacts_with(database.artifacts, column),
                        ..database
                    },
                )
            },
        },
    }
}

/// The database after some steps.
pub open spec fn migrated(database: Database, steps: Seq<MigrationStep>) -> Option<Database>
    decreases steps.len(),
{
    if steps.len() == 0 {
        Some(database)
    } else {
        after_step(migrated(database, steps.drop_last()), steps.last())
    }
}

proof fn one_more(database: Database, steps: Seq<MigrationStep>, step: MigrationStep)
    ensures
        migrated(database, steps.push(step)) == after_step(migrated(database, steps), step),
{
    assert(steps.push(step).drop_last() =~= steps);
}

/// A task after a migration: what it held, and nothing in the columns that were
/// missing.
pub open spec fn migrated_task(columns: Columns, task: TaskRow) -> TaskRow {
    TaskRow {
        archived_at: if columns.task_archived_at {
            task.archived_at
        } else {
            None
        },
        completed_at: if columns.task_completed_at {
            task.completed_at
        } else {
            None
        },
        ..task
    }
}

/// An artifact after a migration: what it held, and no name where there was no
/// column for one.
pub open spec fn migrated_artifact(columns: Columns, artifact: ArtifactRow) -> ArtifactRow {
    ArtifactRow {
        name: if columns.artifact_name {
            artifact.name
        } else {
            None
        },
        ..artifact
    }
}

/// A migration never fails, from whatever version it starts; it leaves all columns
/// in place, has every version recorded that there is, and keeps every row with its
/// values.
pub proof fn migration_is_complete(database: Database)
    ensures
        migrated(database, steps(database.columns)) == Some(
            Database {
                columns: Columns {
                    artifact_name: true,
                    task_archived_at: true,
                    task_completed_at: true,
                },
                versions: database.versions.insert(1).insert(2).insert(3).insert(4),
                tasks: database.tasks.map_values(
                    |task: TaskRow| migrated_task(database.columns, task),
                ),
                artifacts: database.artifacts.map_values(
                    |artifact: ArtifactRow| migrated_artifact(database.columns, artifact),
                ),
            },
        ),
{
    let columns = database.columns;
    let empty: Seq<MigrationStep> = Seq::empty();
    let a = empty.push(MigrationStep::CreateTables);
    let b = a.push(MigrationStep::RecordVersion(1));
    let c = if columns.artifact_name {
        b
    } else {
        b.push(MigrationStep::AddColumn(Column::ArtifactName))
    };
    let d = c.push(MigrationStep::RecordVersion(2));
    let e = if columns.task_archived_at {
        d
    } else {
        d.push(MigrationStep::AddColumn(Column::TaskArchivedAt))
    };
    let f = e.push(MigrationStep::RecordVersion(3));
    let g = if columns.task_completed_at {
        f
    } else {
        f.push(MigrationStep::AddColumn(Column::TaskCompletedAt))
    };
    let h = g.push(MigrationStep::RecordVersion(4));
    assert(steps(columns) =~= h);
    one_more(database, empty, MigrationStep::CreateTables);
    one_more(database, a, MigrationStep::RecordVersion(1));
    one_more(database, b, MigrationStep::AddColumn(Column::ArtifactName));
    one_more(database, c, MigrationStep::RecordVersion(2));
    one_more(database, d, MigrationStep::AddColumn(Column::TaskArchivedAt));
    one_more(database, e, MigrationStep::RecordVersion(3));
    one_more(database, f, MigrationStep::AddColumn(Column::TaskCompletedAt));
    one_more(database, g, MigrationStep::RecordVersion(4));
    let after = migrated(database, h)->0;
    assert(after.tasks =~= database.tasks.map_values(|task: TaskRow| migrated_task(columns, task)));
    assert(after.artifacts =~= database.artifacts.map_values(
        |artifact: ArtifactRow| migrated_artifact(columns, artifact),
    ));
}

/// A second migration changes nothing: no column, no version and no row.
pub proof fn migration_is_idempotent(database: Database)
    ensures
        migrated(database, steps(database.columns)) matches Some(after) && migrated(
            after,
            steps(after.columns),
        ) == Some(after),
{
    migration_is_complete(database);
    let after = migrated(database, steps(database.columns))->0;
    migration_is_complete(after);
    let again = migrated(after, steps(after.columns))->0;
    assert(again.versions =~= after.versions);
    assert(again.tasks =~= after.tasks);
    assert(again.artifacts =~= after.artifacts);
}

/// What a database holds, with the rows of its annotations, which no migration
/// touches.
pub open spec fn contents(database: Database, annotations: Seq<AnnotationRow>) -> State {
    State { tasks: database.tasks, artifacts: database.artifacts, annotations }
}

/// A migration leaves rows that are in order in order, also where the artifacts have
/// no names yet.
pub proof fn migration_keeps_order(database: Database, annotations: Seq<AnnotationRow>)
    requires
        contents(database, annotations).orderly(),
    ensures
        migrated(database, steps(database.columns)) matches Some(after) && contents(
            after,
            annotations,
        ).orderly() && state::order_kept(
            contents(database, annotations),
            contents(after, annotations),
        ),
{
    migration_is_complete(database);
    let after = migrated(database, steps(database.columns))->0;
    let before = contents(database, annotations);
    let store = contents(after, annotations);
    assert forall|i: int| 0 <= i < before.tasks.len() implies (#[trigger] store.tasks[i])
        == migrated_task(database.columns, before.tasks[i]) by {}
    assert forall|i: int| 0 <= i < before.artifacts.len() implies (#[trigger] store.artifacts[i])
        == migrated_artifact(database.columns, before.artifacts[i]) by {}
    assert(state::task_uuids(store.tasks) =~= state::task_uuids(before.tasks));
    assert(state::task_ids(store.tasks) =~= state::task_ids(before.tasks));
    assert(state::artifact_uuids(store.artifacts) =~= state::artifact_uuids(before.artifacts));
    assert forall|i: int| 0 <= i < store.artifacts.len() implies store.has_task(
        (#[trigger] store.artifacts[i]).task_uuid,
    ) by {
        assert(before.has_task(before.artifacts[i].task_uuid));
        let k = choose|k: int|
            0 <= k < before.tasks.len() && (#[trigger] before.tasks[k]).uuid
                == before.artifacts[i].task_uuid;
        assert(store.tasks[k].uuid == store.artifacts[i].task_uuid);
    }
    assert forall|i: int| 0 <= i < store.annotations.len() implies store.has_artifact(
        (#[trigger] store.annotations[i]).artifact_uuid,
    ) by {
        assert(before.has_artifact(before.annotations[i].artifact_uuid));
        let k = choose|k: int|
            0 <= k < before.artifacts.len() && (#[trigger] before.artifacts[k]).uuid
                == before.annotations[i].artifact_uuid;
        assert(store.artifacts[k].uuid == store.annotations[i].artifact_uuid);
    }
    assert forall|i: int, j: int|
        0 <= i < store.tasks.len() && 0 <= j < store.tasks.len() implies ident::canonical_uuid(
        (#[trigger] store.tasks[i]).id,
    ) != Some((#[trigger] store.tasks[j]).uuid) by {
        assert(ident::canonical_uuid(before.tasks[i].id) != Some(before.tasks[j].uuid));
    }
}

} // verus!
