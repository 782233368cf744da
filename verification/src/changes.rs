//! What has to be written where the records were changed.

use vstd::prelude::*;

use crate::laws;
use crate::model;
use crate::model::{
    Annotation, AnnotationRow, Artifact, ArtifactRow, Record, Task, TaskRow,
};
use crate::state;
use crate::state::State;
use crate::store::Store;
use crate::text;

verus! {

/// A record with a UUID.
pub trait Keyed: Record {
    /// The UUID of a record.
    spec fn key(row: Self::V) -> Seq<char>;

    /// The UUID of the record.
    fn uuid(&self) -> (uuid: &str)
        ensures
            uuid@ == Self::key(self@),
    ;

    /// Whether another record has the same contents.
    fn same(&self, other: &Self) -> (answer: bool)
        ensures
            answer == (self@ == other@),
    ;
}

fn same_texts(a: &Option<String>, b: &Option<String>) -> (answer: bool)
    ensures
        answer == (text::optional(*a) == text::optional(*b)),
{
    text::same_optional(text::borrow_optional(a), text::borrow_optional(b))
}

fn same_numbers(a: Option<u64>, b: Option<u64>) -> (answer: bool)
    ensures
        answer == (a == b),
{
    match (a, b) {
        (Some(a), Some(b)) => a == b,
        (None, None) => true,
        _ => false,
    }
}

impl Keyed for Task {
    open spec fn key(row: TaskRow) -> Seq<char> {
        row.uuid
    }

    fn uuid(&self) -> (uuid: &str) {
        self.uuid.as_str()
    }

    fn same(&self, other: &Self) -> (answer: bool) {
        text::same(self.uuid.as_str(), other.uuid.as_str()) && text::same(
            self.id.as_str(),
            other.id.as_str(),
        ) && text::same(self.body.as_str(), other.body.as_str()) && text::same(
            self.created_at.as_str(),
            other.created_at.as_str(),
        ) && text::same(self.updated_at.as_str(), other.updated_at.as_str()) && same_texts(
            &self.archived_at,
            &other.archived_at,
        ) && same_texts(&self.completed_at, &other.completed_at)
    }
}

impl Keyed for Artifact {
    open spec fn key(row: ArtifactRow) -> Seq<char> {
        row.uuid
    }

    fn uuid(&self) -> (uuid: &str) {
        self.uuid.as_str()
    }

    fn same(&self, other: &Self) -> (answer: bool) {
        text::same(self.uuid.as_str(), other.uuid.as_str()) && text::same(
            self.task_uuid.as_str(),
            other.task_uuid.as_str(),
        ) && text::same(self.artifact_type.as_str(), other.artifact_type.as_str()) && same_texts(
            &self.name,
            &other.name,
        ) && text::same(self.body.as_str(), other.body.as_str()) && text::same(
            self.created_at.as_str(),
            other.created_at.as_str(),
        ) && text::same(self.updated_at.as_str(), other.updated_at.as_str())
    }
}

impl Keyed for Annotation {
    open spec fn key(row: AnnotationRow) -> Seq<char> {
        row.uuid
    }

    fn uuid(&self) -> (uuid: &str) {
        self.uuid.as_str()
    }

    fn same(&self, other: &Self) -> (answer: bool) {
        text::same(self.uuid.as_str(), other.uuid.as_str()) && text::same(
            self.artifact_uuid.as_str(),
            other.artifact_uuid.as_str(),
        ) && self.kind == other.kind && same_numbers(self.start_offset, other.start_offset)
            && same_numbers(self.end_offset, other.end_offset) && same_texts(
            &self.selected_text,
            &other.selected_text,
        ) && same_texts(&self.body, &other.body) && text::same(
            self.created_at.as_str(),
            other.created_at.as_str(),
        ) && same_texts(&self.resolved_at, &other.resolved_at)
    }
}

/// A list has a record with the UUID.
pub open spec fn has_key<T: Keyed>(list: Seq<T::V>, uuid: Seq<char>) -> bool {
    exists|i: int| 0 <= i < list.len() && T::key(#[trigger] list[i]) == uuid
}

/// The records that are new or changed.
pub open spec fn saved<T: Keyed>(before: Seq<T::V>, after: Seq<T::V>) -> Seq<T::V> {
    after.filter(|row: T::V| !before.contains(row))
}

/// The UUIDs of the records that are gone.
pub open spec fn removed<T: Keyed>(before: Seq<T::V>, after: Seq<T::V>) -> Seq<Seq<char>> {
    before.filter(|row: T::V| !has_key::<T>(after, T::key(row))).map_values(
        |row: T::V| T::key(row),
    )
}

/// A record that is there after the removed records were deleted and the saved
/// ones were written in the place of those with their UUIDs.
pub open spec fn written<T: Keyed>(
    before: Seq<T::V>,
    saved: Seq<T::V>,
    removed: Seq<Seq<char>>,
    row: T::V,
) -> bool {
    saved.contains(row) || (before.contains(row) && !removed.contains(T::key(row)) && !has_key::<
        T,
    >(saved, T::key(row)))
}

fn is_among<T: Keyed>(record: &T, list: &Vec<T>) -> (answer: bool)
    ensures
        answer == model::rows(list@).contains(record@),
{
    for i in 0..list.len()
        invariant
            forall|j: int| 0 <= j < i ==> model::rows(list@)[j] != record@,
    {
        assert(model::rows(list@)[i as int] == list@[i as int]@);
        if list[i].same(record) {
            return true;
        }
    }
    false
}

fn has_uuid<T: Keyed>(list: &Vec<T>, uuid: &str) -> (answer: bool)
    ensures
        answer == has_key::<T>(model::rows(list@), uuid@),
{
    let ghost rows = model::rows(list@);
    for i in 0..list.len()
        invariant
            rows == model::rows(list@),
            forall|j: int| 0 <= j < i ==> T::key(#[trigger] rows[j]) != uuid@,
    {
        assert(rows[i as int] == list@[i as int]@);
        if text::same(list[i].uuid(), uuid) {
            return true;
        }
    }
    false
}

/// The records that are new or changed.
pub fn saved_records<T: Keyed>(before: &Vec<T>, after: &Vec<T>) -> (result: Vec<T>)
    ensures
        model::rows(result@) == saved::<T>(model::rows(before@), model::rows(after@)),
{
    let ghost old_rows = model::rows(before@);
    let ghost rows = model::rows(after@);
    let ghost keep = |row: T::V| !old_rows.contains(row);
    let mut result: Vec<T> = Vec::new();
    assert(rows.take(0).filter(keep) =~= Seq::empty()) by {
        reveal(Seq::filter);
    }
    for i in 0..after.len()
        invariant
            old_rows == model::rows(before@),
            rows == model::rows(after@),
            keep == (|row: T::V| !old_rows.contains(row)),
            model::rows(result@) == rows.take(i as int).filter(keep),
    {
        proof {
            laws::filter_step(rows, keep, i as int);
        }
        assert(rows[i as int] == after@[i as int]@);
        if !is_among(&after[i], before) {
            let ghost so_far = result@;
            result.push(after[i].duplicate());
            assert(model::rows(result@) =~= model::rows(so_far).push(rows[i as int]));
        }
    }
    assert(rows.take(rows.len() as int) =~= rows);
    result
}

/// The UUIDs of the records that are gone.
pub fn removed_records<T: Keyed>(before: &Vec<T>, after: &Vec<T>) -> (result: Vec<String>)
    ensures
        text::texts(result@) == removed::<T>(model::rows(before@), model::rows(after@)),
{
    let ghost rows = model::rows(before@);
    let ghost new_rows = model::rows(after@);
    let ghost keep = |row: T::V| !has_key::<T>(new_rows, T::key(row));
    let ghost key = |row: T::V| T::key(row);
    let mut result: Vec<String> = Vec::new();
    assert(rows.take(0).filter(keep) =~= Seq::empty()) by {
        reveal(Seq::filter);
    }
    assert(text::texts(result@) =~= rows.take(0).filter(keep).map_values(key));
    for i in 0..before.len()
        invariant
            rows == model::rows(before@),
            new_rows == model::rows(after@),
            keep == (|row: T::V| !has_key::<T>(new_rows, T::key(row))),
            key == (|row: T::V| T::key(row)),
            text::texts(result@) == rows.take(i as int).filter(keep).map_values(key),
    {
        proof {
            laws::filter_step(rows, keep, i as int);
        }
        assert(rows[i as int] == before@[i as int]@);
        if !has_uuid(after, before[i].uuid()) {
            let ghost so_far = result@;
            let ghost kept = rows.take(i as int).filter(keep);
            result.push(before[i].uuid().to_owned());
            assert(text::texts(result@) =~= text::texts(so_far).push(key(rows[i as int])));
            assert(kept.push(rows[i as int]).map_values(key) =~= kept.map_values(key).push(
                key(rows[i as int]),
            ));
        }
    }
    assert(rows.take(rows.len() as int) =~= rows);
    result
}

/// What has to be written to turn one store into another.
pub struct Changes {
    pub removed_tasks: Vec<String>,
    pub removed_artifacts: Vec<String>,
    pub removed_annotations: Vec<String>,
    pub saved_tasks: Vec<Task>,
    pub saved_artifacts: Vec<Artifact>,
    pub saved_annotations: Vec<Annotation>,
}

/// What has to be written to turn one store into another.
pub fn changes(before: &Store, after: &Store) -> (changes: Changes)
    ensures
        text::texts(changes.removed_tasks@) == removed::<Task>(before@.tasks, after@.tasks),
        text::texts(changes.removed_artifacts@) == removed::<Artifact>(
            before@.artifacts,
            after@.artifacts,
        ),
        text::texts(changes.removed_annotations@) == removed::<Annotation>(
            before@.annotations,
            after@.annotations,
        ),
        model::rows(changes.saved_tasks@) == saved::<Task>(before@.tasks, after@.tasks),
        model::rows(changes.saved_artifacts@) == saved::<Artifact>(
            before@.artifacts,
            after@.artifacts,
        ),
        model::rows(changes.saved_annotations@) == saved::<Annotation>(
            before@.annotations,
            after@.annotations,
        ),
{
    Changes {
        removed_tasks: removed_records(before.tasks(), after.tasks()),
        removed_artifacts: removed_records(before.artifacts(), after.artifacts()),
        removed_annotations: removed_records(before.annotations(), after.annotations()),
        saved_tasks: saved_records(before.tasks(), after.tasks()),
        saved_artifacts: saved_records(before.artifacts(), after.artifacts()),
        saved_annotations: saved_records(before.annotations(), after.annotations()),
    }
}

/// The UUIDs of a list.
pub open spec fn keys<T: Keyed>(list: Seq<T::V>) -> Seq<Seq<char>> {
    list.map_values(|row: T::V| T::key(row))
}

/// After the changes were written, exactly the new records are there.
pub proof fn changes_lead_there<T: Keyed>(before: Seq<T::V>, after: Seq<T::V>, row: T::V)
    requires
        keys::<T>(before).no_duplicates(),
        keys::<T>(after).no_duplicates(),
    ensures
        written::<T>(before, saved::<T>(before, after), removed::<T>(before, after), row)
            <==> after.contains(row),
{
    let keep = |row: T::V| !before.contains(row);
    let gone = |row: T::V| !has_key::<T>(after, T::key(row));
    let saved_rows = saved::<T>(before, after);
    let gone_rows = before.filter(gone);
    let gone_keys = removed::<T>(before, after);
    laws::filter_holds(after, keep);
    laws::filter_holds(before, gone);
    if after.contains(row) {
        let i = choose|i: int| 0 <= i < after.len() && after[i] == row;
        if !before.contains(row) {
            assert(keep(after[i]));
        } else {
            if gone_keys.contains(T::key(row)) {
                let k = choose|k: int| 0 <= k < gone_keys.len() && gone_keys[k] == T::key(row);
                assert(gone(gone_rows[k]));
                assert(T::key(after[i]) == T::key(gone_rows[k]));
            }
            if has_key::<T>(saved_rows, T::key(row)) {
                let k = choose|k: int|
                    0 <= k < saved_rows.len() && T::key(#[trigger] saved_rows[k]) == T::key(row);
                assert(keep(saved_rows[k]));
                assert(after.contains(saved_rows[k]));
                let j = choose|j: int| 0 <= j < after.len() && after[j] == saved_rows[k];
                assert(keys::<T>(after)[i] == keys::<T>(after)[j]);
            }
        }
    }
    if written::<T>(before, saved_rows, gone_keys, row) {
        if saved_rows.contains(row) {
            let k = choose|k: int| 0 <= k < saved_rows.len() && saved_rows[k] == row;
            assert(after.contains(saved_rows[k]));
        } else {
            let b = choose|b: int| 0 <= b < before.len() && before[b] == row;
            if !has_key::<T>(after, T::key(row)) {
                assert(gone(before[b]));
                assert(gone_rows.contains(before[b]));
                let k = choose|k: int| 0 <= k < gone_rows.len() && gone_rows[k] == row;
                assert(gone_keys[k] == T::key(row));
            }
            let i = choose|i: int|
                0 <= i < after.len() && T::key(#[trigger] after[i]) == T::key(row);
            if before.contains(after[i]) {
                let c = choose|c: int| 0 <= c < before.len() && before[c] == after[i];
                assert(keys::<T>(before)[b] == keys::<T>(before)[c]);
            } else {
                assert(keep(after[i]));
                assert(saved_rows.contains(after[i]));
                let k = choose|k: int| 0 <= k < saved_rows.len() && saved_rows[k] == after[i];
                assert(T::key(saved_rows[k]) == T::key(row));
            }
        }
    }
}

/// After the changes were written, a database holds exactly the records of the
/// new store.
pub proof fn changes_are_enough(
    before: State,
    after: State,
    task: TaskRow,
    artifact: ArtifactRow,
    annotation: AnnotationRow,
)
    requires
        before.wf(),
        after.wf(),
    ensures
        written::<Task>(
            before.tasks,
            saved::<Task>(before.tasks, after.tasks),
            removed::<Task>(before.tasks, after.tasks),
            task,
        ) <==> after.tasks.contains(task),
        written::<Artifact>(
            before.artifacts,
            saved::<Artifact>(before.artifacts, after.artifacts),
            removed::<Artifact>(before.artifacts, after.artifacts),
            artifact,
        ) <==> after.artifacts.contains(artifact),
        written::<Annotation>(
            before.annotations,
            saved::<Annotation>(before.annotations, after.annotations),
            removed::<Annotation>(before.annotations, after.annotations),
            annotation,
        ) <==> after.annotations.contains(annotation),
{
    assert(keys::<Task>(before.tasks) =~= state::task_uuids(before.tasks));
    assert(keys::<Task>(after.tasks) =~= state::task_uuids(after.tasks));
    assert(keys::<Artifact>(before.artifacts) =~= state::artifact_uuids(before.artifacts));
    assert(keys::<Artifact>(after.artifacts) =~= state::artifact_uuids(after.artifacts));
    assert(keys::<Annotation>(before.annotations) =~= state::annotation_uuids(before.annotations));
    assert(keys::<Annotation>(after.annotations) =~= state::annotation_uuids(after.annotations));
    changes_lead_there::<Task>(before.tasks, after.tasks, task);
    changes_lead_there::<Artifact>(before.artifacts, after.artifacts, artifact);
    changes_lead_there::<Annotation>(before.annotations, after.annotations, annotation);
}

} // verus!
