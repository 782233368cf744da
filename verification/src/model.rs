//! Tasks, artifacts and annotations.

use vstd::prelude::*;
use vstd::string::*;

use crate::error::{other, Error, Failure};
use crate::text;

verus! {

/// A task.
#[derive(Debug, PartialEq, Eq)]
pub struct Task {
    pub uuid: String,
    pub id: String,
    pub body: String,
    pub created_at: String,
    pub updated_at: String,
    pub archived_at: Option<String>,
    pub completed_at: Option<String>,
}

/// The view of a task.
#[verifier::ext_equal]
pub struct TaskRow {
    pub uuid: Seq<char>,
    pub id: Seq<char>,
    pub body: Seq<char>,
    pub created_at: Seq<char>,
    pub updated_at: Seq<char>,
    pub archived_at: Option<Seq<char>>,
    pub completed_at: Option<Seq<char>>,
}

impl View for Task {
    type V = TaskRow;

    open spec fn view(&self) -> TaskRow {
        TaskRow {
            uuid: self.uuid@,
            id: self.id@,
            body: self.body@,
            created_at: self.created_at@,
            updated_at: self.updated_at@,
            archived_at: text::optional(self.archived_at),
            completed_at: text::optional(self.completed_at),
        }
    }
}

impl Clone for Task {
    fn clone(&self) -> (copy: Self)
        ensures
            copy@ == self@,
    {
        Task {
            uuid: self.uuid.clone(),
            id: self.id.clone(),
            body: self.body.clone(),
            created_at: self.created_at.clone(),
            updated_at: self.updated_at.clone(),
            archived_at: text::copy_optional(&self.archived_at),
            completed_at: text::copy_optional(&self.completed_at),
        }
    }
}

impl TaskRow {
    /// Neither archived nor completed.
    pub open spec fn active(self) -> bool {
        self.archived_at is None && self.completed_at is None
    }

    /// Completed and not archived.
    pub open spec fn completed(self) -> bool {
        self.archived_at is None && self.completed_at is Some
    }

    /// Archived, completed or not.
    pub open spec fn archived(self) -> bool {
        self.archived_at is Some
    }
}

/// A document that belongs to a task.
#[derive(Debug, PartialEq, Eq)]
pub struct Artifact {
    pub uuid: String,
    pub task_uuid: String,
    pub artifact_type: String,
    pub name: Option<String>,
    pub body: String,
    pub created_at: String,
    pub updated_at: String,
}

/// The view of an artifact.
#[verifier::ext_equal]
pub struct ArtifactRow {
    pub uuid: Seq<char>,
    pub task_uuid: Seq<char>,
    pub artifact_type: Seq<char>,
    pub name: Option<Seq<char>>,
    pub body: Seq<char>,
    pub created_at: Seq<char>,
    pub updated_at: Seq<char>,
}

impl View for Artifact {
    type V = ArtifactRow;

    open spec fn view(&self) -> ArtifactRow {
        ArtifactRow {
            uuid: self.uuid@,
            task_uuid: self.task_uuid@,
            artifact_type: self.artifact_type@,
            name: text::optional(self.name),
            body: self.body@,
            created_at: self.created_at@,
            updated_at: self.updated_at@,
        }
    }
}

impl Clone for Artifact {
    fn clone(&self) -> (copy: Self)
        ensures
            copy@ == self@,
    {
        Artifact {
            uuid: self.uuid.clone(),
            task_uuid: self.task_uuid.clone(),
            artifact_type: self.artifact_type.clone(),
            name: text::copy_optional(&self.name),
            body: self.body.clone(),
            created_at: self.created_at.clone(),
            updated_at: self.updated_at.clone(),
        }
    }
}

/// The name of an artifact that was given none: its type and the beginning of
/// its UUID.
pub open spec fn fallback_name(artifact_type: Seq<char>, uuid: Seq<char>) -> Seq<char> {
    artifact_type + "--"@ + text::byte_prefix(uuid, 8) + ".md"@
}

/// The name of an artifact that was given none. The UUID must have a first
/// eight bytes to show.
pub fn artifact_fallback_name(artifact_type: &str, uuid: &str) -> (name: String)
    requires
        text::has_byte_prefix(uuid@, 8),
    ensures
        name@ == fallback_name(artifact_type@, uuid@),
{
    let prefix = text::first_eight_bytes(uuid);
    let mut name = text::concat3(artifact_type, "--", prefix.as_str());
    name.append(".md");
    name
}

impl ArtifactRow {
    /// The name to show: the one that was given, or the fallback.
    pub open spec fn display_name(self) -> Seq<char> {
        match self.name {
            Some(name) => name,
            None => fallback_name(self.artifact_type, self.uuid),
        }
    }

    /// The artifact has a name to show.
    pub open spec fn has_display_name(self) -> bool {
        self.name is Some || text::has_byte_prefix(self.uuid, 8)
    }
}

impl Artifact {
    /// Whether the artifact has a name to show.
    pub fn can_be_shown(&self) -> (answer: bool)
        ensures
            answer == self@.has_display_name(),
    {
        self.name.is_some() || text::has_eight_bytes(self.uuid.as_str())
    }

    /// The name to show: the one that was given, or the fallback.
    pub fn display_name(&self) -> (name: String)
        requires
            self@.has_display_name(),
        ensures
            name@ == self@.display_name(),
    {
        match &self.name {
            Some(name) => name.clone(),
            None => artifact_fallback_name(self.artifact_type.as_str(), self.uuid.as_str()),
        }
    }
}

/// An artifact with the task that owns it.
#[derive(Debug, PartialEq, Eq)]
pub struct ArtifactInfo {
    pub uuid: String,
    pub task_uuid: String,
    pub task_id: String,
    pub artifact_type: String,
    pub name: String,
    pub created_at: String,
    pub updated_at: String,
}

/// The view of an artifact with the task that owns it.
#[verifier::ext_equal]
pub struct ArtifactInfoRow {
    pub uuid: Seq<char>,
    pub task_uuid: Seq<char>,
    pub task_id: Seq<char>,
    pub artifact_type: Seq<char>,
    pub name: Seq<char>,
    pub created_at: Seq<char>,
    pub updated_at: Seq<char>,
}

impl View for ArtifactInfo {
    type V = ArtifactInfoRow;

    open spec fn view(&self) -> ArtifactInfoRow {
        ArtifactInfoRow {
            uuid: self.uuid@,
            task_uuid: self.task_uuid@,
            task_id: self.task_id@,
            artifact_type: self.artifact_type@,
            name: self.name@,
            created_at: self.created_at@,
            updated_at: self.updated_at@,
        }
    }
}

/// A text that a search goes through, and where it stands.
#[derive(Debug, PartialEq, Eq)]
pub struct SearchDocument {
    pub path: String,
    pub artifact_uuid: Option<String>,
    pub body: String,
}

/// The view of a text that a search goes through.
#[verifier::ext_equal]
pub struct DocumentRow {
    pub path: Seq<char>,
    pub artifact_uuid: Option<Seq<char>>,
    pub body: Seq<char>,
}

impl View for SearchDocument {
    type V = DocumentRow;

    open spec fn view(&self) -> DocumentRow {
        DocumentRow {
            path: self.path@,
            artifact_uuid: text::optional(self.artifact_uuid),
            body: self.body@,
        }
    }
}

impl Clone for SearchDocument {
    fn clone(&self) -> (copy: Self)
        ensures
            copy@ == self@,
    {
        SearchDocument {
            path: self.path.clone(),
            artifact_uuid: text::copy_optional(&self.artifact_uuid),
            body: self.body.clone(),
        }
    }
}

/// A path, followed by the UUID of the artifact that it leads to, if any.
pub open spec fn located(path: Seq<char>, artifact_uuid: Option<Seq<char>>) -> Seq<char> {
    match artifact_uuid {
        Some(uuid) => path + " ["@ + uuid + "]"@,
        None => path,
    }
}

/// A path, followed by the UUID of the artifact that it leads to, if any.
pub fn locate(path: &str, artifact_uuid: &Option<String>) -> (result: String)
    ensures
        result@ == located(path@, text::optional(*artifact_uuid)),
{
    match artifact_uuid {
        Some(uuid) => {
            let mut result = text::concat3(path, " [", uuid.as_str());
            result.append("]");
            result
        },
        None => path.to_owned(),
    }
}

impl SearchDocument {
    /// The path to show.
    pub fn display_path(&self) -> (path: String)
        ensures
            path@ == located(self@.path, self@.artifact_uuid),
    {
        locate(self.path.as_str(), &self.artifact_uuid)
    }
}

/// A line that a search found.
#[derive(Debug, PartialEq, Eq)]
pub struct GrepMatch {
    pub path: String,
    pub artifact_uuid: Option<String>,
    pub line_number: u64,
    pub line: String,
}

/// The view of a line that a search found.
#[verifier::ext_equal]
pub struct MatchRow {
    pub path: Seq<char>,
    pub artifact_uuid: Option<Seq<char>>,
    pub line_number: int,
    pub line: Seq<char>,
}

impl View for GrepMatch {
    type V = MatchRow;

    open spec fn view(&self) -> MatchRow {
        MatchRow {
            path: self.path@,
            artifact_uuid: text::optional(self.artifact_uuid),
            line_number: self.line_number as int,
            line: self.line@,
        }
    }
}

/// What an annotation is meant as.
#[derive(Clone, Copy, Debug, PartialEq, Eq, PartialOrd, Ord, Structural)]
pub enum AnnotationKind {
    Comment,
    Question,
    Scratch,
    Good,
}

/// The word for a kind.
pub open spec fn kind_word(kind: AnnotationKind) -> Seq<char> {
    match kind {
        AnnotationKind::Comment => "comment"@,
        AnnotationKind::Question => "question"@,
        AnnotationKind::Scratch => "scratch"@,
        AnnotationKind::Good => "good"@,
    }
}

/// The heading for a kind.
pub open spec fn kind_title(kind: AnnotationKind) -> Seq<char> {
    match kind {
        AnnotationKind::Comment => "Comment"@,
        AnnotationKind::Question => "Question"@,
        AnnotationKind::Scratch => "Scratch"@,
        AnnotationKind::Good => "Good"@,
    }
}

impl AnnotationKind {
    /// The word for a kind.
    pub fn as_str(self) -> (word: &'static str)
        ensures
            word@ == kind_word(self),
    {
        match self {
            AnnotationKind::Comment => "comment",
            AnnotationKind::Question => "question",
            AnnotationKind::Scratch => "scratch",
            AnnotationKind::Good => "good",
        }
    }

    /// The heading for a kind.
    pub fn title(self) -> (word: &'static str)
        ensures
            word@ == kind_title(self),
    {
        match self {
            AnnotationKind::Comment => "Comment",
            AnnotationKind::Question => "Question",
            AnnotationKind::Scratch => "Scratch",
            AnnotationKind::Good => "Good",
        }
    }

    /// The kind that a word stands for.
    pub fn from_str(value: &str) -> (kind: Result<Self, Error>)
        ensures
            match kind {
                Ok(kind) => value@ == kind_word(kind),
                Err(error) => {
                    &&& forall|kind: AnnotationKind| value@ != #[trigger] kind_word(kind)
                    &&& error@ == Failure::Other("unsupported annotation kind: "@ + value@)
                },
            },
    {
        if text::same(value, "comment") {
            Ok(AnnotationKind::Comment)
        } else if text::same(value, "question") {
            Ok(AnnotationKind::Question)
        } else if text::same(value, "scratch") {
            Ok(AnnotationKind::Scratch)
        } else if text::same(value, "good") {
            Ok(AnnotationKind::Good)
        } else {
            Err(other(text::concat2("unsupported annotation kind: ", value)))
        }
    }
}

/// No two kinds have the same word, so reading a kind gives back the one that
/// was written.
pub proof fn kind_words_differ(a: AnnotationKind, b: AnnotationKind)
    ensures
        kind_word(a) == kind_word(b) <==> a == b,
{
    reveal_strlit("comment");
    reveal_strlit("question");
    reveal_strlit("scratch");
    reveal_strlit("good");
    assert("comment"@[0] == 'c');
    assert("question"@[0] == 'q');
    assert("scratch"@[0] == 's');
    assert("good"@[0] == 'g');
}

/// A remark on an artifact.
#[derive(Debug, PartialEq, Eq)]
pub struct Annotation {
    pub uuid: String,
    pub artifact_uuid: String,
    pub kind: AnnotationKind,
    pub start_offset: Option<u64>,
    pub end_offset: Option<u64>,
    pub selected_text: Option<String>,
    pub body: Option<String>,
    pub created_at: String,
    pub resolved_at: Option<String>,
}

/// The view of an annotation.
#[verifier::ext_equal]
pub struct AnnotationRow {
    pub uuid: Seq<char>,
    pub artifact_uuid: Seq<char>,
    pub kind: AnnotationKind,
    pub start_offset: Option<u64>,
    pub end_offset: Option<u64>,
    pub selected_text: Option<Seq<char>>,
    pub body: Option<Seq<char>>,
    pub created_at: Seq<char>,
    pub resolved_at: Option<Seq<char>>,
}

impl View for Annotation {
    type V = AnnotationRow;

    open spec fn view(&self) -> AnnotationRow {
        AnnotationRow {
            uuid: self.uuid@,
            artifact_uuid: self.artifact_uuid@,
            kind: self.kind,
            start_offset: self.start_offset,
            end_offset: self.end_offset,
            selected_text: text::optional(self.selected_text),
            body: text::optional(self.body),
            created_at: self.created_at@,
            resolved_at: text::optional(self.resolved_at),
        }
    }
}

impl Clone for Annotation {
    fn clone(&self) -> (copy: Self)
        ensures
            copy@ == self@,
    {
        Annotation {
            uuid: self.uuid.clone(),
            artifact_uuid: self.artifact_uuid.clone(),
            kind: self.kind,
            start_offset: self.start_offset,
            end_offset: self.end_offset,
            selected_text: text::copy_optional(&self.selected_text),
            body: text::copy_optional(&self.body),
            created_at: self.created_at.clone(),
            resolved_at: text::copy_optional(&self.resolved_at),
        }
    }
}

/// An annotation that is asked for.
#[derive(Debug)]
pub struct NewAnnotation {
    pub kind: AnnotationKind,
    pub start_offset: Option<u64>,
    pub end_offset: Option<u64>,
    pub selected_text: Option<String>,
    pub body: Option<String>,
}

/// The view of an annotation that is asked for.
#[verifier::ext_equal]
pub struct NewAnnotationRow {
    pub kind: AnnotationKind,
    pub start_offset: Option<u64>,
    pub end_offset: Option<u64>,
    pub selected_text: Option<Seq<char>>,
    pub body: Option<Seq<char>>,
}

impl View for NewAnnotation {
    type V = NewAnnotationRow;

    open spec fn view(&self) -> NewAnnotationRow {
        NewAnnotationRow {
            kind: self.kind,
            start_offset: self.start_offset,
            end_offset: self.end_offset,
            selected_text: text::optional(self.selected_text),
            body: text::optional(self.body),
        }
    }
}

impl Clone for NewAnnotation {
    fn clone(&self) -> (copy: Self)
        ensures
            copy@ == self@,
    {
        NewAnnotation {
            kind: self.kind,
            start_offset: self.start_offset,
            end_offset: self.end_offset,
            selected_text: text::copy_optional(&self.selected_text),
            body: text::copy_optional(&self.body),
        }
    }
}

/// The views of a list of records.
pub open spec fn rows<T: View>(list: Seq<T>) -> Seq<T::V> {
    list.map_values(|record: T| record@)
}

/// A record that can be copied.
pub trait Record: View + Sized {
    /// A record with the same contents.
    fn duplicate(&self) -> (copy: Self)
        ensures
            copy@ == self@,
    ;
}

impl Record for Task {
    fn duplicate(&self) -> (copy: Self) {
        self.clone()
    }
}

impl Record for Artifact {
    fn duplicate(&self) -> (copy: Self) {
        self.clone()
    }
}

impl Record for Annotation {
    fn duplicate(&self) -> (copy: Self) {
        self.clone()
    }
}

impl Record for SearchDocument {
    fn duplicate(&self) -> (copy: Self) {
        self.clone()
    }
}

} // verus!
