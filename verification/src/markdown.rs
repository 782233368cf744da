//! Markdown output, and the rendering of Markdown.

use vstd::prelude::*;
use vstd::string::*;

use crate::app::App;
use crate::error::{Error, Failure};
use crate::ident;
use crate::laws;
use crate::model;
use crate::model::{
    Annotation, AnnotationKind, AnnotationRow, Artifact, ArtifactRow, Task, TaskRow,
};
use crate::state;
use crate::state::State;
use crate::text;

verus! {

// ---------------------------------------------------------------- inline text

/// A character in inline text: a line break as a space, and what Markdown would
/// take for markup behind a backslash.
pub open spec fn inline_char(c: char) -> Seq<char> {
    if c == '\n' || c == '\r' {
        seq![' ']
    } else if c == '\\' || c == '`' || c == '*' || c == '_' || c == '[' || c == ']' || c == '<' || c
        == '>' {
        seq!['\\', c]
    } else {
        seq![c]
    }
}

/// A text as inline text.
pub open spec fn inline(value: Seq<char>) -> Seq<char> {
    text::mapped(value, |c: char| inline_char(c))
}

/// A text as inline text.
pub fn markdown_inline(value: &str) -> (output: String)
    ensures
        output@ == inline(value@),
{
    let chars = text::chars_of(value);
    let mut output = String::new();
    let ghost map = |c: char| inline_char(c);
    assert(value@.take(0) =~= Seq::empty());
    for i in 0..chars.len()
        invariant
            chars@ == value@,
            map == (|c: char| inline_char(c)),
            output@ == text::mapped(value@.take(i as int), map),
    {
        proof {
            text::mapped_step(value@, map, i as int);
        }
        let c = chars[i];
        if c == '\n' || c == '\r' {
            output.push(' ');
        } else if c == '\\' || c == '`' || c == '*' || c == '_' || c == '[' || c == ']' || c == '<'
            || c == '>' {
            output.push('\\');
            output.push(c);
        } else {
            output.push(c);
        }
        assert(output@ =~= text::mapped(value@.take(i as int), map) + inline_char(c));
    }
    assert(value@.take(value@.len() as int) =~= value@);
    output
}

/// Inline text has no line breaks, so a heading stays on one line.
pub proof fn inline_has_no_line_break(value: Seq<char>)
    ensures
        !inline(value).contains('\n'),
        !inline(value).contains('\r'),
    decreases value.len(),
{
    if value.len() > 0 {
        let front = inline(value.drop_last());
        let last = inline_char(value.last());
        inline_has_no_line_break(value.drop_last());
        assert(inline(value) == front + last);
        assert forall|i: int| 0 <= i < inline(value).len() implies inline(value)[i] != '\n'
            && inline(value)[i] != '\r' by {
            if i < front.len() {
                assert(front.contains(front[i]));
            } else {
                assert(inline(value)[i] == last[i - front.len()]);
            }
        }
    }
}

// ---------------------------------------------------------------- feedback

/// Lines as a quotation.
pub open spec fn quoted(lines: Seq<Seq<char>>) -> Seq<char>
    decreases lines.len(),
{
    if lines.len() == 0 {
        Seq::empty()
    } else {
        quoted(lines.drop_last()) + "> "@ + lines.last() + "\n"@
    }
}

/// An annotation in feedback: the selected text as a quotation, then its body.
pub open spec fn remark(annotation: AnnotationRow) -> Seq<char> {
    (match annotation.selected_text {
        Some(selected_text) => "\n"@ + quoted(text::lines(selected_text)),
        None => Seq::empty(),
    }) + (match annotation.body {
        Some(body) => "\n"@ + body + "\n"@,
        None => Seq::empty(),
    })
}

/// The annotations of a list in feedback.
pub open spec fn remarks(annotations: Seq<AnnotationRow>) -> Seq<char>
    decreases annotations.len(),
{
    if annotations.len() == 0 {
        Seq::empty()
    } else {
        remarks(annotations.drop_last()) + remark(annotations.last())
    }
}

/// The annotations of one kind.
pub open spec fn of_kind(annotations: Seq<AnnotationRow>, kind: AnnotationKind) -> Seq<
    AnnotationRow,
> {
    annotations.filter(|annotation: AnnotationRow| annotation.kind == kind)
}

/// The feedback of one kind under its heading, or nothing where there is none.
pub open spec fn section(
    annotations: Seq<AnnotationRow>,
    kind: AnnotationKind,
    level: nat,
) -> Seq<char> {
    if of_kind(annotations, kind).len() == 0 {
        Seq::empty()
    } else {
        "\n"@ + text::repeated('#', level + 1) + " "@ + model::kind_title(kind) + "\n"@ + remarks(
            of_kind(annotations, kind),
        )
    }
}

/// The feedback that annotations give: comments, questions, what to strike out,
/// and what is good, each kind in the order of the list.
pub open spec fn feedback(annotations: Seq<AnnotationRow>, level: nat) -> Seq<char> {
    text::repeated('#', level) + " Feedback\n"@ + section(
        annotations,
        AnnotationKind::Comment,
        level,
    ) + section(annotations, AnnotationKind::Question, level) + section(
        annotations,
        AnnotationKind::Scratch,
        level,
    ) + section(annotations, AnnotationKind::Good, level)
}

fn push_quoted(output: &mut String, lines: &Vec<String>)
    ensures
        final(output)@ == old(output)@ + quoted(text::texts(lines@)),
{
    let ghost all = text::texts(lines@);
    assert(all.take(0) =~= Seq::empty());
    for i in 0..lines.len()
        invariant
            all == text::texts(lines@),
            output@ == old(output)@ + quoted(all.take(i as int)),
    {
        assert(all.take(i + 1).drop_last() =~= all.take(i as int));
        output.append("> ");
        output.append(lines[i].as_str());
        output.append("\n");
        assert(output@ =~= old(output)@ + quoted(all.take(i + 1)));
    }
    assert(all.take(all.len() as int) =~= all);
}

fn push_remark(output: &mut String, annotation: &Annotation)
    ensures
        final(output)@ == old(output)@ + remark(annotation@),
{
    if let Some(selected_text) = &annotation.selected_text {
        let lines = text::lines_of(selected_text.as_str());
        output.append("\n");
        push_quoted(output, &lines);
    }
    if let Some(body) = &annotation.body {
        output.append("\n");
        output.append(body.as_str());
        output.append("\n");
    }
    assert(output@ =~= old(output)@ + remark(annotation@));
}

fn push_section(
    output: &mut String,
    annotations: &Vec<Annotation>,
    kind: AnnotationKind,
    level: usize,
)
    requires
        level < usize::MAX,
    ensures
        final(output)@ == old(output)@ + section(model::rows(annotations@), kind, level as nat),
{
    let ghost list = model::rows(annotations@);
    let ghost keep = |annotation: AnnotationRow| annotation.kind == kind;
    let mut entries = String::new();
    let mut any = false;
    assert(list.take(0).filter(keep) =~= Seq::empty()) by {
        reveal(Seq::filter);
    }
    for i in 0..annotations.len()
        invariant
            list == model::rows(annotations@),
            keep == (|annotation: AnnotationRow| annotation.kind == kind),
            entries@ == remarks(list.take(i as int).filter(keep)),
            any == (list.take(i as int).filter(keep).len() > 0),
    {
        proof {
            laws::filter_step(list, keep, i as int);
        }
        assert(list[i as int] == annotations@[i as int]@);
        if annotations[i].kind == kind {
            let ghost before = list.take(i as int).filter(keep);
            push_remark(&mut entries, &annotations[i]);
            any = true;
            assert(before.push(list[i as int]).drop_last() =~= before);
        }
    }
    assert(list.take(list.len() as int) =~= list);
    if any {
        let marks = text::repeat('#', level + 1);
        output.append("\n");
        output.append(marks.as_str());
        output.append(" ");
        output.append(kind.title());
        output.append("\n");
        output.append(entries.as_str());
    }
    assert(output@ =~= old(output)@ + section(list, kind, level as nat));
}

/// The feedback that annotations give, under a heading of the given level.
pub fn feedback_of(annotations: &Vec<Annotation>, level: usize) -> (output: String)
    requires
        level < usize::MAX,
    ensures
        output@ == feedback(model::rows(annotations@), level as nat),
{
    let mut output = text::repeat('#', level);
    output.append(" Feedback\n");
    push_section(&mut output, annotations, AnnotationKind::Comment, level);
    push_section(&mut output, annotations, AnnotationKind::Question, level);
    push_section(&mut output, annotations, AnnotationKind::Scratch, level);
    push_section(&mut output, annotations, AnnotationKind::Good, level);
    output
}

// ---------------------------------------------------------------- review and context

/// The instructions for whoever is to address the feedback on an artifact.
pub open spec fn review(artifact_uuid: Seq<char>, annotations: Seq<AnnotationRow>) -> Seq<char> {
    "# Artifact Review\n\nArtifact UUID: "@ + artifact_uuid
        + "\n\nYou must review and address all unresolved feedback below.\n\nRules:\n- Read the current artifact before making changes.\n- Address every unresolved `comment`, `question`, and `scratch`.\n- Treat `good` annotations as guidance to preserve that part unless conflicting feedback requires otherwise.\n- Do not resolve annotations until their feedback has been addressed.\n- Update the existing artifact instead of creating a replacement unless explicitly requested.\n\n"@
        + feedback(annotations, 2)
}

/// An artifact in the context of its task.
pub open spec fn context_entry(artifact: ArtifactRow) -> Seq<char> {
    "\n### "@ + inline(artifact.artifact_type) + " ("@ + artifact.uuid + ")\n\n"@ + artifact.body
        + "\n"@
}

/// The artifacts of a list in the context of their task.
pub open spec fn context_entries(artifacts: Seq<ArtifactRow>) -> Seq<char>
    decreases artifacts.len(),
{
    if artifacts.len() == 0 {
        Seq::empty()
    } else {
        context_entries(artifacts.drop_last()) + context_entry(artifacts.last())
    }
}

/// A task and its artifacts in one text.
pub open spec fn context(task: TaskRow, artifacts: Seq<ArtifactRow>) -> Seq<char> {
    let head = "# Task: "@ + inline(task.id) + "\n\n"@ + task.body
        + "\n\n## Agent instructions\n\nWhen creating an artifact, provide a short descriptive filename with `--name` when there is an obvious one. Use the artifact UUID for all subsequent operations.\n"@;
    if artifacts.len() == 0 {
        head
    } else {
        head + "\n## Artifacts\n"@ + context_entries(artifacts)
    }
}

/// The instructions for whoever is to address the feedback on an artifact.
pub fn review_of(artifact_uuid: &str, annotations: &Vec<Annotation>) -> (output: String)
    ensures
        output@ == review(artifact_uuid@, model::rows(annotations@)),
{
    let feedback = feedback_of(annotations, 2);
    let head = text::concat3(
        "# Artifact Review\n\nArtifact UUID: ",
        artifact_uuid,
        "\n\nYou must review and address all unresolved feedback below.\n\nRules:\n- Read the current artifact before making changes.\n- Address every unresolved `comment`, `question`, and `scratch`.\n- Treat `good` annotations as guidance to preserve that part unless conflicting feedback requires otherwise.\n- Do not resolve annotations until their feedback has been addressed.\n- Update the existing artifact instead of creating a replacement unless explicitly requested.\n\n",
    );
    text::concat2(head.as_str(), feedback.as_str())
}

/// A task and its artifacts in one text.
pub fn context_of(task: &Task, artifacts: &Vec<Artifact>) -> (output: String)
    ensures
        output@ == context(task@, model::rows(artifacts@)),
{
    let id = markdown_inline(task.id.as_str());
    let mut output = text::concat3("# Task: ", id.as_str(), "\n\n");
    output.append(task.body.as_str());
    output.append(
        "\n\n## Agent instructions\n\nWhen creating an artifact, provide a short descriptive filename with `--name` when there is an obvious one. Use the artifact UUID for all subsequent operations.\n",
    );
    if artifacts.len() > 0 {
        output.append("\n## Artifacts\n");
        let ghost head = output@;
        let ghost list = model::rows(artifacts@);
        assert(list.take(0) =~= Seq::empty());
        for i in 0..artifacts.len()
            invariant
                list == model::rows(artifacts@),
                output@ == head + context_entries(list.take(i as int)),
        {
            assert(list.take(i + 1).drop_last() =~= list.take(i as int));
            assert(list[i as int] == artifacts@[i as int]@);
            let artifact = &artifacts[i];
            let artifact_type = markdown_inline(artifact.artifact_type.as_str());
            output.append("\n### ");
            output.append(artifact_type.as_str());
            output.append(" (");
            output.append(artifact.uuid.as_str());
            output.append(")\n\n");
            output.append(artifact.body.as_str());
            output.append("\n");
            assert(output@ =~= head + context_entries(list.take(i + 1)));
        }
        assert(list.take(list.len() as int) =~= list);
    }
    output
}

impl App {
    /// The unresolved feedback on an artifact.
    pub fn feedback_markdown(&self, artifact_uuid: &str) -> (result: Result<String, Error>)
        requires
            self@.wf(),
        ensures
            match (self@.read_artifact(artifact_uuid@), result) {
                (Ok(artifact), Ok(output)) => exists|annotations: Seq<AnnotationRow>| #[trigger]
                    self@.lists_annotations(artifact.uuid, false, annotations) && output@
                        == feedback(annotations, 1),
                (Err(failure), Err(error)) => error@ == failure,
                _ => false,
            },
    {
        match self.list_annotations(artifact_uuid, false) {
            Err(error) => Err(error),
            Ok(annotations) => Ok(feedback_of(&annotations, 1)),
        }
    }

    /// The unresolved feedback on an artifact, with instructions for whoever is to
    /// address it.
    pub fn review_markdown(&self, artifact_uuid: &str) -> (result: Result<String, Error>)
        requires
            self@.wf(),
        ensures
            match (self@.read_artifact(artifact_uuid@), result) {
                (Ok(artifact), Ok(output)) => exists|annotations: Seq<AnnotationRow>| #[trigger]
                    self@.lists_annotations(artifact.uuid, false, annotations) && output@ == review(
                        artifact.uuid,
                        annotations,
                    ),
                (Err(failure), Err(error)) => error@ == failure,
                _ => false,
            },
    {
        let artifact = match self.read_artifact(artifact_uuid) {
            Err(error) => {
                return Err(error);
            },
            Ok(artifact) => artifact,
        };
        proof {
            ident::canonical_form(artifact_uuid@);
            let canonical = ident::canonical_uuid(artifact_uuid@)->0;
            ident::canonical_form(canonical);
            assert(artifact@.uuid == canonical);
        }
        match self.list_annotations(artifact.uuid.as_str(), false) {
            Err(error) => Err(error),
            Ok(annotations) => Ok(review_of(artifact.uuid.as_str(), &annotations)),
        }
    }

    /// A task and its artifacts in one text.
    pub fn context_markdown(&self, task_key: &str) -> (result: Result<String, Error>)
        requires
            self@.wf(),
        ensures
            match (self@.read_task(task_key@), result) {
                (Ok(task), Ok(output)) => exists|artifacts: Seq<ArtifactRow>| #[trigger]
                    lists_artifacts_of(self@, task.uuid, artifacts) && output@ == context(
                        task,
                        artifacts,
                    ),
                (Ok(task), Err(error)) => self@.task_named(task.uuid) == Err::<int, Failure>(
                    error@,
                ),
                (Err(failure), Err(error)) => error@ == failure,
                _ => false,
            },
    {
        let task = match self.read_task(task_key) {
            Err(error) => {
                return Err(error);
            },
            Ok(task) => task,
        };
        match self.list_artifacts(task.uuid.as_str(), None) {
            Err(error) => Err(error),
            Ok(artifacts) => {
                assert(lists_artifacts_of(self@, task@.uuid, model::rows(artifacts@)));
                Ok(context_of(&task, &artifacts))
            },
        }
    }
}

/// `artifacts` is the list of the artifacts of the task that the key names.
pub open spec fn lists_artifacts_of(
    state: State,
    key: Seq<char>,
    artifacts: Seq<ArtifactRow>,
) -> bool {
    match state.task_named(key) {
        Ok(i) => state.lists_artifacts(state.tasks[i].uuid, None, artifacts),
        Err(_) => false,
    }
}

// ---------------------------------------------------------------- rendering

/// The tag that loads images.
pub const IMAGE_TAG: &'static str = "img";

/// The tag that may carry the language of its contents.
pub const CODE_TAG: &'static str = "code";

/// The attribute that holds the language.
pub const CLASS_ATTRIBUTE: &'static str = "class";

/// What is kept of an attribute: of the classes of code, those that name a
/// language; every other attribute as it is.
pub open spec fn attribute_kept(
    element: Seq<char>,
    attribute: Seq<char>,
    value: Seq<char>,
) -> Option<Seq<char>> {
    if element == CODE_TAG@ && attribute == CLASS_ATTRIBUTE@ {
        let languages = text::words(value, true).filter(
            |class: Seq<char>| text::occurs_at(class, "language-"@, 0),
        );
        if languages.len() == 0 {
            None
        } else {
            Some(text::join(languages, " "@))
        }
    } else {
        Some(value)
    }
}

/// What is kept of an attribute.
pub fn filter_attribute(element: &str, attribute: &str, value: &str) -> (kept: Option<String>)
    ensures
        text::optional(kept) == attribute_kept(element@, attribute@, value@),
{
    if text::same(element, CODE_TAG) && text::same(attribute, CLASS_ATTRIBUTE) {
        let classes = text::words_of(value, true);
        let ghost all = text::texts(classes@);
        let ghost keep = |class: Seq<char>| text::occurs_at(class, "language-"@, 0);
        let mut languages: Vec<String> = Vec::new();
        assert(all.take(0).filter(keep) =~= Seq::empty()) by {
            reveal(Seq::filter);
        }
        for i in 0..classes.len()
            invariant
                all == text::texts(classes@),
                keep == (|class: Seq<char>| text::occurs_at(class, "language-"@, 0)),
                text::texts(languages@) == all.take(i as int).filter(keep),
        {
            proof {
                laws::filter_step(all, keep, i as int);
            }
            if text::begins_with(classes[i].as_str(), "language-") {
                let ghost before = languages@;
                languages.push(classes[i].clone());
                assert(text::texts(languages@) =~= text::texts(before).push(all[i as int]));
            }
        }
        assert(all.take(all.len() as int) =~= all);
        assert(languages@.len() == text::texts(languages@).len());
        if languages.len() == 0 {
            None
        } else {
            Some(text::joined(&languages, " "))
        }
    } else {
        Some(value.to_owned())
    }
}

/// What `pulldown_cmark` makes of a Markdown text with all extensions: the events
/// of `Parser::new_ext` with `Options::all`, written by `html::push_html`.
pub uninterp spec fn markdown_to_html(markdown: Seq<char>) -> Seq<char>;

/// Renders with `pulldown_cmark::html::push_html` what
/// `pulldown_cmark::Parser::new_ext` reads with `Options::all`. The result is
/// named; nothing else is said of it.
#[verifier::external_body]
fn html_of(markdown: &str) -> (html: String)
    ensures
        html@ == markdown_to_html(markdown@),
{
    let parser = pulldown_cmark::Parser::new_ext(markdown, pulldown_cmark::Options::all());
    let mut html = String::new();
    pulldown_cmark::html::push_html(&mut html, parser);
    html
}

/// What `ammonia` makes of an HTML text: with one tag taken from its list of
/// allowed tags, one attribute of one tag added to the allowed ones, and the
/// values of attributes passed through [`filter_attribute`].
pub uninterp spec fn sanitized(
    html: Seq<char>,
    removed_tag: Seq<char>,
    tag: Seq<char>,
    attribute: Seq<char>,
) -> Seq<char>;

/// Letters of ASCII and nothing else.
pub open spec fn is_word(value: Seq<char>) -> bool {
    forall|i: int| 0 <= i < value.len() ==> ('a' <= #[trigger] value[i] <= 'z' || 'A' <= value[i] <= 'Z')
}

/// A tag of an HTML text holds a link that runs a script, with the words in
/// whatever case: `href` with a `javascript:` address before the next `>`.
pub open spec fn links_to_script(html: Seq<char>) -> bool {
    exists|i: int, j: int| #[trigger] holds_script_link(html, i, j)
}

/// The tag that begins at one place holds a link that runs a script at the other.
pub open spec fn holds_script_link(html: Seq<char>, i: int, j: int) -> bool {
    &&& 0 <= i < j <= html.len()
    &&& html[i] == '<'
    &&& forall|k: int| i < k < j ==> html[k] != '>'
    &&& text::occurs_at(text::lowercase(html), " href=\"javascript:"@, j)
}

/// In the tag that begins at one place, an attribute `class` begins at the other:
/// no `>` stands between, and every quotation mark that opens is closed.
pub open spec fn holds_class(html: Seq<char>, i: int, j: int) -> bool {
    &&& 0 <= i < j <= html.len()
    &&& html[i] == '<'
    &&& forall|k: int| i < k < j ==> html[k] != '>'
    &&& text::occurrences(html.subrange(i, j), '"') % 2 == 0
    &&& text::occurs_at(html, " class=\""@, j)
}

/// A class begins at a place in the value that begins at another: before the
/// closing quotation mark, at the beginning or after a space.
pub open spec fn class_begins(html: Seq<char>, from: int, k: int) -> bool {
    &&& from <= k < html.len()
    &&& forall|m: int| from <= m < k ==> html[m] != '"'
    &&& k == from || html[k - 1] == ' '
}

/// An attribute `class` stands in `code` tags only, and each class in it names a
/// language.
pub open spec fn classes_are_languages(html: Seq<char>) -> bool {
    forall|i: int, j: int| #[trigger]
        holds_class(html, i, j) ==> text::occurs_at(html, "<code "@, i) && forall|k: int| #[trigger]
            class_begins(html, j + 8, k) ==> text::occurs_at(html, "language-"@, k)
}

/// Cleans with `ammonia::Builder::clean`. The result is named. It holds no start
/// tag of the removed element and none of `script`, which is never allowed: `<`
/// stands in it only where the tag of an allowed element begins or ends, and is
/// written `&lt;` in texts and attributes. No tag holds a `javascript:` link: an
/// `href` is kept only with an address of an allowed scheme or of none, and within
/// its quotes `"` is written `&quot;`. Where `class` is the attribute that is allowed
/// of `code`, no other tag has one, and what [`filter_attribute`] keeps of it is
/// written between its quotes: there is a class, each names a language, and single
/// spaces stand between. The builder refuses to allow `rel`, and attributes of
/// `script` and `style`. What else is in the result is left unsaid.
#[verifier::external_body]
fn clean(html: &str, removed_tag: &str, tag: &str, attribute: &str) -> (result: String)
    requires
        is_word(removed_tag@),
        is_word(tag@),
        is_word(attribute@),
        tag@ != "script"@,
        tag@ != "style"@,
        attribute@ != "rel"@,
    ensures
        result@ == sanitized(html@, removed_tag@, tag@, attribute@),
        !text::contains(result@, "<"@ + removed_tag@ + ">"@),
        !text::contains(result@, "<"@ + removed_tag@ + " "@),
        !text::contains(result@, "<script"@),
        !links_to_script(result@),
        tag@ == CODE_TAG@ && attribute@ == CLASS_ATTRIBUTE@ ==> classes_are_languages(result@),
{
    let attributes = [attribute];
    let mut builder = ammonia::Builder::default();
    builder.rm_tags(&[removed_tag]);
    builder.add_tag_attributes(tag, &attributes);
    builder.attribute_filter(
        |element, attribute, value|
            filter_attribute(element, attribute, value).map(std::borrow::Cow::Owned),
    );
    builder.clean(html).to_string()
}

/// A Markdown text as HTML that is safe to show: without images, scripts and links
/// that run them, and with no classes but the languages of code.
pub fn render_markdown(markdown: &str) -> (html: String)
    ensures
        html@ == sanitized(
            markdown_to_html(markdown@),
            IMAGE_TAG@,
            CODE_TAG@,
            CLASS_ATTRIBUTE@,
        ),
        !text::contains(html@, "<img>"@),
        !text::contains(html@, "<img "@),
        !text::contains(html@, "<script"@),
        !links_to_script(html@),
        classes_are_languages(html@),
{
    proof {
        reveal_strlit("img");
        reveal_strlit("code");
        reveal_strlit("class");
        reveal_strlit("script");
        reveal_strlit("style");
        reveal_strlit("rel");
        reveal_strlit("<");
        reveal_strlit(">");
        reveal_strlit(" ");
        reveal_strlit("<img>");
        reveal_strlit("<img ");
        assert("<"@ + "img"@ + ">"@ =~= "<img>"@);
        assert("<"@ + "img"@ + " "@ =~= "<img "@);
        assert(CODE_TAG@[0] == 'c');
        assert("script"@[0] == 's');
        assert("style"@[0] == 's');
        assert(CLASS_ATTRIBUTE@[0] == 'c');
        assert("rel"@[0] == 'r');
    }
    let html = html_of(markdown);
    clean(html.as_str(), IMAGE_TAG, CODE_TAG, CLASS_ATTRIBUTE)
}

} // verus!
