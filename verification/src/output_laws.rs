//! What is written out: lines of fields, feedback, reviews and contexts.

use vstd::prelude::*;

use crate::cli;
use crate::markdown;
use crate::model;
use crate::model::{
    AnnotationKind, AnnotationRow, ArtifactInfoRow, ArtifactRow, MatchRow, TaskRow,
};
use crate::text;
use crate::text_laws;

verus! {

// ---------------------------------------------------------------- pieces

/// Each piece of a text stands in it, after those before it.
pub proof fn piece_stands(pieces: Seq<Seq<char>>, k: int)
    requires
        0 <= k < pieces.len(),
    ensures
        text::occurs_at(pieces.flatten(), pieces[k], pieces.take(k).flatten().len() as int),
    decreases pieces.len(),
{
    let front = pieces.drop_last();
    assert(pieces =~= front.push(pieces.last()));
    front.lemma_flatten_push(pieces.last());
    let whole = pieces.flatten();
    if k == pieces.len() - 1 {
        assert(pieces.take(k) =~= front);
        let at = front.flatten().len() as int;
        assert(whole.subrange(at, at + pieces[k].len()) =~= pieces[k]);
    } else {
        piece_stands(front, k);
        assert(front.take(k) =~= pieces.take(k));
        let at = pieces.take(k).flatten().len() as int;
        assert(whole.subrange(at, at + pieces[k].len()) =~= front.flatten().subrange(
            at,
            at + pieces[k].len(),
        ));
    }
}

/// What stands in a part of a text stands in the text.
proof fn stands_in_middle(a: Seq<char>, b: Seq<char>, c: Seq<char>, piece: Seq<char>, at: int)
    requires
        text::occurs_at(b, piece, at),
    ensures
        text::occurs_at(a + b + c, piece, a.len() + at),
{
    assert((a + b + c).subrange(a.len() + at, a.len() + at + piece.len()) =~= b.subrange(
        at,
        at + piece.len(),
    ));
}

// ---------------------------------------------------------------- fields and lines

/// A field is the text, character by character, with a backslash and a letter for a
/// tab or a line break, and two backslashes for one.
pub proof fn field_is(value: Seq<char>)
    ensures
        cli::field(value) == value.map_values(
            |c: char|
                if c as u32 == 92 {
                    seq!['\\', '\\']
                } else if c as u32 == 9 {
                    seq!['\\', 't']
                } else if c as u32 == 13 {
                    seq!['\\', 'r']
                } else if c as u32 == 10 {
                    seq!['\\', 'n']
                } else {
                    seq![c]
                },
        ).flatten(),
{
    let wanted = |c: char|
        if c as u32 == 92 {
            seq!['\\', '\\']
        } else if c as u32 == 9 {
            seq!['\\', 't']
        } else if c as u32 == 13 {
            seq!['\\', 'r']
        } else if c as u32 == 10 {
            seq!['\\', 'n']
        } else {
            seq![c]
        };
    let map = |c: char| cli::field_char(c);
    text_laws::mapped_is(value, map);
    assert forall|i: int| 0 <= i < value.len() implies map(#[trigger] value[i]) == wanted(
        value[i],
    ) by {
        escaped_characters(value[i]);
    }
    assert(value.map_values(map) =~= value.map_values(wanted));
}

proof fn escaped_characters(c: char)
    ensures
        c as u32 == 92 <==> c == '\\',
        c as u32 == 9 <==> c == '\t',
        c as u32 == 13 <==> c == '\r',
        c as u32 == 10 <==> c == '\n',
{
}

/// A text without backslashes, tabs and line breaks is its own field.
pub proof fn plain_field_is_kept(value: Seq<char>)
    requires
        forall|i: int|
            0 <= i < value.len() ==> #[trigger] value[i] != '\\' && value[i] != '\t' && value[i]
                != '\r' && value[i] != '\n',
    ensures
        cli::field(value) == value,
    decreases value.len(),
{
    if value.len() == 0 {
        assert(cli::field(value) =~= value);
    } else {
        let front = value.drop_last();
        assert forall|i: int| 0 <= i < front.len() implies #[trigger] front[i] != '\\' && front[i]
            != '\t' && front[i] != '\r' && front[i] != '\n' by {
            assert(front[i] == value[i]);
        }
        plain_field_is_kept(front);
        assert(value[value.len() - 1] != '\\');
        assert(cli::field(value) =~= front + seq![value.last()]);
        assert(front + seq![value.last()] =~= value);
    }
}

/// Each task is one line, in the order of the list: its UUID, its id as a field and
/// the time of its last change, with tabs between.
pub proof fn task_lines_are(tasks: Seq<TaskRow>)
    ensures
        cli::task_lines(tasks) == tasks.map_values(
            |task: TaskRow|
                task.uuid + seq!['\t'] + cli::field(task.id) + seq!['\t'] + task.updated_at
                    + seq!['\n'],
        ).flatten(),
    decreases tasks.len(),
{
    let line = |task: TaskRow|
        task.uuid + seq!['\t'] + cli::field(task.id) + seq!['\t'] + task.updated_at + seq!['\n'];
    reveal_strlit("\t");
    reveal_strlit("\n");
    assert("\t"@ =~= seq!['\t']);
    assert("\n"@ =~= seq!['\n']);
    if tasks.len() == 0 {
        assert(tasks.map_values(line).flatten() =~= Seq::empty());
    } else {
        let front = tasks.drop_last();
        task_lines_are(front);
        assert(tasks.map_values(line) =~= front.map_values(line).push(line(tasks.last())));
        front.map_values(line).lemma_flatten_push(line(tasks.last()));
    }
}

/// Each artifact is one line, in the order of the list: its UUID, its type and its
/// name as fields and the time of its last change, with tabs between.
pub proof fn artifact_lines_are(artifacts: Seq<ArtifactRow>)
    ensures
        cli::artifact_lines(artifacts) == artifacts.map_values(
            |artifact: ArtifactRow|
                artifact.uuid + seq!['\t'] + cli::field(artifact.artifact_type) + seq!['\t']
                    + cli::field(artifact.display_name()) + seq!['\t'] + artifact.updated_at
                    + seq!['\n'],
        ).flatten(),
    decreases artifacts.len(),
{
    let line = |artifact: ArtifactRow|
        artifact.uuid + seq!['\t'] + cli::field(artifact.artifact_type) + seq!['\t'] + cli::field(
            artifact.display_name(),
        ) + seq!['\t'] + artifact.updated_at + seq!['\n'];
    reveal_strlit("\t");
    reveal_strlit("\n");
    assert("\t"@ =~= seq!['\t']);
    assert("\n"@ =~= seq!['\n']);
    if artifacts.len() == 0 {
        assert(artifacts.map_values(line).flatten() =~= Seq::empty());
    } else {
        let front = artifacts.drop_last();
        artifact_lines_are(front);
        assert(artifacts.map_values(line) =~= front.map_values(line).push(line(artifacts.last())));
        front.map_values(line).lemma_flatten_push(line(artifacts.last()));
    }
}

/// The name that an artifact is shown with: its own, or its type, two hyphens, the
/// first eight characters of its UUID and `.md`.
pub proof fn shown_name_is(artifact: ArtifactRow)
    ensures
        artifact.name matches Some(name) ==> artifact.display_name() == name,
        artifact.name is None && artifact.uuid.len() >= 8 && vstd::utf8::is_ascii_chars(
            artifact.uuid,
        ) ==> artifact.display_name() == artifact.artifact_type + seq!['-', '-']
            + artifact.uuid.take(8) + seq!['.', 'm', 'd'],
{
    reveal_strlit("--");
    reveal_strlit(".md");
    assert("--"@ =~= seq!['-', '-']);
    assert(".md"@ =~= seq!['.', 'm', 'd']);
    if artifact.uuid.len() >= 8 && vstd::utf8::is_ascii_chars(artifact.uuid) {
        text::byte_prefix_of_ascii(artifact.uuid, 8);
    }
}

/// An offset as it is written: its decimal notation, or `\N` for none.
pub open spec fn written_offset(offset: Option<u64>, written: Seq<char>) -> bool {
    match offset {
        Some(number) => text_laws::number_of(written) == number && written == text::decimal(
            number as nat,
        ),
        None => written == seq!['\\', 'N'],
    }
}

/// The word for a kind, letter by letter.
pub open spec fn word_of(kind: AnnotationKind) -> Seq<char> {
    match kind {
        AnnotationKind::Comment => seq!['c', 'o', 'm', 'm', 'e', 'n', 't'],
        AnnotationKind::Question => seq!['q', 'u', 'e', 's', 't', 'i', 'o', 'n'],
        AnnotationKind::Scratch => seq!['s', 'c', 'r', 'a', 't', 'c', 'h'],
        AnnotationKind::Good => seq!['g', 'o', 'o', 'd'],
    }
}

proof fn words_are(kind: AnnotationKind)
    ensures
        model::kind_word(kind) == word_of(kind),
        model::kind_title(kind) == title_of(kind),
{
    reveal_strlit("comment");
    reveal_strlit("question");
    reveal_strlit("scratch");
    reveal_strlit("good");
    reveal_strlit("Comment");
    reveal_strlit("Question");
    reveal_strlit("Scratch");
    reveal_strlit("Good");
    assert(model::kind_word(kind) =~= word_of(kind));
    assert(model::kind_title(kind) =~= title_of(kind));
}

/// The heading for a kind: its word with a capital.
pub open spec fn title_of(kind: AnnotationKind) -> Seq<char> {
    let word = word_of(kind);
    word.update(0, ((word[0] as u32) - 32) as char)
}

/// The line of an annotation: its UUID, its kind, where it begins and ends, and when
/// it was resolved, with tabs between and `\N` for what there is not.
pub proof fn annotation_line_is(annotation: AnnotationRow)
    ensures
        exists|start: Seq<char>, end: Seq<char>, resolved: Seq<char>|
            #![trigger start + seq!['\t'] + end + seq!['\t'] + resolved]
            {
                &&& written_offset(annotation.start_offset, start)
                &&& written_offset(annotation.end_offset, end)
                &&& match annotation.resolved_at {
                    Some(time) => resolved == time,
                    None => resolved == seq!['\\', 'N'],
                }
                &&& cli::annotation_line(annotation) == annotation.uuid + seq!['\t'] + word_of(
                    annotation.kind,
                ) + seq!['\t'] + (start + seq!['\t'] + end + seq!['\t'] + resolved) + seq!['\n']
            },
{
    reveal_strlit("\t");
    reveal_strlit("\n");
    reveal_strlit("\\N");
    assert("\t"@ =~= seq!['\t']);
    assert("\n"@ =~= seq!['\n']);
    assert("\\N"@ =~= seq!['\\', 'N']);
    words_are(annotation.kind);
    let start = cli::number_field(annotation.start_offset);
    let end = cli::number_field(annotation.end_offset);
    let resolved = match annotation.resolved_at {
        Some(time) => time,
        None => "\\N"@,
    };
    if let Some(number) = annotation.start_offset {
        text_laws::decimal_stands_for(number as nat);
    }
    if let Some(number) = annotation.end_offset {
        text_laws::decimal_stands_for(number as nat);
    }
    assert(cli::annotation_line(annotation) =~= annotation.uuid + seq!['\t'] + word_of(
        annotation.kind,
    ) + seq!['\t'] + (start + seq!['\t'] + end + seq!['\t'] + resolved) + seq!['\n']);
}

/// Each annotation is one line, in the order of the list.
pub proof fn annotation_lines_are(annotations: Seq<AnnotationRow>)
    ensures
        cli::annotation_lines(annotations) == annotations.map_values(
            |annotation: AnnotationRow| cli::annotation_line(annotation),
        ).flatten(),
    decreases annotations.len(),
{
    let line = |annotation: AnnotationRow| cli::annotation_line(annotation);
    if annotations.len() == 0 {
        assert(annotations.map_values(line).flatten() =~= Seq::empty());
    } else {
        let front = annotations.drop_last();
        annotation_lines_are(front);
        assert(annotations.map_values(line) =~= front.map_values(line).push(
            line(annotations.last()),
        ));
        front.map_values(line).lemma_flatten_push(line(annotations.last()));
    }
}

/// Each match is one entry, in the order of the list: its path with the UUID of its
/// artifact in brackets, if any, the number of the line and the line, with colons
/// between.
pub proof fn match_lines_are(matches: Seq<MatchRow>)
    requires
        forall|k: int| 0 <= k < matches.len() ==> (#[trigger] matches[k]).line_number >= 0,
    ensures
        cli::match_lines(matches) == matches.map_values(
            |found: MatchRow|
                found.path + (match found.artifact_uuid {
                    Some(uuid) => seq![' ', '['] + uuid + seq![']'],
                    None => Seq::empty(),
                }) + seq![':'] + text::decimal(found.line_number as nat) + seq![':'] + found.line
                    + seq!['\n'],
        ).flatten(),
    decreases matches.len(),
{
    let line = |found: MatchRow|
        found.path + (match found.artifact_uuid {
            Some(uuid) => seq![' ', '['] + uuid + seq![']'],
            None => Seq::empty(),
        }) + seq![':'] + text::decimal(found.line_number as nat) + seq![':'] + found.line
            + seq!['\n'];
    reveal_strlit(":");
    reveal_strlit("\n");
    reveal_strlit(" [");
    reveal_strlit("]");
    assert(":"@ =~= seq![':']);
    assert("\n"@ =~= seq!['\n']);
    assert(" ["@ =~= seq![' ', '[']);
    assert("]"@ =~= seq![']']);
    if matches.len() == 0 {
        assert(matches.map_values(line).flatten() =~= Seq::empty());
    } else {
        let front = matches.drop_last();
        assert forall|k: int| 0 <= k < front.len() implies (#[trigger] front[k]).line_number >= 0 by {
            assert(front[k] == matches[k]);
        }
        match_lines_are(front);
        assert(cli::match_line(matches.last()) =~= line(matches.last()));
        assert(matches.map_values(line) =~= front.map_values(line).push(line(matches.last())));
        front.map_values(line).lemma_flatten_push(line(matches.last()));
    }
}

/// What is told of an artifact: five lines, each with what it says of the artifact
/// from the sixteenth character on.
pub proof fn info_lines_are(info: ArtifactInfoRow)
    ensures
        ({
            let fields = seq![
                info.uuid,
                info.task_id,
                info.task_uuid,
                info.artifact_type,
                info.name,
            ];
            exists|labels: Seq<Seq<char>>|
                #![trigger labels.len()]
                {
                    &&& labels == seq![
                        "Artifact UUID: "@,
                        "Task ID:      "@,
                        "Task UUID:    "@,
                        "Type:         "@,
                        "Name:         "@,
                    ]
                    &&& cli::info_lines(info) == Seq::new(
                        5,
                        |k: int| labels[k] + fields[k] + seq!['\n'],
                    ).flatten()
                }
        }),
{
    reveal_strlit("\n");
    reveal_strlit("Artifact UUID: ");
    reveal_strlit("\nTask ID:      ");
    reveal_strlit("\nTask UUID:    ");
    reveal_strlit("\nType:         ");
    reveal_strlit("\nName:         ");
    reveal_strlit("Task ID:      ");
    reveal_strlit("Task UUID:    ");
    reveal_strlit("Type:         ");
    reveal_strlit("Name:         ");
    assert("\n"@ =~= seq!['\n']);
    assert("\nTask ID:      "@ =~= seq!['\n'] + "Task ID:      "@);
    assert("\nTask UUID:    "@ =~= seq!['\n'] + "Task UUID:    "@);
    assert("\nType:         "@ =~= seq!['\n'] + "Type:         "@);
    assert("\nName:         "@ =~= seq!['\n'] + "Name:         "@);
    let fields = seq![info.uuid, info.task_id, info.task_uuid, info.artifact_type, info.name];
    let labels = seq![
        "Artifact UUID: "@,
        "Task ID:      "@,
        "Task UUID:    "@,
        "Type:         "@,
        "Name:         "@,
    ];
    let pieces = Seq::new(5, |k: int| labels[k] + fields[k] + seq!['\n']);
    let a = "Artifact UUID: "@ + info.uuid + seq!['\n'];
    let b = "Task ID:      "@ + info.task_id + seq!['\n'];
    let c = "Task UUID:    "@ + info.task_uuid + seq!['\n'];
    let d = "Type:         "@ + info.artifact_type + seq!['\n'];
    let e = "Name:         "@ + info.name + seq!['\n'];
    five_pieces(a, b, c, d, e);
    assert(pieces =~= seq![a, b, c, d, e]);
    assert(cli::info_lines(info) =~= a + b + c + d + e);
    assert(labels.len() == 5);
}

proof fn five_pieces(a: Seq<char>, b: Seq<char>, c: Seq<char>, d: Seq<char>, e: Seq<char>)
    ensures
        seq![a, b, c, d, e].flatten() == a + b + c + d + e,
{
    let none = Seq::<Seq<char>>::empty();
    none.lemma_flatten_push(a);
    seq![a].lemma_flatten_push(b);
    seq![a, b].lemma_flatten_push(c);
    seq![a, b, c].lemma_flatten_push(d);
    seq![a, b, c, d].lemma_flatten_push(e);
    assert(none.push(a) =~= seq![a]);
    assert(seq![a].push(b) =~= seq![a, b]);
    assert(seq![a, b].push(c) =~= seq![a, b, c]);
    assert(seq![a, b, c].push(d) =~= seq![a, b, c, d]);
    assert(seq![a, b, c, d].push(e) =~= seq![a, b, c, d, e]);
    assert(none.flatten() =~= Seq::<char>::empty());
    assert(seq![a].flatten() =~= a);
}

// ---------------------------------------------------------------- inline text

/// Inline text is the text, character by character, with a space for a line break
/// and a backslash before what Markdown takes for markup.
pub proof fn inline_is(value: Seq<char>)
    ensures
        markdown::inline(value) == value.map_values(
            |c: char|
                if c == '\n' || c == '\r' {
                    seq![' ']
                } else if seq!['\\', '`', '*', '_', '[', ']', '<', '>'].contains(c) {
                    seq!['\\', c]
                } else {
                    seq![c]
                },
        ).flatten(),
{
    let marks = seq!['\\', '`', '*', '_', '[', ']', '<', '>'];
    let wanted = |c: char|
        if c == '\n' || c == '\r' {
            seq![' ']
        } else if seq!['\\', '`', '*', '_', '[', ']', '<', '>'].contains(c) {
            seq!['\\', c]
        } else {
            seq![c]
        };
    let map = |c: char| markdown::inline_char(c);
    text_laws::mapped_is(value, map);
    assert forall|i: int| 0 <= i < value.len() implies map(#[trigger] value[i]) == wanted(
        value[i],
    ) by {
        let c = value[i];
        assert(marks[0] == '\\' && marks[1] == '`' && marks[2] == '*' && marks[3] == '_' && marks[4]
            == '[' && marks[5] == ']' && marks[6] == '<' && marks[7] == '>');
        if c == '\\' || c == '`' || c == '*' || c == '_' || c == '[' || c == ']' || c == '<' || c
            == '>' {
            assert(marks.contains(c));
        } else {
            assert(!marks.contains(c));
        }
    }
    assert(value.map_values(map) =~= value.map_values(wanted));
}

/// A text without line breaks and markup is its own inline text.
pub proof fn plain_inline_is_kept(value: Seq<char>)
    requires
        forall|i: int|
            0 <= i < value.len() ==> {
                let c = #[trigger] value[i];
                c != '\n' && c != '\r' && c != '\\' && c != '`' && c != '*' && c != '_' && c != '['
                    && c != ']' && c != '<' && c != '>'
            },
    ensures
        markdown::inline(value) == value,
    decreases value.len(),
{
    if value.len() == 0 {
        assert(markdown::inline(value) =~= value);
    } else {
        let front = value.drop_last();
        assert forall|i: int| 0 <= i < front.len() implies {
            let c = #[trigger] front[i];
            c != '\n' && c != '\r' && c != '\\' && c != '`' && c != '*' && c != '_' && c != '[' && c
                != ']' && c != '<' && c != '>'
        } by {
            assert(front[i] == value[i]);
        }
        plain_inline_is_kept(front);
        assert(value[value.len() - 1] != '\\');
        assert(markdown::inline(value) =~= front + seq![value.last()]);
        assert(front + seq![value.last()] =~= value);
    }
}

// ---------------------------------------------------------------- feedback

/// What feedback shows of an annotation: each line of the selected text behind `> `,
/// after an empty line, and the body between line breaks; nothing of what there is
/// not.
pub open spec fn shown(annotation: AnnotationRow) -> Seq<char> {
    (match annotation.selected_text {
        Some(selected) => seq!['\n'] + text::lines(selected).map_values(
            |line: Seq<char>| seq!['>', ' '] + line + seq!['\n'],
        ).flatten(),
        None => Seq::empty(),
    }) + (match annotation.body {
        Some(body) => seq!['\n'] + body + seq!['\n'],
        None => Seq::empty(),
    })
}

proof fn quoted_is(lines: Seq<Seq<char>>)
    ensures
        markdown::quoted(lines) == lines.map_values(
            |line: Seq<char>| seq!['>', ' '] + line + seq!['\n'],
        ).flatten(),
    decreases lines.len(),
{
    let quote = |line: Seq<char>| seq!['>', ' '] + line + seq!['\n'];
    reveal_strlit("> ");
    reveal_strlit("\n");
    assert("> "@ =~= seq!['>', ' ']);
    assert("\n"@ =~= seq!['\n']);
    if lines.len() == 0 {
        assert(lines.map_values(quote).flatten() =~= Seq::empty());
    } else {
        let front = lines.drop_last();
        quoted_is(front);
        assert(lines.map_values(quote) =~= front.map_values(quote).push(quote(lines.last())));
        front.map_values(quote).lemma_flatten_push(quote(lines.last()));
        assert(markdown::quoted(lines) =~= markdown::quoted(front) + quote(lines.last()));
    }
}

proof fn remark_is(annotation: AnnotationRow)
    ensures
        markdown::remark(annotation) == shown(annotation),
{
    reveal_strlit("\n");
    assert("\n"@ =~= seq!['\n']);
    if let Some(selected) = annotation.selected_text {
        quoted_is(text::lines(selected));
    }
}

proof fn remarks_are(annotations: Seq<AnnotationRow>)
    ensures
        markdown::remarks(annotations) == annotations.map_values(
            |annotation: AnnotationRow| shown(annotation),
        ).flatten(),
    decreases annotations.len(),
{
    let show = |annotation: AnnotationRow| shown(annotation);
    if annotations.len() == 0 {
        assert(annotations.map_values(show).flatten() =~= Seq::empty());
    } else {
        let front = annotations.drop_last();
        remarks_are(front);
        remark_is(annotations.last());
        assert(annotations.map_values(show) =~= front.map_values(show).push(
            show(annotations.last()),
        ));
        front.map_values(show).lemma_flatten_push(show(annotations.last()));
    }
}

/// The heading of a kind in feedback, one level below that of the feedback.
pub open spec fn heading(kind: AnnotationKind, level: nat) -> Seq<char> {
    seq!['\n'] + Seq::new(level + 1, |i: int| '#') + seq![' '] + title_of(kind) + seq!['\n']
}

/// The feedback of one kind: its heading and what is shown of each annotation of the
/// kind, in the order of the list; nothing where there is none.
pub open spec fn part(annotations: Seq<AnnotationRow>, kind: AnnotationKind, level: nat) -> Seq<
    char,
> {
    let own = annotations.filter(|annotation: AnnotationRow| annotation.kind == kind);
    if own.len() == 0 {
        Seq::empty()
    } else {
        heading(kind, level) + own.map_values(
            |annotation: AnnotationRow| shown(annotation),
        ).flatten()
    }
}

proof fn section_is(annotations: Seq<AnnotationRow>, kind: AnnotationKind, level: nat)
    ensures
        markdown::section(annotations, kind, level) == part(annotations, kind, level),
{
    let own = annotations.filter(|annotation: AnnotationRow| annotation.kind == kind);
    assert(own == markdown::of_kind(annotations, kind));
    remarks_are(own);
    words_are(kind);
    reveal_strlit("\n");
    reveal_strlit(" ");
    assert("\n"@ =~= seq!['\n']);
    assert(" "@ =~= seq![' ']);
    assert(text::repeated('#', level + 1) =~= Seq::new(level + 1, |i: int| '#'));
    if own.len() > 0 {
        assert(markdown::section(annotations, kind, level) =~= part(annotations, kind, level));
    }
}

/// Feedback is its heading and then comments, questions, what to strike out and what
/// is good.
pub proof fn feedback_is(annotations: Seq<AnnotationRow>, level: nat)
    ensures
        markdown::feedback(annotations, level) == Seq::new(level, |i: int| '#') + " Feedback\n"@
            + part(annotations, AnnotationKind::Comment, level) + part(
            annotations,
            AnnotationKind::Question,
            level,
        ) + part(annotations, AnnotationKind::Scratch, level) + part(
            annotations,
            AnnotationKind::Good,
            level,
        ),
{
    section_is(annotations, AnnotationKind::Comment, level);
    section_is(annotations, AnnotationKind::Question, level);
    section_is(annotations, AnnotationKind::Scratch, level);
    section_is(annotations, AnnotationKind::Good, level);
    assert(text::repeated('#', level) =~= Seq::new(level, |i: int| '#'));
}

/// Every annotation is shown in the feedback, with its whole body between line breaks
/// and with every line of its selected text behind `> `, below the heading of its
/// kind.
pub proof fn every_remark_is_shown(annotations: Seq<AnnotationRow>, level: nat, i: int)
    requires
        0 <= i < annotations.len(),
    ensures
        exists|top: int, at: int|
            #![trigger text::occurs_at(markdown::feedback(annotations, level), heading(annotations[i].kind, level), top), text::occurs_at(markdown::feedback(annotations, level), shown(annotations[i]), at)]
            {
                let text = markdown::feedback(annotations, level);
                &&& text::occurs_at(text, heading(annotations[i].kind, level), top)
                &&& top + heading(annotations[i].kind, level).len() <= at
                &&& text::occurs_at(text, shown(annotations[i]), at)
            },
        annotations[i].body matches Some(body) ==> text::contains(
            markdown::feedback(annotations, level),
            seq!['\n'] + body + seq!['\n'],
        ),
        annotations[i].selected_text matches Some(selected) ==> forall|k: int|
            0 <= k < text::lines(selected).len() ==> text::contains(
                markdown::feedback(annotations, level),
                seq!['>', ' '] + #[trigger] text::lines(selected)[k] + seq!['\n'],
            ),
{
    let kind = annotations[i].kind;
    let whole = markdown::feedback(annotations, level);
    let keep = |annotation: AnnotationRow| annotation.kind == kind;
    let own = annotations.filter(keep);
    let show = |annotation: AnnotationRow| shown(annotation);
    let pieces = own.map_values(show);
    kept_by_filter(annotations, keep, i);
    let n = choose|n: int| 0 <= n < own.len() && own[n] == annotations[i];
    piece_stands(pieces, n);
    let inner = pieces.take(n).flatten().len() as int;
    let top = heading(kind, level);
    let section = part(annotations, kind, level);
    assert(section == top + pieces.flatten());
    assert(text::occurs_at(section, shown(annotations[i]), top.len() + inner)) by {
        stands_in_middle(top, pieces.flatten(), Seq::empty(), shown(annotations[i]), inner);
        assert(top + pieces.flatten() + Seq::<char>::empty() =~= section);
    }
    assert(text::occurs_at(section, top, 0)) by {
        assert(section.subrange(0, top.len() as int) =~= top);
    }
    let (before, after) = part_stands(annotations, kind, level);
    assert(whole == before + section + after);
    stands_in_middle(before, section, after, shown(annotations[i]), top.len() + inner);
    stands_in_middle(before, section, after, top, 0);
    let at = before.len() + top.len() + inner;
    assert(text::occurs_at(whole, top, before.len() as int));
    assert(text::occurs_at(whole, shown(annotations[i]), at));
    if let Some(body) = annotations[i].body {
        let piece = seq!['\n'] + body + seq!['\n'];
        let start = shown(annotations[i]).len() - piece.len();
        assert(shown(annotations[i]).subrange(start, start + piece.len()) =~= piece);
        within(whole, shown(annotations[i]), at, piece, start);
    }
    if let Some(selected) = annotations[i].selected_text {
        let lines = text::lines(selected);
        let quotes = lines.map_values(|line: Seq<char>| seq!['>', ' '] + line + seq!['\n']);
        assert forall|k: int| 0 <= k < lines.len() implies text::contains(
            whole,
            seq!['>', ' '] + #[trigger] lines[k] + seq!['\n'],
        ) by {
            piece_stands(quotes, k);
            let start = quotes.take(k).flatten().len() as int;
            let piece = quotes[k];
            let rest = shown(annotations[i]).skip(1 + quotes.flatten().len() as int);
            stands_in_middle(seq!['\n'], quotes.flatten(), rest, piece, start);
            assert(shown(annotations[i]) =~= seq!['\n'] + quotes.flatten() + rest);
            within(whole, shown(annotations[i]), at, piece, 1 + start);
        }
    }
}

proof fn within(whole: Seq<char>, part: Seq<char>, at: int, piece: Seq<char>, start: int)
    requires
        text::occurs_at(whole, part, at),
        text::occurs_at(part, piece, start),
    ensures
        text::contains(whole, piece),
{
    assert(whole.subrange(at + start, at + start + piece.len()) =~= whole.subrange(
        at,
        at + part.len(),
    ).subrange(start, start + piece.len()));
    assert(text::occurs_at(whole, piece, at + start));
}

proof fn kept_by_filter<R>(list: Seq<R>, keep: spec_fn(R) -> bool, i: int)
    requires
        0 <= i < list.len(),
        keep(list[i]),
    ensures
        list.filter(keep).contains(list[i]),
    decreases list.len(),
{
    crate::laws::filter_holds(list, keep);
}

proof fn part_stands(annotations: Seq<AnnotationRow>, kind: AnnotationKind, level: nat) -> (sides: (
    Seq<char>,
    Seq<char>,
))
    ensures
        markdown::feedback(annotations, level) == sides.0 + part(annotations, kind, level)
            + sides.1,
{
    feedback_is(annotations, level);
    let head = Seq::new(level, |i: int| '#') + " Feedback\n"@;
    let a = part(annotations, AnnotationKind::Comment, level);
    let b = part(annotations, AnnotationKind::Question, level);
    let c = part(annotations, AnnotationKind::Scratch, level);
    let d = part(annotations, AnnotationKind::Good, level);
    let whole = head + a + b + c + d;
    match kind {
        AnnotationKind::Comment => {
            assert(whole =~= head + a + (b + c + d));
            (head, b + c + d)
        },
        AnnotationKind::Question => {
            assert(whole =~= head + a + b + (c + d));
            (head + a, c + d)
        },
        AnnotationKind::Scratch => {
            assert(whole =~= head + a + b + c + d);
            (head + a + b, d)
        },
        AnnotationKind::Good => {
            assert(whole =~= head + a + b + c + d + Seq::<char>::empty());
            (head + a + b + c, Seq::empty())
        },
    }
}

/// A review is its instructions, with the UUID of the artifact, and then the whole
/// feedback under a heading of the second level.
pub proof fn review_is(artifact_uuid: Seq<char>, annotations: Seq<AnnotationRow>)
    ensures
        exists|rules: Seq<char>|
            #![trigger artifact_uuid + rules]
            {
                &&& markdown::review(artifact_uuid, annotations)
                    == "# Artifact Review\n\nArtifact UUID: "@ + (artifact_uuid + rules)
                    + markdown::feedback(annotations, 2)
                &&& rules
                    == "\n\nYou must review and address all unresolved feedback below.\n\nRules:\n- Read the current artifact before making changes.\n- Address every unresolved `comment`, `question`, and `scratch`.\n- Treat `good` annotations as guidance to preserve that part unless conflicting feedback requires otherwise.\n- Do not resolve annotations until their feedback has been addressed.\n- Update the existing artifact instead of creating a replacement unless explicitly requested.\n\n"@
            },
{
    let rules =
        "\n\nYou must review and address all unresolved feedback below.\n\nRules:\n- Read the current artifact before making changes.\n- Address every unresolved `comment`, `question`, and `scratch`.\n- Treat `good` annotations as guidance to preserve that part unless conflicting feedback requires otherwise.\n- Do not resolve annotations until their feedback has been addressed.\n- Update the existing artifact instead of creating a replacement unless explicitly requested.\n\n"@;
    assert(markdown::review(artifact_uuid, annotations)
        =~= "# Artifact Review\n\nArtifact UUID: "@ + (artifact_uuid + rules) + markdown::feedback(
        annotations,
        2,
    ));
}

// ---------------------------------------------------------------- context

/// What a context shows of an artifact: a heading with its type and its UUID, and its
/// body.
pub open spec fn told(artifact: ArtifactRow) -> Seq<char> {
    "\n### "@ + markdown::inline(artifact.artifact_type) + seq![' ', '('] + artifact.uuid + seq![
        ')',
        '\n',
        '\n',
    ] + artifact.body + seq!['\n']
}

proof fn entries_are(artifacts: Seq<ArtifactRow>)
    ensures
        markdown::context_entries(artifacts) == artifacts.map_values(
            |artifact: ArtifactRow| told(artifact),
        ).flatten(),
    decreases artifacts.len(),
{
    let tell = |artifact: ArtifactRow| told(artifact);
    reveal_strlit(" (");
    reveal_strlit(")\n\n");
    reveal_strlit("\n");
    assert(" ("@ =~= seq![' ', '(']);
    assert(")\n\n"@ =~= seq![')', '\n', '\n']);
    assert("\n"@ =~= seq!['\n']);
    if artifacts.len() == 0 {
        assert(artifacts.map_values(tell).flatten() =~= Seq::empty());
    } else {
        let front = artifacts.drop_last();
        entries_are(front);
        assert(artifacts.map_values(tell) =~= front.map_values(tell).push(tell(artifacts.last())));
        front.map_values(tell).lemma_flatten_push(tell(artifacts.last()));
        assert(markdown::context_entry(artifacts.last()) =~= tell(artifacts.last()));
    }
}

/// A context is the task, its instructions and, where there are artifacts, their
/// heading and one entry for each, of whatever type, in the order of the list.
pub proof fn context_is(task: TaskRow, artifacts: Seq<ArtifactRow>)
    ensures
        markdown::context(task, artifacts) == "# Task: "@ + markdown::inline(task.id) + seq![
            '\n',
            '\n',
        ] + task.body
            + "\n\n## Agent instructions\n\nWhen creating an artifact, provide a short descriptive filename with `--name` when there is an obvious one. Use the artifact UUID for all subsequent operations.\n"@
            + (if artifacts.len() == 0 {
            Seq::empty()
        } else {
            "\n## Artifacts\n"@ + artifacts.map_values(
                |artifact: ArtifactRow| told(artifact),
            ).flatten()
        }),
{
    reveal_strlit("\n\n");
    assert("\n\n"@ =~= seq!['\n', '\n']);
    entries_are(artifacts);
    let head = "# Task: "@ + markdown::inline(task.id) + seq!['\n', '\n'] + task.body
        + "\n\n## Agent instructions\n\nWhen creating an artifact, provide a short descriptive filename with `--name` when there is an obvious one. Use the artifact UUID for all subsequent operations.\n"@;
    if artifacts.len() == 0 {
        assert(head + Seq::<char>::empty() =~= head);
    } else {
        let entries = artifacts.map_values(|artifact: ArtifactRow| told(artifact)).flatten();
        assert(head + "\n## Artifacts\n"@ + entries =~= head + ("\n## Artifacts\n"@ + entries));
    }
}

/// Every artifact of the list, of whatever type, is told in the context, after those
/// before it.
pub proof fn every_artifact_is_told(task: TaskRow, artifacts: Seq<ArtifactRow>, i: int)
    requires
        0 <= i < artifacts.len(),
    ensures
        text::contains(
            markdown::context(task, artifacts),
            "\n### "@ + markdown::inline(artifacts[i].artifact_type) + seq![' ', '(']
                + artifacts[i].uuid + seq![')', '\n', '\n'] + artifacts[i].body + seq!['\n'],
        ),
        text::contains(markdown::context(task, artifacts), artifacts[i].body),
{
    context_is(task, artifacts);
    let pieces = artifacts.map_values(|artifact: ArtifactRow| told(artifact));
    piece_stands(pieces, i);
    let whole = markdown::context(task, artifacts);
    let head = whole.take(whole.len() - pieces.flatten().len());
    let at = pieces.take(i).flatten().len() as int;
    assert(whole =~= head + pieces.flatten() + Seq::<char>::empty());
    stands_in_middle(head, pieces.flatten(), Seq::empty(), told(artifacts[i]), at);
    let body = artifacts[i].body;
    let start = told(artifacts[i]).len() - 1 - body.len();
    assert(told(artifacts[i]).subrange(start, start + body.len()) =~= body);
    within(whole, told(artifacts[i]), head.len() + at, body, start);
}

} // verus!
