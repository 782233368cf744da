//! Searching the texts of the store for a pattern.

use vstd::prelude::*;
use vstd::string::*;

use crate::app::App;
use crate::error::{invalid, Error, Failure};
use crate::model;
use crate::model::{DocumentRow, GrepMatch, MatchRow, SearchDocument};
use crate::text;

verus! {

/// What `regex` says of a pattern and a text: whether the pattern matches
/// somewhere in the text, or why it is no pattern.
pub uninterp spec fn pattern_matches(pattern: Seq<char>, line: Seq<char>) -> Result<
    bool,
    Seq<char>,
>;

/// Compiles a pattern with `regex::Regex::new` and asks `is_match` of a text. The
/// answer is named. Whether the pattern compiles does not depend on the text.
#[verifier::external_body]
fn regex_matches(pattern: &str, line: &str) -> (result: Result<bool, String>)
    ensures
        match (pattern_matches(pattern@, line@), result) {
            (Ok(answer), Ok(found)) => answer == found,
            (Err(reason), Err(message)) => message@ == reason,
            _ => false,
        },
        result is Err ==> forall|other: Seq<char>| #[trigger]
            pattern_matches(pattern@, other) == pattern_matches(pattern@, line@),
        result is Ok ==> forall|other: Seq<char>| #[trigger]
            pattern_matches(pattern@, other) is Ok,
{
    match regex::Regex::new(pattern) {
        Ok(regex) => Ok(regex.is_match(line)),
        Err(error) => Err(error.to_string()),
    }
}

/// The pattern matches the line.
pub open spec fn line_matches(pattern: Seq<char>, line: Seq<char>) -> bool {
    pattern_matches(pattern, line) == Ok::<bool, Seq<char>>(true)
}

/// What is found in the first lines of a text.
pub open spec fn found_in_lines(
    document: DocumentRow,
    lines: Seq<Seq<char>>,
    matching: Seq<bool>,
) -> Seq<MatchRow>
    decreases lines.len(),
{
    if lines.len() == 0 {
        Seq::empty()
    } else {
        let before = found_in_lines(document, lines.drop_last(), matching);
        let last = lines.len() - 1;
        if matching[last] {
            before.push(
                MatchRow {
                    path: document.path,
                    artifact_uuid: document.artifact_uuid,
                    line_number: last + 1,
                    line: lines[last],
                },
            )
        } else {
            before
        }
    }
}

/// Which lines the pattern matches.
pub open spec fn verdicts(pattern: Seq<char>, lines: Seq<Seq<char>>) -> Seq<bool> {
    lines.map_values(|line: Seq<char>| line_matches(pattern, line))
}

/// What a pattern finds in a list of texts: the lines that it matches, with their
/// numbers.
pub open spec fn found(pattern: Seq<char>, documents: Seq<DocumentRow>) -> Seq<MatchRow>
    decreases documents.len(),
{
    if documents.len() == 0 {
        Seq::empty()
    } else {
        let lines = text::lines(documents.last().body);
        found(pattern, documents.drop_last()) + found_in_lines(
            documents.last(),
            lines,
            verdicts(pattern, lines),
        )
    }
}

/// The lines of a text for which `matching` holds, with their numbers.
pub fn select_lines(document: &SearchDocument, lines: &Vec<String>, matching: &Vec<bool>) -> (result:
    Vec<GrepMatch>)
    requires
        matching@.len() == lines@.len(),
    ensures
        model::rows(result@) == found_in_lines(document@, text::texts(lines@), matching@),
{
    let ghost all = text::texts(lines@);
    let mut result: Vec<GrepMatch> = Vec::new();
    assert(all.take(0) =~= Seq::empty());
    assert(model::rows(result@) =~= Seq::empty());
    for i in 0..lines.len()
        invariant
            matching@.len() == lines@.len(),
            all == text::texts(lines@),
            model::rows(result@) == found_in_lines(document@, all.take(i as int), matching@),
    {
        assert(all.take(i + 1).drop_last() =~= all.take(i as int));
        if matching[i] {
            let ghost before = result@;
            result.push(
                GrepMatch {
                    path: document.path.clone(),
                    artifact_uuid: text::copy_optional(&document.artifact_uuid),
                    line_number: i as u64 + 1,
                    line: lines[i].clone(),
                },
            );
            assert(model::rows(result@) =~= model::rows(before).push(result@.last()@));
        }
    }
    assert(all.take(all.len() as int) =~= all);
    result
}

impl App {
    /// The lines of all texts that a pattern matches.
    pub fn grep(&self, pattern: &str) -> (result: Result<Vec<GrepMatch>, Error>)
        requires
            self@.wf(),
            self@.all_named(),
        ensures
            match (pattern_matches(pattern@, Seq::empty()), result) {
                (Ok(_), Ok(matches)) => exists|documents: Seq<DocumentRow>| #[trigger]
                    self@.lists_documents(documents) && model::rows(matches@) == found(
                        pattern@,
                        documents,
                    ),
                (Err(reason), Err(error)) => error@ == Failure::Invalid(reason),
                _ => false,
            },
    {
        let empty = String::new();
        assert(empty@ =~= Seq::empty());
        if let Err(reason) = regex_matches(pattern, empty.as_str()) {
            return Err(invalid(reason));
        }
        let documents = self.search_documents();
        let ghost all = model::rows(documents@);
        let mut result: Vec<GrepMatch> = Vec::new();
        assert(all.take(0) =~= Seq::empty());
        assert(model::rows(result@) =~= Seq::empty());
        for i in 0..documents.len()
            invariant
                all == model::rows(documents@),
                forall|line: Seq<char>| #[trigger] pattern_matches(pattern@, line) is Ok,
                model::rows(result@) == found(pattern@, all.take(i as int)),
        {
            assert(all.take(i + 1).drop_last() =~= all.take(i as int));
            assert(all[i as int] == documents@[i as int]@);
            let lines = text::lines_of(documents[i].body.as_str());
            let ghost views = text::texts(lines@);
            let mut matching: Vec<bool> = Vec::new();
            for j in 0..lines.len()
                invariant
                    views == text::texts(lines@),
                    forall|line: Seq<char>| #[trigger] pattern_matches(pattern@, line) is Ok,
                    matching@ == verdicts(pattern@, views.take(j as int)),
            {
                let answer = match regex_matches(pattern, lines[j].as_str()) {
                    Ok(answer) => answer,
                    Err(_) => false,
                };
                matching.push(answer);
                assert(matching@ =~= verdicts(pattern@, views.take(j + 1)));
            }
            assert(views.take(views.len() as int) =~= views);
            let mut matches = select_lines(&documents[i], &lines, &matching);
            let ghost parts = (result@, matches@);
            result.append(&mut matches);
            assert(model::rows(result@) =~= model::rows(parts.0) + model::rows(parts.1));
        }
        assert(all.take(all.len() as int) =~= all);
        Ok(result)
    }
}

} // verus!
