//! What searches find: tasks by a query, and lines by a pattern.

use vstd::prelude::*;

use crate::grep;
use crate::laws;
use crate::like;
use crate::model::{DocumentRow, MatchRow, TaskRow};
use crate::order;
use crate::state;
use crate::state::State;
use crate::text;
use crate::text_laws;
use crate::text_laws::alike;

verus! {

// ---------------------------------------------------------------- wildcards

/// The replacement character, and the two noncharacters that count as it.
pub open spec fn is_replacement(c: char) -> bool {
    c as u32 == 65533 || c as u32 == 65534 || c as u32 == 65535
}

/// Two characters count as the same in a search: they are alike, or both count as
/// the replacement character.
pub open spec fn counts_as(a: char, b: char) -> bool {
    alike(a, b) || is_replacement(a) && is_replacement(b)
}

proof fn folded_counts(a: char, b: char)
    ensures
        like::folded(a) == like::folded(b) <==> counts_as(a, b),
{
    text_laws::lower_is(a);
    text_laws::lower_is(b);
    text_laws::lower_is_alike(a, b);
}

/// `cuts` is a way to read a value by a pattern: each character of the pattern
/// stands for what lies between two cuts, `%` for any run, `_` for any one
/// character, and every other for one character that counts as it.
pub open spec fn reads(pattern: Seq<char>, value: Seq<char>, cuts: Seq<int>) -> bool {
    &&& cuts.len() == pattern.len() + 1
    &&& cuts[0] == 0
    &&& cuts[pattern.len() as int] == value.len()
    &&& forall|k: int|
        0 <= k < pattern.len() ==> 0 <= #[trigger] cuts[k] <= cuts[k + 1] <= value.len() && (
        pattern[k] == '%' || cuts[k + 1] == cuts[k] + 1 && (pattern[k] == '_' || counts_as(
            pattern[k],
            value[cuts[k]],
        )))
}

proof fn match_is_read(pattern: Seq<char>, value: Seq<char>) -> (cuts: Seq<int>)
    requires
        like::matches_pattern(pattern, value),
    ensures
        reads(pattern, value, cuts),
    decreases pattern.len(), value.len(),
{
    if pattern.len() == 0 {
        seq![0]
    } else if pattern[0] == '%' && like::matches_pattern(pattern.drop_first(), value) {
        let rest = pattern.drop_first();
        let more = match_is_read(rest, value);
        let cuts = seq![0] + more;
        assert forall|k: int| 0 <= k < pattern.len() implies 0 <= #[trigger] cuts[k] <= cuts[k + 1]
            <= value.len() && (pattern[k] == '%' || cuts[k + 1] == cuts[k] + 1 && (pattern[k] == '_'
            || counts_as(pattern[k], value[cuts[k]]))) by {
            assert(cuts[k + 1] == more[k]);
            if k > 0 {
                assert(cuts[k] == more[k - 1]);
                assert(pattern[k] == rest[k - 1]);
                assert(more[k - 1] <= more[k - 1 + 1]);
            }
        }
        cuts
    } else if pattern[0] == '%' {
        let others = value.drop_first();
        let more = match_is_read(pattern, others);
        let cuts = Seq::new(
            more.len(),
            |k: int|
                if k == 0 {
                    0
                } else {
                    more[k] + 1
                },
        );
        assert forall|k: int| 0 <= k < pattern.len() implies 0 <= #[trigger] cuts[k] <= cuts[k + 1]
            <= value.len() && (pattern[k] == '%' || cuts[k + 1] == cuts[k] + 1 && (pattern[k] == '_'
            || counts_as(pattern[k], value[cuts[k]]))) by {
            assert(0 <= more[k] <= more[k + 1] <= others.len());
            if k > 0 && pattern[k] != '%' {
                assert(value[cuts[k]] == others[more[k]]);
            }
        }
        cuts
    } else {
        let rest = pattern.drop_first();
        let others = value.drop_first();
        let more = match_is_read(rest, others);
        let cuts = Seq::new(
            more.len() + 1,
            |k: int|
                if k == 0 {
                    0
                } else {
                    more[k - 1] + 1
                },
        );
        folded_counts(pattern[0], value[0]);
        assert forall|k: int| 0 <= k < pattern.len() implies 0 <= #[trigger] cuts[k] <= cuts[k + 1]
            <= value.len() && (pattern[k] == '%' || cuts[k + 1] == cuts[k] + 1 && (pattern[k] == '_'
            || counts_as(pattern[k], value[cuts[k]]))) by {
            if k > 0 {
                assert(0 <= more[k - 1] <= more[k - 1 + 1] <= others.len());
                assert(pattern[k] == rest[k - 1]);
                if pattern[k] != '%' {
                    assert(value[cuts[k]] == others[more[k - 1]]);
                }
            } else {
                assert(more[0] == 0);
            }
        }
        cuts
    }
}

proof fn read_is_match(pattern: Seq<char>, value: Seq<char>, cuts: Seq<int>)
    requires
        reads(pattern, value, cuts),
    ensures
        like::matches_pattern(pattern, value),
    decreases pattern.len(), value.len(),
{
    if pattern.len() > 0 {
        let rest = pattern.drop_first();
        assert(0 <= cuts[0] <= cuts[0int + 1] <= value.len());
        if pattern[0] == '%' && cuts[1] > 0 {
            let others = value.drop_first();
            let fewer = Seq::new(
                cuts.len(),
                |k: int|
                    if k == 0 {
                        0
                    } else {
                        cuts[k] - 1
                    },
            );
            cuts_grow(pattern, value, cuts, 1);
            assert forall|k: int| 0 <= k < pattern.len() implies 0 <= #[trigger] fewer[k] <= fewer[k
                + 1] <= others.len() && (pattern[k] == '%' || fewer[k + 1] == fewer[k] + 1 && (
            pattern[k] == '_' || counts_as(pattern[k], others[fewer[k]]))) by {
                assert(0 <= cuts[k] <= cuts[k + 1] <= value.len());
                assert(cuts[k + 1] >= 1);
                if k > 0 && pattern[k] != '%' {
                    assert(others[fewer[k]] == value[cuts[k]]);
                }
            }
            read_is_match(pattern, others, fewer);
        } else {
            let step = if pattern[0] == '%' {
                0int
            } else {
                1
            };
            let others = value.skip(step);
            let fewer = Seq::new((cuts.len() - 1) as nat, |k: int| cuts[k + 1] - step);
            cuts_grow(pattern, value, cuts, 1);
            assert forall|k: int| 0 <= k < rest.len() implies 0 <= #[trigger] fewer[k] <= fewer[k
                + 1] <= others.len() && (rest[k] == '%' || fewer[k + 1] == fewer[k] + 1 && (rest[k]
                == '_' || counts_as(rest[k], others[fewer[k]]))) by {
                assert(0 <= cuts[k + 1] <= cuts[k + 1 + 1] <= value.len());
                assert(cuts[k + 1] >= step);
                assert(rest[k] == pattern[k + 1]);
                if rest[k] != '%' {
                    assert(others[fewer[k]] == value[cuts[k + 1]]);
                }
            }
            read_is_match(rest, others, fewer);
            if step == 0 {
                assert(others =~= value);
            } else {
                assert(others =~= value.drop_first());
                folded_counts(pattern[0], value[0]);
            }
        }
    }
}

proof fn cuts_grow(pattern: Seq<char>, value: Seq<char>, cuts: Seq<int>, from: int)
    requires
        reads(pattern, value, cuts),
        0 <= from <= pattern.len(),
    ensures
        forall|k: int| from <= k <= pattern.len() ==> cuts[from] <= #[trigger] cuts[k],
    decreases pattern.len() - from,
{
    if from < pattern.len() {
        cuts_grow(pattern, value, cuts, from + 1);
        assert(cuts[from] <= cuts[from + 1]);
        assert forall|k: int| from <= k <= pattern.len() implies cuts[from] <= #[trigger] cuts[k] by {
            if k > from {
                assert(cuts[from + 1] <= cuts[k]);
            }
        }
    }
}

/// `end` is where a text ends for a comparison: at its first NUL, or with it.
pub open spec fn ends_at(value: Seq<char>, end: int) -> bool {
    &&& 0 <= end <= value.len()
    &&& forall|k: int| 0 <= k < end ==> #[trigger] value[k] != '\0'
    &&& end < value.len() ==> value[end] == '\0'
}

proof fn until_nul_is(value: Seq<char>, end: int)
    requires
        ends_at(value, end),
    ensures
        like::until_nul(value) == value.take(end),
{
    text::position_is_first(value, '\0', 0);
    let at = text::position(value, '\0', 0);
    if at < end {
        assert(value[at] != '\0');
    }
    if end < at {
        assert(value[end] != '\0');
    }
}

/// A comparison holds where the value can be read by the pattern, each as far as its
/// first NUL.
pub proof fn like_is_reading(pattern: Seq<char>, value: Seq<char>, p: int, v: int)
    requires
        ends_at(pattern, p),
        ends_at(value, v),
    ensures
        like::like(pattern, value) <==> exists|cuts: Seq<int>| #[trigger]
            reads(pattern.take(p), value.take(v), cuts),
{
    until_nul_is(pattern, p);
    until_nul_is(value, v);
    if like::like(pattern, value) {
        let cuts = match_is_read(pattern.take(p), value.take(v));
        assert(reads(pattern.take(p), value.take(v), cuts));
    }
    if exists|cuts: Seq<int>| #[trigger] reads(pattern.take(p), value.take(v), cuts) {
        let cuts = choose|cuts: Seq<int>| #[trigger] reads(pattern.take(p), value.take(v), cuts);
        read_is_match(pattern.take(p), value.take(v), cuts);
    }
}

/// A query stands at a place of a value: each of its characters is `_`, or counts as
/// the character that it meets.
pub open spec fn meets(value: Seq<char>, query: Seq<char>, at: int) -> bool {
    &&& 0 <= at
    &&& at + query.len() <= value.len()
    &&& forall|k: int|
        0 <= k < query.len() ==> #[trigger] query[k] == '_' || counts_as(query[k], value[at + k])
}

proof fn no_nul(query: Seq<char>)
    requires
        forall|k: int| 0 <= k < query.len() ==> #[trigger] query[k] != '\0',
    ensures
        ends_at(State::pattern(query), query.len() as int + 2),
        State::pattern(query).len() == query.len() + 2,
        State::pattern(query).take(query.len() as int + 2) == seq!['%'] + query + seq!['%'],
{
    reveal_strlit("%");
    let pattern = State::pattern(query);
    assert(pattern =~= seq!['%'] + query + seq!['%']);
    assert(pattern.take(pattern.len() as int) =~= pattern);
    assert forall|k: int| 0 <= k < pattern.len() implies #[trigger] pattern[k] != '\0' by {
        if 0 < k <= query.len() {
            assert(pattern[k] == query[k - 1]);
        }
    }
}

/// A query is found in every text that holds it, in whatever case and whatever
/// wildcards it holds.
pub proof fn query_finds_itself(query: Seq<char>, value: Seq<char>, end: int, at: int)
    requires
        forall|k: int| 0 <= k < query.len() ==> #[trigger] query[k] != '\0',
        ends_at(value, end),
        0 <= at,
        at + query.len() <= end,
        forall|k: int| 0 <= k < query.len() ==> alike(#[trigger] query[k], value[at + k]),
    ensures
        like::like(State::pattern(query), value),
{
    let seen = value.take(end);
    let n = query.len() as int;
    no_nul(query);
    like_is_reading(State::pattern(query), value, n + 2, end);
    let pattern = seq!['%'] + query + seq!['%'];
    let cuts = Seq::new(
        (n + 3) as nat,
        |k: int|
            if k == 0 {
                0
            } else if k <= n + 1 {
                at + k - 1
            } else {
                end
            },
    );
    assert forall|k: int| 0 <= k < pattern.len() implies 0 <= #[trigger] cuts[k] <= cuts[k + 1]
        <= seen.len() && (pattern[k] == '%' || cuts[k + 1] == cuts[k] + 1 && (pattern[k] == '_'
        || counts_as(pattern[k], seen[cuts[k]]))) by {
        if 0 < k <= n {
            assert(pattern[k] == query[k - 1]);
            assert(seen[cuts[k]] == value[at + (k - 1)]);
        }
    }
    assert(reads(pattern, seen, cuts));
}

/// A query without `%` is found exactly where it stands somewhere in the text, with
/// `_` for any one character and in whatever case.
pub proof fn query_is_found(query: Seq<char>, value: Seq<char>, end: int)
    requires
        forall|k: int|
            0 <= k < query.len() ==> #[trigger] query[k] != '\0' && query[k] != '%',
        ends_at(value, end),
    ensures
        like::like(State::pattern(query), value) <==> exists|at: int| #[trigger]
            meets(value.take(end), query, at),
{
    let seen = value.take(end);
    let n = query.len() as int;
    let pattern = seq!['%'] + query + seq!['%'];
    no_nul(query);
    like_is_reading(State::pattern(query), value, n + 2, end);
    if like::like(State::pattern(query), value) {
        let cuts = choose|cuts: Seq<int>| #[trigger] reads(pattern, seen, cuts);
        reading_meets(query, seen, cuts);
    }
    if exists|at: int| #[trigger] meets(seen, query, at) {
        let at = choose|at: int| #[trigger] meets(seen, query, at);
        let cuts = meeting_reads(query, seen, at);
        assert(reads(pattern, seen, cuts));
    }
}

proof fn reading_meets(query: Seq<char>, seen: Seq<char>, cuts: Seq<int>)
    requires
        forall|k: int| 0 <= k < query.len() ==> #[trigger] query[k] != '%',
        reads(seq!['%'] + query + seq!['%'], seen, cuts),
    ensures
        meets(seen, query, cuts[1]),
{
    let n = query.len() as int;
    let pattern = seq!['%'] + query + seq!['%'];
    let at = cuts[1];
    assert(0 <= cuts[0] <= cuts[0int + 1]);
    steady_cuts(pattern, seen, cuts, query, n);
    assert(cuts[n + 1] == at + n);
    assert(0 <= cuts[n + 1] <= cuts[n + 1 + 1] <= seen.len());
    assert forall|k: int| 0 <= k < n implies #[trigger] query[k] == '_' || counts_as(
        query[k],
        seen[at + k],
    ) by {
        assert(pattern[k + 1] == query[k]);
        assert(cuts[k + 1] == at + k);
    }
}

proof fn meeting_reads(query: Seq<char>, seen: Seq<char>, at: int) -> (cuts: Seq<int>)
    requires
        meets(seen, query, at),
    ensures
        reads(seq!['%'] + query + seq!['%'], seen, cuts),
{
    let n = query.len() as int;
    let pattern = seq!['%'] + query + seq!['%'];
    let cuts = Seq::new(
        (n + 3) as nat,
        |k: int|
            if k == 0 {
                0
            } else if k <= n + 1 {
                at + k - 1
            } else {
                seen.len() as int
            },
    );
    assert forall|k: int| 0 <= k < pattern.len() implies 0 <= #[trigger] cuts[k] <= cuts[k + 1]
        <= seen.len() && (pattern[k] == '%' || cuts[k + 1] == cuts[k] + 1 && (pattern[k] == '_'
        || counts_as(pattern[k], seen[cuts[k]]))) by {
        if 0 < k <= n {
            assert(pattern[k] == query[k - 1]);
            assert(query[k - 1] == '_' || counts_as(query[k - 1], seen[at + (k - 1)]));
        }
    }
    cuts
}

proof fn steady_cuts(
    pattern: Seq<char>,
    value: Seq<char>,
    cuts: Seq<int>,
    query: Seq<char>,
    n: int,
)
    requires
        0 <= n <= query.len(),
        pattern == seq!['%'] + query + seq!['%'],
        reads(pattern, value, cuts),
        forall|k: int| 0 <= k < query.len() ==> #[trigger] query[k] != '%',
    ensures
        forall|k: int| 0 <= k <= n ==> #[trigger] cuts[k + 1] == cuts[1] + k,
    decreases n,
{
    if n > 0 {
        steady_cuts(pattern, value, cuts, query, n - 1);
        assert(pattern[n] == query[n - 1]);
        assert(cuts[n] <= cuts[n + 1]);
        assert(cuts[n - 1 + 1] == cuts[1] + n - 1);
        assert forall|k: int| 0 <= k <= n implies #[trigger] cuts[k + 1] == cuts[1] + k by {
            if k < n {
                assert(cuts[k + 1] == cuts[1] + k);
            }
        }
    }
}

// ---------------------------------------------------------------- searching tasks

/// A task is found where it is neither archived nor completed and its id or its body
/// holds the query, with `_` for any one character and in whatever case.
pub proof fn search_finds(
    state: State,
    query: Seq<char>,
    found: Seq<TaskRow>,
    task: TaskRow,
    i: int,
    b: int,
)
    requires
        state.finds_tasks(query, found),
        forall|k: int|
            0 <= k < query.len() ==> #[trigger] query[k] != '\0' && query[k] != '%',
        ends_at(task.id, i),
        ends_at(task.body, b),
    ensures
        found.contains(task) <==> {
            &&& state.tasks.contains(task)
            &&& task.archived_at is None
            &&& task.completed_at is None
            &&& (exists|at: int| #[trigger] meets(task.id.take(i), query, at)) || (exists|at: int|
             #[trigger]
                meets(task.body.take(b), query, at))
        },
{
    search_holds(state, query, found, task);
    query_is_found(query, task.id, i);
    query_is_found(query, task.body, b);
}

proof fn search_holds(state: State, query: Seq<char>, found: Seq<TaskRow>, task: TaskRow)
    requires
        state.finds_tasks(query, found),
    ensures
        found.contains(task) <==> state.tasks.contains(task) && task.archived_at is None
            && task.completed_at is None && (like::like(State::pattern(query), task.id)
            || like::like(State::pattern(query), task.body)),
{
    let source = state.tasks_found(query);
    let keep = |task: TaskRow|
        task.active() && (like::like(State::pattern(query), task.id) || like::like(
            State::pattern(query),
            task.body,
        ));
    laws::filter_holds(state.tasks, keep);
    order::ordered_holds_same(
        found,
        source,
        source.map_values(|task: TaskRow| state::found_key(task)),
        true,
    );
    if found.contains(task) {
        assert(source.contains(task));
        let k = choose|k: int| 0 <= k < source.len() && source[k] == task;
        assert(keep(source[k]));
        assert(state.tasks.contains(source[k]));
    }
    if state.tasks.contains(task) && keep(task) {
        let k = choose|k: int| 0 <= k < state.tasks.len() && state.tasks[k] == task;
        assert(keep(state.tasks[k]));
        assert(source.contains(state.tasks[k]));
    }
}

/// A search compares the id and the body of every active task with the query between two
/// `%`, whatever the query holds.
pub proof fn search_is_a_comparison(
    state: State,
    query: Seq<char>,
    found: Seq<TaskRow>,
    task: TaskRow,
)
    requires
        state.finds_tasks(query, found),
    ensures
        ({
            let pattern = seq!['%'] + query + seq!['%'];
            found.contains(task) <==> state.tasks.contains(task) && task.archived_at is None
                && task.completed_at is None && (like::like(pattern, task.id) || like::like(
                pattern,
                task.body,
            ))
        }),
{
    reveal_strlit("%");
    assert(State::pattern(query) =~= seq!['%'] + query + seq!['%']);
    search_holds(state, query, found, task);
}

/// Every active task whose id or body holds the query is found, also where the query
/// holds wildcards.
pub proof fn search_finds_what_holds_the_query(
    state: State,
    query: Seq<char>,
    found: Seq<TaskRow>,
    task: TaskRow,
    value: Seq<char>,
    end: int,
    at: int,
)
    requires
        state.finds_tasks(query, found),
        state.tasks.contains(task),
        task.archived_at is None,
        task.completed_at is None,
        value == task.id || value == task.body,
        forall|k: int| 0 <= k < query.len() ==> #[trigger] query[k] != '\0',
        ends_at(value, end),
        0 <= at,
        at + query.len() <= end,
        forall|k: int| 0 <= k < query.len() ==> alike(#[trigger] query[k], value[at + k]),
    ensures
        found.contains(task),
{
    query_finds_itself(query, value, end, at);
    search_holds(state, query, found, task);
}

// ---------------------------------------------------------------- searching lines

/// A line of a text that a pattern matches.
pub open spec fn is_hit(
    pattern: Seq<char>,
    documents: Seq<DocumentRow>,
    document: int,
    line: int,
) -> bool {
    &&& 0 <= document < documents.len()
    &&& 0 <= line < text::lines(documents[document].body).len()
    &&& grep::pattern_matches(pattern, text::lines(documents[document].body)[line]) == Ok::<
        bool,
        Seq<char>,
    >(true)
}

/// One place comes before another: in an earlier text, or on an earlier line of the
/// same.
pub open spec fn comes_before(a: (int, int), b: (int, int)) -> bool {
    a.0 < b.0 || a.0 == b.0 && a.1 < b.1
}

/// `hits` are the lines that a pattern matches, each once, in order.
pub open spec fn are_hits(
    pattern: Seq<char>,
    documents: Seq<DocumentRow>,
    hits: Seq<(int, int)>,
) -> bool {
    &&& forall|k: int|
        0 <= k < hits.len() ==> is_hit(pattern, documents, (#[trigger] hits[k]).0, hits[k].1)
    &&& forall|k: int, l: int|
        0 <= k < l < hits.len() ==> comes_before(#[trigger] hits[k], #[trigger] hits[l])
    &&& forall|d: int, n: int| #[trigger]
        is_hit(pattern, documents, d, n) ==> hits.contains((d, n))
}

/// What is reported of a line: where its text stands, the number of the line, and
/// the line.
pub open spec fn reported(documents: Seq<DocumentRow>, hit: (int, int)) -> MatchRow {
    MatchRow {
        path: documents[hit.0].path,
        artifact_uuid: documents[hit.0].artifact_uuid,
        line_number: hit.1 + 1,
        line: text::lines(documents[hit.0].body)[hit.1],
    }
}

proof fn hits_in_lines(
    pattern: Seq<char>,
    document: DocumentRow,
    lines: Seq<Seq<char>>,
    count: nat,
) -> (hits: Seq<int>)
    requires
        count <= lines.len(),
    ensures
        grep::found_in_lines(document, lines.take(count as int), grep::verdicts(pattern, lines))
            == hits.map_values(
            |n: int|
                MatchRow {
                    path: document.path,
                    artifact_uuid: document.artifact_uuid,
                    line_number: n + 1,
                    line: lines[n],
                },
        ),
        forall|k: int|
            0 <= k < hits.len() ==> 0 <= #[trigger] hits[k] < count && grep::pattern_matches(
                pattern,
                lines[hits[k]],
            ) == Ok::<bool, Seq<char>>(true),
        forall|k: int, l: int| 0 <= k < l < hits.len() ==> #[trigger] hits[k] < #[trigger] hits[l],
        forall|n: int|
            0 <= n < count && grep::pattern_matches(pattern, #[trigger] lines[n]) == Ok::<
                bool,
                Seq<char>,
            >(true) ==> hits.contains(n),
    decreases count,
{
    let show = |n: int|
        MatchRow {
            path: document.path,
            artifact_uuid: document.artifact_uuid,
            line_number: n + 1,
            line: lines[n],
        };
    if count == 0 {
        let hits = Seq::<int>::empty();
        assert(hits.map_values(show) =~= Seq::empty());
        hits
    } else {
        let last = (count - 1) as nat;
        let fewer = hits_in_lines(pattern, document, lines, last);
        assert(lines.take(count as int).drop_last() =~= lines.take(last as int));
        assert(lines.take(count as int)[last as int] == lines[last as int]);
        if grep::pattern_matches(pattern, lines[last as int]) == Ok::<bool, Seq<char>>(true) {
            let hits = fewer.push(last as int);
            assert(hits.map_values(show) =~= fewer.map_values(show).push(show(last as int)));
            assert forall|n: int|
                0 <= n < count && grep::pattern_matches(pattern, #[trigger] lines[n]) == Ok::<
                    bool,
                    Seq<char>,
                >(true) implies hits.contains(n) by {
                if n < last {
                    let k = choose|k: int| 0 <= k < fewer.len() && fewer[k] == n;
                    assert(hits[k] == n);
                } else {
                    assert(hits[fewer.len() as int] == n);
                }
            }
            hits
        } else {
            fewer
        }
    }
}

proof fn hits_of(pattern: Seq<char>, documents: Seq<DocumentRow>, count: nat) -> (hits: Seq<
    (int, int),
>)
    requires
        count <= documents.len(),
    ensures
        grep::found(pattern, documents.take(count as int)) == hits.map_values(
            |hit: (int, int)| reported(documents, hit),
        ),
        forall|k: int|
            0 <= k < hits.len() ==> is_hit(pattern, documents, (#[trigger] hits[k]).0, hits[k].1)
                && hits[k].0 < count,
        forall|k: int, l: int|
            0 <= k < l < hits.len() ==> comes_before(#[trigger] hits[k], #[trigger] hits[l]),
        forall|d: int, n: int| #[trigger]
            is_hit(pattern, documents, d, n) && d < count ==> hits.contains((d, n)),
    decreases count,
{
    let show = |hit: (int, int)| reported(documents, hit);
    if count == 0 {
        let hits = Seq::<(int, int)>::empty();
        assert(hits.map_values(show) =~= Seq::empty());
        hits
    } else {
        let last = (count - 1) as nat;
        let fewer = hits_of(pattern, documents, last);
        let document = documents[last as int];
        let lines = text::lines(document.body);
        let more = hits_in_lines(pattern, document, lines, lines.len());
        assert(lines.take(lines.len() as int) =~= lines);
        let here = more.map_values(|n: int| (last as int, n));
        let hits = fewer + here;
        assert(documents.take(count as int).drop_last() =~= documents.take(last as int));
        assert(documents.take(count as int).last() == document);
        assert(hits.map_values(show) =~= fewer.map_values(show) + grep::found_in_lines(
            document,
            lines,
            grep::verdicts(pattern, lines),
        ));
        assert forall|k: int| 0 <= k < hits.len() implies is_hit(
            pattern,
            documents,
            (#[trigger] hits[k]).0,
            hits[k].1,
        ) && hits[k].0 < count by {
            if k >= fewer.len() {
                assert(hits[k] == (last as int, more[k - fewer.len()]));
            } else {
                assert(hits[k] == fewer[k]);
            }
        }
        assert forall|k: int, l: int| 0 <= k < l < hits.len() implies comes_before(
            #[trigger] hits[k],
            #[trigger] hits[l],
        ) by {
            if l < fewer.len() {
                assert(comes_before(fewer[k], fewer[l]));
            } else if k < fewer.len() {
                assert(hits[k] == fewer[k]);
                assert(fewer[k].0 < last);
            } else {
                assert(more[k - fewer.len()] < more[l - fewer.len()]);
            }
        }
        assert forall|d: int, n: int| #[trigger]
            is_hit(pattern, documents, d, n) && d < count implies hits.contains((d, n)) by {
            if d < last {
                let k = choose|k: int| 0 <= k < fewer.len() && fewer[k] == (d, n);
                assert(hits[k] == (d, n));
            } else {
                assert(more.contains(n));
                let k = choose|k: int| 0 <= k < more.len() && more[k] == n;
                assert(hits[fewer.len() + k] == (d, n));
            }
        }
        hits
    }
}

/// A search reports every line that the pattern matches by itself, and no other,
/// each once, text by text and line by line, with its place and its number.
pub proof fn every_matching_line_is_reported(pattern: Seq<char>, documents: Seq<DocumentRow>)
    ensures
        exists|hits: Seq<(int, int)>| #[trigger]
            are_hits(pattern, documents, hits) && grep::found(pattern, documents)
                == hits.map_values(|hit: (int, int)| reported(documents, hit)),
{
    let hits = hits_of(pattern, documents, documents.len());
    assert(documents.take(documents.len() as int) =~= documents);
    assert(are_hits(pattern, documents, hits));
}

/// A line of a text is reported where the pattern matches it by itself, whatever the
/// other lines are, and nothing else is reported.
pub proof fn line_is_reported(pattern: Seq<char>, documents: Seq<DocumentRow>, found: MatchRow)
    ensures
        grep::found(pattern, documents).contains(found) <==> exists|d: int, n: int|
            #![trigger text::lines(documents[d].body)[n]]
            {
                &&& 0 <= d < documents.len()
                &&& 0 <= n < text::lines(documents[d].body).len()
                &&& grep::pattern_matches(pattern, text::lines(documents[d].body)[n]) == Ok::<
                    bool,
                    Seq<char>,
                >(true)
                &&& found.path == documents[d].path
                &&& found.artifact_uuid == documents[d].artifact_uuid
                &&& found.line_number == n + 1
                &&& found.line == text::lines(documents[d].body)[n]
            },
{
    every_matching_line_is_reported(pattern, documents);
    let show = |hit: (int, int)| reported(documents, hit);
    let all = grep::found(pattern, documents);
    let hits = choose|hits: Seq<(int, int)>| #[trigger]
        are_hits(pattern, documents, hits) && all == hits.map_values(show);
    if all.contains(found) {
        let k = choose|k: int| 0 <= k < all.len() && all[k] == found;
        let (d, n) = hits[k];
        assert(is_hit(pattern, documents, hits[k].0, hits[k].1));
        assert(all[k] == reported(documents, hits[k]));
        assert(found.line == text::lines(documents[d].body)[n]);
    }
    if exists|d: int, n: int|
        #![trigger text::lines(documents[d].body)[n]]
        {
            &&& 0 <= d < documents.len()
            &&& 0 <= n < text::lines(documents[d].body).len()
            &&& grep::pattern_matches(pattern, text::lines(documents[d].body)[n]) == Ok::<
                bool,
                Seq<char>,
            >(true)
            &&& found.path == documents[d].path
            &&& found.artifact_uuid == documents[d].artifact_uuid
            &&& found.line_number == n + 1
            &&& found.line == text::lines(documents[d].body)[n]
        } {
        let (d, n) = choose|d: int, n: int|
            #![trigger text::lines(documents[d].body)[n]]
            {
                &&& 0 <= d < documents.len()
                &&& 0 <= n < text::lines(documents[d].body).len()
                &&& grep::pattern_matches(pattern, text::lines(documents[d].body)[n]) == Ok::<
                    bool,
                    Seq<char>,
                >(true)
                &&& found.path == documents[d].path
                &&& found.artifact_uuid == documents[d].artifact_uuid
                &&& found.line_number == n + 1
                &&& found.line == text::lines(documents[d].body)[n]
            };
        assert(is_hit(pattern, documents, d, n));
        assert(hits.contains((d, n)));
        let k = choose|k: int| 0 <= k < hits.len() && hits[k] == (d, n);
        assert(all[k] == reported(documents, (d, n)));
        assert(all[k] == found);
    }
}

/// There are as many matches in a text as lines that the pattern matches.
pub proof fn matching_lines_are_counted(pattern: Seq<char>, document: DocumentRow)
    ensures
        grep::found(pattern, seq![document]).len() == text::lines(document.body).filter(
            |line: Seq<char>|
                grep::pattern_matches(pattern, line) == Ok::<bool, Seq<char>>(true),
        ).len(),
{
    let lines = text::lines(document.body);
    lines_are_counted(pattern, document, lines, lines.len());
    assert(lines.take(lines.len() as int) =~= lines);
    assert(seq![document].drop_last() =~= Seq::<DocumentRow>::empty());
    assert(grep::found(pattern, Seq::<DocumentRow>::empty()) =~= Seq::<MatchRow>::empty());
}

proof fn lines_are_counted(
    pattern: Seq<char>,
    document: DocumentRow,
    lines: Seq<Seq<char>>,
    count: nat,
)
    requires
        count <= lines.len(),
    ensures
        grep::found_in_lines(
            document,
            lines.take(count as int),
            grep::verdicts(pattern, lines),
        ).len() == lines.take(count as int).filter(
            |line: Seq<char>|
                grep::pattern_matches(pattern, line) == Ok::<bool, Seq<char>>(true),
        ).len(),
    decreases count,
{
    reveal(Seq::filter);
    if count > 0 {
        let last = (count - 1) as nat;
        lines_are_counted(pattern, document, lines, last);
        assert(lines.take(count as int).drop_last() =~= lines.take(last as int));
        assert(lines.take(count as int).last() == lines[last as int]);
    }
}

/// What is found in some texts does not depend on the others.
pub proof fn texts_are_searched_alone(
    pattern: Seq<char>,
    first: Seq<DocumentRow>,
    second: Seq<DocumentRow>,
)
    ensures
        grep::found(pattern, first + second) == grep::found(pattern, first) + grep::found(
            pattern,
            second,
        ),
    decreases second.len(),
{
    if second.len() == 0 {
        assert(first + second =~= first);
        assert(grep::found(pattern, first) + grep::found(pattern, second) =~= grep::found(
            pattern,
            first,
        ));
    } else {
        texts_are_searched_alone(pattern, first, second.drop_last());
        assert((first + second).drop_last() =~= first + second.drop_last());
        assert(grep::found(pattern, first + second) =~= grep::found(pattern, first) + grep::found(
            pattern,
            second,
        ));
    }
}

} // verus!
