//! Matching a text against a pattern with wildcards.

use vstd::prelude::*;

use crate::text;

verus! {

/// A character as it counts in a comparison: ASCII letters in lower case, and
/// the two noncharacters at the end of the basic plane as the replacement
/// character.
pub open spec fn folded(c: char) -> char {
    if c == '\u{fffe}' || c == '\u{ffff}' {
        '\u{fffd}'
    } else {
        text::lower(c)
    }
}

/// `%` stands for any run of characters, `_` for any one character, and every
/// other character for itself.
pub open spec fn matches_pattern(pattern: Seq<char>, value: Seq<char>) -> bool
    decreases pattern.len(), value.len(),
{
    if pattern.len() == 0 {
        value.len() == 0
    } else if pattern[0] == '%' {
        matches_pattern(pattern.drop_first(), value) || (value.len() > 0 && matches_pattern(
            pattern,
            value.drop_first(),
        ))
    } else {
        value.len() > 0 && (pattern[0] == '_' || folded(pattern[0]) == folded(value[0]))
            && matches_pattern(pattern.drop_first(), value.drop_first())
    }
}

/// The part of a text before its first NUL.
pub open spec fn until_nul(value: Seq<char>) -> Seq<char> {
    value.take(text::position(value, '\0', 0))
}

/// The LIKE comparison: the pattern matches the value, both as far as their
/// first NUL.
pub open spec fn like(pattern: Seq<char>, value: Seq<char>) -> bool {
    matches_pattern(until_nul(pattern), until_nul(value))
}

/// A character as it counts in a comparison.
pub fn fold(c: char) -> (result: char)
    ensures
        result == folded(c),
{
    if c == '\u{fffe}' || c == '\u{ffff}' {
        '\u{fffd}'
    } else {
        text::to_lower(c)
    }
}

/// Row `i` of the table: which ends of the value the pattern from `i` on matches.
/// Entry `m` is for the last `m` characters of the value.
pub open spec fn is_row(pattern: Seq<char>, value: Seq<char>, i: int, row: Seq<bool>) -> bool {
    &&& row.len() == value.len() + 1
    &&& forall|m: int|
        0 <= m <= value.len() ==> #[trigger] row[m] == matches_pattern(
            pattern.skip(i),
            value.skip(value.len() - m),
        )
}

/// Row `i` of the table from row `i + 1`.
fn next_row(pattern: &Vec<char>, value: &Vec<char>, i: usize, below: &Vec<bool>) -> (row: Vec<bool>)
    requires
        i < pattern@.len(),
        is_row(pattern@, value@, i + 1, below@),
    ensures
        is_row(pattern@, value@, i as int, row@),
{
    let n = value.len();
    let c = pattern[i];
    let ghost rest = pattern@.skip(i as int);
    assert(rest.drop_first() =~= pattern@.skip(i + 1));
    assert(rest[0] == c);
    let mut row: Vec<bool> = Vec::new();
    row.push(c == '%' && below[0]);
    let mut m: usize = 0;
    while m < n
        invariant
            n == value@.len(),
            m <= n,
            i < pattern@.len(),
            c == rest[0],
            rest.len() > 0,
            rest == pattern@.skip(i as int),
            rest.drop_first() == pattern@.skip(i + 1),
            is_row(pattern@, value@, i + 1, below@),
            row@.len() == m + 1,
            forall|k: int|
                0 <= k <= m ==> #[trigger] row@[k] == matches_pattern(rest, value@.skip(n - k)),
        decreases n - m,
    {
        let j = n - m - 1;
        let ghost end = value@.skip(j as int);
        assert(end.drop_first() =~= value@.skip(n - m));
        assert(end[0] == value@[j as int]);
        assert(below@[m + 1] == matches_pattern(rest.drop_first(), end));
        assert(below@[m as int] == matches_pattern(rest.drop_first(), end.drop_first()));
        assert(row@[m as int] == matches_pattern(rest, end.drop_first()));
        let entry = if c == '%' {
            below[m + 1] || row[m]
        } else {
            (c == '_' || fold(c) == fold(value[j])) && below[m]
        };
        row.push(entry);
        m = m + 1;
    }
    row
}

/// The characters of a text before its first NUL.
fn chars_until_nul(value: &str) -> (chars: Vec<char>)
    ensures
        chars@ == until_nul(value@),
{
    let mut chars = text::chars_of(value);
    let at = text::position_of(&chars, '\0', 0);
    chars.truncate(at);
    chars
}

/// The LIKE comparison.
pub fn is_like(pattern: &str, value: &str) -> (answer: bool)
    ensures
        answer == like(pattern@, value@),
{
    let pattern = chars_until_nul(pattern);
    let value = chars_until_nul(value);
    let n = value.len();
    let mut row: Vec<bool> = Vec::new();
    row.push(true);
    let mut i: usize = pattern.len();
    let ghost end = pattern@.skip(i as int);
    for m in 0..n
        invariant
            n == value@.len(),
            end.len() == 0,
            row@.len() == m + 1,
            forall|k: int|
                0 <= k <= m ==> #[trigger] row@[k] == matches_pattern(end, value@.skip(n - k)),
    {
        row.push(false);
    }
    while i > 0
        invariant
            i <= pattern@.len(),
            is_row(pattern@, value@, i as int, row@),
        decreases i,
    {
        i = i - 1;
        row = next_row(&pattern, &value, i, &row);
    }
    assert(pattern@.skip(0) =~= pattern@);
    assert(value@.skip(0) =~= value@);
    row[n]
}

/// A text stands in another at a place, but for the case of ASCII letters.
pub open spec fn stands_folded(value: Seq<char>, query: Seq<char>, at: int) -> bool {
    &&& 0 <= at
    &&& at + query.len() <= value.len()
    &&& forall|k: int| 0 <= k < query.len() ==> folded(#[trigger] value[at + k]) == folded(query[k])
}

/// `%` alone matches everything.
proof fn anything_matches(value: Seq<char>)
    ensures
        matches_pattern(seq!['%'], value),
    decreases value.len(),
{
    let rest = seq!['%'].drop_first();
    assert(rest =~= Seq::<char>::empty());
    if value.len() > 0 {
        anything_matches(value.drop_first());
    } else {
        assert(matches_pattern(rest, value));
    }
}

/// A pattern without wildcards before a `%` matches what begins with it.
proof fn begins_with_query(query: Seq<char>, value: Seq<char>)
    requires
        !query.contains('%'),
        !query.contains('_'),
    ensures
        matches_pattern(query + seq!['%'], value) <==> stands_folded(value, query, 0),
    decreases query.len(),
{
    let pattern = query + seq!['%'];
    if query.len() == 0 {
        assert(pattern =~= seq!['%']);
        anything_matches(value);
    } else {
        let rest = query.drop_first();
        assert(query.contains(query[0]));
        assert(pattern[0] == query[0]);
        assert(pattern.drop_first() =~= rest + seq!['%']);
        assert forall|c: char| rest.contains(c) implies query.contains(c) by {
            let k = choose|k: int| 0 <= k < rest.len() && rest[k] == c;
            assert(query[k + 1] == c);
        }
        if value.len() > 0 {
            let others = value.drop_first();
            begins_with_query(rest, others);
            if stands_folded(value, query, 0) {
                assert(folded(value[0 + 0int]) == folded(query[0]));
                assert forall|k: int| 0 <= k < rest.len() implies folded(#[trigger] others[0 + k])
                    == folded(rest[k]) by {
                    assert(folded(value[0 + (k + 1)]) == folded(query[k + 1]));
                }
            }
            if stands_folded(others, rest, 0) && folded(value[0]) == folded(query[0]) {
                assert forall|k: int| 0 <= k < query.len() implies folded(#[trigger] value[0 + k])
                    == folded(query[k]) by {
                    if k > 0 {
                        assert(folded(others[0 + (k - 1)]) == folded(rest[k - 1]));
                    }
                }
            }
        }
    }
}

/// A pattern behind a `%` matches what ends in a match of it.
proof fn matches_somewhere(pattern: Seq<char>, value: Seq<char>)
    ensures
        matches_pattern(seq!['%'] + pattern, value) <==> exists|i: int|
            0 <= i <= value.len() && matches_pattern(pattern, #[trigger] value.skip(i)),
    decreases value.len(),
{
    let whole = seq!['%'] + pattern;
    assert(whole.drop_first() =~= pattern);
    assert(value.skip(0) =~= value);
    if value.len() > 0 {
        let others = value.drop_first();
        matches_somewhere(pattern, others);
        if matches_pattern(whole, others) {
            let i = choose|i: int|
                0 <= i <= others.len() && matches_pattern(pattern, #[trigger] others.skip(i));
            assert(value.skip(i + 1) =~= others.skip(i));
        }
        if exists|i: int|
            0 <= i <= value.len() && matches_pattern(pattern, #[trigger] value.skip(i)) {
            let i = choose|i: int|
                0 <= i <= value.len() && matches_pattern(pattern, #[trigger] value.skip(i));
            if i > 0 {
                assert(others.skip(i - 1) =~= value.skip(i));
            }
        }
    } else {
        assert forall|i: int| 0 <= i <= value.len() implies #[trigger] value.skip(i) == value by {
            assert(value.skip(i) =~= value);
        }
    }
}

proof fn no_nul_in(value: Seq<char>)
    requires
        !value.contains('\0'),
    ensures
        until_nul(value) == value,
{
    text::position_is_first(value, '\0', 0);
    let at = text::position(value, '\0', 0);
    if at < value.len() {
        assert(value.contains(value[at]));
    }
    assert(value.take(at) =~= value);
}

/// A query without wildcards is found where it stands in a text, whatever the
/// case of its ASCII letters.
pub proof fn plain_query_is_found(query: Seq<char>, value: Seq<char>)
    requires
        !query.contains('%'),
        !query.contains('_'),
        !query.contains('\0'),
    ensures
        like("%"@ + query + "%"@, value) <==> exists|i: int| #[trigger]
            stands_folded(until_nul(value), query, i),
{
    reveal_strlit("%");
    assert("%"@ =~= seq!['%']);
    let tail = query + seq!['%'];
    let pattern = seq!['%'] + tail;
    assert("%"@ + query + "%"@ =~= pattern);
    assert(!pattern.contains('\0')) by {
        assert forall|k: int| 0 <= k < pattern.len() implies pattern[k] != '\0' by {
            if 0 < k <= query.len() {
                assert(query.contains(query[k - 1]));
                assert(pattern[k] == query[k - 1]);
            }
        }
    }
    no_nul_in(pattern);
    let seen = until_nul(value);
    matches_somewhere(tail, seen);
    if matches_pattern(pattern, seen) {
        let i = choose|i: int|
            0 <= i <= seen.len() && matches_pattern(tail, #[trigger] seen.skip(i));
        begins_with_query(query, seen.skip(i));
        assert(stands_folded(seen, query, i)) by {
            assert forall|k: int| 0 <= k < query.len() implies folded(#[trigger] seen[i + k])
                == folded(query[k]) by {
                assert(folded(seen.skip(i)[0 + k]) == folded(query[k]));
            }
        }
    }
    if exists|i: int| #[trigger] stands_folded(seen, query, i) {
        let i = choose|i: int| #[trigger] stands_folded(seen, query, i);
        begins_with_query(query, seen.skip(i));
        assert(stands_folded(seen.skip(i), query, 0)) by {
            assert forall|k: int| 0 <= k < query.len() implies folded(
                #[trigger] seen.skip(i)[0 + k],
            ) == folded(query[k]) by {
                assert(folded(seen[i + k]) == folded(query[k]));
            }
        }
    }
}

} // verus!
