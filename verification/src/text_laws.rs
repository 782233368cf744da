//! What the small vocabulary of texts means, said of characters and places alone.

use vstd::prelude::*;

use crate::text;

verus! {

// ---------------------------------------------------------------- characters

/// White space, by code points.
pub proof fn white_space_is(c: char)
    ensures
        text::is_whitespace(c) <==> {
            let n = c as u32;
            ||| 9 <= n <= 13
            ||| n == 32
            ||| n == 133
            ||| n == 160
            ||| n == 5760
            ||| 8192 <= n <= 8202
            ||| n == 8232
            ||| n == 8233
            ||| n == 8239
            ||| n == 8287
            ||| n == 12288
        },
{
}

/// Control characters, by code points.
pub proof fn control_is(c: char)
    ensures
        text::is_control(c) <==> (c as u32) < 32 || 127 <= c as u32 <= 159,
{
}

/// Only the capital letters of ASCII have another lower case, thirty-two places on.
pub proof fn lower_is(c: char)
    ensures
        if 65 <= c as u32 <= 90 {
            text::lower(c) as u32 == c as u32 + 32
        } else {
            text::lower(c) == c
        },
{
}

/// Two characters are the same, or the two cases of one letter of ASCII.
pub open spec fn alike(a: char, b: char) -> bool {
    ||| a == b
    ||| 65 <= a as u32 <= 90 && b as u32 == a as u32 + 32
    ||| 65 <= b as u32 <= 90 && a as u32 == b as u32 + 32
}

/// Two characters have the same lower case where they are alike.
pub proof fn lower_is_alike(a: char, b: char)
    ensures
        text::lower(a) == text::lower(b) <==> alike(a, b),
{
    lower_is(a);
    lower_is(b);
}

/// Texts are the same but for case where they are alike character by character.
pub proof fn same_ignoring_case_is(a: Seq<char>, b: Seq<char>)
    ensures
        text::same_ignoring_case(a, b) <==> a.len() == b.len() && forall|i: int|
            0 <= i < a.len() ==> alike(#[trigger] a[i], b[i]),
{
    let x = text::lowercase(a);
    let y = text::lowercase(b);
    if x == y {
        assert(x.len() == y.len());
        assert forall|i: int| 0 <= i < a.len() implies alike(#[trigger] a[i], b[i]) by {
            assert(x[i] == y[i]);
            lower_is_alike(a[i], b[i]);
        }
    }
    if a.len() == b.len() && forall|i: int| 0 <= i < a.len() ==> alike(#[trigger] a[i], b[i]) {
        assert forall|i: int| 0 <= i < x.len() implies x[i] == y[i] by {
            assert(alike(a[i], b[i]));
            lower_is_alike(a[i], b[i]);
        }
        assert(x =~= y);
    }
}

// ---------------------------------------------------------------- places

/// A pattern stands at a place of a text where its characters are those of the text from
/// there on.
pub proof fn occurs_at_is(value: Seq<char>, pattern: Seq<char>, at: int)
    ensures
        text::occurs_at(value, pattern, at) <==> 0 <= at && at + pattern.len() <= value.len()
            && forall|k: int| 0 <= k < pattern.len() ==> value[at + k] == #[trigger] pattern[k],
{
    if 0 <= at && at + pattern.len() <= value.len() {
        let piece = value.subrange(at, at + pattern.len());
        if piece == pattern {
            assert forall|k: int| 0 <= k < pattern.len() implies value[at + k]
                == #[trigger] pattern[k] by {
                assert(piece[k] == pattern[k]);
            }
        }
        if forall|k: int| 0 <= k < pattern.len() ==> value[at + k] == #[trigger] pattern[k] {
            assert(piece =~= pattern);
        }
    }
}

/// The first place of a pattern at or after another.
pub open spec fn is_first_place(
    value: Seq<char>,
    pattern: Seq<char>,
    from: int,
    at: int,
) -> bool {
    &&& from <= at
    &&& text::occurs_at(value, pattern, at)
    &&& forall|i: int| from <= i < at ==> !#[trigger] text::occurs_at(value, pattern, i)
}

/// A pattern is found at its first place.
pub proof fn found_is(value: Seq<char>, pattern: Seq<char>, from: int, at: int)
    requires
        0 <= from,
    ensures
        is_first_place(value, pattern, from, at) ==> text::find(value, pattern, from) == Some(at),
        (forall|i: int| from <= i ==> !#[trigger] text::occurs_at(value, pattern, i)) ==> text::find(
            value,
            pattern,
            from,
        ) is None,
{
    text::find_is_first(value, pattern, from);
    if is_first_place(value, pattern, from, at) {
        let found = text::find(value, pattern, from)->0;
        if found < at {
            assert(!text::occurs_at(value, pattern, found));
        }
    }
}

// ---------------------------------------------------------------- trimming

proof fn trim_start_at(value: Seq<char>) -> (from: int)
    ensures
        0 <= from <= value.len(),
        text::trim_start(value) == value.skip(from),
        forall|i: int| 0 <= i < from ==> text::is_whitespace(#[trigger] value[i]),
        from < value.len() ==> !text::is_whitespace(value[from]),
    decreases value.len(),
{
    if value.len() > 0 && text::is_whitespace(value[0]) {
        let rest = value.drop_first();
        let at = trim_start_at(rest);
        assert(rest.skip(at) =~= value.skip(at + 1));
        assert forall|i: int| 0 <= i < at + 1 implies text::is_whitespace(#[trigger] value[i]) by {
            if i > 0 {
                assert(value[i] == rest[i - 1]);
            }
        }
        if at + 1 < value.len() {
            assert(value[at + 1] == rest[at]);
        }
        at + 1
    } else {
        assert(value.skip(0) =~= value);
        0
    }
}

proof fn trim_end_at(value: Seq<char>) -> (to: int)
    ensures
        0 <= to <= value.len(),
        text::trim_end(value) == value.take(to),
        forall|i: int| to <= i < value.len() ==> text::is_whitespace(#[trigger] value[i]),
        to > 0 ==> !text::is_whitespace(value[to - 1]),
    decreases value.len(),
{
    if value.len() > 0 && text::is_whitespace(value.last()) {
        let rest = value.drop_last();
        let to = trim_end_at(rest);
        assert(rest.take(to) =~= value.take(to));
        assert forall|i: int| to <= i < value.len() implies text::is_whitespace(
            #[trigger] value[i],
        ) by {
            if i < rest.len() {
                assert(value[i] == rest[i]);
            }
        }
        if to > 0 {
            assert(value[to - 1] == rest[to - 1]);
        }
        to
    } else {
        assert(value.take(value.len() as int) =~= value);
        value.len() as int
    }
}

/// What is left of a text between two places, where only white space stands before
/// and after them, and what is left neither begins nor ends with any.
pub open spec fn is_trimmed(value: Seq<char>, from: int, to: int) -> bool {
    &&& 0 <= from <= to <= value.len()
    &&& forall|i: int|
        0 <= i < from || to <= i < value.len() ==> text::is_whitespace(#[trigger] value[i])
    &&& from < to ==> !text::is_whitespace(value[from]) && !text::is_whitespace(value[to - 1])
}

/// Trimming takes the white space at both ends, all of it, and nothing else.
pub proof fn trim_takes_white_space(value: Seq<char>)
    ensures
        exists|from: int, to: int| #[trigger]
            is_trimmed(value, from, to) && text::trim(value) == value.subrange(from, to),
{
    let from = trim_start_at(value);
    let rest = value.skip(from);
    let length = trim_end_at(rest);
    assert(rest.take(length) =~= value.subrange(from, from + length));
    assert forall|i: int|
        0 <= i < from || from + length <= i < value.len() implies text::is_whitespace(
        #[trigger] value[i],
    ) by {
        if i >= from {
            assert(value[i] == rest[i - from]);
        }
    }
    if length > 0 {
        assert(value[from + length - 1] == rest[length - 1]);
    }
    assert(is_trimmed(value, from, from + length));
}

/// There is only one way to trim a text.
pub proof fn trimmed_is(value: Seq<char>, from: int, to: int)
    requires
        is_trimmed(value, from, to),
    ensures
        text::trim(value) == value.subrange(from, to),
{
    trim_takes_white_space(value);
    let (a, b) = choose|a: int, b: int| #[trigger]
        is_trimmed(value, a, b) && text::trim(value) == value.subrange(a, b);
    if from < to {
        assert(!text::is_whitespace(value[from]));
        assert(!text::is_whitespace(value[to - 1]));
        if a < b {
            assert(!text::is_whitespace(value[a]));
            assert(!text::is_whitespace(value[b - 1]));
        }
        assert(a <= from < b);
        assert(from <= a);
        assert(a <= to - 1 < b);
        assert(b <= to);
    } else {
        if a < b {
            assert(!text::is_whitespace(value[a]));
        }
        assert(value.subrange(a, b) =~= value.subrange(from, to));
    }
}

// ---------------------------------------------------------------- lines

/// `ends` are the ends of the lines of a text: a line feed, or a carriage return and
/// a line feed; the last line may end with the text. A line holds no line feed, and
/// no carriage return before its end is left out.
pub open spec fn are_lines(value: Seq<char>, lines: Seq<Seq<char>>, ends: Seq<Seq<char>>) -> bool {
    &&& ends.len() == lines.len()
    &&& value == Seq::new(lines.len(), |k: int| lines[k] + ends[k]).flatten()
    &&& forall|k: int|
        0 <= k < lines.len() ==> {
            ||| #[trigger] ends[k] == seq!['\n'] && !(lines[k].len() > 0 && lines[k].last() == '\r')
            ||| ends[k] == seq!['\r', '\n']
            ||| ends[k].len() == 0 && k == lines.len() - 1 && lines[k].len() > 0
        }
    &&& forall|k: int, i: int|
        0 <= k < lines.len() && 0 <= i < lines[k].len() ==> #[trigger] lines[k][i] != '\n'
}

proof fn line_ends(value: Seq<char>) -> (ends: Seq<Seq<char>>)
    ensures
        are_lines(value, text::lines(value), ends),
    decreases value.len(),
{
    let lines = text::lines(value);
    let at = text::position(value, '\n', 0);
    text::position_is_first(value, '\n', 0);
    if value.len() == 0 {
        let ends = Seq::<Seq<char>>::empty();
        let pieces = Seq::new(lines.len(), |k: int| lines[k] + ends[k]);
        assert(pieces.len() == 0);
        assert(pieces.flatten() =~= value);
        ends
    } else if at >= value.len() {
        let ends = seq![Seq::<char>::empty()];
        let pieces = Seq::new(lines.len(), |k: int| lines[k] + ends[k]);
        assert(pieces =~= seq![value + Seq::<char>::empty()]);
        assert(value + Seq::<char>::empty() =~= value);
        pieces.lemma_flatten_one_element();
        ends
    } else {
        let rest = value.skip(at + 1);
        let others = text::lines(rest);
        let more = line_ends(rest);
        let first = value.take(at);
        let line = text::without_return(first);
        let end = if first.len() > 0 && first.last() == '\r' {
            seq!['\r', '\n']
        } else {
            seq!['\n']
        };
        let ends = seq![end] + more;
        assert(lines =~= seq![line] + others);
        let pieces = Seq::new(lines.len(), |k: int| lines[k] + ends[k]);
        let tail = Seq::new(others.len(), |k: int| others[k] + more[k]);
        assert(pieces.drop_first() =~= tail) by {
            assert forall|k: int| 0 <= k < tail.len() implies pieces.drop_first()[k] == tail[k] by {
                assert(lines[k + 1] == others[k]);
                assert(ends[k + 1] == more[k]);
            }
        }
        assert(pieces.first() == line + end);
        assert(line + end =~= value.take(at + 1));
        assert(value =~= value.take(at + 1) + rest);
        assert(pieces.flatten() == (line + end) + tail.flatten());
        assert forall|k: int| 0 <= k < lines.len() implies {
            ||| #[trigger] ends[k] == seq!['\n'] && !(lines[k].len() > 0 && lines[k].last() == '\r')
            ||| ends[k] == seq!['\r', '\n']
            ||| ends[k].len() == 0 && k == lines.len() - 1 && lines[k].len() > 0
        } by {
            if k > 0 {
                assert(ends[k] == more[k - 1]);
                assert(lines[k] == others[k - 1]);
            }
        }
        assert forall|k: int, i: int|
            0 <= k < lines.len() && 0 <= i < lines[k].len() implies #[trigger] lines[k][i] != '\n' by {
            if k > 0 {
                assert(lines[k] == others[k - 1]);
                assert(others[k - 1][i] != '\n');
            } else {
                assert(lines[0][i] == value[i]);
            }
        }
        ends
    }
}

/// The lines of a text, with their ends, make up the text.
pub proof fn lines_make_up_the_text(value: Seq<char>)
    ensures
        exists|ends: Seq<Seq<char>>| #[trigger] are_lines(value, text::lines(value), ends),
{
    let ends = line_ends(value);
    assert(are_lines(value, text::lines(value), ends));
}

// ---------------------------------------------------------------- parts

/// The parts of a text, with the separator between each two, make up the text, and
/// none holds the separator.
pub proof fn split_parts_make_up_the_text(value: Seq<char>, separator: char)
    ensures
        ({
            let parts = text::split(value, separator);
            &&& parts.len() >= 1
            &&& value == Seq::new(
                parts.len(),
                |k: int|
                    if k == 0 {
                        parts[k]
                    } else {
                        seq![separator] + parts[k]
                    },
            ).flatten()
            &&& forall|k: int, i: int|
                0 <= k < parts.len() && 0 <= i < parts[k].len() ==> #[trigger] parts[k][i] != separator
        }),
    decreases value.len(),
{
    let parts = text::split(value, separator);
    let at = text::position(value, separator, 0);
    text::position_is_first(value, separator, 0);
    let pieces = Seq::new(
        parts.len(),
        |k: int|
            if k == 0 {
                parts[k]
            } else {
                seq![separator] + parts[k]
            },
    );
    if at >= value.len() {
        assert(pieces =~= seq![value]);
        pieces.lemma_flatten_one_element();
    } else {
        let rest = value.skip(at + 1);
        let others = text::split(rest, separator);
        split_parts_make_up_the_text(rest, separator);
        let tail = Seq::new(
            others.len(),
            |k: int|
                if k == 0 {
                    others[k]
                } else {
                    seq![separator] + others[k]
                },
        );
        assert(parts =~= seq![value.take(at)] + others);
        let shorter = pieces.drop_first();
        assert(shorter.first() == seq![separator] + others[0]);
        assert(tail.first() == others[0]);
        assert(shorter.drop_first() =~= tail.drop_first()) by {
            assert forall|k: int| 0 <= k < tail.len() - 1 implies shorter.drop_first()[k]
                == tail.drop_first()[k] by {
                assert(parts[k + 2] == others[k + 1]);
            }
        }
        assert(pieces.first() == value.take(at));
        assert(pieces.flatten() == value.take(at) + shorter.flatten());
        assert(shorter.flatten() == (seq![separator] + others[0]) + shorter.drop_first().flatten());
        assert(tail.flatten() == others[0] + tail.drop_first().flatten());
        assert(rest == tail.flatten());
        assert(shorter.flatten() =~= seq![separator] + rest);
        assert(value =~= value.take(at) + (seq![separator] + rest));
        assert forall|k: int, i: int|
            0 <= k < parts.len() && 0 <= i < parts[k].len() implies #[trigger] parts[k][i]
            != separator by {
            if k > 0 {
                assert(parts[k] == others[k - 1]);
                assert(others[k - 1][i] != separator);
            } else {
                assert(parts[0][i] == value[i]);
            }
        }
    }
}

/// Joined texts stand one after the other, with the separator between each two.
pub proof fn joined_parts_follow(parts: Seq<Seq<char>>, separator: Seq<char>)
    ensures
        text::join(parts, separator) == Seq::new(
            parts.len(),
            |k: int|
                if k == 0 {
                    parts[k]
                } else {
                    separator + parts[k]
                },
        ).flatten(),
    decreases parts.len(),
{
    let pieces = Seq::new(
        parts.len(),
        |k: int|
            if k == 0 {
                parts[k]
            } else {
                separator + parts[k]
            },
    );
    if parts.len() == 0 {
        assert(pieces.flatten() =~= Seq::empty());
    } else if parts.len() == 1 {
        assert(pieces =~= seq![parts[0]]);
        pieces.lemma_flatten_one_element();
    } else {
        let front = parts.drop_last();
        joined_parts_follow(front, separator);
        let before = Seq::new(
            front.len(),
            |k: int|
                if k == 0 {
                    front[k]
                } else {
                    separator + front[k]
                },
        );
        assert(pieces =~= before.push(separator + parts.last()));
        before.lemma_flatten_push(separator + parts.last());
        assert(text::join(parts, separator) =~= before.flatten() + (separator + parts.last()));
    }
}

/// What each character maps to stands one after the other.
pub proof fn mapped_is(value: Seq<char>, replacement: spec_fn(char) -> Seq<char>)
    ensures
        text::mapped(value, replacement) == value.map_values(replacement).flatten(),
    decreases value.len(),
{
    if value.len() == 0 {
        assert(value.map_values(replacement).flatten() =~= Seq::empty());
    } else {
        let front = value.drop_last();
        mapped_is(front, replacement);
        assert(value.map_values(replacement) =~= front.map_values(replacement).push(
            replacement(value.last()),
        ));
        front.map_values(replacement).lemma_flatten_push(replacement(value.last()));
    }
}

/// `spans` are where the words of a text stand: the longest runs of characters that
/// do not separate words, each once, in order.
pub open spec fn are_spans(value: Seq<char>, ascii_only: bool, spans: Seq<(int, int)>) -> bool {
    &&& forall|k: int|
        0 <= k < spans.len() ==> {
            let (from, to) = #[trigger] spans[k];
            &&& 0 <= from < to <= value.len()
            &&& forall|i: int| from <= i < to ==> !text::separates(#[trigger] value[i], ascii_only)
            &&& from > 0 ==> text::separates(value[from - 1], ascii_only)
            &&& to < value.len() ==> text::separates(value[to], ascii_only)
        }
    &&& forall|k: int, l: int|
        0 <= k < l < spans.len() ==> (#[trigger] spans[k]).1 <= (#[trigger] spans[l]).0
    &&& forall|i: int|
        0 <= i < value.len() && !text::separates(#[trigger] value[i], ascii_only) ==> exists|k: int|
            0 <= k < spans.len() && (#[trigger] spans[k]).0 <= i < spans[k].1
}

proof fn word_ends_at(value: Seq<char>, from: int, ascii_only: bool)
    requires
        0 <= from <= value.len(),
    ensures
        from <= text::word_end(value, from, ascii_only) <= value.len(),
        forall|i: int|
            from <= i < text::word_end(value, from, ascii_only) ==> !text::separates(
                #[trigger] value[i],
                ascii_only,
            ),
        text::word_end(value, from, ascii_only) < value.len() ==> text::separates(
            value[text::word_end(value, from, ascii_only)],
            ascii_only,
        ),
    decreases value.len() - from,
{
    if from < value.len() && !text::separates(value[from], ascii_only) {
        word_ends_at(value, from + 1, ascii_only);
    }
}

proof fn spans_from(value: Seq<char>, from: int, ascii_only: bool) -> (spans: Seq<(int, int)>)
    requires
        0 <= from <= value.len(),
        from > 0 && from < value.len() && !text::separates(value[from], ascii_only)
            ==> text::separates(value[from - 1], ascii_only),
    ensures
        text::words_from(value, from, ascii_only) == spans.map_values(
            |span: (int, int)| value.subrange(span.0, span.1),
        ),
        forall|k: int|
            0 <= k < spans.len() ==> {
                let (a, b) = #[trigger] spans[k];
                &&& from <= a < b <= value.len()
                &&& forall|i: int| a <= i < b ==> !text::separates(#[trigger] value[i], ascii_only)
                &&& a > 0 ==> text::separates(value[a - 1], ascii_only)
                &&& b < value.len() ==> text::separates(value[b], ascii_only)
            },
        forall|k: int, l: int|
            0 <= k < l < spans.len() ==> (#[trigger] spans[k]).1 <= (#[trigger] spans[l]).0,
        forall|i: int|
            from <= i < value.len() && !text::separates(#[trigger] value[i], ascii_only)
                ==> exists|k: int|
                0 <= k < spans.len() && (#[trigger] spans[k]).0 <= i < spans[k].1,
    decreases value.len() - from,
{
    let cut = |span: (int, int)| value.subrange(span.0, span.1);
    if from >= value.len() {
        let spans = Seq::<(int, int)>::empty();
        assert(spans.map_values(cut) =~= Seq::empty());
        spans
    } else if text::separates(value[from], ascii_only) {
        spans_from(value, from + 1, ascii_only)
    } else {
        word_ends_at(value, from + 1, ascii_only);
        let end = text::word_end(value, from + 1, ascii_only);
        let more = spans_from(value, end, ascii_only);
        let spans = seq![(from, end)] + more;
        assert(spans.map_values(cut) =~= seq![value.subrange(from, end)] + more.map_values(cut));
        assert forall|i: int|
            from <= i < value.len() && !text::separates(
                #[trigger] value[i],
                ascii_only,
            ) implies exists|k: int|
            0 <= k < spans.len() && (#[trigger] spans[k]).0 <= i < spans[k].1 by {
            if i < end {
                assert(spans[0].0 <= i < spans[0].1);
            } else {
                let k = choose|k: int|
                    0 <= k < more.len() && (#[trigger] more[k]).0 <= i < more[k].1;
                assert(spans[k + 1] == more[k]);
            }
        }
        assert forall|k: int, l: int| 0 <= k < l < spans.len() implies (#[trigger] spans[k]).1 <= (
        #[trigger] spans[l]).0 by {
            assert(spans[l] == more[l - 1]);
            if k > 0 {
                assert(spans[k] == more[k - 1]);
            }
        }
        assert forall|k: int| 0 <= k < spans.len() implies {
            let (a, b) = #[trigger] spans[k];
            &&& from <= a < b <= value.len()
            &&& forall|i: int| a <= i < b ==> !text::separates(#[trigger] value[i], ascii_only)
            &&& a > 0 ==> text::separates(value[a - 1], ascii_only)
            &&& b < value.len() ==> text::separates(value[b], ascii_only)
        } by {
            if k > 0 {
                assert(spans[k] == more[k - 1]);
            }
        }
        spans
    }
}

/// The words of a text are its longest runs of characters that do not separate
/// words.
pub proof fn words_are_runs(value: Seq<char>, ascii_only: bool)
    ensures
        exists|spans: Seq<(int, int)>| #[trigger]
            are_spans(value, ascii_only, spans) && text::words(value, ascii_only)
                == spans.map_values(|span: (int, int)| value.subrange(span.0, span.1)),
{
    let spans = spans_from(value, 0, ascii_only);
    assert(are_spans(value, ascii_only, spans));
}

/// What separates words of ASCII, by code points.
pub proof fn separates_is(c: char)
    ensures
        text::separates(c, false) == text::is_whitespace(c),
        text::separates(c, true) <==> c as u32 == 32 || c as u32 == 9 || c as u32 == 10 || c as u32
            == 12 || c as u32 == 13,
{
}

// ---------------------------------------------------------------- numbers

/// The number that decimal digits stand for.
pub open spec fn number_of(digits: Seq<char>) -> int {
    digits.fold_left(0int, |number: int, c: char| number * 10 + (c as u32 - 48))
}

/// The decimal notation of a number stands for it, in digits, without zeros in
/// front.
pub proof fn decimal_stands_for(value: nat)
    ensures
        number_of(text::decimal(value)) == value,
        text::decimal(value).len() > 0,
        forall|i: int|
            0 <= i < text::decimal(value).len() ==> 48 <= (#[trigger] text::decimal(value)[i]) as u32
                <= 57,
        text::decimal(value).len() > 1 ==> text::decimal(value)[0] != '0',
    decreases value,
{
    text::decimal_has_digits(value);
    let step = |number: int, c: char| number * 10 + (c as u32 - 48);
    let digits = text::decimal(value);
    reveal_with_fuel(Seq::fold_left, 2);
    if value < 10 {
        assert(digits[0] as u32 == 48 + value);
        assert(digits.drop_last() =~= Seq::<char>::empty());
        assert(digits.fold_left(0int, step) == step(
            Seq::<char>::empty().fold_left(0int, step),
            digits.last(),
        ));
    } else {
        decimal_stands_for(value / 10);
        let front = text::decimal(value / 10);
        assert(digits.drop_last() =~= front);
        assert(digits.last() as u32 == 48 + value % 10);
        assert(digits.fold_left(0int, step) == step(front.fold_left(0int, step), digits.last()));
        assert(digits[0] == front[0]);
        if front.len() == 1 {
            assert(front =~= seq![text::digit(value / 10)]) by {
                if value / 10 >= 10 {
                    text::decimal_has_digits(value / 10 / 10);
                }
            }
            assert(front[0] as u32 == 48 + value / 10);
        }
    }
}

/// Each byte is written as two hexadecimal digits, the higher one first.
pub proof fn hex_stands_for(bytes: Seq<u8>)
    ensures
        text::hex(bytes).len() == 2 * bytes.len(),
        forall|k: int|
            0 <= k < bytes.len() ==> text::hex(bytes)[2 * k] == "0123456789abcdef"@[(#[trigger] bytes[k]
                / 16) as int] && text::hex(bytes)[2 * k + 1] == "0123456789abcdef"@[(bytes[k] % 16) as int],
    decreases bytes.len(),
{
    reveal_strlit("0123456789abcdef");
    if bytes.len() > 0 {
        let front = bytes.drop_last();
        hex_stands_for(front);
        let last = text::hex_byte(bytes.last());
        let whole = text::hex(bytes);
        assert(whole == text::hex(front) + last);
        assert forall|k: int| 0 <= k < bytes.len() implies whole[2 * k] == "0123456789abcdef"@[(
        #[trigger] bytes[k] / 16) as int] && whole[2 * k + 1] == "0123456789abcdef"@[(bytes[k]
            % 16) as int] by {
            if k < front.len() {
                assert(front[k] == bytes[k]);
                assert(whole[2 * k] == text::hex(front)[2 * k]);
                assert(whole[2 * k + 1] == text::hex(front)[2 * k + 1]);
            } else {
                assert(whole[2 * k] == last[0]);
                assert(whole[2 * k + 1] == last[1]);
                hex_digit_is((bytes[k] / 16) as nat);
                hex_digit_is((bytes[k] % 16) as nat);
            }
        }
    }
}

proof fn hex_digit_is(value: nat)
    requires
        value < 16,
    ensures
        text::hex_digit(value) == "0123456789abcdef"@[value as int],
{
    reveal_strlit("0123456789abcdef");
    assert(text::hex_digit(value) as u32 == if value < 10 {
        48 + value
    } else {
        87 + value
    });
}

} // verus!
