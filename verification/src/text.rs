//! Text as a sequence of characters: the small vocabulary that the rest of the
//! library is specified with, and the functions that compute it.

use vstd::prelude::*;
use vstd::string::*;
use vstd::utf8::*;

verus! {

/// `String::push` appends one character at the end of the text and changes
/// nothing else.
pub assume_specification[ std::string::String::push ](s: &mut std::string::String, c: char)
    ensures
        final(s)@ == old(s)@.push(c),
;

// ---------------------------------------------------------------- vocabulary

/// The view of an optional text.
pub open spec fn optional(text: Option<String>) -> Option<Seq<char>> {
    match text {
        Some(text) => Some(text@),
        None => None,
    }
}

/// The view of an optional borrowed text.
pub open spec fn optional_str(text: Option<&str>) -> Option<Seq<char>> {
    match text {
        Some(text) => Some(text@),
        None => None,
    }
}

/// The views of a list of texts.
pub open spec fn texts(list: Seq<String>) -> Seq<Seq<char>> {
    list.map_values(|text: String| text@)
}

/// The Unicode property White_Space.
pub open spec fn is_whitespace(c: char) -> bool {
    ||| '\u{9}' <= c <= '\u{d}'
    ||| c == ' '
    ||| c == '\u{85}'
    ||| c == '\u{a0}'
    ||| c == '\u{1680}'
    ||| '\u{2000}' <= c <= '\u{200a}'
    ||| c == '\u{2028}'
    ||| c == '\u{2029}'
    ||| c == '\u{202f}'
    ||| c == '\u{205f}'
    ||| c == '\u{3000}'
}

/// The Unicode general category Cc.
pub open spec fn is_control(c: char) -> bool {
    c <= '\u{1f}' || '\u{7f}' <= c <= '\u{9f}'
}

/// Nothing but white space.
pub open spec fn is_blank(text: Seq<char>) -> bool {
    forall|i: int| 0 <= i < text.len() ==> is_whitespace(#[trigger] text[i])
}

/// A text without the white space that it begins with.
pub open spec fn trim_start(text: Seq<char>) -> Seq<char>
    decreases text.len(),
{
    if text.len() > 0 && is_whitespace(text[0]) {
        trim_start(text.drop_first())
    } else {
        text
    }
}

/// A text without the white space that it ends with.
pub open spec fn trim_end(text: Seq<char>) -> Seq<char>
    decreases text.len(),
{
    if text.len() > 0 && is_whitespace(text.last()) {
        trim_end(text.drop_last())
    } else {
        text
    }
}

/// A text without the white space around it.
pub open spec fn trim(text: Seq<char>) -> Seq<char> {
    trim_end(trim_start(text))
}

/// The lower case of an ASCII letter; every other character is its own.
pub open spec fn lower(c: char) -> char {
    if 'A' <= c <= 'Z' {
        ((c as u32) + 32) as char
    } else {
        c
    }
}

/// A text with its ASCII letters in lower case.
pub open spec fn lowercase(text: Seq<char>) -> Seq<char> {
    text.map_values(|c: char| lower(c))
}

/// Two texts that differ at most in the case of ASCII letters.
pub open spec fn same_ignoring_case(a: Seq<char>, b: Seq<char>) -> bool {
    lowercase(a) == lowercase(b)
}

/// The position of the first `c` at or after `from`, or the length.
pub open spec fn position(text: Seq<char>, c: char, from: int) -> int
    decreases text.len() - from,
{
    if from < 0 || from >= text.len() {
        text.len() as int
    } else if text[from] == c {
        from
    } else {
        position(text, c, from + 1)
    }
}

/// `pattern` stands in `text` at position `at`.
pub open spec fn occurs_at(text: Seq<char>, pattern: Seq<char>, at: int) -> bool {
    &&& 0 <= at
    &&& at + pattern.len() <= text.len()
    &&& text.subrange(at, at + pattern.len()) == pattern
}

/// The first place at or after `from` where `pattern` stands in `text`.
pub open spec fn find(text: Seq<char>, pattern: Seq<char>, from: int) -> Option<int>
    decreases text.len() + 1 - from,
{
    if from < 0 || from + pattern.len() > text.len() {
        None
    } else if occurs_at(text, pattern, from) {
        Some(from)
    } else {
        find(text, pattern, from + 1)
    }
}

/// `pattern` stands somewhere in `text`.
pub open spec fn contains(text: Seq<char>, pattern: Seq<char>) -> bool {
    exists|at: int| occurs_at(text, pattern, at)
}

/// A text cut at every `separator`.
pub open spec fn split(text: Seq<char>, separator: char) -> Seq<Seq<char>>
    decreases text.len(),
{
    let at = position(text, separator, 0);
    if at >= text.len() || at < 0 {
        seq![text]
    } else {
        seq![text.take(at)] + split(text.skip(at + 1), separator)
    }
}

/// A line without the carriage return that a line feed was preceded by.
pub open spec fn without_return(line: Seq<char>) -> Seq<char> {
    if line.len() > 0 && line.last() == '\r' {
        line.drop_last()
    } else {
        line
    }
}

/// The lines of a text: each ends at a line feed, or at a carriage return and a
/// line feed; the last may end with the text. A text that ends with a line feed
/// has no empty line after it.
pub open spec fn lines(text: Seq<char>) -> Seq<Seq<char>>
    decreases text.len(),
{
    let at = position(text, '\n', 0);
    if text.len() == 0 {
        seq![]
    } else if at >= text.len() || at < 0 {
        seq![text]
    } else {
        seq![without_return(text.take(at))] + lines(text.skip(at + 1))
    }
}

/// The texts of a list with a separator between each two.
pub open spec fn join(parts: Seq<Seq<char>>, separator: Seq<char>) -> Seq<char>
    decreases parts.len(),
{
    if parts.len() == 0 {
        seq![]
    } else if parts.len() == 1 {
        parts[0]
    } else {
        join(parts.drop_last(), separator) + separator + parts.last()
    }
}

/// Each character replaced by what it maps to.
pub open spec fn mapped(text: Seq<char>, replacement: spec_fn(char) -> Seq<char>) -> Seq<char>
    decreases text.len(),
{
    if text.len() == 0 {
        Seq::empty()
    } else {
        mapped(text.drop_last(), replacement) + replacement(text.last())
    }
}

/// A character that separates words: white space, or ASCII white space alone.
pub open spec fn separates(c: char, ascii_only: bool) -> bool {
    if ascii_only {
        c == ' ' || c == '\t' || c == '\n' || c == '\u{c}' || c == '\r'
    } else {
        is_whitespace(c)
    }
}

/// Where the word ends that stands at a place of a text.
pub open spec fn word_end(text: Seq<char>, from: int, ascii_only: bool) -> int
    decreases text.len() - from,
{
    if from < 0 || from >= text.len() || separates(text[from], ascii_only) {
        from
    } else {
        word_end(text, from + 1, ascii_only)
    }
}

/// The words of a text from a place on: the longest runs of characters that do
/// not separate words.
pub open spec fn words_from(text: Seq<char>, from: int, ascii_only: bool) -> Seq<Seq<char>>
    decreases text.len() - from,
{
    if from < 0 || from >= text.len() {
        Seq::empty()
    } else if separates(text[from], ascii_only) {
        words_from(text, from + 1, ascii_only)
    } else {
        let end = word_end(text, from + 1, ascii_only);
        if from < end <= text.len() {
            seq![text.subrange(from, end)] + words_from(text, end, ascii_only)
        } else {
            Seq::empty()
        }
    }
}

/// The words of a text.
pub open spec fn words(text: Seq<char>, ascii_only: bool) -> Seq<Seq<char>> {
    words_from(text, 0, ascii_only)
}

/// A character a number of times.
pub open spec fn repeated(c: char, count: nat) -> Seq<char> {
    Seq::new(count, |i: int| c)
}

/// A decimal digit.
pub open spec fn digit(value: nat) -> char {
    (('0' as u32) + value) as char
}

/// The decimal notation of a number.
pub open spec fn decimal(value: nat) -> Seq<char>
    decreases value,
{
    if value < 10 {
        seq![digit(value)]
    } else {
        decimal(value / 10).push(digit(value % 10))
    }
}

/// A lower-case hexadecimal digit.
pub open spec fn hex_digit(value: nat) -> char {
    if value < 10 {
        digit(value)
    } else {
        (('a' as u32) + (value - 10)) as char
    }
}

/// The two hexadecimal digits of a byte.
pub open spec fn hex_byte(value: u8) -> Seq<char> {
    seq![hex_digit((value / 16) as nat), hex_digit((value % 16) as nat)]
}

/// The hexadecimal digits of a sequence of bytes.
pub open spec fn hex(bytes: Seq<u8>) -> Seq<char>
    decreases bytes.len(),
{
    if bytes.len() == 0 {
        seq![]
    } else {
        hex(bytes.drop_last()) + hex_byte(bytes.last())
    }
}

/// The first `count` bytes of the UTF-8 form of a text end with a character.
pub open spec fn has_byte_prefix(text: Seq<char>, count: int) -> bool {
    is_char_boundary(encode_utf8(text), count)
}

/// The characters in the first `count` bytes of the UTF-8 form of a text.
pub open spec fn byte_prefix(text: Seq<char>, count: int) -> Seq<char> {
    decode_utf8(encode_utf8(text).subrange(0, count))
}

// ---------------------------------------------------------------- characters

/// The characters of a text, in order.
pub fn chars_of(text: &str) -> (chars: Vec<char>)
    ensures
        chars@ == text@,
{
    let mut chars: Vec<char> = Vec::new();
    for c in it: text.chars()
        invariant
            chars@ == it.seq().take(it.index()),
            it.seq() == text@,
    {
        chars.push(c);
    }
    chars
}

/// The text made of the characters from `from` up to `to`.
pub fn text_between(chars: &Vec<char>, from: usize, to: usize) -> (text: String)
    requires
        from <= to <= chars@.len(),
    ensures
        text@ == chars@.subrange(from as int, to as int),
{
    let mut text = String::new();
    for i in from..to
        invariant
            from <= i <= to <= chars@.len(),
            text@ == chars@.subrange(from as int, i as int),
    {
        text.push(chars[i]);
    }
    text
}

/// Whether a character is white space.
pub fn whitespace(c: char) -> (answer: bool)
    ensures
        answer == is_whitespace(c),
{
    ('\u{9}' <= c && c <= '\u{d}') || c == ' ' || c == '\u{85}' || c == '\u{a0}' || c
        == '\u{1680}' || ('\u{2000}' <= c && c <= '\u{200a}') || c == '\u{2028}' || c
        == '\u{2029}' || c == '\u{202f}' || c == '\u{205f}' || c == '\u{3000}'
}

/// Whether a character is a control character.
pub fn control(c: char) -> (answer: bool)
    ensures
        answer == is_control(c),
{
    c <= '\u{1f}' || ('\u{7f}' <= c && c <= '\u{9f}')
}

/// The lower case of an ASCII letter; every other character is its own.
pub fn to_lower(c: char) -> (result: char)
    ensures
        result == lower(c),
{
    if 'A' <= c && c <= 'Z' {
        ((c as u8) + 32) as char
    } else {
        c
    }
}

/// Whether two texts are the same.
pub fn same(a: &str, b: &str) -> (answer: bool)
    ensures
        answer == (a@ == b@),
{
    let a = a.to_owned();
    let b = b.to_owned();
    a == b
}

/// Whether two optional texts are the same.
pub fn same_optional(a: Option<&str>, b: Option<&str>) -> (answer: bool)
    ensures
        answer == (optional_str(a) == optional_str(b)),
{
    match (a, b) {
        (Some(a), Some(b)) => same(a, b),
        (None, None) => true,
        _ => false,
    }
}

/// Whether two texts differ at most in the case of ASCII letters.
pub fn equal_ignoring_case(a: &str, b: &str) -> (answer: bool)
    ensures
        answer == same_ignoring_case(a@, b@),
{
    let x = chars_of(a);
    let y = chars_of(b);
    if x.len() != y.len() {
        assert(lowercase(a@).len() != lowercase(b@).len());
        return false;
    }
    for i in 0..x.len()
        invariant
            x@ == a@,
            y@ == b@,
            x@.len() == y@.len(),
            forall|j: int| 0 <= j < i ==> lower(#[trigger] x@[j]) == lower(y@[j]),
    {
        if to_lower(x[i]) != to_lower(y[i]) {
            assert(lowercase(a@)[i as int] != lowercase(b@)[i as int]);
            return false;
        }
    }
    assert(lowercase(a@) =~= lowercase(b@));
    true
}

/// A copy of an optional text.
pub fn copy_optional(text: &Option<String>) -> (copy: Option<String>)
    ensures
        optional(copy) == optional(*text),
{
    match text {
        Some(text) => Some(text.clone()),
        None => None,
    }
}

/// The text in an optional text, borrowed.
pub fn borrow_optional(text: &Option<String>) -> (borrowed: Option<&str>)
    ensures
        optional_str(borrowed) == optional(*text),
{
    match text {
        Some(text) => Some(text.as_str()),
        None => None,
    }
}

/// The text of an optional borrowed text, owned.
pub fn own_optional(text: Option<&str>) -> (owned: Option<String>)
    ensures
        optional(owned) == optional_str(text),
{
    match text {
        Some(text) => Some(text.to_owned()),
        None => None,
    }
}

/// One text after another.
pub fn concat2(a: &str, b: &str) -> (text: String)
    ensures
        text@ == a@ + b@,
{
    let mut text = a.to_owned();
    text.append(b);
    text
}

/// Three texts, one after another.
pub fn concat3(a: &str, b: &str, c: &str) -> (text: String)
    ensures
        text@ == a@ + b@ + c@,
{
    let mut text = a.to_owned();
    text.append(b);
    text.append(c);
    text
}

// ---------------------------------------------------------------- white space

/// Whether a text is nothing but white space.
pub fn blank(text: &str) -> (answer: bool)
    ensures
        answer == is_blank(text@),
{
    let chars = chars_of(text);
    for i in 0..chars.len()
        invariant
            chars@ == text@,
            forall|j: int| 0 <= j < i ==> is_whitespace(#[trigger] text@[j]),
    {
        if !whitespace(chars[i]) {
            return false;
        }
    }
    true
}

/// A text without the white space around it.
pub fn trimmed(text: &str) -> (result: String)
    ensures
        result@ == trim(text@),
{
    let chars = chars_of(text);
    let mut from: usize = 0;
    assert(text@.skip(0) =~= text@);
    while from < chars.len() && whitespace(chars[from])
        invariant
            chars@ == text@,
            from <= chars@.len(),
            trim_start(text@.skip(from as int)) == trim_start(text@),
        decreases chars@.len() - from,
    {
        assert(text@.skip(from as int).drop_first() =~= text@.skip(from + 1));
        from = from + 1;
    }
    let ghost rest = text@.skip(from as int);
    assert(trim_start(text@) == rest);
    let mut to: usize = chars.len();
    assert(text@.subrange(from as int, to as int) =~= rest);
    while to > from && whitespace(chars[to - 1])
        invariant
            chars@ == text@,
            from <= to <= chars@.len(),
            trim_end(text@.subrange(from as int, to as int)) == trim_end(rest),
        decreases to,
    {
        assert(text@.subrange(from as int, to as int).drop_last() =~= text@.subrange(
            from as int,
            to - 1,
        ));
        to = to - 1;
    }
    text_between(&chars, from, to)
}

/// A text is blank exactly when nothing is left of it once trimmed.
pub proof fn blank_is_trimmed_empty(text: Seq<char>)
    ensures
        is_blank(text) <==> trim(text).len() == 0,
{
    trim_start_of_blank(text);
    trim_end_keeps_first(trim_start(text));
}

proof fn trim_start_of_blank(text: Seq<char>)
    ensures
        is_blank(text) <==> trim_start(text).len() == 0,
        trim_start(text).len() > 0 ==> !is_whitespace(trim_start(text)[0]),
    decreases text.len(),
{
    if text.len() > 0 && is_whitespace(text[0]) {
        trim_start_of_blank(text.drop_first());
        if is_blank(text.drop_first()) {
            assert forall|i: int| 0 <= i < text.len() implies is_whitespace(#[trigger] text[i]) by {
                if i > 0 {
                    assert(text.drop_first()[i - 1] == text[i]);
                }
            }
        }
        if is_blank(text) {
            assert forall|i: int| 0 <= i < text.drop_first().len() implies is_whitespace(
                #[trigger] text.drop_first()[i],
            ) by {
                assert(text.drop_first()[i] == text[i + 1]);
            }
        }
    }
}

proof fn trim_end_keeps_first(text: Seq<char>)
    requires
        text.len() > 0 ==> !is_whitespace(text[0]),
    ensures
        text.len() > 0 ==> trim_end(text).len() > 0,
        text.len() == 0 ==> trim_end(text).len() == 0,
    decreases text.len(),
{
    if text.len() > 0 && is_whitespace(text.last()) {
        trim_end_keeps_first(text.drop_last());
    }
}

// ---------------------------------------------------------------- searching

/// `position` is the first place of the character, or the length.
pub proof fn position_is_first(text: Seq<char>, c: char, from: int)
    requires
        0 <= from <= text.len(),
    ensures
        from <= position(text, c, from) <= text.len(),
        position(text, c, from) < text.len() ==> text[position(text, c, from)] == c,
        forall|i: int| from <= i < position(text, c, from) ==> text[i] != c,
    decreases text.len() - from,
{
    if from < text.len() && text[from] != c {
        position_is_first(text, c, from + 1);
    }
}

/// The position of the first `c` at or after `from`, or the length.
pub fn position_of(chars: &Vec<char>, c: char, from: usize) -> (at: usize)
    requires
        from <= chars@.len(),
    ensures
        at == position(chars@, c, from as int),
        from <= at <= chars@.len(),
        at < chars@.len() ==> chars@[at as int] == c,
{
    let mut at: usize = from;
    while at < chars.len() && chars[at] != c
        invariant
            from <= at <= chars@.len(),
            position(chars@, c, at as int) == position(chars@, c, from as int),
        decreases chars@.len() - at,
    {
        at = at + 1;
    }
    at
}

/// Whether `pattern` stands in `chars` at position `at`.
pub fn stands_at(chars: &Vec<char>, pattern: &Vec<char>, at: usize) -> (answer: bool)
    requires
        at <= chars@.len(),
    ensures
        answer == occurs_at(chars@, pattern@, at as int),
{
    let length = chars.len();
    if pattern.len() > length - at {
        return false;
    }
    for i in 0..pattern.len()
        invariant
            length == chars@.len(),
            at + pattern@.len() <= length,
            forall|j: int| 0 <= j < i ==> chars@[at + j] == pattern@[j],
    {
        if chars[at + i] != pattern[i] {
            assert(chars@.subrange(at as int, at + pattern@.len())[i as int] != pattern@[i as int]);
            return false;
        }
    }
    assert(chars@.subrange(at as int, at + pattern@.len()) =~= pattern@);
    true
}

/// The first place at or after `from` where `pattern` stands in `chars`.
pub fn find_in(chars: &Vec<char>, pattern: &Vec<char>, from: usize) -> (found: Option<usize>)
    requires
        from <= chars@.len(),
    ensures
        match found {
            Some(at) => find(chars@, pattern@, from as int) == Some(at as int) && from <= at && at
                + pattern@.len() <= chars@.len(),
            None => find(chars@, pattern@, from as int) is None,
        },
{
    let mut at: usize = from;
    while pattern.len() <= chars.len() - at
        invariant
            from <= at <= chars@.len(),
            find(chars@, pattern@, at as int) == find(chars@, pattern@, from as int),
        decreases chars@.len() - at,
    {
        if stands_at(chars, pattern, at) {
            return Some(at);
        }
        assert(at < chars@.len()) by {
            if at == chars@.len() {
                assert(chars@.subrange(at as int, at as int) =~= pattern@);
            }
        }
        at = at + 1;
    }
    None
}

/// `find` gives the first of the places where the pattern stands.
pub proof fn find_is_first(text: Seq<char>, pattern: Seq<char>, from: int)
    requires
        0 <= from,
    ensures
        match find(text, pattern, from) {
            Some(at) => from <= at && occurs_at(text, pattern, at) && (forall|i: int|
                from <= i < at ==> !occurs_at(text, pattern, i)),
            None => forall|i: int| from <= i ==> !occurs_at(text, pattern, i),
        },
    decreases text.len() + 1 - from,
{
    if from + pattern.len() <= text.len() && !occurs_at(text, pattern, from) {
        find_is_first(text, pattern, from + 1);
    }
}

/// Whether `pattern` stands somewhere in `text`.
pub fn has(text: &str, pattern: &str) -> (answer: bool)
    ensures
        answer == contains(text@, pattern@),
{
    let chars = chars_of(text);
    let pattern = chars_of(pattern);
    proof {
        find_is_first(chars@, pattern@, 0);
    }
    match find_in(&chars, &pattern, 0) {
        Some(at) => {
            assert(occurs_at(chars@, pattern@, at as int));
            true
        },
        None => false,
    }
}

/// Whether `text` begins with `pattern`.
pub fn begins_with(text: &str, pattern: &str) -> (answer: bool)
    ensures
        answer == occurs_at(text@, pattern@, 0),
{
    let chars = chars_of(text);
    let pattern = chars_of(pattern);
    stands_at(&chars, &pattern, 0)
}

// ---------------------------------------------------------------- cutting and joining

/// A text cut at every `separator`.
pub fn split_at_each(text: &str, separator: char) -> (parts: Vec<String>)
    ensures
        texts(parts@) == split(text@, separator),
{
    let chars = chars_of(text);
    let mut parts: Vec<String> = Vec::new();
    let mut from: usize = 0;
    assert(text@.skip(0) =~= text@);
    assert(texts(parts@) + split(text@, separator) =~= split(text@, separator));
    loop
        invariant
            chars@ == text@,
            from <= chars@.len(),
            texts(parts@) + split(text@.skip(from as int), separator) == split(text@, separator),
        decreases chars@.len() - from,
    {
        let at = position_of(&chars, separator, from);
        let ghost rest = text@.skip(from as int);
        let ghost before = texts(parts@);
        proof {
            position_of_skip(text@, separator, from as int);
        }
        let part = text_between(&chars, from, at);
        parts.push(part);
        assert(texts(parts@) =~= before.push(part@));
        assert(part@ =~= rest.take(at - from));
        if at == chars.len() {
            assert(part@ =~= rest);
            assert(texts(parts@) =~= before + seq![rest]);
            return parts;
        }
        assert(rest.skip(at - from + 1) =~= text@.skip(at + 1));
        assert(texts(parts@) + split(text@.skip(at + 1), separator) =~= before + (seq![part@]
            + split(text@.skip(at + 1), separator)));
        from = at + 1;
    }
}

/// Searching a rest of a text is searching the text from there on.
pub proof fn position_of_skip(text: Seq<char>, c: char, from: int)
    requires
        0 <= from <= text.len(),
    ensures
        position(text.skip(from), c, 0) == position(text, c, from) - from,
{
    position_is_first(text, c, from);
    position_is_first(text.skip(from), c, 0);
    let a = position(text, c, from) - from;
    let b = position(text.skip(from), c, 0);
    if a < b {
        assert(text.skip(from)[a] == text[from + a]);
    } else if b < a {
        assert(text.skip(from)[b] == text[from + b]);
    }
}

/// The lines of a text.
pub fn lines_of(text: &str) -> (result: Vec<String>)
    ensures
        texts(result@) == lines(text@),
{
    let chars = chars_of(text);
    let mut result: Vec<String> = Vec::new();
    let mut from: usize = 0;
    assert(text@.skip(0) =~= text@);
    assert(texts(result@) + lines(text@) =~= lines(text@));
    while from < chars.len()
        invariant
            chars@ == text@,
            from <= chars@.len(),
            texts(result@) + lines(text@.skip(from as int)) == lines(text@),
        decreases chars@.len() - from,
    {
        let at = position_of(&chars, '\n', from);
        let ghost rest = text@.skip(from as int);
        let ghost before = texts(result@);
        proof {
            position_of_skip(text@, '\n', from as int);
        }
        if at == chars.len() {
            let line = text_between(&chars, from, at);
            result.push(line);
            assert(line@ =~= rest);
            assert(texts(result@) =~= before + seq![rest]);
            return result;
        }
        let to = if at > from && chars[at - 1] == '\r' {
            at - 1
        } else {
            at
        };
        let line = text_between(&chars, from, to);
        result.push(line);
        assert(texts(result@) =~= before.push(line@));
        assert(line@ =~= without_return(rest.take(at - from)));
        assert(rest.skip(at - from + 1) =~= text@.skip(at + 1));
        assert(texts(result@) + lines(text@.skip(at + 1)) =~= before + (seq![line@] + lines(
            text@.skip(at + 1),
        )));
        from = at + 1;
    }
    assert(texts(result@) + lines(text@.skip(from as int)) =~= texts(result@));
    result
}

/// The texts of a list with a separator between each two.
pub fn joined(parts: &Vec<String>, separator: &str) -> (text: String)
    ensures
        text@ == join(texts(parts@), separator@),
{
    let mut text = String::new();
    for i in 0..parts.len()
        invariant
            text@ == join(texts(parts@).take(i as int), separator@),
    {
        if i > 0 {
            text.append(separator);
        }
        text.append(parts[i].as_str());
        assert(texts(parts@).take(i + 1).drop_last() =~= texts(parts@).take(i as int));
        assert(i == 0 ==> text@ =~= parts@[0]@);
    }
    assert(texts(parts@).take(parts@.len() as int) =~= texts(parts@));
    text
}

// ---------------------------------------------------------------- numbers

/// The decimal notation of a number.
pub fn decimal_of(value: u128) -> (text: String)
    ensures
        text@ == decimal(value as nat),
    decreases value,
{
    if value < 10 {
        let mut text = String::new();
        text.push((48u8 + value as u8) as char);
        text
    } else {
        let mut text = decimal_of(value / 10);
        text.push((48u8 + (value % 10) as u8) as char);
        text
    }
}

/// A lower-case hexadecimal digit.
pub fn hex_digit_of(value: u8) -> (c: char)
    requires
        value < 16,
    ensures
        c == hex_digit(value as nat),
{
    if value < 10 {
        (48u8 + value) as char
    } else {
        (97u8 + (value - 10)) as char
    }
}

/// The hexadecimal digits of a sequence of bytes.
pub fn hex_of(bytes: &[u8]) -> (text: String)
    ensures
        text@ == hex(bytes@),
        text@.len() == 2 * bytes@.len(),
{
    let mut text = String::new();
    for i in 0..bytes.len()
        invariant
            text@ == hex(bytes@.take(i as int)),
            text@.len() == 2 * i,
    {
        text.push(hex_digit_of(bytes[i] / 16));
        text.push(hex_digit_of(bytes[i] % 16));
        assert(bytes@.take(i + 1).drop_last() =~= bytes@.take(i as int));
        assert(text@ =~= hex(bytes@.take(i as int)) + hex_byte(bytes@[i as int]));
    }
    assert(bytes@.take(bytes@.len() as int) =~= bytes@);
    text
}

// ---------------------------------------------------------------- bytes

/// The characters in the first eight bytes of a text.
pub fn first_eight_bytes(text: &str) -> (prefix: String)
    requires
        has_byte_prefix(text@, 8),
    ensures
        prefix@ == byte_prefix(text@, 8),
{
    let (prefix, _rest) = text.split_at(8);
    proof {
        encode_utf8_decode_utf8(prefix@);
    }
    prefix.to_owned()
}

/// Whether the first eight bytes of a text end with a character.
pub fn has_eight_bytes(text: &str) -> (answer: bool)
    ensures
        answer == has_byte_prefix(text@, 8),
{
    text.is_char_boundary(8)
}

/// Of a text of ASCII characters, the first bytes are the first characters.
pub proof fn byte_prefix_of_ascii(text: Seq<char>, count: int)
    requires
        0 <= count <= text.len(),
        is_ascii_chars(text),
    ensures
        has_byte_prefix(text, count),
        byte_prefix(text, count) == text.take(count),
{
    is_ascii_chars_encode_utf8(text);
    is_ascii_chars_encode_utf8(text.take(count));
    let bytes = encode_utf8(text);
    encode_utf8_valid_utf8(text);
    encode_utf8_decode_utf8(text.take(count));
    assert(bytes.subrange(0, count) =~= encode_utf8(text.take(count)));
    if count == bytes.len() || count == 0 {
        is_char_boundary_start_end_of_seq(bytes);
    } else {
        is_char_boundary_iff_not_is_continuation_byte(bytes, count);
        assert(text[count] as u32 <= 127);
        let b = bytes[count];
        assert(b <= 127);
        utf8_byte_ranges_bitwise(b);
    }
}

/// One more character, mapped.
pub proof fn mapped_step(text: Seq<char>, replacement: spec_fn(char) -> Seq<char>, i: int)
    requires
        0 <= i < text.len(),
    ensures
        mapped(text.take(i + 1), replacement) == mapped(text.take(i), replacement) + replacement(
            text[i],
        ),
{
    assert(text.take(i + 1).drop_last() =~= text.take(i));
}

/// What two texts map to, one after the other.
pub proof fn mapped_append(a: Seq<char>, b: Seq<char>, replacement: spec_fn(char) -> Seq<char>)
    ensures
        mapped(a + b, replacement) == mapped(a, replacement) + mapped(b, replacement),
    decreases b.len(),
{
    if b.len() == 0 {
        assert(a + b =~= a);
        assert(mapped(a, replacement) + mapped(b, replacement) =~= mapped(a, replacement));
    } else {
        mapped_append(a, b.drop_last(), replacement);
        assert((a + b).drop_last() =~= a + b.drop_last());
        assert(mapped(a + b, replacement) =~= mapped(a, replacement) + mapped(b, replacement));
    }
}

/// Whether a character separates words.
pub fn separating(c: char, ascii_only: bool) -> (answer: bool)
    ensures
        answer == separates(c, ascii_only),
{
    if ascii_only {
        c == ' ' || c == '\t' || c == '\n' || c == '\u{c}' || c == '\r'
    } else {
        whitespace(c)
    }
}

proof fn word_end_bounds(text: Seq<char>, from: int, ascii_only: bool)
    requires
        0 <= from <= text.len(),
    ensures
        from <= word_end(text, from, ascii_only) <= text.len(),
    decreases text.len() - from,
{
    if from < text.len() && !separates(text[from], ascii_only) {
        word_end_bounds(text, from + 1, ascii_only);
    }
}

/// The words of a text.
pub fn words_of(text: &str, ascii_only: bool) -> (result: Vec<String>)
    ensures
        texts(result@) == words(text@, ascii_only),
{
    let chars = chars_of(text);
    let length = chars.len();
    let mut result: Vec<String> = Vec::new();
    let mut at: usize = 0;
    assert(texts(result@) =~= Seq::empty());
    while at < length
        invariant
            chars@ == text@,
            length == chars@.len(),
            at <= length,
            texts(result@) + words_from(text@, at as int, ascii_only) == words(text@, ascii_only),
        decreases length - at,
    {
        if separating(chars[at], ascii_only) {
            at = at + 1;
        } else {
            let mut end: usize = at + 1;
            proof {
                word_end_bounds(text@, at + 1, ascii_only);
            }
            while end < length && !separating(chars[end], ascii_only)
                invariant
                    chars@ == text@,
                    length == chars@.len(),
                    at < end <= length,
                    word_end(text@, end as int, ascii_only) == word_end(
                        text@,
                        at + 1,
                        ascii_only,
                    ),
                decreases length - end,
            {
                end = end + 1;
            }
            let ghost before = texts(result@);
            result.push(text_between(&chars, at, end));
            proof {
                let word = text@.subrange(at as int, end as int);
                assert(texts(result@) =~= before.push(word));
                assert(before.push(word) + words_from(text@, end as int, ascii_only) =~= before
                    + (seq![word] + words_from(text@, end as int, ascii_only)));
            }
            at = end;
        }
    }
    assert(texts(result@) + Seq::empty() =~= texts(result@));
    result
}

/// A character a number of times.
pub fn repeat(c: char, count: usize) -> (text: String)
    ensures
        text@ == repeated(c, count as nat),
{
    let mut text = String::new();
    for i in 0..count
        invariant
            text@ == repeated(c, i as nat),
    {
        text.push(c);
        assert(text@ =~= repeated(c, (i + 1) as nat));
    }
    text
}

proof fn digits_differ(a: nat, b: nat)
    requires
        a < 10,
        b < 10,
        digit(a) == digit(b),
    ensures
        a == b,
        lower(digit(a)) == digit(a),
{
    assert(digit(a) as u32 == 48 + a);
    assert(digit(b) as u32 == 48 + b);
}

/// Two numbers with the same digits are the same.
pub proof fn decimal_is_injective(a: nat, b: nat)
    requires
        decimal(a) == decimal(b),
    ensures
        a == b,
    decreases a,
{
    decimal_has_digits(a);
    decimal_has_digits(b);
    if a < 10 && b < 10 {
        assert(decimal(a)[0] == digit(a));
        assert(decimal(b)[0] == digit(b));
        digits_differ(a, b);
    } else if a >= 10 && b >= 10 {
        let x = decimal(a / 10);
        let y = decimal(b / 10);
        assert(decimal(a).last() == digit(a % 10));
        assert(decimal(b).last() == digit(b % 10));
        digits_differ(a % 10, b % 10);
        assert(decimal(a).drop_last() =~= x);
        assert(decimal(b).drop_last() =~= y);
        decimal_is_injective(a / 10, b / 10);
    } else if a < 10 {
        decimal_has_digits(b / 10);
    } else {
        decimal_has_digits(a / 10);
    }
}

/// A number is written with digits, and with at least one.
pub proof fn decimal_has_digits(value: nat)
    ensures
        decimal(value).len() > 0,
        forall|i: int| 0 <= i < decimal(value).len() ==> '0' <= #[trigger] decimal(value)[i] <= '9',
        lowercase(decimal(value)) == decimal(value),
    decreases value,
{
    if value >= 10 {
        decimal_has_digits(value / 10);
        digits_differ(value % 10, value % 10);
        let front = decimal(value / 10);
        assert(lowercase(decimal(value)) =~= decimal(value)) by {
            assert forall|i: int| 0 <= i < decimal(value).len() implies lower(
                #[trigger] decimal(value)[i],
            ) == decimal(value)[i] by {
                if i < front.len() {
                    assert(lowercase(front)[i] == front[i]);
                }
            }
        }
        assert(digit(value % 10) as u32 == 48 + value % 10);
    } else {
        digits_differ(value, value);
        assert(lowercase(decimal(value)) =~= decimal(value));
        assert(digit(value) as u32 == 48 + value);
    }
}

/// Lower-case hexadecimal digits and nothing else.
pub open spec fn is_hex_text(text: Seq<char>) -> bool {
    forall|i: int|
        0 <= i < text.len() ==> ('0' <= #[trigger] text[i] <= '9' || 'a' <= text[i] <= 'f')
}

/// Bytes are written in hexadecimal digits.
pub proof fn hex_has_digits(bytes: Seq<u8>)
    ensures
        is_hex_text(hex(bytes)),
    decreases bytes.len(),
{
    if bytes.len() > 0 {
        hex_has_digits(bytes.drop_last());
        let front = hex(bytes.drop_last());
        let last = hex_byte(bytes.last());
        assert forall|i: int| 0 <= i < hex(bytes).len() implies ('0' <= #[trigger] hex(bytes)[i]
            <= '9' || 'a' <= hex(bytes)[i] <= 'f') by {
            if i < front.len() {
                assert(hex(bytes)[i] == front[i]);
            } else {
                assert(hex(bytes)[i] == last[i - front.len()]);
            }
        }
    }
}

/// How often a character occurs in a text.
pub open spec fn occurrences(value: Seq<char>, c: char) -> nat
    decreases value.len(),
{
    if value.len() == 0 {
        0
    } else {
        occurrences(value.drop_last(), c) + if value.last() == c {
            1nat
        } else {
            0
        }
    }
}

/// A character occurs in two texts together as often as in each.
pub proof fn occurrences_in_both(a: Seq<char>, b: Seq<char>, c: char)
    ensures
        occurrences(a + b, c) == occurrences(a, c) + occurrences(b, c),
    decreases b.len(),
{
    if b.len() == 0 {
        assert(a + b =~= a);
    } else {
        assert((a + b).drop_last() =~= a + b.drop_last());
        occurrences_in_both(a, b.drop_last(), c);
    }
}

/// A character that a text does not hold occurs in it no time.
pub proof fn occurs_nowhere(value: Seq<char>, c: char)
    requires
        !value.contains(c),
    ensures
        occurrences(value, c) == 0,
    decreases value.len(),
{
    if value.len() > 0 {
        let front = value.drop_last();
        assert(value.contains(value[value.len() - 1]));
        assert(!front.contains(c)) by {
            if front.contains(c) {
                let i = choose|i: int| 0 <= i < front.len() && front[i] == c;
                assert(value[i] == c);
            }
        }
        occurs_nowhere(front, c);
    }
}

} // verus!
