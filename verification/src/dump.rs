//! The file tree that an export writes.

use vstd::prelude::*;
use vstd::set_lib::*;
use vstd::string::*;

use crate::app::App;
use crate::behaviour;
use crate::error::{Error, Failure};
use crate::ident;
use crate::laws;
use crate::markdown;
use crate::model;
use crate::model::{Artifact, ArtifactRow, Task, TaskRow};
use crate::order;
use crate::state::{State, TaskFilter};
use crate::text;

verus! {

// ---------------------------------------------------------------- safe names

/// A character that no file name should hold.
pub open spec fn is_unsafe(c: char) -> bool {
    text::is_control(c) || c == '/' || c == '\\' || c == ':' || c == '*' || c == '?' || c == '"' || c
        == '<' || c == '>' || c == '|'
}

/// A character in a file name.
pub open spec fn safe_char(c: char) -> char {
    if is_unsafe(c) {
        '_'
    } else {
        c
    }
}

/// A text without the full stops and spaces at its end.
pub open spec fn without_end(value: Seq<char>) -> Seq<char>
    decreases value.len(),
{
    if value.len() > 0 && (value.last() == '.' || value.last() == ' ') {
        without_end(value.drop_last())
    } else {
        value
    }
}

/// A text as the name of a file or directory.
pub open spec fn safe(value: Seq<char>) -> Seq<char> {
    let output = without_end(text::trim(value.map_values(|c: char| safe_char(c))));
    if output.len() == 0 {
        "unnamed"@
    } else {
        output
    }
}

/// Whether a character should not stand in a file name.
fn unsafe_char(c: char) -> (answer: bool)
    ensures
        answer == is_unsafe(c),
{
    text::control(c) || c == '/' || c == '\\' || c == ':' || c == '*' || c == '?' || c == '"' || c
        == '<' || c == '>' || c == '|'
}

/// A text as the name of a file or directory.
pub fn safe_component(value: &str) -> (output: String)
    ensures
        output@ == safe(value@),
{
    let chars = text::chars_of(value);
    let mut replaced = String::new();
    for i in 0..chars.len()
        invariant
            chars@ == value@,
            replaced@ == value@.take(i as int).map_values(|c: char| safe_char(c)),
    {
        if unsafe_char(chars[i]) {
            replaced.push('_');
        } else {
            replaced.push(chars[i]);
        }
        assert(replaced@ =~= value@.take(i + 1).map_values(|c: char| safe_char(c)));
    }
    assert(value@.take(value@.len() as int) =~= value@);
    let trimmed = text::trimmed(replaced.as_str());
    let kept = text::chars_of(trimmed.as_str());
    let mut end: usize = kept.len();
    assert(kept@.take(end as int) =~= kept@);
    while end > 0 && (kept[end - 1] == '.' || kept[end - 1] == ' ')
        invariant
            kept@ == trimmed@,
            end <= kept@.len(),
            without_end(kept@.take(end as int)) == without_end(kept@),
        decreases end,
    {
        assert(kept@.take(end as int).drop_last() =~= kept@.take(end - 1));
        end = end - 1;
    }
    if end == 0 {
        "unnamed".to_owned()
    } else {
        assert(kept@.subrange(0, end as int) =~= kept@.take(end as int));
        text::text_between(&kept, 0, end)
    }
}

/// A name is one component of a path: it is not empty, holds no character that
/// separates directories or is not allowed, and does not end in a full stop or a
/// space. So it is neither `.` nor `..`.
pub proof fn safe_is_one_component(value: Seq<char>)
    ensures
        safe(value).len() > 0,
        forall|i: int| 0 <= i < safe(value).len() ==> !is_unsafe(#[trigger] safe(value)[i]),
        safe(value).last() != '.',
        safe(value).last() != ' ',
{
    let replaced = value.map_values(|c: char| safe_char(c));
    assert forall|i: int| 0 <= i < replaced.len() implies !is_unsafe(#[trigger] replaced[i]) by {
        assert(replaced[i] == safe_char(value[i]));
    }
    trim_holds(replaced);
    without_end_holds(text::trim(replaced));
    reveal_strlit("unnamed");
}

proof fn trim_holds(value: Seq<char>)
    requires
        forall|i: int| 0 <= i < value.len() ==> !is_unsafe(#[trigger] value[i]),
    ensures
        forall|i: int| 0 <= i < text::trim(value).len() ==> !is_unsafe(#[trigger] text::trim(value)[i]),
{
    trim_start_holds(value);
    trim_end_holds(text::trim_start(value));
}

proof fn trim_start_holds(value: Seq<char>)
    requires
        forall|i: int| 0 <= i < value.len() ==> !is_unsafe(#[trigger] value[i]),
    ensures
        forall|i: int|
            0 <= i < text::trim_start(value).len() ==> !is_unsafe(
                #[trigger] text::trim_start(value)[i],
            ),
    decreases value.len(),
{
    if value.len() > 0 && text::is_whitespace(value[0]) {
        trim_start_holds(value.drop_first());
        assert(text::trim_start(value) == text::trim_start(value.drop_first()));
    } else {
        assert(text::trim_start(value) == value);
    }
}

proof fn trim_end_holds(value: Seq<char>)
    requires
        forall|i: int| 0 <= i < value.len() ==> !is_unsafe(#[trigger] value[i]),
    ensures
        forall|i: int|
            0 <= i < text::trim_end(value).len() ==> !is_unsafe(#[trigger] text::trim_end(value)[i]),
    decreases value.len(),
{
    if value.len() > 0 && text::is_whitespace(value.last()) {
        trim_end_holds(value.drop_last());
        assert(text::trim_end(value) == text::trim_end(value.drop_last()));
    } else {
        assert(text::trim_end(value) == value);
    }
}

proof fn without_end_holds(value: Seq<char>)
    requires
        forall|i: int| 0 <= i < value.len() ==> !is_unsafe(#[trigger] value[i]),
    ensures
        forall|i: int|
            0 <= i < without_end(value).len() ==> !is_unsafe(#[trigger] without_end(value)[i]),
        without_end(value).len() > 0 ==> without_end(value).last() != '.' && without_end(value).last()
            != ' ',
    decreases value.len(),
{
    if value.len() > 0 && (value.last() == '.' || value.last() == ' ') {
        without_end_holds(value.drop_last());
    }
}

// ---------------------------------------------------------------- unique names

/// A name is in use, in this or another case of its ASCII letters.
pub open spec fn taken(name: Seq<char>, used: Seq<Seq<char>>) -> bool {
    exists|k: int| 0 <= k < used.len() && text::same_ignoring_case(#[trigger] used[k], name)
}

/// The last place of a character, or -1.
pub open spec fn last_place(value: Seq<char>, c: char) -> int
    decreases value.len(),
{
    if value.len() == 0 {
        -1
    } else if value.last() == c {
        value.len() - 1
    } else {
        last_place(value.drop_last(), c)
    }
}

/// A name in two: the part before the extension, and the extension with its full
/// stop. A name that begins or ends with its only full stop has no extension.
pub open spec fn parts(name: Seq<char>) -> (Seq<char>, Seq<char>) {
    let at = last_place(name, '.');
    if 0 < at < name.len() - 1 {
        (name.take(at), name.skip(at))
    } else {
        (name, Seq::empty())
    }
}

/// The names that are tried for one that is in use: with the beginning of the
/// UUID before the extension, then with a number too.
pub open spec fn attempt(name: Seq<char>, uuid: Seq<char>, n: nat) -> Seq<char> {
    let (stem, extension) = parts(name);
    let prefix = stem + "--"@ + text::byte_prefix(uuid, 8);
    if n <= 1 {
        prefix + extension
    } else {
        prefix + "-"@ + text::decimal(n) + extension
    }
}

/// The name is the first attempt that is not in use.
pub open spec fn is_first_free(
    name: Seq<char>,
    uuid: Seq<char>,
    used: Seq<Seq<char>>,
    n: nat,
) -> bool {
    &&& n >= 1
    &&& !taken(attempt(name, uuid, n), used)
    &&& forall|m: nat| 1 <= m < n ==> taken(#[trigger] attempt(name, uuid, m), used)
}

/// A text as a name that is not in use.
pub open spec fn unique(name: Seq<char>, uuid: Seq<char>, used: Seq<Seq<char>>) -> Seq<char> {
    if !taken(safe(name), used) {
        safe(name)
    } else {
        attempt(
            safe(name),
            uuid,
            choose|n: nat| #[trigger] is_first_free(safe(name), uuid, used, n),
        )
    }
}

/// No two attempts are the same name.
proof fn attempts_differ(name: Seq<char>, uuid: Seq<char>, m: nat, n: nat)
    requires
        1 <= m,
        1 <= n,
        text::same_ignoring_case(attempt(name, uuid, m), attempt(name, uuid, n)),
    ensures
        m == n,
{
    let (stem, extension) = parts(name);
    let prefix = stem + "--"@ + text::byte_prefix(uuid, 8);
    reveal_strlit("-");
    let x = attempt(name, uuid, m);
    let y = attempt(name, uuid, n);
    assert(text::lowercase(x).len() == text::lowercase(y).len());
    text::decimal_has_digits(m);
    text::decimal_has_digits(n);
    if m >= 2 && n >= 2 {
        let a = text::decimal(m);
        let b = text::decimal(n);
        let from = prefix.len() as int + 1;
        assert(a.len() == b.len());
        assert(a =~= b) by {
            assert forall|i: int| 0 <= i < a.len() implies a[i] == b[i] by {
                assert(x[from + i] == a[i]);
                assert(y[from + i] == b[i]);
                assert(text::lowercase(x)[from + i] == text::lowercase(y)[from + i]);
                assert(text::lowercase(a)[i] == text::lower(a[i]));
                assert(text::lowercase(b)[i] == text::lower(b[i]));
            }
        }
        text::decimal_is_injective(m, n);
    }
}

/// Of more attempts than there are names in use, one is free.
proof fn attempts_run_out(name: Seq<char>, uuid: Seq<char>, used: Seq<Seq<char>>, n: nat)
    requires
        forall|m: nat| 1 <= m <= n ==> taken(#[trigger] attempt(name, uuid, m), used),
    ensures
        n <= used.len(),
{
    let domain = set_int_range(1, n as int + 1);
    let who = |m: int|
        choose|k: int|
            0 <= k < used.len() && text::same_ignoring_case(
                #[trigger] used[k],
                attempt(name, uuid, m as nat),
            );
    lemma_int_range(1, n as int + 1);
    lemma_int_range(0, used.len() as int);
    assert forall|m: int| domain.contains(m) implies 0 <= #[trigger] who(m) < used.len()
        && text::same_ignoring_case(used[who(m)], attempt(name, uuid, m as nat)) by {
        assert(taken(attempt(name, uuid, m as nat), used));
    }
    assert(vstd::relations::injective_on(who, domain)) by {
        assert forall|a: int, b: int|
            domain.contains(a) && domain.contains(b) && #[trigger] who(a) == #[trigger] who(
                b,
            ) implies a == b by {
            assert(text::same_ignoring_case(used[who(a)], attempt(name, uuid, a as nat)));
            assert(text::same_ignoring_case(used[who(b)], attempt(name, uuid, b as nat)));
            attempts_differ(name, uuid, a as nat, b as nat);
        }
    }
    let image = domain.map(who);
    lemma_map_size(domain, image, who);
    assert(image.subset_of(set_int_range(0, used.len() as int))) by {
        assert forall|k: int| image.contains(k) implies set_int_range(
            0,
            used.len() as int,
        ).contains(k) by {
            let m = choose|m: int| domain.contains(m) && k == who(m);
            assert(0 <= who(m) < used.len());
        }
    }
    lemma_len_subset(image, set_int_range(0, used.len() as int));
}

/// The first free attempt is determined.
proof fn first_free_is_unique(
    name: Seq<char>,
    uuid: Seq<char>,
    used: Seq<Seq<char>>,
    m: nat,
    n: nat,
)
    requires
        is_first_free(name, uuid, used, m),
        is_first_free(name, uuid, used, n),
    ensures
        m == n,
{
    if m < n {
        assert(taken(attempt(name, uuid, m), used));
    }
    if n < m {
        assert(taken(attempt(name, uuid, n), used));
    }
}

/// Whether a name is not in use.
pub fn is_unused(candidate: &str, used: &Vec<String>) -> (answer: bool)
    ensures
        answer == !taken(candidate@, text::texts(used@)),
{
    for i in 0..used.len()
        invariant
            forall|k: int|
                0 <= k < i ==> !text::same_ignoring_case(
                    #[trigger] text::texts(used@)[k],
                    candidate@,
                ),
    {
        assert(text::texts(used@)[i as int] == used@[i as int]@);
        if text::equal_ignoring_case(used[i].as_str(), candidate) {
            return false;
        }
    }
    true
}

/// The part of a name before its extension, and the extension with its full stop.
fn split_name(name: &str) -> (result: (String, String))
    ensures
        (result.0@, result.1@) == parts(name@),
{
    let chars = text::chars_of(name);
    let length = chars.len();
    let mut end: usize = length;
    assert(chars@.take(end as int) =~= chars@);
    while end > 0 && chars[end - 1] != '.'
        invariant
            chars@ == name@,
            length == chars@.len(),
            end <= length,
            last_place(chars@.take(end as int), '.') == last_place(name@, '.'),
        decreases end,
    {
        assert(chars@.take(end as int).drop_last() =~= chars@.take(end - 1));
        end = end - 1;
    }
    if end > 1 && end < length {
        let stem = text::text_between(&chars, 0, end - 1);
        let extension = text::text_between(&chars, end - 1, length);
        assert(stem@ =~= name@.take(end - 1));
        assert(extension@ =~= name@.skip(end - 1));
        (stem, extension)
    } else {
        (name.to_owned(), String::new())
    }
}

/// A text as a name that is not in use, which is then in use too.
pub fn unique_component(name: &str, uuid: &str, used: &mut Vec<String>) -> (result: String)
    requires
        taken(safe(name@), text::texts(old(used)@)) ==> text::has_byte_prefix(uuid@, 8),
    ensures
        result@ == unique(name@, uuid@, text::texts(old(used)@)),
        !taken(result@, text::texts(old(used)@)),
        text::texts(final(used)@) == text::texts(old(used)@).push(result@),
{
    let ghost before = text::texts(used@);
    let candidate = safe_component(name);
    if is_unused(candidate.as_str(), used) {
        used.push(candidate.clone());
        assert(text::texts(used@) =~= before.push(candidate@));
        return candidate;
    }
    let (stem, extension) = split_name(candidate.as_str());
    let start = text::first_eight_bytes(uuid);
    let prefix = text::concat3(stem.as_str(), "--", start.as_str());
    let mut attempted = text::concat2(prefix.as_str(), extension.as_str());
    let mut number: u128 = 1;
    let count: usize = used.len();
    while !is_unused(attempted.as_str(), used)
        invariant
            before == text::texts(used@),
            count == used@.len(),
            candidate@ == safe(name@),
            (stem@, extension@) == parts(candidate@),
            prefix@ == stem@ + "--"@ + text::byte_prefix(uuid@, 8),
            1 <= number <= count + 1,
            attempted@ == attempt(candidate@, uuid@, number as nat),
            forall|m: nat|
                1 <= m < number ==> taken(#[trigger] attempt(candidate@, uuid@, m), before),
        decreases count + 1 - number,
    {
        proof {
            assert forall|m: nat| 1 <= m <= number implies taken(
                #[trigger] attempt(candidate@, uuid@, m),
                before,
            ) by {
                if m == number {
                    assert(taken(attempted@, before));
                }
            }
            attempts_run_out(candidate@, uuid@, before, number as nat);
            assert(before.len() == count);
        }
        number = number + 1;
        let digits = text::decimal_of(number);
        let numbered = text::concat3(prefix.as_str(), "-", digits.as_str());
        attempted = text::concat2(numbered.as_str(), extension.as_str());
    }
    proof {
        assert(is_first_free(candidate@, uuid@, before, number as nat));
        let n = choose|n: nat| #[trigger] is_first_free(safe(name@), uuid@, before, n);
        first_free_is_unique(candidate@, uuid@, before, n, number as nat);
    }
    used.push(attempted.clone());
    assert(text::texts(used@) =~= before.push(attempted@));
    attempted
}

/// A name that was made unique is not in use, and is one component of a path
/// where the UUID is one.
pub proof fn unique_is_free(name: Seq<char>, uuid: Seq<char>, used: Seq<Seq<char>>)
    requires
        ident::is_canonical(uuid),
    ensures
        !taken(unique(name, uuid, used), used),
        unique(name, uuid, used).len() > 0,
        forall|i: int|
            0 <= i < unique(name, uuid, used).len() ==> !is_unsafe(
                #[trigger] unique(name, uuid, used)[i],
            ),
{
    safe_is_one_component(name);
    let result = unique(name, uuid, used);
    if taken(safe(name), used) {
        let base = safe(name);
        let n = some_first_free(base, uuid, used);
        let m = choose|m: nat| #[trigger] is_first_free(base, uuid, used, m);
        assert(is_first_free(base, uuid, used, m));
        ident::canonical_has_prefix(uuid);
        reveal_strlit("-");
        reveal_strlit("--");
        text::decimal_has_digits(m);
        let (stem, extension) = parts(base);
        assert forall|i: int| 0 <= i < stem.len() implies !is_unsafe(#[trigger] stem[i]) by {
            assert(stem[i] == base[i]);
        }
        assert forall|i: int| 0 <= i < extension.len() implies !is_unsafe(
            #[trigger] extension[i],
        ) by {
            assert(extension[i] == base[last_place(base, '.') + i]);
        }
        let start = text::byte_prefix(uuid, 8);
        assert forall|i: int| 0 <= i < start.len() implies !is_unsafe(#[trigger] start[i]) by {
            assert(start[i] == uuid[i]);
            assert(uuid[i] == '-' || ident::is_hex(uuid[i]));
        }
    }
}

/// A name that is in use becomes the first attempt that is not.
pub proof fn unique_is_first_free(name: Seq<char>, uuid: Seq<char>, used: Seq<Seq<char>>)
    requires
        taken(safe(name), used),
    ensures
        exists|n: nat| #[trigger]
            is_first_free(safe(name), uuid, used, n) && unique(name, uuid, used) == attempt(
                safe(name),
                uuid,
                n,
            ),
{
    let n = some_first_free(safe(name), uuid, used);
    let m = choose|m: nat| #[trigger] is_first_free(safe(name), uuid, used, m);
    assert(is_first_free(safe(name), uuid, used, m));
}

/// There is a first free attempt.
proof fn some_first_free(name: Seq<char>, uuid: Seq<char>, used: Seq<Seq<char>>) -> (n: nat)
    ensures
        is_first_free(name, uuid, used, n),
{
    first_free_from(name, uuid, used, 1)
}

proof fn first_free_from(
    name: Seq<char>,
    uuid: Seq<char>,
    used: Seq<Seq<char>>,
    n: nat,
) -> (found: nat)
    requires
        n >= 1,
        forall|m: nat| 1 <= m < n ==> taken(#[trigger] attempt(name, uuid, m), used),
    ensures
        is_first_free(name, uuid, used, found),
    decreases used.len() + 1 - n,
{
    if taken(attempt(name, uuid, n), used) {
        assert forall|m: nat| 1 <= m < n + 1 implies taken(
            #[trigger] attempt(name, uuid, m),
            used,
        ) by {}
        attempts_run_out(name, uuid, used, n);
        first_free_from(name, uuid, used, n + 1)
    } else {
        n
    }
}

/// Names in use, and after them those of a list of texts with their UUIDs, each
/// made unique among all before it.
pub open spec fn names_after(
    used: Seq<Seq<char>>,
    entries: Seq<(Seq<char>, Seq<char>)>,
) -> Seq<Seq<char>>
    decreases entries.len(),
{
    if entries.len() == 0 {
        used
    } else {
        let before = names_after(used, entries.drop_last());
        before.push(unique(entries.last().0, entries.last().1, before))
    }
}

/// The names of a list of texts with their UUIDs, each made unique among those
/// before it.
pub open spec fn names(entries: Seq<(Seq<char>, Seq<char>)>) -> Seq<Seq<char>> {
    names_after(Seq::empty(), entries)
}

/// A text that would be in use as a name can be told apart by the beginning of its
/// UUID.
pub open spec fn is_told_apart(
    used: Seq<Seq<char>>,
    entries: Seq<(Seq<char>, Seq<char>)>,
    k: int,
) -> bool {
    taken(safe(entries[k].0), names_after(used, entries.take(k))) ==> text::has_byte_prefix(
        entries[k].1,
        8,
    )
}

/// Every text that would be in use as a name can be told apart.
pub open spec fn nameable_after(
    used: Seq<Seq<char>>,
    entries: Seq<(Seq<char>, Seq<char>)>,
) -> bool {
    forall|k: int| 0 <= k < entries.len() ==> #[trigger] is_told_apart(used, entries, k)
}

/// Every text that would be in use as a name can be told apart.
pub open spec fn nameable(entries: Seq<(Seq<char>, Seq<char>)>) -> bool {
    nameable_after(Seq::empty(), entries)
}

proof fn names_step(used: Seq<Seq<char>>, entries: Seq<(Seq<char>, Seq<char>)>, i: int)
    requires
        0 <= i < entries.len(),
    ensures
        names_after(used, entries.take(i + 1)) == names_after(used, entries.take(i)).push(
            unique(entries[i].0, entries[i].1, names_after(used, entries.take(i))),
        ),
        names_after(used, entries.take(i)).len() == used.len() + i,
        names_after(used, entries).len() == used.len() + entries.len(),
        names_after(used, entries)[used.len() + i] == unique(
            entries[i].0,
            entries[i].1,
            names_after(used, entries.take(i)),
        ),
{
    assert(entries.take(i + 1).drop_last() =~= entries.take(i));
    names_length(used, entries.take(i));
    names_prefix(used, entries, i + 1);
    names_length(used, entries);
    let whole = names_after(used, entries);
    assert(whole[used.len() + i] == whole.take(used.len() + i + 1)[used.len() + i]);
}

proof fn names_length(used: Seq<Seq<char>>, entries: Seq<(Seq<char>, Seq<char>)>)
    ensures
        names_after(used, entries).len() == used.len() + entries.len(),
    decreases entries.len(),
{
    if entries.len() > 0 {
        names_length(used, entries.drop_last());
    }
}

proof fn names_prefix(used: Seq<Seq<char>>, entries: Seq<(Seq<char>, Seq<char>)>, n: int)
    requires
        0 <= n <= entries.len(),
    ensures
        names_after(used, entries).take(used.len() + n) == names_after(used, entries.take(n)),
    decreases entries.len(),
{
    names_length(used, entries);
    let whole = names_after(used, entries);
    if n == entries.len() {
        assert(entries.take(n) =~= entries);
        assert(whole.take(used.len() + n) =~= whole);
    } else {
        let front = entries.drop_last();
        names_prefix(used, front, n);
        names_length(used, front);
        assert(front.take(n) =~= entries.take(n));
        assert(whole.take(used.len() + n) =~= names_after(used, front).take(used.len() + n));
    }
}

/// Names are given one after the other.
pub proof fn names_in_order(
    used: Seq<Seq<char>>,
    entries: Seq<(Seq<char>, Seq<char>)>,
    k: int,
)
    requires
        0 <= k < entries.len(),
    ensures
        names_after(used, entries).len() == used.len() + entries.len(),
        names_after(used, entries).take(used.len() + k) == names_after(used, entries.take(k)),
        names_after(used, entries)[used.len() + k] == unique(
            entries[k].0,
            entries[k].1,
            names_after(used, entries.take(k)),
        ),
{
    names_step(used, entries, k);
    names_prefix(used, entries, k);
}

// ---------------------------------------------------------------- files

/// A file of the tree: its path, with `/` between the components, and what it
/// holds.
#[derive(Debug, PartialEq, Eq)]
pub struct DumpFile {
    pub path: String,
    pub contents: String,
}

/// The view of a file of the tree.
#[verifier::ext_equal]
pub struct FileRow {
    pub path: Seq<char>,
    pub contents: Seq<char>,
}

impl View for DumpFile {
    type V = FileRow;

    open spec fn view(&self) -> FileRow {
        FileRow { path: self.path@, contents: self.contents@ }
    }
}

/// A type put in its place among types in ascending order, where it is new.
pub open spec fn inserted(types: Seq<Seq<char>>, artifact_type: Seq<char>) -> Seq<Seq<char>>
    decreases types.len(),
{
    if types.len() == 0 {
        seq![artifact_type]
    } else if types.last() == artifact_type {
        types
    } else if order::text_leq(types.last(), artifact_type) {
        types.push(artifact_type)
    } else {
        inserted(types.drop_last(), artifact_type).push(types.last())
    }
}

/// The types of a list of artifacts, each once, in ascending order.
pub open spec fn types_of(artifacts: Seq<ArtifactRow>) -> Seq<Seq<char>>
    decreases artifacts.len(),
{
    if artifacts.len() == 0 {
        Seq::empty()
    } else {
        inserted(types_of(artifacts.drop_last()), artifacts.last().artifact_type)
    }
}

/// The artifacts of one type.
pub open spec fn of_type(artifacts: Seq<ArtifactRow>, artifact_type: Seq<char>) -> Seq<ArtifactRow> {
    artifacts.filter(|artifact: ArtifactRow| artifact.artifact_type == artifact_type)
}

/// What the names of artifacts are made from.
pub open spec fn entries_of(artifacts: Seq<ArtifactRow>) -> Seq<(Seq<char>, Seq<char>)> {
    artifacts.map_values(|artifact: ArtifactRow| (artifact.display_name(), artifact.uuid))
}

/// The name of the directory of a type, whose first artifact has the UUID: the
/// type, unless that is the name of the file of the task.
pub open spec fn folder_name(artifact_type: Seq<char>, uuid: Seq<char>) -> Seq<char> {
    if safe(artifact_type) == "task.md"@ {
        unique(artifact_type, uuid, seq!["task.md"@])
    } else {
        safe(artifact_type)
    }
}

/// The name of the directory of a type of a task.
pub open spec fn folder(artifacts: Seq<ArtifactRow>, n: int) -> Seq<char> {
    let artifact_type = types_of(artifacts)[n];
    folder_name(artifact_type, of_type(artifacts, artifact_type)[0].uuid)
}

/// What the names of the artifacts of a type are made from.
pub open spec fn group_entries(artifacts: Seq<ArtifactRow>, n: int) -> Seq<(Seq<char>, Seq<char>)> {
    entries_of(of_type(artifacts, types_of(artifacts)[n]))
}

/// The names that the artifacts of the first types have in a directory. Types with
/// one directory share its names.
pub open spec fn folder_names(
    artifacts: Seq<ArtifactRow>,
    count: nat,
    directory: Seq<char>,
) -> Seq<Seq<char>>
    decreases count,
{
    if count == 0 {
        Seq::empty()
    } else {
        let last = (count - 1) as nat;
        let used = folder_names(artifacts, last, directory);
        if folder(artifacts, last as int) == directory {
            names_after(used, group_entries(artifacts, last as int))
        } else {
            used
        }
    }
}

/// The names that are in use in the directory of a type before its artifacts get
/// theirs.
pub open spec fn used_before(artifacts: Seq<ArtifactRow>, n: int) -> Seq<Seq<char>> {
    folder_names(artifacts, n as nat, folder(artifacts, n))
}

/// The files of the artifacts of one type, in a directory where some names are in
/// use.
pub open spec fn type_files(
    directory: Seq<char>,
    folder: Seq<char>,
    used: Seq<Seq<char>>,
    artifact_type: Seq<char>,
    artifacts: Seq<ArtifactRow>,
) -> Seq<FileRow> {
    let group = of_type(artifacts, artifact_type);
    Seq::new(
        group.len(),
        |k: int|
            FileRow {
                path: directory + "/"@ + folder + "/"@ + names_after(used, entries_of(group))[used.len()
                    + k],
                contents: group[k].body,
            },
    )
}

/// The files of the artifacts of one of the types of a task.
pub open spec fn nth_files(directory: Seq<char>, artifacts: Seq<ArtifactRow>, n: int) -> Seq<
    FileRow,
> {
    type_files(
        directory,
        folder(artifacts, n),
        used_before(artifacts, n),
        types_of(artifacts)[n],
        artifacts,
    )
}

/// The files of the artifacts of the first types.
pub open spec fn types_files(
    directory: Seq<char>,
    artifacts: Seq<ArtifactRow>,
    count: nat,
) -> Seq<FileRow>
    decreases count,
{
    if count == 0 {
        Seq::empty()
    } else {
        let last = (count - 1) as nat;
        types_files(directory, artifacts, last) + nth_files(directory, artifacts, last as int)
    }
}

/// The files of a task: its text, and one for each of its artifacts, in a
/// directory for each type.
pub open spec fn task_files(
    directory: Seq<char>,
    task: TaskRow,
    artifacts: Seq<ArtifactRow>,
) -> Seq<FileRow> {
    seq![FileRow { path: directory + "/task.md"@, contents: task.body }] + types_files(
        directory,
        artifacts,
        types_of(artifacts).len(),
    )
}

/// The artifacts of a type and its directory can be named.
pub open spec fn type_nameable(artifacts: Seq<ArtifactRow>, n: int) -> bool {
    &&& safe(types_of(artifacts)[n]) == "task.md"@ ==> text::has_byte_prefix(
        of_type(artifacts, types_of(artifacts)[n])[0].uuid,
        8,
    )
    &&& nameable_after(used_before(artifacts, n), group_entries(artifacts, n))
}

/// The artifacts of a task and the directories of their types can be named.
pub open spec fn list_nameable(artifacts: Seq<ArtifactRow>) -> bool {
    &&& forall|k: int|
        0 <= k < artifacts.len() ==> (#[trigger] artifacts[k]).has_display_name()
    &&& forall|n: int| 0 <= n < types_of(artifacts).len() ==> #[trigger] type_nameable(artifacts, n)
}

/// The tasks of a list and their artifacts can be named.
pub open spec fn tree_nameable(tasks: Seq<TaskRow>, lists: Seq<Seq<ArtifactRow>>) -> bool {
    &&& nameable(tasks.map_values(|task: TaskRow| (task.id, task.uuid)))
    &&& forall|k: int| 0 <= k < lists.len() ==> list_nameable(#[trigger] lists[k])
}

/// The directories of tasks.
pub open spec fn directories(tasks: Seq<TaskRow>) -> Seq<Seq<char>> {
    names(tasks.map_values(|task: TaskRow| (task.id, task.uuid)))
}

/// The files of the first tasks of a list.
pub open spec fn files_of_first(
    tasks: Seq<TaskRow>,
    lists: Seq<Seq<ArtifactRow>>,
    count: nat,
) -> Seq<FileRow>
    decreases count,
{
    if count == 0 {
        Seq::empty()
    } else {
        let last = (count - 1) as nat;
        files_of_first(tasks, lists, last) + task_files(
            directories(tasks)[last as int],
            tasks[last as int],
            lists[last as int],
        )
    }
}

/// The files of a list of tasks with their artifacts.
pub open spec fn tree(tasks: Seq<TaskRow>, lists: Seq<Seq<ArtifactRow>>) -> Seq<FileRow> {
    files_of_first(tasks, lists, tasks.len())
}

/// `tasks` are the active, the completed and the archived tasks, each list in its
/// order.
pub open spec fn is_every_task(state: State, tasks: Seq<TaskRow>) -> bool {
    exists|active: Seq<TaskRow>, completed: Seq<TaskRow>, archived: Seq<TaskRow>|
        #![trigger active + completed + archived]
        {
            &&& state.lists_tasks(TaskFilter::Active, active)
            &&& state.lists_tasks(TaskFilter::Completed, completed)
            &&& state.lists_tasks(TaskFilter::Archived, archived)
            &&& tasks == active + completed + archived
        }
}

/// `tasks` are the tasks to export: the one that the key names, or all.
pub open spec fn selects(state: State, key: Option<Seq<char>>, tasks: Seq<TaskRow>) -> bool {
    match key {
        Some(key) => match state.read_task(key) {
            Ok(task) => tasks == seq![task],
            Err(_) => false,
        },
        None => is_every_task(state, tasks),
    }
}

/// `tasks` are the tasks to export and `lists` their artifacts.
pub open spec fn exports(
    state: State,
    key: Option<Seq<char>>,
    tasks: Seq<TaskRow>,
    lists: Seq<Seq<ArtifactRow>>,
) -> bool {
    &&& selects(state, key, tasks)
    &&& lists.len() == tasks.len()
    &&& forall|k: int|
        0 <= k < tasks.len() ==> #[trigger] markdown::lists_artifacts_of(
            state,
            tasks[k].uuid,
            lists[k],
        )
}

/// Listing the artifacts of one of the tasks to export fails.
pub open spec fn export_fails(
    state: State,
    key: Option<Seq<char>>,
    tasks: Seq<TaskRow>,
    k: int,
    failure: Failure,
) -> bool {
    &&& selects(state, key, tasks)
    &&& 0 <= k < tasks.len()
    &&& state.task_named(tasks[k].uuid) == Err::<int, Failure>(failure)
}

/// Puts a type in its place among types in ascending order, where it is new.
fn insert_type(types: &mut Vec<String>, artifact_type: &str)
    ensures
        text::texts(final(types)@) == inserted(text::texts(old(types)@), artifact_type@),
{
    let ghost all = text::texts(types@);
    let mut at: usize = types.len();
    assert(all.take(at as int) =~= all);
    assert(all.skip(at as int) =~= Seq::empty());
    assert(inserted(all.take(at as int), artifact_type@) + all.skip(at as int) =~= inserted(
        all,
        artifact_type@,
    ));
    while at > 0 && !order::text_precedes(types[at - 1].as_str(), artifact_type)
        invariant
            all == text::texts(types@),
            all == text::texts(old(types)@),
            at <= types@.len(),
            inserted(all.take(at as int), artifact_type@) + all.skip(at as int) == inserted(
                all,
                artifact_type@,
            ),
        decreases at,
    {
        let ghost front = all.take(at as int);
        assert(front.last() == types@[at - 1]@);
        proof {
            order::text_leq_total(artifact_type@, artifact_type@);
        }
        assert(front.drop_last() =~= all.take(at - 1));
        assert(inserted(all.take(at - 1), artifact_type@).push(front.last()) + all.skip(
            at as int,
        ) =~= inserted(all.take(at - 1), artifact_type@) + all.skip(at - 1));
        at = at - 1;
    }
    let ghost front = all.take(at as int);
    if at > 0 {
        assert(front.last() == types@[at - 1]@);
        if text::same(types[at - 1].as_str(), artifact_type) {
            assert(front + all.skip(at as int) =~= all);
            return;
        }
    }
    types.insert(at, artifact_type.to_owned());
    proof {
        assert(inserted(front, artifact_type@) =~= front.push(artifact_type@));
        assert(text::texts(types@) =~= front.push(artifact_type@) + all.skip(at as int));
    }
}

fn push_type_files(
    files: &mut Vec<DumpFile>,
    used: &mut Vec<String>,
    directory: &str,
    folder: &str,
    artifact_type: &str,
    artifacts: &Vec<Artifact>,
)
    requires
        forall|k: int|
            0 <= k < artifacts@.len() ==> (#[trigger] artifacts@[k])@.has_display_name(),
        nameable_after(
            text::texts(old(used)@),
            entries_of(of_type(model::rows(artifacts@), artifact_type@)),
        ),
    ensures
        model::rows(final(files)@) == model::rows(old(files)@) + type_files(
            directory@,
            folder@,
            text::texts(old(used)@),
            artifact_type@,
            model::rows(artifacts@),
        ),
        text::texts(final(used)@) == names_after(
            text::texts(old(used)@),
            entries_of(of_type(model::rows(artifacts@), artifact_type@)),
        ),
{
    let ghost list = model::rows(artifacts@);
    let ghost keep = |artifact: ArtifactRow| artifact.artifact_type == artifact_type@;
    let ghost group = of_type(list, artifact_type@);
    let ghost entries = entries_of(group);
    let ghost taken_names = text::texts(used@);
    let ghost wanted = type_files(directory@, folder@, taken_names, artifact_type@, list);
    let ghost before = model::rows(files@);
    let place = text::concat3(directory, "/", folder);
    let ghost mut done: int = 0;
    assert(list.take(0).filter(keep) =~= Seq::empty()) by {
        reveal(Seq::filter);
    }
    assert(entries.take(0) =~= Seq::empty());
    assert(wanted.take(0) =~= Seq::empty());
    assert(before + wanted.take(0) =~= before);
    for i in 0..artifacts.len()
        invariant
            list == model::rows(artifacts@),
            keep == (|artifact: ArtifactRow| artifact.artifact_type == artifact_type@),
            group == list.filter(keep),
            entries == entries_of(group),
            wanted == type_files(directory@, folder@, taken_names, artifact_type@, list),
            place@ == directory@ + "/"@ + folder@,
            forall|k: int|
                0 <= k < artifacts@.len() ==> (#[trigger] artifacts@[k])@.has_display_name(),
            nameable_after(taken_names, entries),
            0 <= done <= group.len(),
            done == list.take(i as int).filter(keep).len(),
            text::texts(used@) == names_after(taken_names, entries.take(done)),
            model::rows(files@) == before + wanted.take(done),
    {
        proof {
            laws::filter_step(list, keep, i as int);
        }
        assert(list[i as int] == artifacts@[i as int]@);
        let artifact = &artifacts[i];
        if text::same(artifact.artifact_type.as_str(), artifact_type) {
            proof {
                filter_at(list, keep, i as int);
                assert(group[done] == artifact@);
                names_step(taken_names, entries, done);
                assert(is_told_apart(taken_names, entries, done));
                assert(entries[done] == (artifact@.display_name(), artifact@.uuid));
            }
            let shown = artifact.display_name();
            let name = unique_component(shown.as_str(), artifact.uuid.as_str(), used);
            let path = text::concat3(place.as_str(), "/", name.as_str());
            let ghost files_before = files@;
            files.push(DumpFile { path, contents: artifact.body.clone() });
            proof {
                assert(model::rows(files@) =~= model::rows(files_before).push(wanted[done]));
                assert(wanted.take(done + 1) =~= wanted.take(done).push(wanted[done]));
                assert(before + wanted.take(done + 1) =~= (before + wanted.take(done)).push(
                    wanted[done],
                ));
                done = done + 1;
            }
        }
    }
    assert(list.take(list.len() as int) =~= list);
    assert(wanted.take(done) =~= wanted);
    assert(entries.take(done) =~= entries);
}

/// Where an item that is kept stands after a filter.
proof fn filter_at<R>(list: Seq<R>, keep: spec_fn(R) -> bool, i: int)
    requires
        0 <= i < list.len(),
        keep(list[i]),
    ensures
        list.take(i).filter(keep).len() < list.filter(keep).len(),
        list.filter(keep)[list.take(i).filter(keep).len() as int] == list[i],
    decreases list.len(),
{
    reveal(Seq::filter);
    let shorter = list.drop_last();
    if i == list.len() - 1 {
        assert(list.take(i) =~= shorter);
    } else {
        filter_at(shorter, keep, i);
        assert(shorter.take(i) =~= list.take(i));
    }
}

/// The place of the first artifact of a type.
fn first_of_type(artifacts: &Vec<Artifact>, artifact_type: &str) -> (at: usize)
    requires
        types_of(model::rows(artifacts@)).contains(artifact_type@),
    ensures
        at < artifacts@.len(),
        artifacts@[at as int]@ == of_type(model::rows(artifacts@), artifact_type@)[0],
{
    let ghost list = model::rows(artifacts@);
    let ghost keep = |artifact: ArtifactRow| artifact.artifact_type == artifact_type@;
    proof {
        types_are_complete(list);
    }
    assert(list.take(0).filter(keep) =~= Seq::empty()) by {
        reveal(Seq::filter);
    }
    let length: usize = artifacts.len();
    let mut at: usize = 0;
    while !text::same(artifacts[at].artifact_type.as_str(), artifact_type)
        invariant
            list == model::rows(artifacts@),
            keep == (|artifact: ArtifactRow| artifact.artifact_type == artifact_type@),
            length == artifacts@.len(),
            at < length,
            list.take(at as int).filter(keep).len() == 0,
            exists|i: int|
                at <= i < list.len() && (#[trigger] list[i]).artifact_type == artifact_type@,
        decreases length - at,
    {
        proof {
            laws::filter_step(list, keep, at as int);
            assert(list[at as int] == artifacts@[at as int]@);
            let i = choose|i: int|
                at <= i < list.len() && (#[trigger] list[i]).artifact_type == artifact_type@;
            assert(at < i < length);
        }
        at = at + 1;
    }
    proof {
        assert(list[at as int] == artifacts@[at as int]@);
        filter_at(list, keep, at as int);
    }
    at
}

/// The name of the directory of a type of a task.
fn folder_for(artifacts: &Vec<Artifact>, artifact_type: &str) -> (name: String)
    requires
        types_of(model::rows(artifacts@)).contains(artifact_type@),
        safe(artifact_type@) == "task.md"@ ==> text::has_byte_prefix(
            of_type(model::rows(artifacts@), artifact_type@)[0].uuid,
            8,
        ),
    ensures
        name@ == folder_name(
            artifact_type@,
            of_type(model::rows(artifacts@), artifact_type@)[0].uuid,
        ),
{
    let name = safe_component(artifact_type);
    if !text::same(name.as_str(), "task.md") {
        return name;
    }
    let at = first_of_type(artifacts, artifact_type);
    let mut used: Vec<String> = Vec::new();
    used.push("task.md".to_owned());
    assert(text::texts(used@) =~= seq!["task.md"@]);
    unique_component(artifact_type, artifacts[at].uuid.as_str(), &mut used)
}

/// A copy of a list of texts.
fn copied(list: &Vec<String>) -> (copy: Vec<String>)
    ensures
        text::texts(copy@) == text::texts(list@),
{
    let mut copy: Vec<String> = Vec::new();
    for i in 0..list.len()
        invariant
            copy@.len() == i,
            forall|k: int| 0 <= k < i ==> (#[trigger] copy@[k])@ == list@[k]@,
    {
        copy.push(list[i].clone());
    }
    assert(text::texts(copy@) =~= text::texts(list@));
    copy
}

/// The names that are in use in a directory: `folders` are the directories of the
/// first types, and `lists` the names in each once its type got its names.
fn names_in_use(
    folders: &Vec<String>,
    lists: &Vec<Vec<String>>,
    directory: &str,
    Ghost(artifacts): Ghost<Seq<ArtifactRow>>,
) -> (used: Vec<String>)
    requires
        lists@.len() == folders@.len(),
        forall|k: int| 0 <= k < folders@.len() ==> (#[trigger] folders@[k])@ == folder(artifacts, k),
        forall|k: int|
            0 <= k < lists@.len() ==> text::texts((#[trigger] lists@[k])@) == folder_names(
                artifacts,
                (k + 1) as nat,
                folder(artifacts, k),
            ),
    ensures
        text::texts(used@) == folder_names(artifacts, folders@.len(), directory@),
{
    let mut at: usize = folders.len();
    while at > 0 && !text::same(folders[at - 1].as_str(), directory)
        invariant
            at <= folders@.len(),
            forall|k: int|
                0 <= k < folders@.len() ==> (#[trigger] folders@[k])@ == folder(artifacts, k),
            folder_names(artifacts, folders@.len(), directory@) == folder_names(
                artifacts,
                at as nat,
                directory@,
            ),
        decreases at,
    {
        assert(folders@[at - 1]@ == folder(artifacts, at - 1));
        at = at - 1;
    }
    if at == 0 {
        let used: Vec<String> = Vec::new();
        assert(text::texts(used@) =~= Seq::empty());
        used
    } else {
        assert(folders@[at - 1]@ == folder(artifacts, at - 1));
        assert(text::texts(lists@[at - 1]@) == folder_names(artifacts, at as nat, directory@));
        copied(&lists[at - 1])
    }
}

fn push_task_files(
    files: &mut Vec<DumpFile>,
    directory: &str,
    task: &Task,
    artifacts: &Vec<Artifact>,
)
    requires
        list_nameable(model::rows(artifacts@)),
    ensures
        model::rows(final(files)@) == model::rows(old(files)@) + task_files(
            directory@,
            task@,
            model::rows(artifacts@),
        ),
{
    let ghost list = model::rows(artifacts@);
    let ghost before = model::rows(files@);
    let ghost first = FileRow { path: directory@ + "/task.md"@, contents: task@.body };
    files.push(
        DumpFile { path: text::concat2(directory, "/task.md"), contents: task.body.clone() },
    );
    assert(model::rows(files@) =~= before + seq![first]);
    let types = types_in(artifacts);
    let ghost all = types_of(list);
    let mut folders: Vec<String> = Vec::new();
    let mut lists: Vec<Vec<String>> = Vec::new();
    assert forall|k: int| 0 <= k < artifacts@.len() implies (
    #[trigger] artifacts@[k])@.has_display_name() by {
        assert(list[k] == artifacts@[k]@);
    }
    assert(before + seq![first] + types_files(directory@, list, 0) =~= before + seq![first]);
    for i in 0..types.len()
        invariant
            list == model::rows(artifacts@),
            all == types_of(list),
            all == text::texts(types@),
            forall|k: int|
                0 <= k < artifacts@.len() ==> (#[trigger] artifacts@[k])@.has_display_name(),
            forall|n: int| 0 <= n < all.len() ==> #[trigger] type_nameable(list, n),
            folders@.len() == i,
            lists@.len() == i,
            forall|k: int| 0 <= k < i ==> (#[trigger] folders@[k])@ == folder(list, k),
            forall|k: int|
                0 <= k < i ==> text::texts((#[trigger] lists@[k])@) == folder_names(
                    list,
                    (k + 1) as nat,
                    folder(list, k),
                ),
            model::rows(files@) == before + seq![first] + types_files(directory@, list, i as nat),
    {
        let ghost kind = all[i as int];
        let ghost so_far = types_files(directory@, list, i as nat);
        assert(kind == types@[i as int]@);
        assert(all.contains(all[i as int]));
        assert(type_nameable(list, i as int));
        let folder = folder_for(artifacts, types[i].as_str());
        assert(folder@ == self::folder(list, i as int));
        let mut used = names_in_use(&folders, &lists, folder.as_str(), Ghost(list));
        assert(text::texts(used@) == used_before(list, i as int));
        push_type_files(files, &mut used, directory, folder.as_str(), types[i].as_str(), artifacts);
        proof {
            let more = nth_files(directory@, list, i as int);
            assert(types_files(directory@, list, (i + 1) as nat) == so_far + more);
            assert(before + seq![first] + so_far + more =~= before + seq![first] + (so_far + more));
            assert(text::texts(used@) == folder_names(list, (i + 1) as nat, folder@));
        }
        folders.push(folder);
        lists.push(used);
    }
    assert(model::rows(files@) =~= before + task_files(directory@, task@, list));
}

/// The files of a list of tasks with their artifacts.
pub fn tree_of(tasks: &Vec<Task>, lists: &Vec<Vec<Artifact>>) -> (files: Vec<DumpFile>)
    requires
        lists@.len() == tasks@.len(),
        tree_nameable(model::rows(tasks@), list_rows(lists@)),
    ensures
        model::rows(files@) == tree(model::rows(tasks@), list_rows(lists@)),
        uuids_plain(model::rows(tasks@), list_rows(lists@)) ==> files_apart(model::rows(files@)),
{
    let ghost all = model::rows(tasks@);
    let ghost rows = list_rows(lists@);
    let ghost entries = all.map_values(|task: TaskRow| (task.id, task.uuid));
    let mut files: Vec<DumpFile> = Vec::new();
    let mut used: Vec<String> = Vec::new();
    assert(model::rows(files@) =~= Seq::empty());
    assert(text::texts(used@) =~= Seq::empty());
    assert(entries.take(0) =~= Seq::empty());
    for i in 0..tasks.len()
        invariant
            lists@.len() == tasks@.len(),
            all == model::rows(tasks@),
            rows == list_rows(lists@),
            entries == all.map_values(|task: TaskRow| (task.id, task.uuid)),
            tree_nameable(all, rows),
            text::texts(used@) == names(entries.take(i as int)),
            model::rows(files@) == files_of_first(all, rows, i as nat),
    {
        proof {
            names_step(Seq::empty(), entries, i as int);
            assert(is_told_apart(Seq::empty(), entries, i as int));
        }
        assert(all[i as int] == tasks@[i as int]@);
        assert(rows[i as int] == model::rows(lists@[i as int]@));
        assert(entries[i as int] == (all[i as int].id, all[i as int].uuid));
        let directory = unique_component(
            tasks[i].id.as_str(),
            tasks[i].uuid.as_str(),
            &mut used,
        );
        push_task_files(&mut files, directory.as_str(), &tasks[i], &lists[i]);
    }
    proof {
        if uuids_plain(all, rows) {
            tree_is_apart(all, rows);
        }
    }
    files
}

/// The views of several lists of artifacts.
pub open spec fn list_rows(lists: Seq<Vec<Artifact>>) -> Seq<Seq<ArtifactRow>> {
    lists.map_values(|list: Vec<Artifact>| model::rows(list@))
}

impl App {
    /// What is exported: the task that a key names, or all tasks, active, completed and
    /// archived, with their artifacts.
    pub fn exported(&self, task_key: Option<&str>) -> (result: Result<
        (Vec<Task>, Vec<Vec<Artifact>>),
        Error,
    >)
        requires
            self@.wf(),
        ensures
            match result {
                Ok((tasks, lists)) => exports(
                    self@,
                    text::optional_str(task_key),
                    model::rows(tasks@),
                    list_rows(lists@),
                ),
                Err(error) => {
                    ||| task_key matches Some(key) && self@.read_task(key@) == Err::<
                        TaskRow,
                        Failure,
                    >(error@)
                    ||| exists|tasks: Seq<TaskRow>, k: int| #[trigger]
                        export_fails(self@, text::optional_str(task_key), tasks, k, error@)
                },
            },
    {
        let mut tasks: Vec<Task>;
        match task_key {
            Some(key) => {
                match self.read_task(key) {
                    Err(error) => {
                        return Err(error);
                    },
                    Ok(task) => {
                        tasks = Vec::new();
                        tasks.push(task);
                        assert(model::rows(tasks@) =~= seq![task@]);
                    },
                }
            },
            None => {
                tasks = self.list_tasks();
                let mut completed = self.list_completed_tasks();
                let mut archived = self.list_archived_tasks();
                let ghost parts = (tasks@, completed@, archived@);
                tasks.append(&mut completed);
                tasks.append(&mut archived);
                assert(model::rows(tasks@) =~= model::rows(parts.0) + model::rows(parts.1)
                    + model::rows(parts.2));
            },
        }
        let ghost all = model::rows(tasks@);
        assert(selects(self@, text::optional_str(task_key), all));
        let mut lists: Vec<Vec<Artifact>> = Vec::new();
        for i in 0..tasks.len()
            invariant
                self@.wf(),
                all == model::rows(tasks@),
                selects(self@, text::optional_str(task_key), all),
                lists@.len() == i,
                forall|k: int|
                    0 <= k < i ==> #[trigger] markdown::lists_artifacts_of(
                        self@,
                        all[k].uuid,
                        list_rows(lists@)[k],
                    ),
        {
            assert(all[i as int] == tasks@[i as int]@);
            match self.list_artifacts(tasks[i].uuid.as_str(), None) {
                Err(error) => {
                    assert(export_fails(
                        self@,
                        text::optional_str(task_key),
                        all,
                        i as int,
                        error@,
                    ));
                    return Err(error);
                },
                Ok(list) => {
                    let ghost before = list_rows(lists@);
                    lists.push(list);
                    assert(list_rows(lists@) =~= before.push(model::rows(list@)));
                    assert forall|k: int| 0 <= k < i + 1 implies #[trigger]
                        markdown::lists_artifacts_of(
                        self@,
                        all[k].uuid,
                        list_rows(lists@)[k],
                    ) by {
                        if k < i {
                            assert(markdown::lists_artifacts_of(self@, all[k].uuid, before[k]));
                        }
                    }
                },
            }
        }
        Ok((tasks, lists))
    }

    /// The files of an export: of the task that a key names, or of all tasks, active,
    /// completed and archived. Of a store in order, each has a path of its own.
    pub fn dump(&self, task_key: Option<&str>) -> (result: Result<Vec<DumpFile>, Error>)
        requires
            self@.wf(),
            forall|tasks: Seq<TaskRow>, lists: Seq<Seq<ArtifactRow>>| #[trigger]
                exports(self@, text::optional_str(task_key), tasks, lists) ==> tree_nameable(
                    tasks,
                    lists,
                ),
        ensures
            match result {
                Ok(files) => exists|tasks: Seq<TaskRow>, lists: Seq<Seq<ArtifactRow>>| #[trigger]
                    exports(self@, text::optional_str(task_key), tasks, lists) && model::rows(
                        files@,
                    ) == tree(tasks, lists),
                Err(error) => {
                    ||| task_key matches Some(key) && self@.read_task(key@) == Err::<
                        TaskRow,
                        Failure,
                    >(error@)
                    ||| exists|tasks: Seq<TaskRow>, k: int| #[trigger]
                        export_fails(self@, text::optional_str(task_key), tasks, k, error@)
                },
            },
            self@.orderly() && result is Ok ==> files_apart(model::rows(result->Ok_0@)),
    {
        let (tasks, lists) = match self.exported(task_key) {
            Err(error) => {
                return Err(error);
            },
            Ok(exported) => exported,
        };
        proof {
            if self@.orderly() {
                exported_uuids_are_plain(
                    self@,
                    text::optional_str(task_key),
                    model::rows(tasks@),
                    list_rows(lists@),
                );
            }
        }
        Ok(tree_of(&tasks, &lists))
    }
}

/// Whether names can be made from texts and UUIDs where some are in use. If they
/// can, they are in use too.
fn can_be_told_apart(entries: &Vec<(String, String)>, used: &mut Vec<String>) -> (answer: bool)
    ensures
        answer == nameable_after(text::texts(old(used)@), entry_views(entries@)),
        answer ==> text::texts(final(used)@) == names_after(
            text::texts(old(used)@),
            entry_views(entries@),
        ),
{
    let ghost all = entry_views(entries@);
    let ghost taken_names = text::texts(used@);
    assert(all.take(0) =~= Seq::empty());
    for i in 0..entries.len()
        invariant
            all == entry_views(entries@),
            taken_names == text::texts(old(used)@),
            text::texts(used@) == names_after(taken_names, all.take(i as int)),
            forall|k: int| 0 <= k < i ==> #[trigger] is_told_apart(taken_names, all, k),
    {
        let (name, uuid) = &entries[i];
        assert(all[i as int] == (name@, uuid@));
        let candidate = safe_component(name.as_str());
        let apart = is_unused(candidate.as_str(), used) || text::has_eight_bytes(uuid.as_str());
        assert(apart == is_told_apart(taken_names, all, i as int));
        if !apart {
            return false;
        }
        proof {
            names_step(taken_names, all, i as int);
        }
        let _ = unique_component(name.as_str(), uuid.as_str(), used);
    }
    assert(all.take(all.len() as int) =~= all);
    true
}

/// The views of what names are made from.
pub open spec fn entry_views(entries: Seq<(String, String)>) -> Seq<(Seq<char>, Seq<char>)> {
    entries.map_values(|entry: (String, String)| (entry.0@, entry.1@))
}

/// What the names of the artifacts of one type are made from.
fn entries_for(artifacts: &Vec<Artifact>, artifact_type: &str) -> (entries: Vec<
    (String, String),
>)
    requires
        forall|k: int|
            0 <= k < artifacts@.len() ==> (#[trigger] artifacts@[k])@.has_display_name(),
    ensures
        entry_views(entries@) == entries_of(of_type(model::rows(artifacts@), artifact_type@)),
{
    let ghost list = model::rows(artifacts@);
    let ghost keep = |artifact: ArtifactRow| artifact.artifact_type == artifact_type@;
    let mut entries: Vec<(String, String)> = Vec::new();
    assert(list.take(0).filter(keep) =~= Seq::empty()) by {
        reveal(Seq::filter);
    }
    assert(entry_views(entries@) =~= entries_of(list.take(0).filter(keep)));
    for i in 0..artifacts.len()
        invariant
            list == model::rows(artifacts@),
            keep == (|artifact: ArtifactRow| artifact.artifact_type == artifact_type@),
            forall|k: int|
                0 <= k < artifacts@.len() ==> (#[trigger] artifacts@[k])@.has_display_name(),
            entry_views(entries@) == entries_of(list.take(i as int).filter(keep)),
    {
        proof {
            laws::filter_step(list, keep, i as int);
        }
        assert(list[i as int] == artifacts@[i as int]@);
        if text::same(artifacts[i].artifact_type.as_str(), artifact_type) {
            let ghost so_far = entries@;
            let ghost kept = list.take(i as int).filter(keep);
            entries.push((artifacts[i].display_name(), artifacts[i].uuid.clone()));
            assert(entry_views(entries@) =~= entry_views(so_far).push(
                (list[i as int].display_name(), list[i as int].uuid),
            ));
            assert(entries_of(kept.push(list[i as int])) =~= entries_of(kept).push(
                (list[i as int].display_name(), list[i as int].uuid),
            ));
        }
    }
    assert(list.take(list.len() as int) =~= list);
    entries
}

/// The types of a list of artifacts, each once, in ascending order.
fn types_in(artifacts: &Vec<Artifact>) -> (types: Vec<String>)
    ensures
        text::texts(types@) == types_of(model::rows(artifacts@)),
{
    let ghost list = model::rows(artifacts@);
    let mut types: Vec<String> = Vec::new();
    assert(list.take(0) =~= Seq::empty());
    assert(text::texts(types@) =~= Seq::empty());
    for i in 0..artifacts.len()
        invariant
            list == model::rows(artifacts@),
            text::texts(types@) == types_of(list.take(i as int)),
    {
        assert(list.take(i + 1).drop_last() =~= list.take(i as int));
        assert(list[i as int] == artifacts@[i as int]@);
        insert_type(&mut types, artifacts[i].artifact_type.as_str());
    }
    assert(list.take(list.len() as int) =~= list);
    types
}

/// Whether the artifacts of a task and the directories of their types can be named.
fn list_can_be_named(artifacts: &Vec<Artifact>) -> (answer: bool)
    ensures
        answer == list_nameable(model::rows(artifacts@)),
{
    let ghost list = model::rows(artifacts@);
    for i in 0..artifacts.len()
        invariant
            list == model::rows(artifacts@),
            forall|k: int| 0 <= k < i ==> (#[trigger] artifacts@[k])@.has_display_name(),
    {
        assert(list[i as int] == artifacts@[i as int]@);
        if !artifacts[i].can_be_shown() {
            return false;
        }
    }
    assert forall|k: int| 0 <= k < list.len() implies (#[trigger] list[k]).has_display_name() by {
        assert(list[k] == artifacts@[k]@);
    }
    let types = types_in(artifacts);
    let ghost all = types_of(list);
    let mut folders: Vec<String> = Vec::new();
    let mut lists: Vec<Vec<String>> = Vec::new();
    for i in 0..types.len()
        invariant
            list == model::rows(artifacts@),
            all == types_of(list),
            all == text::texts(types@),
            forall|k: int|
                0 <= k < artifacts@.len() ==> (#[trigger] artifacts@[k])@.has_display_name(),
            folders@.len() == i,
            lists@.len() == i,
            forall|k: int| 0 <= k < i ==> (#[trigger] folders@[k])@ == folder(list, k),
            forall|k: int|
                0 <= k < i ==> text::texts((#[trigger] lists@[k])@) == folder_names(
                    list,
                    (k + 1) as nat,
                    folder(list, k),
                ),
            forall|n: int| 0 <= n < i ==> #[trigger] type_nameable(list, n),
    {
        let artifact_type = types[i].as_str();
        assert(all[i as int] == types@[i as int]@);
        assert(all.contains(all[i as int]));
        let name = safe_component(artifact_type);
        let at = first_of_type(artifacts, artifact_type);
        if text::same(name.as_str(), "task.md") && !text::has_eight_bytes(
            artifacts[at].uuid.as_str(),
        ) {
            assert(!type_nameable(list, i as int));
            return false;
        }
        let folder = folder_for(artifacts, artifact_type);
        assert(folder@ == self::folder(list, i as int));
        let mut used = names_in_use(&folders, &lists, folder.as_str(), Ghost(list));
        assert(text::texts(used@) == used_before(list, i as int));
        let entries = entries_for(artifacts, artifact_type);
        assert(entry_views(entries@) == group_entries(list, i as int));
        if !can_be_told_apart(&entries, &mut used) {
            assert(!type_nameable(list, i as int));
            return false;
        }
        assert(text::texts(used@) == folder_names(list, (i + 1) as nat, folder@));
        assert(type_nameable(list, i as int));
        folders.push(folder);
        lists.push(used);
    }
    true
}

/// Whether tasks and their artifacts can be named.
pub fn tree_can_be_named(tasks: &Vec<Task>, lists: &Vec<Vec<Artifact>>) -> (answer: bool)
    ensures
        answer == tree_nameable(model::rows(tasks@), list_rows(lists@)),
{
    let ghost all = model::rows(tasks@);
    let ghost wanted = all.map_values(|task: TaskRow| (task.id, task.uuid));
    let mut entries: Vec<(String, String)> = Vec::new();
    for i in 0..tasks.len()
        invariant
            all == model::rows(tasks@),
            entries@.len() == i,
            forall|k: int|
                0 <= k < i ==> (#[trigger] entries@[k]).0@ == all[k].id && entries@[k].1@
                    == all[k].uuid,
    {
        assert(all[i as int] == tasks@[i as int]@);
        entries.push((tasks[i].id.clone(), tasks[i].uuid.clone()));
    }
    assert(entry_views(entries@) =~= wanted);
    let mut used: Vec<String> = Vec::new();
    assert(text::texts(used@) =~= Seq::empty());
    if !can_be_told_apart(&entries, &mut used) {
        return false;
    }
    for i in 0..lists.len()
        invariant
            forall|k: int| 0 <= k < i ==> list_nameable(#[trigger] list_rows(lists@)[k]),
    {
        assert(list_rows(lists@)[i as int] == model::rows(lists@[i as int]@));
        if !list_can_be_named(&lists[i]) {
            return false;
        }
    }
    true
}

proof fn every_task_in_store(
    state: State,
    active: Seq<TaskRow>,
    completed: Seq<TaskRow>,
    archived: Seq<TaskRow>,
)
    requires
        state.lists_tasks(TaskFilter::Active, active),
        state.lists_tasks(TaskFilter::Completed, completed),
        state.lists_tasks(TaskFilter::Archived, archived),
    ensures
        forall|k: int|
            0 <= k < (active + completed + archived).len() ==> state.tasks.contains(
                #[trigger] (active + completed + archived)[k],
            ),
{
    let all = active + completed + archived;
    assert forall|k: int| 0 <= k < all.len() implies state.tasks.contains(#[trigger] all[k]) by {
        if k < active.len() {
            assert(active.contains(active[k]));
            behaviour::list_holds(state, TaskFilter::Active, active, active[k]);
        } else if k < active.len() + completed.len() {
            let j = k - active.len();
            assert(completed.contains(completed[j]));
            behaviour::list_holds(state, TaskFilter::Completed, completed, completed[j]);
        } else {
            let j = k - active.len() - completed.len();
            assert(archived.contains(archived[j]));
            behaviour::list_holds(state, TaskFilter::Archived, archived, archived[j]);
        }
    }
}

// ---------------------------------------------------------------- what an export holds

proof fn inserted_holds(types: Seq<Seq<char>>, artifact_type: Seq<char>)
    ensures
        forall|t: Seq<char>| #[trigger]
            inserted(types, artifact_type).contains(t) <==> types.contains(t) || t == artifact_type,
    decreases types.len(),
{
    let result = inserted(types, artifact_type);
    if types.len() == 0 {
        assert(result[0] == artifact_type);
    } else if types.last() == artifact_type {
        assert(types[types.len() - 1] == artifact_type);
    } else if order::text_leq(types.last(), artifact_type) {
        assert(result[types.len() as int] == artifact_type);
        assert forall|t: Seq<char>| #[trigger] result.contains(t) <==> types.contains(t) || t
            == artifact_type by {
            if types.contains(t) {
                let k = choose|k: int| 0 <= k < types.len() && types[k] == t;
                assert(result[k] == t);
            }
        }
    } else {
        let front = types.drop_last();
        inserted_holds(front, artifact_type);
        let inner = inserted(front, artifact_type);
        assert forall|t: Seq<char>| #[trigger] result.contains(t) <==> types.contains(t) || t
            == artifact_type by {
            if result.contains(t) {
                let k = choose|k: int| 0 <= k < result.len() && result[k] == t;
                if k < inner.len() {
                    assert(inner.contains(inner[k]));
                    if front.contains(t) {
                        let j = choose|j: int| 0 <= j < front.len() && front[j] == t;
                        assert(types[j] == t);
                    }
                } else {
                    assert(types[types.len() - 1] == t);
                }
            }
            if types.contains(t) || t == artifact_type {
                if t == types.last() {
                    assert(result[inner.len() as int] == t);
                } else {
                    if types.contains(t) {
                        let j = choose|j: int| 0 <= j < types.len() && types[j] == t;
                        assert(front[j] == t);
                    }
                    assert(inner.contains(t));
                    let k = choose|k: int| 0 <= k < inner.len() && inner[k] == t;
                    assert(result[k] == t);
                }
            }
        }
    }
}

/// The types of a list are those of its artifacts.
pub proof fn types_are_complete(artifacts: Seq<ArtifactRow>)
    ensures
        forall|t: Seq<char>| #[trigger]
            types_of(artifacts).contains(t) <==> exists|i: int|
                0 <= i < artifacts.len() && (#[trigger] artifacts[i]).artifact_type == t,
    decreases artifacts.len(),
{
    if artifacts.len() > 0 {
        let front = artifacts.drop_last();
        types_are_complete(front);
        inserted_holds(types_of(front), artifacts.last().artifact_type);
        assert forall|t: Seq<char>| #[trigger] types_of(artifacts).contains(t) <==> exists|i: int|
            0 <= i < artifacts.len() && (#[trigger] artifacts[i]).artifact_type == t by {
            if types_of(front).contains(t) {
                let i = choose|i: int|
                    0 <= i < front.len() && (#[trigger] front[i]).artifact_type == t;
                assert(artifacts[i].artifact_type == t);
            }
            if t == artifacts.last().artifact_type {
                assert(artifacts[artifacts.len() - 1].artifact_type == t);
            }
            if exists|i: int|
                0 <= i < artifacts.len() && (#[trigger] artifacts[i]).artifact_type == t {
                let i = choose|i: int|
                    0 <= i < artifacts.len() && (#[trigger] artifacts[i]).artifact_type == t;
                if i < front.len() {
                    assert(front[i].artifact_type == t);
                }
            }
        }
    }
}

/// Each text comes before those that follow it.
pub open spec fn is_ascending(list: Seq<Seq<char>>) -> bool {
    forall|i: int, j: int|
        0 <= i < j < list.len() ==> order::text_leq(#[trigger] list[i], #[trigger] list[j])
            && list[i] != list[j]
}

proof fn inserted_ascends(types: Seq<Seq<char>>, artifact_type: Seq<char>)
    requires
        is_ascending(types),
    ensures
        is_ascending(inserted(types, artifact_type)),
    decreases types.len(),
{
    let result = inserted(types, artifact_type);
    if types.len() == 0 || types.last() == artifact_type {
    } else if order::text_leq(types.last(), artifact_type) {
        assert forall|i: int, j: int| 0 <= i < j < result.len() implies order::text_leq(
            #[trigger] result[i],
            #[trigger] result[j],
        ) && result[i] != result[j] by {
            if j == types.len() {
                if i < types.len() - 1 {
                    assert(order::text_leq(types[i], types[types.len() - 1]));
                    order::text_leq_transitive(types[i], types.last(), artifact_type);
                    order::text_leq_total(types[i], types.last());
                }
            } else {
                assert(order::text_leq(types[i], types[j]) && types[i] != types[j]);
            }
        }
    } else {
        let front = types.drop_last();
        let inner = inserted(front, artifact_type);
        assert(is_ascending(front)) by {
            assert forall|i: int, j: int| 0 <= i < j < front.len() implies order::text_leq(
                #[trigger] front[i],
                #[trigger] front[j],
            ) && front[i] != front[j] by {
                assert(front[i] == types[i] && front[j] == types[j]);
            }
        }
        inserted_ascends(front, artifact_type);
        inserted_holds(front, artifact_type);
        order::text_leq_total(types.last(), artifact_type);
        assert forall|i: int, j: int| 0 <= i < j < result.len() implies order::text_leq(
            #[trigger] result[i],
            #[trigger] result[j],
        ) && result[i] != result[j] by {
            if j < inner.len() {
                assert(order::text_leq(inner[i], inner[j]));
            } else {
                assert(inner.contains(inner[i]));
                if front.contains(inner[i]) {
                    let k = choose|k: int| 0 <= k < front.len() && front[k] == inner[i];
                    assert(order::text_leq(types[k], types[types.len() - 1]));
                }
            }
        }
    }
}

/// The types of a list are each there once, in ascending order.
pub proof fn types_ascend(artifacts: Seq<ArtifactRow>)
    ensures
        is_ascending(types_of(artifacts)),
    decreases artifacts.len(),
{
    if artifacts.len() > 0 {
        types_ascend(artifacts.drop_last());
        inserted_ascends(types_of(artifacts.drop_last()), artifacts.last().artifact_type);
    }
}

proof fn types_files_hold(
    directory: Seq<char>,
    artifacts: Seq<ArtifactRow>,
    count: nat,
    n: int,
    k: int,
)
    requires
        0 <= n < count,
        0 <= k < of_type(artifacts, types_of(artifacts)[n]).len(),
    ensures
        types_files(directory, artifacts, count).contains(nth_files(directory, artifacts, n)[k]),
    decreases count,
{
    let file = nth_files(directory, artifacts, n)[k];
    let last = (count - 1) as nat;
    let front = types_files(directory, artifacts, last);
    if n == last {
        assert(types_files(directory, artifacts, count)[front.len() + k] == file);
    } else {
        types_files_hold(directory, artifacts, last, n, k);
        let j = choose|j: int| 0 <= j < front.len() && front[j] == file;
        assert(types_files(directory, artifacts, count)[j] == file);
    }
}

proof fn first_files_hold(
    tasks: Seq<TaskRow>,
    lists: Seq<Seq<ArtifactRow>>,
    count: nat,
    n: int,
    file: FileRow,
)
    requires
        0 <= n < count,
        task_files(directories(tasks)[n], tasks[n], lists[n]).contains(file),
    ensures
        files_of_first(tasks, lists, count).contains(file),
    decreases count,
{
    let last = (count - 1) as nat;
    let front = files_of_first(tasks, lists, last);
    let back = task_files(directories(tasks)[last as int], tasks[last as int], lists[last as int]);
    if n == last {
        let j = choose|j: int| 0 <= j < back.len() && back[j] == file;
        assert(files_of_first(tasks, lists, count)[front.len() + j] == file);
    } else {
        first_files_hold(tasks, lists, last, n, file);
        let j = choose|j: int| 0 <= j < front.len() && front[j] == file;
        assert(files_of_first(tasks, lists, count)[j] == file);
    }
}

/// The files of the artifacts of a task are in the tree.
pub proof fn file_is_in_tree(
    tasks: Seq<TaskRow>,
    lists: Seq<Seq<ArtifactRow>>,
    n: int,
    t: int,
    k: int,
)
    requires
        0 <= n < tasks.len(),
        0 <= t < types_of(lists[n]).len(),
        0 <= k < of_type(lists[n], types_of(lists[n])[t]).len(),
    ensures
        tree(tasks, lists).contains(nth_files(directories(tasks)[n], lists[n], t)[k]),
{
    let list = lists[n];
    let directory = directories(tasks)[n];
    let count = types_of(list).len();
    let file = nth_files(directory, list, t)[k];
    types_files_hold(directory, list, count, t, k);
    let files = types_files(directory, list, count);
    let j = choose|j: int| 0 <= j < files.len() && files[j] == file;
    assert(task_files(directory, tasks[n], list)[j + 1] == file);
    first_files_hold(tasks, lists, tasks.len(), n, file);
}

/// The text of every task that is exported is in its directory.
pub proof fn every_task_is_exported(tasks: Seq<TaskRow>, lists: Seq<Seq<ArtifactRow>>, n: int)
    requires
        0 <= n < tasks.len(),
    ensures
        tree(tasks, lists).contains(
            FileRow { path: directories(tasks)[n] + "/task.md"@, contents: tasks[n].body },
        ),
{
    let file = FileRow { path: directories(tasks)[n] + "/task.md"@, contents: tasks[n].body };
    let files = task_files(directories(tasks)[n], tasks[n], lists[n]);
    assert(files[0] == file);
    first_files_hold(tasks, lists, tasks.len(), n, file);
}

/// The text of every artifact of a task that is exported is in the directory of
/// its type, in the directory of the task.
pub proof fn every_artifact_is_exported(
    tasks: Seq<TaskRow>,
    lists: Seq<Seq<ArtifactRow>>,
    n: int,
    i: int,
)
    requires
        0 <= n < tasks.len(),
        0 <= i < lists[n].len(),
    ensures
        exists|t: int, name: Seq<char>|
            #![trigger folder(lists[n], t), "/"@ + name]
            0 <= t < types_of(lists[n]).len() && types_of(lists[n])[t] == lists[n][i].artifact_type
                && tree(tasks, lists).contains(
                FileRow {
                    path: directories(tasks)[n] + "/"@ + folder(lists[n], t) + ("/"@ + name),
                    contents: lists[n][i].body,
                },
            ),
{
    let list = lists[n];
    let artifact = list[i];
    let types = types_of(list);
    types_are_complete(list);
    assert(types.contains(artifact.artifact_type));
    let t = choose|t: int| 0 <= t < types.len() && types[t] == artifact.artifact_type;
    let keep = |other: ArtifactRow| other.artifact_type == artifact.artifact_type;
    filter_at(list, keep, i);
    let k = list.take(i).filter(keep).len() as int;
    let group = of_type(list, artifact.artifact_type);
    assert(group[k] == artifact);
    let directory = directories(tasks)[n];
    types_files_hold(directory, list, types.len(), t, k);
    let file = nth_files(directory, list, t)[k];
    let files = types_files(directory, list, types.len());
    let j = choose|j: int| 0 <= j < files.len() && files[j] == file;
    assert(task_files(directory, tasks[n], list)[j + 1] == file);
    first_files_hold(tasks, lists, tasks.len(), n, file);
    let used = used_before(list, t);
    let name = names_after(used, entries_of(group))[used.len() + k];
    assert(file.path =~= directory + "/"@ + folder(list, t) + ("/"@ + name));
}

/// How many artifacts the first types have.
pub open spec fn group_total(artifacts: Seq<ArtifactRow>, types: Seq<Seq<char>>, count: nat) -> nat
    decreases count,
{
    if count == 0 {
        0
    } else {
        group_total(artifacts, types, (count - 1) as nat) + of_type(
            artifacts,
            types[count - 1],
        ).len()
    }
}

/// How many artifacts the first lists hold.
pub open spec fn list_total(lists: Seq<Seq<ArtifactRow>>, count: nat) -> nat
    decreases count,
{
    if count == 0 {
        0
    } else {
        list_total(lists, (count - 1) as nat) + lists[count - 1].len()
    }
}

proof fn ascending_differs(list: Seq<Seq<char>>, i: int, j: int)
    requires
        is_ascending(list),
        0 <= i < j < list.len(),
    ensures
        list[i] != list[j],
{
    assert(order::text_leq(list[i], list[j]));
}

proof fn group_total_step(artifacts: Seq<ArtifactRow>, types: Seq<Seq<char>>, count: nat)
    requires
        artifacts.len() > 0,
        count <= types.len(),
        is_ascending(types),
    ensures
        group_total(artifacts, types, count) == group_total(artifacts.drop_last(), types, count)
            + if types.take(count as int).contains(artifacts.last().artifact_type) {
            1nat
        } else {
            0
        },
    decreases count,
{
    if count > 0 {
        let last = (count - 1) as nat;
        let own = artifacts.last().artifact_type;
        let kind = types[last as int];
        let before = types.take(last as int);
        let now = types.take(count as int);
        group_total_step(artifacts, types, last);
        assert(of_type(artifacts, kind).len() == of_type(artifacts.drop_last(), kind).len() + if own
            == kind {
            1nat
        } else {
            0
        }) by {
            reveal(Seq::filter);
        }
        if now.contains(own) {
            let i = choose|i: int| 0 <= i < now.len() && now[i] == own;
            if i < last {
                assert(before[i] == own);
            }
        }
        if before.contains(own) {
            let i = choose|i: int| 0 <= i < before.len() && before[i] == own;
            assert(now[i] == own);
            ascending_differs(types, i, last as int);
        }
        if own == kind {
            assert(now[last as int] == own);
        }
    }
}

proof fn groups_are_all(artifacts: Seq<ArtifactRow>, types: Seq<Seq<char>>)
    requires
        is_ascending(types),
        forall|i: int|
            0 <= i < artifacts.len() ==> types.contains((#[trigger] artifacts[i]).artifact_type),
    ensures
        group_total(artifacts, types, types.len()) == artifacts.len(),
    decreases artifacts.len(),
{
    if artifacts.len() == 0 {
        no_groups(artifacts, types, types.len());
    } else {
        assert forall|i: int| 0 <= i < artifacts.drop_last().len() implies types.contains(
            (#[trigger] artifacts.drop_last()[i]).artifact_type,
        ) by {
            assert(artifacts[i] == artifacts.drop_last()[i]);
        }
        groups_are_all(artifacts.drop_last(), types);
        group_total_step(artifacts, types, types.len());
        assert(types.take(types.len() as int) =~= types);
        assert(types.contains(artifacts[artifacts.len() - 1].artifact_type));
    }
}

proof fn no_groups(artifacts: Seq<ArtifactRow>, types: Seq<Seq<char>>, count: nat)
    requires
        artifacts.len() == 0,
    ensures
        group_total(artifacts, types, count) == 0,
    decreases count,
{
    if count > 0 {
        no_groups(artifacts, types, (count - 1) as nat);
        reveal(Seq::filter);
    }
}

proof fn types_files_length(directory: Seq<char>, artifacts: Seq<ArtifactRow>, count: nat)
    ensures
        types_files(directory, artifacts, count).len() == group_total(
            artifacts,
            types_of(artifacts),
            count,
        ),
    decreases count,
{
    if count > 0 {
        types_files_length(directory, artifacts, (count - 1) as nat);
    }
}

proof fn first_files_length(tasks: Seq<TaskRow>, lists: Seq<Seq<ArtifactRow>>, count: nat)
    ensures
        files_of_first(tasks, lists, count).len() == count + list_total(lists, count),
    decreases count,
{
    if count > 0 {
        let last = (count - 1) as nat;
        let list = lists[last as int];
        first_files_length(tasks, lists, last);
        types_files_length(directories(tasks)[last as int], list, types_of(list).len());
        types_ascend(list);
        types_are_complete(list);
        assert forall|i: int| 0 <= i < list.len() implies types_of(list).contains(
            (#[trigger] list[i]).artifact_type,
        ) by {}
        groups_are_all(list, types_of(list));
    }
}

/// There is one file for each task and one for each artifact, and no other.
pub proof fn one_file_each(tasks: Seq<TaskRow>, lists: Seq<Seq<ArtifactRow>>)
    ensures
        tree(tasks, lists).len() == tasks.len() + list_total(lists, tasks.len()),
{
    first_files_length(tasks, lists, tasks.len());
}

// ---------------------------------------------------------------- paths

/// A file with the first path stands in the way of one with the second: the paths
/// are the same, or the second leads through the first.
pub open spec fn blocks(a: Seq<char>, b: Seq<char>) -> bool {
    exists|rest: Seq<char>| #[trigger]
        (a + rest) == b && (rest.len() == 0 || rest[0] == '/')
}

/// No file of a list stands in the way of another.
pub open spec fn files_apart(files: Seq<FileRow>) -> bool {
    forall|i: int, j: int|
        0 <= i < files.len() && 0 <= j < files.len() && i != j ==> !blocks(
            (#[trigger] files[i]).path,
            (#[trigger] files[j]).path,
        )
}

/// A text without `/`.
pub open spec fn is_undivided(value: Seq<char>) -> bool {
    forall|i: int| 0 <= i < value.len() ==> #[trigger] value[i] != '/'
}

/// What a name shows of a UUID holds no `/`.
pub open spec fn is_plain(uuid: Seq<char>) -> bool {
    is_undivided(text::byte_prefix(uuid, 8))
}

/// What names show of the UUIDs of tasks and their artifacts holds no `/`.
pub open spec fn uuids_plain(tasks: Seq<TaskRow>, lists: Seq<Seq<ArtifactRow>>) -> bool {
    &&& forall|k: int| 0 <= k < tasks.len() ==> is_plain((#[trigger] tasks[k]).uuid)
    &&& forall|k: int| 0 <= k < lists.len() ==> artifacts_plain(#[trigger] lists[k])
}

/// What names show of the UUIDs of artifacts holds no `/`.
pub open spec fn artifacts_plain(artifacts: Seq<ArtifactRow>) -> bool {
    forall|i: int| 0 <= i < artifacts.len() ==> is_plain((#[trigger] artifacts[i]).uuid)
}

/// Where one path stands in the way of another, they begin with the same
/// component, and what follows in the one stands in the way of what follows in the
/// other.
proof fn blocks_by_component(a: Seq<char>, x: Seq<char>, b: Seq<char>, y: Seq<char>)
    requires
        is_undivided(a),
        is_undivided(b),
        blocks(a + "/"@ + x, b + "/"@ + y),
    ensures
        a == b,
        blocks(x, y),
{
    reveal_strlit("/");
    let left = a + "/"@ + x;
    let right = b + "/"@ + y;
    let rest = choose|rest: Seq<char>| #[trigger]
        (left + rest) == right && (rest.len() == 0 || rest[0] == '/');
    let whole = left + rest;
    if a.len() < b.len() {
        assert(whole[a.len() as int] == '/');
        assert(whole[a.len() as int] == b[a.len() as int]);
    }
    if b.len() < a.len() {
        assert(whole[b.len() as int] == '/');
        assert(whole[b.len() as int] == a[b.len() as int]);
    }
    assert(a =~= whole.take(a.len() as int));
    assert(b =~= whole.take(a.len() as int));
    assert(x + rest =~= whole.skip(a.len() as int + 1));
    assert(y =~= whole.skip(a.len() as int + 1));
}

/// A component stands in the way of what its directory leads to, and a path in the
/// way of no component.
proof fn blocks_by_last(a: Seq<char>, b: Seq<char>, y: Seq<char>)
    requires
        is_undivided(a),
        is_undivided(b),
    ensures
        blocks(a, b + "/"@ + y) ==> a == b,
        !blocks(b + "/"@ + y, a),
        blocks(a, b) ==> a == b,
{
    reveal_strlit("/");
    let long = b + "/"@ + y;
    if blocks(a, long) {
        let rest = choose|rest: Seq<char>| #[trigger]
            (a + rest) == long && (rest.len() == 0 || rest[0] == '/');
        let whole = a + rest;
        assert(whole[b.len() as int] == '/');
        if a.len() < b.len() {
            assert(whole[a.len() as int] == '/');
            assert(whole[a.len() as int] == b[a.len() as int]);
        }
        if b.len() < a.len() {
            assert(whole[b.len() as int] == a[b.len() as int]);
        }
        assert(a =~= whole.take(a.len() as int));
        assert(b =~= whole.take(a.len() as int));
    }
    if blocks(long, a) {
        let rest = choose|rest: Seq<char>| #[trigger]
            (long + rest) == a && (rest.len() == 0 || rest[0] == '/');
        assert((long + rest)[b.len() as int] == '/');
        assert(a[b.len() as int] == '/');
    }
    if blocks(a, b) {
        let rest = choose|rest: Seq<char>| #[trigger]
            (a + rest) == b && (rest.len() == 0 || rest[0] == '/');
        if rest.len() > 0 {
            assert((a + rest)[a.len() as int] == '/');
            assert(b[a.len() as int] == '/');
        }
        assert(a + rest =~= a);
    }
}

/// A name that was made unique is not in use, and holds no `/`.
proof fn unique_is_undivided(name: Seq<char>, uuid: Seq<char>, used: Seq<Seq<char>>)
    requires
        taken(safe(name), used) ==> is_plain(uuid),
    ensures
        !taken(unique(name, uuid, used), used),
        is_undivided(unique(name, uuid, used)),
{
    safe_is_one_component(name);
    let base = safe(name);
    let result = unique(name, uuid, used);
    assert(is_undivided(base)) by {
        assert forall|i: int| 0 <= i < base.len() implies #[trigger] base[i] != '/' by {
            assert(!is_unsafe(base[i]));
        }
    }
    if taken(base, used) {
        let n = some_first_free(base, uuid, used);
        let m = choose|m: nat| #[trigger] is_first_free(base, uuid, used, m);
        assert(is_first_free(base, uuid, used, m));
        reveal_strlit("-");
        reveal_strlit("--");
        text::decimal_has_digits(m);
        let start = text::byte_prefix(uuid, 8);
        assert(is_undivided(start));
        let (stem, extension) = parts(base);
        assert(is_undivided(stem)) by {
            assert forall|i: int| 0 <= i < stem.len() implies #[trigger] stem[i] != '/' by {
                assert(stem[i] == base[i]);
            }
        }
        assert(is_undivided(extension)) by {
            assert forall|i: int| 0 <= i < extension.len() implies #[trigger] extension[i] != '/' by {
                assert(extension[i] == base[last_place(base, '.') + i]);
            }
        }
        let digits = text::decimal(m);
        assert(is_undivided(digits));
        assert(is_undivided(result));
    }
}

/// Names of which no two are the same, in whatever case, and none holds `/`.
pub open spec fn names_apart(names: Seq<Seq<char>>) -> bool {
    &&& forall|k: int| 0 <= k < names.len() ==> is_undivided(#[trigger] names[k])
    &&& forall|i: int, j: int|
        0 <= i < names.len() && 0 <= j < names.len() && i != j ==> !text::same_ignoring_case(
            #[trigger] names[i],
            #[trigger] names[j],
        )
}

/// Names that are made unique among names that are apart are apart with them.
proof fn names_stay_apart(used: Seq<Seq<char>>, entries: Seq<(Seq<char>, Seq<char>)>)
    requires
        names_apart(used),
        forall|k: int| 0 <= k < entries.len() ==> is_plain((#[trigger] entries[k]).1),
    ensures
        names_apart(names_after(used, entries)),
    decreases entries.len(),
{
    if entries.len() > 0 {
        let front = entries.drop_last();
        let before = names_after(used, front);
        let after = names_after(used, entries);
        assert forall|k: int| 0 <= k < front.len() implies is_plain((#[trigger] front[k]).1) by {
            assert(front[k] == entries[k]);
        }
        names_stay_apart(used, front);
        assert(is_plain(entries[entries.len() - 1].1));
        unique_is_undivided(entries.last().0, entries.last().1, before);
        assert forall|k: int| 0 <= k < after.len() implies is_undivided(#[trigger] after[k]) by {
            if k < before.len() {
                assert(after[k] == before[k]);
            }
        }
        assert forall|i: int, j: int|
            0 <= i < after.len() && 0 <= j < after.len() && i != j implies !text::same_ignoring_case(
            #[trigger] after[i],
            #[trigger] after[j],
        ) by {
            if i == before.len() {
                assert(after[j] == before[j]);
            } else if j == before.len() {
                assert(after[i] == before[i]);
            } else {
                assert(!text::same_ignoring_case(before[i], before[j]));
            }
        }
    }
}

/// The names in the directory of a type differ, in whatever case.
pub proof fn folder_names_differ(artifacts: Seq<ArtifactRow>, count: nat, directory: Seq<char>)
    requires
        count <= types_of(artifacts).len(),
        artifacts_plain(artifacts),
    ensures
        names_apart(folder_names(artifacts, count, directory)),
    decreases count,
{
    if count > 0 {
        let last = (count - 1) as nat;
        folder_names_differ(artifacts, last, directory);
        let kind = types_of(artifacts)[last as int];
        let group = of_type(artifacts, kind);
        let entries = group_entries(artifacts, last as int);
        laws::filter_holds(artifacts, |artifact: ArtifactRow| artifact.artifact_type == kind);
        assert forall|k: int| 0 <= k < entries.len() implies is_plain((#[trigger] entries[k]).1) by {
            assert(artifacts.contains(group[k]));
        }
        names_stay_apart(folder_names(artifacts, last, directory), entries);
    }
}

/// Names that were given in a directory stay.
proof fn folder_names_grow(
    artifacts: Seq<ArtifactRow>,
    few: nat,
    many: nat,
    directory: Seq<char>,
)
    requires
        few <= many,
    ensures
        folder_names(artifacts, few, directory).len() <= folder_names(
            artifacts,
            many,
            directory,
        ).len(),
        folder_names(artifacts, many, directory).take(
            folder_names(artifacts, few, directory).len() as int,
        ) == folder_names(artifacts, few, directory),
    decreases many,
{
    let less = folder_names(artifacts, few, directory);
    if few == many {
        assert(less.take(less.len() as int) =~= less);
    } else {
        let last = (many - 1) as nat;
        let before = folder_names(artifacts, last, directory);
        let after = folder_names(artifacts, many, directory);
        folder_names_grow(artifacts, few, last, directory);
        if folder(artifacts, last as int) == directory {
            let entries = group_entries(artifacts, last as int);
            names_prefix(before, entries, 0);
            names_length(before, entries);
            assert(entries.take(0) =~= Seq::empty());
            assert(after.take(before.len() as int) == before);
            assert(after.take(less.len() as int) =~= before.take(less.len() as int));
        }
    }
}

/// The directory of a type is not the file of the task, and holds no `/`.
proof fn folder_is_apart(artifacts: Seq<ArtifactRow>, n: int)
    requires
        0 <= n < types_of(artifacts).len(),
        artifacts_plain(artifacts),
    ensures
        is_undivided(folder(artifacts, n)),
        folder(artifacts, n) != "task.md"@,
{
    let kind = types_of(artifacts)[n];
    assert(types_of(artifacts).contains(kind));
    first_is_listed(artifacts, kind);
    let uuid = of_type(artifacts, kind)[0].uuid;
    let used = seq!["task.md"@];
    unique_is_undivided(kind, uuid, used);
    unique_is_undivided(kind, uuid, Seq::empty());
    assert(!taken(safe(kind), Seq::empty()));
    if unique(kind, uuid, used) == "task.md"@ {
        assert(text::same_ignoring_case(used[0], "task.md"@));
    }
}

/// The files of a task stand in no other's way, and each has the directory of the
/// task in its path.
proof fn task_files_apart(directory: Seq<char>, task: TaskRow, artifacts: Seq<ArtifactRow>)
    requires
        is_undivided(directory),
        artifacts_plain(artifacts),
    ensures
        files_apart(task_files(directory, task, artifacts)),
        forall|k: int|
            0 <= k < task_files(directory, task, artifacts).len() ==> in_directory(
                directory,
                #[trigger] task_files(directory, task, artifacts)[k],
            ),
{
    reveal_strlit("/");
    reveal_strlit("task.md");
    reveal_strlit("/task.md");
    let count = types_of(artifacts).len();
    let files = task_files(directory, task, artifacts);
    let inner = types_files(directory, artifacts, count);
    let own = "task.md"@;
    types_files_apart(directory, artifacts, count);
    assert("/task.md"@ =~= "/"@ + own);
    assert(files[0].path =~= directory + "/"@ + own);
    assert(in_directory(directory, files[0]));
    assert forall|k: int| 0 <= k < files.len() implies in_directory(
        directory,
        #[trigger] files[k],
    ) by {
        if k > 0 {
            assert(files[k] == inner[k - 1]);
            let (t, at) = place_of(directory, artifacts, count, k - 1);
            let name = folder_names(artifacts, (t + 1) as nat, folder(artifacts, t))[at];
            assert(files[k].path =~= directory + "/"@ + (folder(artifacts, t) + "/"@ + name));
        }
    }
    assert forall|i: int, j: int|
        0 <= i < files.len() && 0 <= j < files.len() && i != j implies !blocks(
        (#[trigger] files[i]).path,
        (#[trigger] files[j]).path,
    ) by {
        if i > 0 && j > 0 {
            assert(files[i] == inner[i - 1]);
            assert(files[j] == inner[j - 1]);
        } else {
            let k = if i > 0 {
                i
            } else {
                j
            };
            assert(files[k] == inner[k - 1]);
            let (t, at) = place_of(directory, artifacts, count, k - 1);
            let name = folder_names(artifacts, (t + 1) as nat, folder(artifacts, t))[at];
            let rest = folder(artifacts, t) + "/"@ + name;
            assert(files[k].path =~= directory + "/"@ + rest);
            assert(is_undivided(own));
            folder_is_apart(artifacts, t);
            blocks_by_last(own, folder(artifacts, t), name);
            if blocks(files[i].path, files[j].path) {
                if i > 0 {
                    blocks_by_component(directory, rest, directory, own);
                } else {
                    blocks_by_component(directory, own, directory, rest);
                }
            }
        }
    }
}

/// A file is in a directory, however deep.
spec fn in_directory(directory: Seq<char>, file: FileRow) -> bool {
    exists|rest: Seq<char>| file.path == #[trigger] (directory + "/"@ + rest)
}

/// The first artifact of a type is among the artifacts.
proof fn first_is_listed(artifacts: Seq<ArtifactRow>, artifact_type: Seq<char>)
    requires
        types_of(artifacts).contains(artifact_type),
    ensures
        artifacts.contains(of_type(artifacts, artifact_type)[0]),
{
    types_are_complete(artifacts);
    let i = choose|i: int|
        0 <= i < artifacts.len() && (#[trigger] artifacts[i]).artifact_type == artifact_type;
    let keep = |artifact: ArtifactRow| artifact.artifact_type == artifact_type;
    filter_at(artifacts, keep, i);
    laws::filter_holds(artifacts, keep);
}

/// The type of a file of an artifact, and the place of its name among those in the
/// directory of the type.
proof fn place_of(
    directory: Seq<char>,
    artifacts: Seq<ArtifactRow>,
    count: nat,
    k: int,
) -> (place: (int, int))
    requires
        0 <= k < types_files(directory, artifacts, count).len(),
    ensures
        0 <= place.0 < count,
        ({
            let own = folder(artifacts, place.0);
            let used = used_before(artifacts, place.0).len();
            let given = folder_names(artifacts, (place.0 + 1) as nat, own);
            &&& used <= place.1 < given.len()
            &&& k == types_files(directory, artifacts, place.0 as nat).len() + place.1 - used
            &&& types_files(directory, artifacts, count)[k].path == directory + "/"@ + own + "/"@
                + given[place.1]
        }),
    decreases count,
{
    let last = (count - 1) as nat;
    let front = types_files(directory, artifacts, last);
    if k < front.len() {
        place_of(directory, artifacts, last, k)
    } else {
        let used = used_before(artifacts, last as int);
        let entries = group_entries(artifacts, last as int);
        names_length(used, entries);
        assert(entries.len() == of_type(artifacts, types_of(artifacts)[last as int]).len());
        assert(types_files(directory, artifacts, count)[k] == nth_files(
            directory,
            artifacts,
            last as int,
        )[k - front.len()]);
        (last as int, used.len() + k - front.len())
    }
}

/// The files of artifacts stand in no other's way.
proof fn types_files_apart(directory: Seq<char>, artifacts: Seq<ArtifactRow>, count: nat)
    requires
        is_undivided(directory),
        count <= types_of(artifacts).len(),
        artifacts_plain(artifacts),
    ensures
        files_apart(types_files(directory, artifacts, count)),
{
    let files = types_files(directory, artifacts, count);
    assert forall|i: int, j: int|
        0 <= i < files.len() && 0 <= j < files.len() && i != j implies !blocks(
        (#[trigger] files[i]).path,
        (#[trigger] files[j]).path,
    ) by {
        if blocks(files[i].path, files[j].path) {
            let (t, at) = place_of(directory, artifacts, count, i);
            let (u, to) = place_of(directory, artifacts, count, j);
            let own = folder(artifacts, t);
            let other = folder(artifacts, u);
            let x = folder_names(artifacts, (t + 1) as nat, own)[at];
            let y = folder_names(artifacts, (u + 1) as nat, other)[to];
            folder_is_apart(artifacts, t);
            folder_is_apart(artifacts, u);
            assert(files[i].path =~= directory + "/"@ + (own + "/"@ + x));
            assert(files[j].path =~= directory + "/"@ + (other + "/"@ + y));
            blocks_by_component(directory, own + "/"@ + x, directory, other + "/"@ + y);
            blocks_by_component(own, x, other, y);
            let given = folder_names(artifacts, count, own);
            folder_names_differ(artifacts, count, own);
            folder_names_grow(artifacts, (t + 1) as nat, count, own);
            folder_names_grow(artifacts, (u + 1) as nat, count, own);
            assert(given[at] == given.take(
                folder_names(artifacts, (t + 1) as nat, own).len() as int,
            )[at]);
            assert(given[to] == given.take(
                folder_names(artifacts, (u + 1) as nat, own).len() as int,
            )[to]);
            if t < u {
                folder_names_grow(artifacts, (t + 1) as nat, u as nat, own);
            }
            if u < t {
                folder_names_grow(artifacts, (u + 1) as nat, t as nat, own);
            }
            assert(at != to);
            blocks_by_last(x, y, Seq::empty());
        }
    }
}

proof fn first_files_apart(tasks: Seq<TaskRow>, lists: Seq<Seq<ArtifactRow>>, count: nat)
    requires
        lists.len() == tasks.len(),
        count <= tasks.len(),
        uuids_plain(tasks, lists),
    ensures
        files_apart(files_of_first(tasks, lists, count)),
        forall|k: int|
            0 <= k < files_of_first(tasks, lists, count).len() ==> in_directories(
                directories(tasks).take(count as int),
                #[trigger] files_of_first(tasks, lists, count)[k],
            ),
    decreases count,
{
    if count > 0 {
        let last = (count - 1) as nat;
        let front = files_of_first(tasks, lists, last);
        let own = directories(tasks)[last as int];
        let back = task_files(own, tasks[last as int], lists[last as int]);
        let files = files_of_first(tasks, lists, count);
        let entries = tasks.map_values(|task: TaskRow| (task.id, task.uuid));
        first_files_apart(tasks, lists, last);
        assert forall|k: int| 0 <= k < entries.len() implies is_plain((#[trigger] entries[k]).1) by {
            assert(is_plain(tasks[k].uuid));
        }
        names_stay_apart(Seq::empty(), entries);
        names_length(Seq::empty(), entries);
        assert(artifacts_plain(lists[last as int]));
        task_files_apart(own, tasks[last as int], lists[last as int]);
        let all = directories(tasks).take(count as int);
        let earlier = directories(tasks).take(last as int);
        assert forall|k: int| 0 <= k < files.len() implies in_directories(
            all,
            #[trigger] files[k],
        ) by {
            if k < front.len() {
                assert(files[k] == front[k]);
                let n = choose|n: int|
                    0 <= n < earlier.len() && in_directory(#[trigger] earlier[n], front[k]);
                assert(all[n] == earlier[n]);
            } else {
                assert(files[k] == back[k - front.len()]);
                assert(in_directory(all[last as int], files[k]));
            }
        }
        assert forall|i: int, j: int|
            0 <= i < files.len() && 0 <= j < files.len() && i != j implies !blocks(
            (#[trigger] files[i]).path,
            (#[trigger] files[j]).path,
        ) by {
            if i < front.len() && j < front.len() {
                assert(files[i] == front[i]);
                assert(files[j] == front[j]);
            } else if i >= front.len() && j >= front.len() {
                assert(files[i] == back[i - front.len()]);
                assert(files[j] == back[j - front.len()]);
            } else if blocks(files[i].path, files[j].path) {
                let (k, l) = if i < front.len() {
                    (i, j)
                } else {
                    (j, i)
                };
                assert(files[k] == front[k]);
                assert(files[l] == back[l - front.len()]);
                let n = choose|n: int|
                    0 <= n < earlier.len() && in_directory(#[trigger] earlier[n], front[k]);
                let other = directories(tasks)[n];
                let x = choose|x: Seq<char>| files[k].path == #[trigger] (other + "/"@ + x);
                let y = choose|y: Seq<char>| files[l].path == #[trigger] (own + "/"@ + y);
                assert(in_directory(own, files[l]));
                if i < front.len() {
                    blocks_by_component(other, x, own, y);
                } else {
                    blocks_by_component(own, y, other, x);
                }
                assert(!text::same_ignoring_case(names(entries)[n], names(entries)[last as int]));
            }
        }
    }
}

/// A file is in one of several directories, however deep.
spec fn in_directories(directories: Seq<Seq<char>>, file: FileRow) -> bool {
    exists|n: int| 0 <= n < directories.len() && in_directory(#[trigger] directories[n], file)
}

/// Every file of a tree has a path of its own: no two paths are the same, and none
/// leads through another file. Only a UUID with a `/` among the characters that
/// names show could change that.
pub proof fn tree_is_apart(tasks: Seq<TaskRow>, lists: Seq<Seq<ArtifactRow>>)
    requires
        lists.len() == tasks.len(),
        uuids_plain(tasks, lists),
    ensures
        files_apart(tree(tasks, lists)),
        forall|i: int, j: int|
            0 <= i < j < tree(tasks, lists).len() ==> (#[trigger] tree(tasks, lists)[i]).path != (
            #[trigger] tree(tasks, lists)[j]).path,
{
    first_files_apart(tasks, lists, tasks.len());
    paths_differ(tree(tasks, lists));
}

/// Where no file stands in another's way, the paths differ.
proof fn paths_differ(files: Seq<FileRow>)
    requires
        files_apart(files),
    ensures
        forall|i: int, j: int|
            0 <= i < j < files.len() ==> (#[trigger] files[i]).path != (#[trigger] files[j]).path,
{
    assert forall|i: int, j: int| 0 <= i < j < files.len() implies (#[trigger] files[i]).path != (
    #[trigger] files[j]).path by {
        if files[i].path == files[j].path {
            let path = files[i].path;
            assert(path + Seq::<char>::empty() =~= path);
            assert(blocks(files[i].path, files[j].path));
        }
    }
}

/// The directories of two tasks differ, in whatever case.
pub proof fn directories_differ(tasks: Seq<TaskRow>, i: int, j: int)
    requires
        0 <= i < j < tasks.len(),
        forall|k: int| 0 <= k < tasks.len() ==> is_plain((#[trigger] tasks[k]).uuid),
    ensures
        !text::same_ignoring_case(directories(tasks)[i], directories(tasks)[j]),
{
    let entries = tasks.map_values(|task: TaskRow| (task.id, task.uuid));
    assert forall|k: int| 0 <= k < entries.len() implies is_plain((#[trigger] entries[k]).1) by {
        assert(is_plain(tasks[k].uuid));
    }
    names_stay_apart(Seq::empty(), entries);
    names_length(Seq::empty(), entries);
}

/// What is exported is in the store.
proof fn exported_in_store(
    state: State,
    key: Option<Seq<char>>,
    tasks: Seq<TaskRow>,
    k: int,
)
    requires
        selects(state, key, tasks),
        0 <= k < tasks.len(),
    ensures
        state.tasks.contains(tasks[k]),
{
    match key {
        Some(key) => {
            laws::found_in_range(state, key);
            assert(state.tasks[state.task_named(key)->Ok_0] == tasks[k]);
        },
        None => {
            let (active, completed, archived) = choose|
                active: Seq<TaskRow>,
                completed: Seq<TaskRow>,
                archived: Seq<TaskRow>,
            |
                #![trigger active + completed + archived]
                {
                    &&& state.lists_tasks(TaskFilter::Active, active)
                    &&& state.lists_tasks(TaskFilter::Completed, completed)
                    &&& state.lists_tasks(TaskFilter::Archived, archived)
                    &&& tasks == active + completed + archived
                };
            every_task_in_store(state, active, completed, archived);
        },
    }
}

/// Whatever is exported can be named where every UUID has a first eight bytes to
/// show.
pub proof fn cut_uuids_are_enough(
    state: State,
    key: Option<Seq<char>>,
    tasks: Seq<TaskRow>,
    lists: Seq<Seq<ArtifactRow>>,
)
    requires
        state.uuids_cut(),
        exports(state, key, tasks, lists),
    ensures
        tree_nameable(tasks, lists),
{
    let entries = tasks.map_values(|task: TaskRow| (task.id, task.uuid));
    assert forall|k: int| 0 <= k < entries.len() implies text::has_byte_prefix(
        (#[trigger] entries[k]).1,
        8,
    ) by {
        exported_in_store(state, key, tasks, k);
        let i = choose|i: int| 0 <= i < state.tasks.len() && state.tasks[i] == tasks[k];
        assert(text::has_byte_prefix(state.tasks[i].uuid, 8));
    }
    assert forall|k: int| 0 <= k < lists.len() implies list_nameable(#[trigger] lists[k]) by {
        let list = lists[k];
        assert(markdown::lists_artifacts_of(state, tasks[k].uuid, list));
        let owner = state.tasks[state.task_named(tasks[k].uuid)->Ok_0].uuid;
        behaviour::listed_artifacts_in_store(state, owner, None, list);
        assert forall|j: int| 0 <= j < list.len() implies text::has_byte_prefix(
            (#[trigger] list[j]).uuid,
            8,
        ) by {
            assert(state.artifacts.contains(list[j]));
            let i = choose|i: int| 0 <= i < state.artifacts.len() && state.artifacts[i] == list[j];
            assert(text::has_byte_prefix(state.artifacts[i].uuid, 8));
        }
        assert forall|n: int| 0 <= n < types_of(list).len() implies #[trigger] type_nameable(
            list,
            n,
        ) by {
            let kind = types_of(list)[n];
            let group = of_type(list, kind);
            assert(types_of(list).contains(kind));
            first_is_listed(list, kind);
            laws::filter_holds(list, |artifact: ArtifactRow| artifact.artifact_type == kind);
            assert forall|j: int| 0 <= j < group.len() implies text::has_byte_prefix(
                (#[trigger] entries_of(group)[j]).1,
                8,
            ) by {
                assert(list.contains(group[j]));
            }
        }
    }
}

/// What names show of the UUIDs of a store in order holds no `/`.
pub proof fn exported_uuids_are_plain(
    state: State,
    key: Option<Seq<char>>,
    tasks: Seq<TaskRow>,
    lists: Seq<Seq<ArtifactRow>>,
)
    requires
        state.orderly(),
        exports(state, key, tasks, lists),
    ensures
        uuids_plain(tasks, lists),
{
    assert forall|k: int| 0 <= k < tasks.len() implies is_plain((#[trigger] tasks[k]).uuid) by {
        exported_in_store(state, key, tasks, k);
        let i = choose|i: int| 0 <= i < state.tasks.len() && state.tasks[i] == tasks[k];
        canonical_is_plain(state.tasks[i].uuid);
    }
    assert forall|k: int| 0 <= k < lists.len() implies artifacts_plain(#[trigger] lists[k]) by {
        let list = lists[k];
        assert(markdown::lists_artifacts_of(state, tasks[k].uuid, list));
        let owner = state.tasks[state.task_named(tasks[k].uuid)->Ok_0].uuid;
        behaviour::listed_artifacts_in_store(state, owner, None, list);
        assert forall|j: int| 0 <= j < list.len() implies is_plain((#[trigger] list[j]).uuid) by {
            assert(state.artifacts.contains(list[j]));
            let i = choose|i: int| 0 <= i < state.artifacts.len() && state.artifacts[i] == list[j];
            canonical_is_plain(state.artifacts[i].uuid);
        }
    }
}

proof fn canonical_is_plain(uuid: Seq<char>)
    requires
        ident::is_canonical(uuid),
    ensures
        is_plain(uuid),
{
    ident::canonical_has_prefix(uuid);
    let start = text::byte_prefix(uuid, 8);
    assert forall|i: int| 0 <= i < start.len() implies #[trigger] start[i] != '/' by {
        assert(start[i] == uuid[i]);
        assert(uuid[i] == '-' || ident::is_hex(uuid[i]));
    }
}

/// The UUIDs of a store in order have a first eight bytes to show.
pub proof fn ordered_uuids_are_cut(state: State)
    requires
        state.orderly(),
    ensures
        state.uuids_cut(),
        state.all_named(),
{
    assert forall|i: int| 0 <= i < state.tasks.len() implies text::has_byte_prefix(
        (#[trigger] state.tasks[i]).uuid,
        8,
    ) by {
        ident::canonical_has_prefix(state.tasks[i].uuid);
    }
    assert forall|i: int| 0 <= i < state.artifacts.len() implies text::has_byte_prefix(
        (#[trigger] state.artifacts[i]).uuid,
        8,
    ) by {
        ident::canonical_has_prefix(state.artifacts[i].uuid);
    }
}

/// Of a store in order, an export fails only where the key names no task.
pub proof fn export_never_fails(
    state: State,
    key: Option<Seq<char>>,
    tasks: Seq<TaskRow>,
    k: int,
    failure: Failure,
)
    requires
        state.orderly(),
    ensures
        !export_fails(state, key, tasks, k, failure),
{
    if export_fails(state, key, tasks, k, failure) {
        exported_in_store(state, key, tasks, k);
        let i = choose|i: int| 0 <= i < state.tasks.len() && state.tasks[i] == tasks[k];
        ident::canonical_form(state.tasks[i].uuid);
        behaviour::found_by_id_and_uuid(state, i, state.tasks[i].uuid);
    }
}

} // verus!
