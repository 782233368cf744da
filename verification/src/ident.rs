//! UUIDs, timestamps and random tokens.

use rand::RngCore;
use vstd::prelude::*;
use vstd::utf8::*;

use crate::error::{invalid, Error, Failure};
use crate::text;

verus! {

/// A hexadecimal digit in either case.
pub open spec fn is_hex(c: char) -> bool {
    '0' <= c <= '9' || 'a' <= c <= 'f' || 'A' <= c <= 'F'
}

/// The places of the hyphens in a hyphenated UUID.
pub open spec fn is_hyphen_place(at: int) -> bool {
    at == 8 || at == 13 || at == 18 || at == 23
}

/// Five groups of 8, 4, 4, 4 and 12 hexadecimal digits with hyphens between.
pub open spec fn is_hyphenated(value: Seq<char>) -> bool {
    &&& value.len() == 36
    &&& forall|i: int|
        0 <= i < 36 ==> if is_hyphen_place(i) {
            #[trigger] value[i] == '-'
        } else {
            is_hex(value[i])
        }
}

/// Thirty-two hexadecimal digits.
pub open spec fn is_simple(value: Seq<char>) -> bool {
    value.len() == 32 && forall|i: int| 0 <= i < 32 ==> is_hex(#[trigger] value[i])
}

/// Thirty-two digits with the four hyphens put in.
pub open spec fn with_hyphens(digits: Seq<char>) -> Seq<char> {
    digits.subrange(0, 8) + seq!['-'] + digits.subrange(8, 12) + seq!['-'] + digits.subrange(12, 16)
        + seq!['-'] + digits.subrange(16, 20) + seq!['-'] + digits.subrange(20, 32)
}

/// The form in which UUIDs are stored: hyphenated and in lower case.
pub open spec fn is_canonical(value: Seq<char>) -> bool {
    is_hyphenated(value) && text::lowercase(value) == value
}

/// The stored form of a UUID that is written in any of the accepted forms:
/// hyphenated, as bare digits, in braces, or as a URN; in either case.
pub open spec fn canonical_uuid(value: Seq<char>) -> Option<Seq<char>> {
    if is_hyphenated(value) {
        Some(text::lowercase(value))
    } else if is_simple(value) {
        Some(text::lowercase(with_hyphens(value)))
    } else if value.len() == 38 && value[0] == '{' && value[37] == '}' && is_hyphenated(
        value.subrange(1, 37),
    ) {
        Some(text::lowercase(value.subrange(1, 37)))
    } else if value.len() == 45 && text::same_ignoring_case(value.take(9), "urn:uuid:"@)
        && is_hyphenated(value.skip(9)) {
        Some(text::lowercase(value.skip(9)))
    } else {
        None
    }
}

/// Parses with `uuid::Uuid::parse_str` and writes the UUID back with its
/// `Display`: the result is the lower-case hyphenated form of a text in one of
/// the four accepted forms, and nothing for any other text.
#[verifier::external_body]
pub(crate) fn normalized_uuid(value: &str) -> (uuid: Option<String>)
    ensures
        text::optional(uuid) == canonical_uuid(value@),
{
    uuid::Uuid::parse_str(value).ok().map(|uuid| uuid.to_string())
}

/// Draws a UUID with `uuid::Uuid::now_v7` and writes it with its `Display`. The
/// UUID depends on the clock and on chance; its form is lower-case and
/// hyphenated, and its version digit is 7. Panics when the clock stands before
/// 1970.
#[verifier::external_body]
pub(crate) fn new_uuid() -> (uuid: String)
    ensures
        is_canonical(uuid@),
        uuid@[14] == '7',
{
    uuid::Uuid::now_v7().to_string()
}

/// The characters of a time: a date, the letter T, a time of day and an offset.
pub open spec fn is_time(value: Seq<char>) -> bool {
    &&& value.contains('T')
    &&& forall|i: int| 0 <= i < value.len() ==> is_time_char(#[trigger] value[i])
}

/// A character that a time is written with.
pub open spec fn is_time_char(c: char) -> bool {
    '0' <= c <= '9' || c == '-' || c == ':' || c == '.' || c == '+' || c == 'T'
}

/// Reads the clock with `chrono::Utc::now` and writes the time with
/// `to_rfc3339`: a date, the letter T, a time of day and an offset, in digits and
/// the signs between them. Panics when the clock stands before 1970.
#[verifier::external_body]
pub(crate) fn now() -> (timestamp: String)
    ensures
        is_time(timestamp@),
{
    chrono::Utc::now().to_rfc3339()
}

/// Fills an array with `fill_bytes` of `rand::rngs::OsRng`. Nothing can be said
/// of the bytes.
#[verifier::external_body]
pub(crate) fn random_bytes<const N: usize>() -> (bytes: [u8; N]) {
    let mut bytes = [0u8; N];
    rand::rngs::OsRng.fill_bytes(&mut bytes);
    bytes
}

/// A token of twenty-four random bytes in hexadecimal digits.
pub fn random_token() -> (token: String)
    ensures
        exists|bytes: Seq<u8>| bytes.len() == 24 && token@ == #[trigger] text::hex(bytes),
        token@.len() == 48,
{
    let bytes: [u8; 24] = random_bytes();
    text::hex_of(&bytes)
}

/// The stored form of a UUID, or an error that shows the text.
pub fn require_uuid(value: &str) -> (uuid: Result<String, Error>)
    ensures
        match uuid {
            Ok(uuid) => canonical_uuid(value@) == Some(uuid@),
            Err(error) => canonical_uuid(value@) is None && error@ == Failure::Invalid(
                "invalid UUID: "@ + value@,
            ),
        },
{
    match normalized_uuid(value) {
        Some(uuid) => Ok(uuid),
        None => Err(invalid(text::concat2("invalid UUID: ", value))),
    }
}

/// What is read as a UUID has the stored form, and the stored form is read as
/// itself.
pub proof fn canonical_form(value: Seq<char>)
    ensures
        canonical_uuid(value) matches Some(uuid) ==> is_canonical(uuid),
        is_canonical(value) ==> canonical_uuid(value) == Some(value),
{
    if let Some(uuid) = canonical_uuid(value) {
        let source = if is_hyphenated(value) {
            value
        } else if is_simple(value) {
            with_hyphens(value)
        } else if value.len() == 38 {
            value.subrange(1, 37)
        } else {
            value.skip(9)
        };
        assert(is_hyphenated(source));
        assert forall|i: int| 0 <= i < 36 implies if is_hyphen_place(i) {
            #[trigger] uuid[i] == '-'
        } else {
            is_hex(uuid[i])
        } by {
            assert(uuid[i] == text::lower(source[i]));
        }
        assert(text::lowercase(uuid) =~= uuid) by {
            assert forall|i: int| 0 <= i < 36 implies text::lower(#[trigger] uuid[i]) == uuid[i] by {
                assert(uuid[i] == text::lower(source[i]));
            }
        }
    }
}

/// What is read as a UUID holds more than white space.
pub proof fn uuid_is_not_blank(value: Seq<char>)
    ensures
        canonical_uuid(value) is Some ==> !text::is_blank(value),
{
    if canonical_uuid(value) is Some {
        if is_hyphenated(value) || is_simple(value) {
            assert(is_hex(value[0]));
            assert(!text::is_whitespace(value[0]));
        } else if value.len() == 38 {
            assert(!text::is_whitespace(value[0]));
        } else {
            assert(is_hex(value.skip(9)[0]));
            assert(!text::is_whitespace(value[9]));
        }
    }
}

/// Texts that differ only in the case of ASCII letters are read as the same
/// UUID.
pub proof fn canonical_ignores_case(a: Seq<char>, b: Seq<char>)
    requires
        text::same_ignoring_case(a, b),
    ensures
        canonical_uuid(a) == canonical_uuid(b),
{
    assert(a.len() == b.len()) by {
        assert(text::lowercase(a).len() == text::lowercase(b).len());
    }
    assert forall|i: int| 0 <= i < a.len() implies text::lower(#[trigger] a[i]) == text::lower(
        b[i],
    ) by {
        assert(text::lowercase(a)[i] == text::lowercase(b)[i]);
    }
    same_shape(a, b);
    same_shape(b, a);
    if a.len() == 32 {
        assert(text::lowercase(with_hyphens(a)) =~= text::lowercase(with_hyphens(b)));
    }
    if a.len() == 38 {
        assert(text::lower(a[0]) == text::lower(b[0]));
        assert(text::lower(a[37]) == text::lower(b[37]));
        assert forall|i: int| 0 <= i < 36 implies text::lower(#[trigger] a.subrange(1, 37)[i])
            == text::lower(b.subrange(1, 37)[i]) by {
            assert(text::lower(a[i + 1]) == text::lower(b[i + 1]));
        }
        same_shape(a.subrange(1, 37), b.subrange(1, 37));
        same_shape(b.subrange(1, 37), a.subrange(1, 37));
        assert(text::lowercase(a.subrange(1, 37)) =~= text::lowercase(b.subrange(1, 37)));
    }
    if a.len() == 45 {
        assert forall|i: int| 0 <= i < 36 implies text::lower(#[trigger] a.skip(9)[i])
            == text::lower(b.skip(9)[i]) by {
            assert(text::lower(a[i + 9]) == text::lower(b[i + 9]));
        }
        same_shape(a.skip(9), b.skip(9));
        same_shape(b.skip(9), a.skip(9));
        assert(text::lowercase(a.skip(9)) =~= text::lowercase(b.skip(9)));
        assert(text::lowercase(a.take(9)) =~= text::lowercase(b.take(9)));
    }
}

proof fn same_shape(a: Seq<char>, b: Seq<char>)
    requires
        a.len() == b.len(),
        forall|i: int| 0 <= i < a.len() ==> text::lower(#[trigger] a[i]) == text::lower(b[i]),
    ensures
        is_hyphenated(a) ==> is_hyphenated(b),
        is_simple(a) ==> is_simple(b),
{
    assert forall|i: int| 0 <= i < a.len() implies (is_hex(#[trigger] b[i]) <==> is_hex(a[i])) && (
    a[i] == '-' <==> b[i] == '-') by {
        assert(text::lower(a[i]) == text::lower(b[i]));
    }
    if is_hyphenated(a) {
        assert forall|i: int| 0 <= i < 36 implies if is_hyphen_place(i) {
            #[trigger] b[i] == '-'
        } else {
            is_hex(b[i])
        } by {
            assert(is_hex(b[i]) <==> is_hex(a[i]));
        }
    }
    if is_simple(a) {
        assert forall|i: int| 0 <= i < 32 implies is_hex(#[trigger] b[i]) by {
            assert(is_hex(a[i]));
        }
    }
}

/// A stored UUID begins with eight characters of one byte each.
pub proof fn canonical_has_prefix(uuid: Seq<char>)
    requires
        is_canonical(uuid),
    ensures
        text::has_byte_prefix(uuid, 8),
        text::byte_prefix(uuid, 8) == uuid.take(8),
{
    assert forall|i: int| 0 <= i < uuid.len() implies (#[trigger] uuid[i]) as nat <= 127 by {
        assert(uuid[i] == '-' || is_hex(uuid[i]));
    }
    assert(is_ascii_chars(uuid));
    text::byte_prefix_of_ascii(uuid, 8);
}

} // verus!
