//! Waiting for a review: the conversation with the local server.

use vstd::prelude::*;
use vstd::string::*;

use crate::error;
use crate::error::{other, Error, Failure};
use crate::service::Platform;
use crate::text;

verus! {

/// An HTTP request to the local server.
pub open spec fn request(
    method: Seq<char>,
    path: Seq<char>,
    address: Seq<char>,
    body: Seq<char>,
) -> Seq<char> {
    method + " "@ + path + " HTTP/1.1\r\nHost: "@ + address
        + "\r\nContent-Type: application/json\r\nContent-Length: "@ + text::decimal(
        vstd::utf8::encode_utf8(body).len(),
    ) + "\r\nConnection: close\r\n\r\n"@ + body
}

/// An HTTP request to the local server.
pub fn request_text(method: &str, path: &str, address: &str, body: &str) -> (output: String)
    ensures
        output@ == request(method@, path@, address@, body@),
{
    let length = text::decimal_of(body.as_bytes().len() as u128);
    let mut output = text::concat3(method, " ", path);
    output.append(" HTTP/1.1\r\nHost: ");
    output.append(address);
    output.append("\r\nContent-Type: application/json\r\nContent-Length: ");
    output.append(length.as_str());
    output.append("\r\nConnection: close\r\n\r\n");
    output.append(body);
    output
}

/// The value of a digit.
pub open spec fn digit_value(c: char) -> int {
    c as u32 - '0' as u32
}

/// The number that digits continue, as far as it fits in sixteen bits.
pub open spec fn read_digits(digits: Seq<char>, value: int) -> Result<u16, Failure>
    decreases digits.len(),
{
    if digits.len() == 0 {
        Ok(value as u16)
    } else if !('0' <= digits[0] <= '9') {
        Err(Failure::Other("invalid digit found in string"@))
    } else if value * 10 + digit_value(digits[0]) > u16::MAX {
        Err(Failure::Other("number too large to fit in target type"@))
    } else {
        read_digits(digits.drop_first(), value * 10 + digit_value(digits[0]))
    }
}

/// A number of sixteen bits in decimal digits, with or without a plus sign.
pub open spec fn read_number(value: Seq<char>) -> Result<u16, Failure> {
    if value.len() == 0 {
        Err(Failure::Other("cannot parse integer from empty string"@))
    } else if value[0] == '+' && value.len() > 1 {
        read_digits(value.drop_first(), 0)
    } else {
        read_digits(value, 0)
    }
}

/// A number of sixteen bits in decimal digits.
pub fn parse_number(value: &str) -> (result: Result<u16, Error>)
    ensures
        match (read_number(value@), result) {
            (Ok(number), Ok(found)) => found == number,
            (Err(failure), Err(error)) => error@ == failure,
            _ => false,
        },
{
    let chars = text::chars_of(value);
    let length = chars.len();
    if length == 0 {
        return Err(other("cannot parse integer from empty string".to_owned()));
    }
    let mut at: usize = if chars[0] == '+' && length > 1 {
        1
    } else {
        0
    };
    let mut number: u16 = 0;
    assert(value@.skip(0) =~= value@);
    assert(value@.skip(1) =~= value@.drop_first());
    while at < length
        invariant
            chars@ == value@,
            length == chars@.len(),
            at <= length,
            read_digits(value@.skip(at as int), number as int) == read_number(value@),
        decreases length - at,
    {
        let c = chars[at];
        assert(value@.skip(at as int)[0] == c);
        if !('0' <= c && c <= '9') {
            return Err(other("invalid digit found in string".to_owned()));
        }
        let wide: u32 = number as u32 * 10 + (c as u32 - '0' as u32);
        if wide > 65535 {
            return Err(other("number too large to fit in target type".to_owned()));
        }
        number = wide as u16;
        assert(value@.skip(at as int).drop_first() =~= value@.skip(at + 1));
        at = at + 1;
    }
    Ok(number)
}

/// The status and the body of an HTTP response.
pub open spec fn read_response(response: Seq<char>) -> Result<(u16, Seq<char>), Failure> {
    match text::find(response, "\r\n\r\n"@, 0) {
        None => Err(Failure::Other("local alx server returned an invalid HTTP response"@)),
        Some(at) => {
            let lines = text::lines(response.take(at));
            let words = if lines.len() == 0 {
                Seq::empty()
            } else {
                text::words(lines[0], false)
            };
            if words.len() < 2 {
                Err(Failure::Other("local alx server returned an invalid HTTP status"@))
            } else {
                match read_number(words[1]) {
                    Ok(status) => Ok((status, response.skip(at + "\r\n\r\n"@.len()))),
                    Err(failure) => Err(failure),
                }
            }
        },
    }
}

/// The status and the body of an HTTP response.
pub fn parse_response(response: &str) -> (result: Result<(u16, String), Error>)
    ensures
        match (read_response(response@), result) {
            (Ok(read), Ok(found)) => found.0 == read.0 && found.1@ == read.1,
            (Err(failure), Err(error)) => error@ == failure,
            _ => false,
        },
{
    let chars = text::chars_of(response);
    let separator = text::chars_of("\r\n\r\n");
    assert(chars.len() == chars@.len());
    let at = match text::find_in(&chars, &separator, 0) {
        None => {
            return Err(other("local alx server returned an invalid HTTP response".to_owned()));
        },
        Some(at) => at,
    };
    let head = text::text_between(&chars, 0, at);
    assert(head@ =~= response@.take(at as int));
    let lines = text::lines_of(head.as_str());
    assert(lines@.len() == text::texts(lines@).len());
    if lines.len() == 0 {
        return Err(other("local alx server returned an invalid HTTP status".to_owned()));
    }
    assert(text::texts(lines@)[0] == lines@[0]@);
    let words = text::words_of(lines[0].as_str(), false);
    assert(words@.len() == text::texts(words@).len());
    if words.len() < 2 {
        return Err(other("local alx server returned an invalid HTTP status".to_owned()));
    }
    assert(text::texts(words@)[1] == words@[1]@);
    match parse_number(words[1].as_str()) {
        Err(error) => Err(error),
        Ok(status) => {
            let body = text::text_between(&chars, at + separator.len(), chars.len());
            assert(body@ =~= response@.skip(at + "\r\n\r\n"@.len()));
            Ok((status, body))
        },
    }
}

/// What is done after a try to register a gate.
#[derive(Debug, PartialEq, Eq)]
pub enum RegistrationStep {
    /// The server answered with the data of the review gate.
    Registered(String),
    /// The server is not there yet: try again.
    Retry,
    /// It failed.
    Failed(Error),
}

/// The view of what is done after a try to register a gate.
pub enum Step {
    Registered(Seq<char>),
    Retry,
    Failed(Failure),
}

impl View for RegistrationStep {
    type V = Step;

    open spec fn view(&self) -> Step {
        match self {
            RegistrationStep::Registered(response) => Step::Registered(response@),
            RegistrationStep::Retry => Step::Retry,
            RegistrationStep::Failed(error) => Step::Failed(error@),
        }
    }
}

/// What is done after a try to register a gate: `reply` is the status and the body
/// of the answer, if there was one.
pub open spec fn next_step(reply: Option<(u16, Seq<char>)>, in_time: bool) -> Step {
    match reply {
        Some((status, response)) => if status == 201 {
            Step::Registered(response)
        } else if status == 404 {
            Step::Failed(
                Failure::Other(
                    "the local alx server does not support review gates; restart it"@,
                ),
            )
        } else {
            Step::Failed(
                Failure::Other(
                    "could not create review gate (HTTP "@ + text::decimal(status as nat) + "): "@
                        + text::trim(response),
                ),
            )
        },
        None => if in_time {
            Step::Retry
        } else {
            Step::Failed(Failure::Other("could not connect to local alx server"@))
        },
    }
}

/// The views of a status and a body.
pub open spec fn reply_view(reply: Option<(u16, String)>) -> Option<(u16, Seq<char>)> {
    match reply {
        Some(reply) => Some((reply.0, reply.1@)),
        None => None,
    }
}

/// What is done after a try to register a gate.
pub fn registration_step(reply: Option<(u16, String)>, in_time: bool) -> (step: RegistrationStep)
    ensures
        step@ == next_step(reply_view(reply), in_time),
{
    match reply {
        Some((status, response)) => if status == 201 {
            RegistrationStep::Registered(response)
        } else if status == 404 {
            RegistrationStep::Failed(
                other(
                    "the local alx server does not support review gates; restart it".to_owned(),
                ),
            )
        } else {
            let digits = text::decimal_of(status as u128);
            let reason = text::trimmed(response.as_str());
            let mut message = text::concat3(
                "could not create review gate (HTTP ",
                digits.as_str(),
                "): ",
            );
            message.append(reason.as_str());
            RegistrationStep::Failed(other(message))
        },
        None => if in_time {
            RegistrationStep::Retry
        } else {
            RegistrationStep::Failed(other("could not connect to local alx server".to_owned()))
        },
    }
}

/// The data of a gate, or why there is none.
pub open spec fn gate_status(status: u16, response: Seq<char>) -> Result<Seq<char>, Failure> {
    if status == 200 {
        Ok(response)
    } else {
        Err(
            Failure::Other(
                "review gate is no longer available (HTTP "@ + text::decimal(status as nat)
                    + "): "@ + text::trim(response),
            ),
        )
    }
}

/// The data of a gate, or why there is none.
pub fn gate_data(status: u16, response: String) -> (result: Result<String, Error>)
    ensures
        error::viewed(result) == gate_status(status, response@),
{
    if status == 200 {
        return Ok(response);
    }
    let digits = text::decimal_of(status as u128);
    let reason = text::trimmed(response.as_str());
    let mut message = text::concat3(
        "review gate is no longer available (HTTP ",
        digits.as_str(),
        "): ",
    );
    message.append(reason.as_str());
    Err(other(message))
}

/// The address of the review page of an artifact.
pub fn review_url(address: &str, artifact_uuid: &str, token: &str) -> (url: String)
    ensures
        url@ == "http://"@ + address@ + "/review/"@ + artifact_uuid@ + "?gate="@ + token@,
{
    let mut url = text::concat3("http://", address, "/review/");
    url.append(artifact_uuid);
    url.append("?gate=");
    url.append(token);
    url
}

/// The path under which the state of a gate is asked for.
pub fn gate_path(token: &str) -> (path: String)
    ensures
        path@ == "/api/review-gates/"@ + token@,
{
    text::concat2("/api/review-gates/", token)
}

/// The program and the arguments that open an address in the browser.
pub open spec fn browser_command(platform: Platform, url: Seq<char>) -> Option<
    (Seq<char>, Seq<Seq<char>>),
> {
    match platform {
        Platform::Macos => Some(("open"@, seq![url])),
        Platform::Linux => Some(("xdg-open"@, seq![url])),
        Platform::Windows => Some(("cmd"@, seq!["/C"@, "start"@, ""@, url])),
        Platform::Other => None,
    }
}

/// The program and the arguments that open an address in the browser.
pub fn open_command(platform: Platform, url: &str) -> (command: Option<(String, Vec<String>)>)
    ensures
        match (browser_command(platform, url@), command) {
            (Some(wanted), Some(command)) => command.0@ == wanted.0 && text::texts(command.1@)
                == wanted.1,
            (None, None) => true,
            _ => false,
        },
{
    match platform {
        Platform::Macos => {
            let arguments = vec![url.to_owned()];
            assert(text::texts(arguments@) =~= seq![url@]);
            Some(("open".to_owned(), arguments))
        },
        Platform::Linux => {
            let arguments = vec![url.to_owned()];
            assert(text::texts(arguments@) =~= seq![url@]);
            Some(("xdg-open".to_owned(), arguments))
        },
        Platform::Windows => {
            let arguments = vec![
                "/C".to_owned(),
                "start".to_owned(),
                "".to_owned(),
                url.to_owned(),
            ];
            assert(text::texts(arguments@) =~= seq!["/C"@, "start"@, ""@, url@]);
            Some(("cmd".to_owned(), arguments))
        },
        Platform::Other => None,
    }
}

proof fn one_more_digit(digits: Seq<char>, c: char, value: int, read: u16)
    requires
        read_digits(digits, value) == Ok::<u16, Failure>(read),
        0 <= value <= u16::MAX,
        '0' <= c <= '9',
        read * 10 + digit_value(c) <= u16::MAX,
    ensures
        read_digits(digits.push(c), value) == Ok::<u16, Failure>(
            (read * 10 + digit_value(c)) as u16,
        ),
    decreases digits.len(),
{
    let longer = digits.push(c);
    if digits.len() == 0 {
        assert(longer.drop_first() =~= Seq::<char>::empty());
        assert(longer[0] == c);
        assert(read == value);
        let total = value * 10 + digit_value(c);
        assert(read_digits(Seq::<char>::empty(), total) == Ok::<u16, Failure>(total as u16));
    } else {
        assert(longer.drop_first() =~= digits.drop_first().push(c));
        assert(longer[0] == digits[0]);
        one_more_digit(
            digits.drop_first(),
            c,
            value * 10 + digit_value(digits[0]),
            read,
        );
    }
}

/// A number that fits is read back from its digits.
pub proof fn number_is_read_back(number: u16)
    ensures
        read_number(text::decimal(number as nat)) == Ok::<u16, Failure>(number),
{
    digits_are_read_back(number as nat);
    text::decimal_has_digits(number as nat);
}

proof fn digits_are_read_back(number: nat)
    requires
        number <= u16::MAX,
    ensures
        read_digits(text::decimal(number), 0) == Ok::<u16, Failure>(number as u16),
    decreases number,
{
    if number < 10 {
        let c = text::digit(number);
        assert(c as u32 == 48 + number);
        let digits = text::decimal(number);
        assert(digits[0] == c);
        assert(digits.drop_first() =~= Seq::<char>::empty());
        assert(read_digits(Seq::<char>::empty(), number as int) == Ok::<u16, Failure>(
            number as u16,
        ));
    } else {
        digits_are_read_back(number / 10);
        let c = text::digit(number % 10);
        assert(c as u32 == 48 + number % 10);
        one_more_digit(text::decimal(number / 10), c, 0, (number / 10) as u16);
    }
}

} // verus!
