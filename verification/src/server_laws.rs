//! What a server answers, whom it serves, and how reviews, passwords, addresses and
//! UUIDs are read.

use vstd::prelude::*;

use crate::bind;
use crate::bind::Target;
use crate::error::Failure;
use crate::gates;
use crate::gates::GateRow;
use crate::ident;
use crate::laws;
use crate::markdown;
use crate::password;
use crate::review;
use crate::review::Step;
use crate::service;
use crate::service::Platform;
use crate::text;
use crate::text_laws;
use crate::web;
use crate::web::{Access, Header, SessionRow, StoredPassword};

verus! {

// ---------------------------------------------------------------- cookies

/// The name of the cookie and the equals sign behind it.
pub open spec fn cookie_name() -> Seq<char> {
    seq!['a', 'l', 'x', '_', 's', 'e', 's', 's', 'i', 'o', 'n', '=']
}

/// A part of a cookie header, without the white space around it, is the cookie with the
/// token.
pub open spec fn is_token_part(part: Seq<char>, token: Seq<char>) -> bool {
    text::trim(part) == cookie_name() + token
}

proof fn part_token_is(part: Seq<char>, token: Seq<char>)
    ensures
        web::part_token(part) == Some(token) <==> is_token_part(part, token),
{
    let pair = text::trim(part);
    let name = cookie_name();
    reveal_strlit("alx_session");
    let at = text::position(pair, '=', 0);
    text::position_is_first(pair, '=', 0);
    assert("alx_session"@ =~= name.take(11));
    if web::part_token(part) == Some(token) {
        assert(pair =~= pair.take(at) + seq!['='] + pair.skip(at + 1));
        assert(pair.take(at) == "alx_session"@);
        assert(at == 11);
        assert(name =~= "alx_session"@ + seq!['=']);
        assert(pair =~= name + token);
    }
    if is_token_part(part, token) {
        assert(pair[11] == '=');
        assert forall|i: int| 0 <= i < 11 implies pair[i] != '=' by {
            assert(pair[i] == name[i]);
        }
        assert(at == 11);
        assert(pair.take(11) =~= "alx_session"@);
        assert(pair.skip(12) =~= token);
    }
}

/// The token in a cookie header is that of the first part that is the cookie.
pub proof fn cookie_token_is(cookie: Seq<char>, token: Seq<char>)
    ensures
        web::cookie_token(cookie) == Some(token) <==> exists|k: int| #[trigger]
            is_first_token(text::split(cookie, ';'), k, token),
{
    parts_token_is(text::split(cookie, ';'), token);
}

/// The cookie with the token stands in a part, and in none before it.
pub open spec fn is_first_token(parts: Seq<Seq<char>>, k: int, token: Seq<char>) -> bool {
    &&& 0 <= k < parts.len()
    &&& is_token_part(parts[k], token)
    &&& forall|i: int, other: Seq<char>| 0 <= i < k ==> !#[trigger] is_token_part(parts[i], other)
}

proof fn parts_token_is(parts: Seq<Seq<char>>, token: Seq<char>)
    ensures
        web::parts_token(parts) == Some(token) <==> exists|k: int| #[trigger]
            is_first_token(parts, k, token),
    decreases parts.len(),
{
    if parts.len() > 0 {
        let rest = parts.drop_first();
        part_token_is(parts[0], token);
        match web::part_token(parts[0]) {
            Some(found) => {
                part_token_is(parts[0], found);
                if found == token {
                    assert(is_first_token(parts, 0, token));
                } else {
                    assert forall|k: int| !#[trigger] is_first_token(parts, k, token) by {
                        if is_first_token(parts, k, token) {
                            if k == 0 {
                                assert(is_token_part(parts[0], token));
                            } else {
                                assert(is_token_part(parts[0], found));
                            }
                        }
                    }
                }
            },
            None => {
                parts_token_is(rest, token);
                assert forall|other: Seq<char>| !#[trigger] is_token_part(parts[0], other) by {
                    part_token_is(parts[0], other);
                }
                if exists|k: int| #[trigger] is_first_token(rest, k, token) {
                    let k = choose|k: int| #[trigger] is_first_token(rest, k, token);
                    assert forall|i: int, other: Seq<char>| 0 <= i < k + 1 implies !#[trigger]
                        is_token_part(parts[i], other) by {
                        if i > 0 {
                            assert(parts[i] == rest[i - 1]);
                            assert(!is_token_part(rest[i - 1], other));
                        }
                    }
                    assert(is_first_token(parts, k + 1, token));
                }
                if exists|k: int| #[trigger] is_first_token(parts, k, token) {
                    let k = choose|k: int| #[trigger] is_first_token(parts, k, token);
                    assert(k > 0);
                    assert forall|i: int, other: Seq<char>| 0 <= i < k - 1 implies !#[trigger]
                        is_token_part(rest[i], other) by {
                        assert(rest[i] == parts[i + 1]);
                        assert(!is_token_part(parts[i + 1], other));
                    }
                    assert(rest[k - 1] == parts[k]);
                    assert(is_first_token(rest, k - 1, token));
                }
            },
        }
    }
}

// ---------------------------------------------------------------- sessions

/// A request carries the token of a session that was opened for the password that is
/// set.
pub open spec fn has_session(
    hash: Option<Seq<char>>,
    cookie: Option<Seq<char>>,
    sessions: SessionRow,
) -> bool {
    &&& hash is Some
    &&& sessions.password_hash == hash
    &&& cookie is Some
    &&& exists|token: Seq<char>|
        web::cookie_token(cookie->0) == Some(token) && #[trigger] sessions.tokens.contains(token)
}

/// The pages of the login are served to everyone; everything else to those with a
/// session. Without a password nobody has one; without a session the front page leads to
/// the login, and everything else is refused.
pub proof fn access_is(
    path: Seq<char>,
    is_get: bool,
    hash: Option<Seq<char>>,
    cookie: Option<Seq<char>>,
    sessions: SessionRow,
)
    ensures
        ({
            let open = path == "/login"@ || path == "/api/login"@;
            let known = has_session(hash, cookie, sessions);
            let decision = web::access(path, is_get, hash, cookie, sessions);
            &&& decision == Access::Granted <==> open || known
            &&& decision == Access::NotConfigured <==> !open && hash is None
            &&& decision == Access::Login <==> !open && hash is Some && !known && is_get && path
                == "/"@
            &&& decision == Access::Refused <==> !open && hash is Some && !known && !(is_get && path
                == "/"@)
        }),
{
    let current = web::synchronized(sessions, hash);
    if web::recognized(current, cookie) {
        let token = web::cookie_token(cookie->0)->0;
        assert(current.tokens.contains(token));
    }
    if has_session(hash, cookie, sessions) {
        let token = choose|token: Seq<char>|
            web::cookie_token(cookie->0) == Some(token) && #[trigger] sessions.tokens.contains(
                token,
            );
        assert(web::recognized(current, cookie));
    }
}

/// What a request that is not served is answered.
pub proof fn refusals_are()
    ensures
        web::refusal(Access::Granted) is None,
        web::refusal(Access::Login) == Some((303u16, "/login"@)),
        web::refusal(Access::NotConfigured) == Some(
            (503u16, "password authentication is not configured"@),
        ),
        web::refusal(Access::Refused) == Some((401u16, "authentication required"@)),
{
}

/// A session that is opened is there, with those that were opened for the same password
/// before it and with no other.
pub proof fn opened_session_is(
    sessions: SessionRow,
    hash: Seq<char>,
    token: Seq<char>,
    other: Seq<char>,
)
    ensures
        ({
            let after = web::with_session(sessions, hash, token);
            &&& after.password_hash == Some(hash)
            &&& after.tokens.contains(other) <==> other == token || sessions.password_hash == Some(
                hash,
            ) && sessions.tokens.contains(other)
        }),
{
    let after = web::with_session(sessions, hash, token);
    let current = web::synchronized(sessions, Some(hash));
    if !current.tokens.contains(token) {
        assert(after.tokens == current.tokens.push(token));
        assert(after.tokens[current.tokens.len() as int] == token);
        if current.tokens.contains(other) {
            let k = choose|k: int| 0 <= k < current.tokens.len() && current.tokens[k] == other;
            assert(after.tokens[k] == other);
        }
        if after.tokens.contains(other) && other != token {
            let k = choose|k: int| 0 <= k < after.tokens.len() && after.tokens[k] == other;
            assert(current.tokens[k] == other);
        }
    }
}

/// A login is refused where no password is asked for, where none is set or it cannot be
/// read, and where it is wrong.
pub proof fn login_refusals_are(enabled: bool, stored: StoredPassword, accepted: bool)
    ensures
        ({
            let refusal = web::login_refusal(enabled, stored, accepted);
            &&& !enabled ==> refusal == Some((404u16, "authentication is not enabled"@))
            &&& enabled && stored is Unset ==> refusal == Some(
                (503u16, "password authentication is not configured"@),
            )
            &&& enabled && stored is Unreadable ==> refusal == Some(
                (500u16, "internal server error"@),
            )
            &&& enabled && stored is Hash && !accepted ==> refusal == Some(
                (401u16, "invalid password"@),
            )
            &&& enabled && stored is Hash && accepted ==> refusal is None
        }),
{
}

/// The cookie of a session holds the token, for every path, for no script and for no
/// other site.
pub proof fn session_cookie_is(token: Seq<char>)
    ensures
        web::session_cookie(token) == cookie_name() + token
            + "; Path=/; HttpOnly; SameSite=Strict"@,
{
    reveal_strlit("alx_session=");
    assert("alx_session="@ =~= cookie_name());
}

// ---------------------------------------------------------------- requests

/// A host is trusted where it is `localhost`, in whatever case, or an IP address.
pub proof fn trusted_host_is(host: Option<Seq<char>>, is_ip: bool)
    ensures
        web::is_trusted_host(host, is_ip) <==> host is Some && (is_ip || host->0.len() == 9
            && forall|i: int|
            0 <= i < 9 ==> text_laws::alike(
                #[trigger] host->0[i],
                seq!['l', 'o', 'c', 'a', 'l', 'h', 'o', 's', 't'][i],
            )),
{
    reveal_strlit("localhost");
    let name = seq!['l', 'o', 'c', 'a', 'l', 'h', 'o', 's', 't'];
    assert("localhost"@ =~= name);
    if let Some(host) = host {
        text_laws::same_ignoring_case_is(host, name);
    }
}

/// An origin is that of the host where it is one of HTTP or HTTPS with the same
/// authority, in whatever case; one without a scheme or an authority is not.
pub proof fn same_origin_is(scheme: Seq<char>, authority: Seq<char>, host: Seq<char>)
    ensures
        web::is_same_origin(Some((Some(scheme), Some(authority))), host) <==> {
            &&& scheme == seq!['h', 't', 't', 'p'] || scheme == seq!['h', 't', 't', 'p', 's']
            &&& authority.len() == host.len()
            &&& forall|i: int|
                0 <= i < host.len() ==> text_laws::alike(#[trigger] authority[i], host[i])
        },
        !web::is_same_origin(None, host),
        !web::is_same_origin(Some((None, Some(authority))), host),
        !web::is_same_origin(Some((Some(scheme), None)), host),
        !web::is_same_origin(Some((None, None)), host),
{
    reveal_strlit("http");
    reveal_strlit("https");
    assert("http"@ =~= seq!['h', 't', 't', 'p']);
    assert("https"@ =~= seq!['h', 't', 't', 'p', 's']);
    text_laws::same_ignoring_case_is(authority, host);
}

/// A request with a host is served where the host is trusted and the origin, if there
/// is one, is the host.
pub proof fn browser_refusal_is(host: Header, origin: Header, trusted: bool, same: bool)
    ensures
        web::browser_refusal(host, origin, trusted, same) is None <==> host is Absent || host
            is Value && trusted && (origin is Absent || origin is Value && same),
        host is Unreadable ==> web::browser_refusal(host, origin, trusted, same) == Some(
            "invalid Host header"@,
        ),
        host is Value && !trusted ==> web::browser_refusal(host, origin, trusted, same) == Some(
            "Host must be an IP address or localhost"@,
        ),
        host is Value && trusted && origin is Unreadable ==> web::browser_refusal(
            host,
            origin,
            trusted,
            same,
        ) == Some("invalid Origin header"@),
        host is Value && trusted && origin is Value && !same ==> web::browser_refusal(
            host,
            origin,
            trusted,
            same,
        ) == Some("cross-origin requests are not allowed"@),
{
}

/// What is not found is answered as that, what is wrong with a request is told, and
/// nothing else is.
pub proof fn error_answers_are(message: Seq<char>)
    ensures
        web::error_answer(Failure::NotFound(message)) == (404u16, message),
        web::error_answer(Failure::Invalid(message)) == (400u16, message),
        web::error_answer(Failure::Other(message)) == (500u16, "internal server error"@),
{
}

/// On a loopback address no password is asked for; elsewhere one is, and must be set.
pub proof fn serving_is(loopback: bool, has_password: bool)
    ensures
        loopback ==> web::serving(loopback, has_password) == Ok::<bool, Failure>(false),
        !loopback && has_password ==> web::serving(loopback, has_password) == Ok::<bool, Failure>(
            true,
        ),
        !loopback && !has_password ==> web::serving(loopback, has_password) == Err::<
            bool,
            Failure,
        >(
            Failure::Other(
                "non-loopback serving requires a password; set one with `alx serve password set`"@,
            ),
        ),
{
}

// ---------------------------------------------------------------- reviews

/// A gate is opened for the artifact, not finished, for half an hour.
pub proof fn opened_gate_is(token: Seq<char>, artifact_uuid: Seq<char>, now: u64)
    requires
        now + 1_800_000 <= u64::MAX,
    ensures
        ({
            let gate = gates::opened(token, artifact_uuid, now);
            &&& gate.token == token
            &&& gate.artifact_uuid == artifact_uuid
            &&& gate.expires_at == now + 1_800_000
            &&& gate.outcome is None
        }),
{
}

/// The gates that are left are those whose time is not over, in the same order.
pub proof fn live_gates_are(list: Seq<GateRow>, now: u64, gate: GateRow)
    ensures
        gates::live(list, now).contains(gate) <==> list.contains(gate) && now < gate.expires_at,
        gates::live(list, now) == list.filter(|gate: GateRow| now < gate.expires_at),
{
    let keep = |gate: GateRow| gate.expires_at > now;
    let wanted = |gate: GateRow| now < gate.expires_at;
    assert(keep =~= wanted);
    laws::filter_holds(list, keep);
    if gates::live(list, now).contains(gate) {
        let left = gates::live(list, now);
        let k = choose|k: int| 0 <= k < left.len() && left[k] == gate;
        assert(keep(left[k]));
        assert(list.contains(left[k]));
    }
    if list.contains(gate) && now < gate.expires_at {
        let k = choose|k: int| 0 <= k < list.len() && list[k] == gate;
        assert(keep(list[k]));
    }
}

/// A gate is open under its token as long as its time is not over, and no gate is open
/// under a token that none has.
pub proof fn open_gate_is(list: Seq<GateRow>, i: int, token: Seq<char>, now: u64)
    requires
        gates::gates_wf(list),
    ensures
        0 <= i < list.len() && list[i].token == token ==> gates::open_gate(list, token, now)
            == if now < list[i].expires_at {
            Ok::<int, Failure>(i)
        } else {
            Err(Failure::NotFound("review gate not found or expired"@))
        },
        (forall|k: int| 0 <= k < list.len() ==> (#[trigger] list[k]).token != token)
            ==> gates::open_gate(list, token, now) == Err::<int, Failure>(
            Failure::NotFound("review gate not found or expired"@),
        ),
{
    if 0 <= i < list.len() && list[i].token == token {
        let k = gates::gate_index(list, token);
        assert(gates::has_gate(list, token));
        assert(gates::tokens(list)[k] == gates::tokens(list)[i]);
    }
}

/// Finishing a review that is open and not finished finishes it and changes nothing
/// else; one that is finished cannot be finished again.
pub proof fn finished_review_is(list: Seq<GateRow>, i: int, now: u64)
    requires
        gates::gates_wf(list),
        0 <= i < list.len(),
        now < list[i].expires_at,
    ensures
        list[i].outcome is Some ==> gates::finish_gate(list, list[i].token, now) == Err::<
            Seq<GateRow>,
            Failure,
        >(Failure::Invalid("review gate has already been finished"@)),
        list[i].outcome is None ==> (gates::finish_gate(list, list[i].token, now) matches Ok(after)
            && after.len() == list.len() && after[i].outcome is Some && after[i].token
            == list[i].token && after[i].artifact_uuid == list[i].artifact_uuid
            && after[i].expires_at == list[i].expires_at && forall|k: int|
            0 <= k < list.len() && k != i ==> after[k] == list[k]),
{
    open_gate_is(list, i, list[i].token, now);
}

/// A number is read from at least one digit, with a plus sign before them or none, as
/// long as it fits.
pub proof fn read_number_is(digits: Seq<char>)
    requires
        digits.len() > 0,
        forall|i: int| 0 <= i < digits.len() ==> '0' <= #[trigger] digits[i] <= '9',
    ensures
        text_laws::number_of(digits) <= u16::MAX ==> {
            &&& review::read_number(digits) == Ok::<u16, Failure>(
                text_laws::number_of(digits) as u16,
            )
            &&& review::read_number(seq!['+'] + digits) == Ok::<u16, Failure>(
                text_laws::number_of(digits) as u16,
            )
        },
        text_laws::number_of(digits) > u16::MAX ==> review::read_number(digits) == Err::<
            u16,
            Failure,
        >(Failure::Other("number too large to fit in target type"@)),
{
    assert((seq!['+'] + digits).drop_first() =~= digits);
    assert(digits[0] != '+');
    digits_are_read(digits, 0);
    shifted_fold(digits, 0);
}

/// The number that digits continue.
spec fn continued(digits: Seq<char>, value: int) -> int {
    digits.fold_left(value, |number: int, c: char| number * 10 + (c as u32 - 48))
}

proof fn shifted_fold(digits: Seq<char>, value: int)
    ensures
        continued(digits, 0) == text_laws::number_of(digits),
{
}

proof fn digits_are_read(digits: Seq<char>, value: int)
    requires
        0 <= value <= u16::MAX,
        forall|i: int| 0 <= i < digits.len() ==> '0' <= #[trigger] digits[i] <= '9',
    ensures
        value <= continued(digits, value),
        review::read_digits(digits, value) == if continued(digits, value) <= u16::MAX {
            Ok::<u16, Failure>(continued(digits, value) as u16)
        } else {
            Err(Failure::Other("number too large to fit in target type"@))
        },
    decreases digits.len(),
{
    let step = |number: int, c: char| number * 10 + (c as u32 - 48);
    if digits.len() == 0 {
        assert(continued(digits, value) == value);
    } else {
        let rest = digits.drop_first();
        let next = value * 10 + (digits[0] as u32 - 48);
        assert('0' <= digits[0] <= '9');
        fold_first(digits, value);
        assert forall|i: int| 0 <= i < rest.len() implies '0' <= #[trigger] rest[i] <= '9' by {
            assert(rest[i] == digits[i + 1]);
        }
        if next <= u16::MAX {
            digits_are_read(rest, next);
        } else {
            fold_grows(rest, next);
        }
    }
}

proof fn fold_first(digits: Seq<char>, value: int)
    requires
        digits.len() > 0,
    ensures
        continued(digits, value) == continued(
            digits.drop_first(),
            value * 10 + (digits[0] as u32 - 48),
        ),
    decreases digits.len(),
{
    let step = |number: int, c: char| number * 10 + (c as u32 - 48);
    reveal_with_fuel(Seq::fold_left, 2);
    let rest = digits.drop_first();
    if digits.len() == 1 {
        assert(digits.drop_last() =~= Seq::<char>::empty());
        assert(rest =~= Seq::<char>::empty());
        assert(continued(digits, value) == step(continued(digits.drop_last(), value), digits.last()));
    } else {
        fold_first(digits.drop_last(), value);
        assert(digits.drop_last().drop_first() =~= rest.drop_last());
        assert(continued(digits, value) == step(continued(digits.drop_last(), value), digits.last()));
        let next = value * 10 + (digits[0] as u32 - 48);
        assert(continued(rest, next) == step(continued(rest.drop_last(), next), rest.last()));
    }
}

proof fn fold_grows(digits: Seq<char>, value: int)
    requires
        0 <= value,
        forall|i: int| 0 <= i < digits.len() ==> '0' <= #[trigger] digits[i] <= '9',
    ensures
        value <= continued(digits, value),
    decreases digits.len(),
{
    if digits.len() > 0 {
        let rest = digits.drop_first();
        assert('0' <= digits[0] <= '9');
        fold_first(digits, value);
        assert forall|i: int| 0 <= i < rest.len() implies '0' <= #[trigger] rest[i] <= '9' by {
            assert(rest[i] == digits[i + 1]);
        }
        fold_grows(rest, value * 10 + (digits[0] as u32 - 48));
    }
}

/// A text with anything but digits is no number.
pub proof fn no_number_is_read(value: Seq<char>, i: int)
    requires
        0 <= i < value.len(),
        !('0' <= value[i] <= '9'),
        i > 0 || value[i] != '+' || value.len() == 1,
    ensures
        review::read_number(value) is Err,
{
    if value[0] == '+' && value.len() > 1 {
        let rest = value.drop_first();
        assert(rest[i - 1] == value[i]);
        stray_digit(rest, 0, i - 1);
    } else {
        stray_digit(value, 0, i);
    }
}

proof fn stray_digit(digits: Seq<char>, value: int, i: int)
    requires
        0 <= i < digits.len(),
        !('0' <= digits[i] <= '9'),
    ensures
        review::read_digits(digits, value) is Err,
    decreases digits.len(),
{
    if i > 0 && '0' <= digits[0] <= '9' {
        let rest = digits.drop_first();
        assert(rest[i - 1] == digits[i]);
        stray_digit(rest, value * 10 + review::digit_value(digits[0]), i - 1);
    }
}

/// A response is read at the first empty line: what follows is its body, and the second
/// word of its first line is its status. One without an empty line, or without a second
/// word, is refused.
pub proof fn response_is(head: Seq<char>, body: Seq<char>)
    requires
        forall|i: int|
            0 <= i < head.len() ==> !text::occurs_at(
                head + seq!['\r', '\n', '\r', '\n'] + body,
                seq!['\r', '\n', '\r', '\n'],
                i,
            ),
    ensures
        ({
            let response = head + seq!['\r', '\n', '\r', '\n'] + body;
            let lines = text::lines(head);
            if lines.len() == 0 || text::words(lines[0], false).len() < 2 {
                review::read_response(response) == Err::<(u16, Seq<char>), Failure>(
                    Failure::Other("local alx server returned an invalid HTTP status"@),
                )
            } else {
                match review::read_number(text::words(lines[0], false)[1]) {
                    Ok(status) => review::read_response(response) == Ok::<
                        (u16, Seq<char>),
                        Failure,
                    >((status, body)),
                    Err(failure) => review::read_response(response) == Err::<
                        (u16, Seq<char>),
                        Failure,
                    >(failure),
                }
            }
        }),
{
    reveal_strlit("\r\n\r\n");
    let gap = seq!['\r', '\n', '\r', '\n'];
    assert("\r\n\r\n"@ =~= gap);
    let response = head + gap + body;
    let n = head.len() as int;
    assert(response.subrange(n, n + 4) =~= gap);
    assert(text::occurs_at(response, gap, n));
    text::find_is_first(response, gap, 0);
    let at = text::find(response, gap, 0)->0;
    if at < n {
        assert(text::occurs_at(response, gap, at));
    }
    if at > n {
        assert(!text::occurs_at(response, gap, n));
    }
    assert(response.take(n) =~= head);
    assert(response.skip(n + 4) =~= body);
}

/// A request names its method, its path and its host, and says how many bytes its body
/// has.
pub proof fn request_is(
    method: Seq<char>,
    path: Seq<char>,
    address: Seq<char>,
    body: Seq<char>,
)
    ensures
        exists|length: Seq<char>|
            #![trigger text_laws::number_of(length)]
            {
                &&& text_laws::number_of(length) == vstd::utf8::encode_utf8(body).len()
                &&& review::request(method, path, address, body) == method + seq![' '] + path
                    + " HTTP/1.1\r\nHost: "@ + address
                    + "\r\nContent-Type: application/json\r\nContent-Length: "@ + length
                    + "\r\nConnection: close\r\n\r\n"@ + body
            },
{
    reveal_strlit(" ");
    assert(" "@ =~= seq![' ']);
    let length = text::decimal(vstd::utf8::encode_utf8(body).len());
    text_laws::decimal_stands_for(vstd::utf8::encode_utf8(body).len());
    assert(text_laws::number_of(length) == vstd::utf8::encode_utf8(body).len());
}

/// A gate is registered where the server says that it was created; without an answer it
/// is tried again as long as there is time; every other answer is a failure.
pub proof fn registration_is(status: u16, response: Seq<char>, in_time: bool)
    ensures
        review::next_step(Some((201u16, response)), in_time) == Step::Registered(response),
        review::next_step(Some((404u16, response)), in_time) == Step::Failed(
            Failure::Other("the local alx server does not support review gates; restart it"@),
        ),
        status != 201 && status != 404 ==> review::next_step(Some((status, response)), in_time)
            == Step::Failed(
            Failure::Other(
                "could not create review gate (HTTP "@ + text::decimal(status as nat) + "): "@
                    + text::trim(response),
            ),
        ),
        review::next_step(None, true) == Step::Retry,
        review::next_step(None, false) == Step::Failed(
            Failure::Other("could not connect to local alx server"@),
        ),
{
}

/// The data of a gate is what the server says of it, where it says that all is well.
pub proof fn gate_status_is(status: u16, response: Seq<char>)
    ensures
        review::gate_status(200, response) == Ok::<Seq<char>, Failure>(response),
        status != 200 ==> review::gate_status(status, response) == Err::<Seq<char>, Failure>(
            Failure::Other(
                "review gate is no longer available (HTTP "@ + text::decimal(status as nat)
                    + "): "@ + text::trim(response),
            ),
        ),
{
}

/// An address is opened with the program of the system for that.
pub proof fn browser_command_is(url: Seq<char>)
    ensures
        review::browser_command(Platform::Macos, url) == Some(("open"@, seq![url])),
        review::browser_command(Platform::Linux, url) == Some(("xdg-open"@, seq![url])),
        review::browser_command(Platform::Windows, url) == Some(
            ("cmd"@, seq!["/C"@, "start"@, ""@, url]),
        ),
        review::browser_command(Platform::Other, url) is None,
{
}

// ---------------------------------------------------------------- passwords

/// The hash in a password file is what stands in it between white space, if there is
/// anything.
pub proof fn stored_hash_is(contents: Seq<char>, from: int, to: int)
    requires
        text_laws::is_trimmed(contents, from, to),
    ensures
        password::stored_hash(None) is None,
        password::stored_hash(Some(contents)) == if from == to {
            None
        } else {
            Some(contents.subrange(from, to))
        },
{
    text_laws::trimmed_is(contents, from, to);
}

/// A password file holds the hash and a line feed.
pub proof fn password_file_is(hash: Seq<char>, reason: Seq<char>)
    ensures
        password::password_file(Ok(hash)) == Ok::<Seq<char>, Failure>(hash + seq!['\n']),
        password::password_file(Err(reason)) == Err::<Seq<char>, Failure>(
            Failure::Other("failed to hash password: "@ + reason),
        ),
{
    reveal_strlit("\n");
    assert("\n"@ =~= seq!['\n']);
}

// ---------------------------------------------------------------- addresses

/// The Tailscale address is the first line that is one, with port 3000.
pub proof fn tailscale_address_is(lines: Seq<Seq<char>>, valid: Seq<bool>, k: int)
    requires
        valid.len() == lines.len(),
    ensures
        0 <= k < lines.len() && valid[k] && (forall|i: int| 0 <= i < k ==> !#[trigger] valid[i])
            ==> bind::first_valid(lines, valid) == Ok::<Seq<char>, Failure>(
            lines[k] + seq![':', '3', '0', '0', '0'],
        ),
        (forall|i: int| 0 <= i < lines.len() ==> !#[trigger] valid[i]) ==> bind::first_valid(
            lines,
            valid,
        ) == Err::<Seq<char>, Failure>(
            Failure::Other("'tailscale ip -4' returned no valid IPv4 address"@),
        ),
    decreases lines.len(),
{
    reveal_strlit(":3000");
    assert(":3000"@ =~= seq![':', '3', '0', '0', '0']);
    if lines.len() > 0 && !valid[0] {
        let others = lines.drop_first();
        let answers = valid.drop_first();
        tailscale_address_is(others, answers, k - 1);
        if 0 <= k < lines.len() && valid[k] && (forall|i: int|
            0 <= i < k ==> !#[trigger] valid[i]) {
            assert(k > 0);
            assert(answers[k - 1] == valid[k]);
            assert(others[k - 1] == lines[k]);
            assert forall|i: int| 0 <= i < k - 1 implies !#[trigger] answers[i] by {
                assert(!valid[i + 1]);
            }
        }
        if forall|i: int| 0 <= i < lines.len() ==> !#[trigger] valid[i] {
            assert forall|i: int| 0 <= i < others.len() implies !#[trigger] answers[i] by {
                assert(!valid[i + 1]);
            }
        }
    }
}

/// What Tailscale printed is taken line by line, without the white space around; an
/// error is told.
pub proof fn tailscale_lines_are(success: bool, stdout: Seq<char>, stderr: Seq<char>)
    ensures
        success ==> (bind::address_lines(success, stdout, stderr) matches Ok(lines) && lines.len()
            == text::lines(stdout).len() && forall|k: int|
            0 <= k < lines.len() ==> #[trigger] lines[k] == text::trim(text::lines(stdout)[k])),
        !success ==> bind::address_lines(success, stdout, stderr) == Err::<
            Seq<Seq<char>>,
            Failure,
        >(Failure::Other("'tailscale ip -4' failed: "@ + text::trim(stderr))),
{
}

/// The installed service serves on the Tailscale address where its file holds that
/// argument, else on the address that it holds, else on port 3000 of this machine.
pub proof fn configured_is(contents: Seq<char>, valid: bool)
    ensures
        service::holds_argument(contents, "--tailscale"@) ==> service::configured(contents, valid)
            == Ok::<Target, Failure>(Target::Tailscale),
        !service::holds_argument(contents, "--tailscale"@) ==> match service::value_after(
            contents,
            "--bind"@,
        ) {
            Some(address) => service::configured(contents, valid) == if valid {
                Ok::<Target, Failure>(Target::Address(address))
            } else {
                Err(Failure::Other("invalid bind address; expected IP:PORT"@))
            },
            None => service::configured(contents, valid) == Ok::<Target, Failure>(
                Target::Address("127.0.0.1:3000"@),
            ),
        },
{
}

/// A file holds an argument where it stands in quotes or as a string of a property list.
pub proof fn held_argument_is(contents: Seq<char>, argument: Seq<char>)
    ensures
        service::holds_argument(contents, argument) <==> (exists|at: int|
            text::occurs_at(contents, seq!['"'] + argument + seq!['"'], at)) || (exists|at: int|
            text::occurs_at(contents, "<string>"@ + argument + "</string>"@, at)),
{
    reveal_strlit("\"");
    assert("\""@ =~= seq!['"']);
}

// ---------------------------------------------------------------- UUIDs

/// A UUID is stored with hyphens after its eighth, twelfth, sixteenth and twentieth
/// digit; a text that is one with hyphens is stored as it is, in lower case.
pub proof fn stored_uuid_is(value: Seq<char>)
    requires
        value.len() == 36,
        forall|i: int|
            0 <= i < 36 ==> if i == 8 || i == 13 || i == 18 || i == 23 {
                #[trigger] value[i] == '-'
            } else {
                '0' <= value[i] <= '9' || 'a' <= value[i] <= 'f' || 'A' <= value[i] <= 'F'
            },
    ensures
        ident::canonical_uuid(value) matches Some(uuid) && uuid.len() == 36 && forall|i: int|
            0 <= i < 36 ==> #[trigger] uuid[i] == text::lower(value[i]),
{
    assert(ident::is_hyphenated(value));
}

/// Thirty-two digits without hyphens are stored with them.
pub proof fn bare_uuid_is(value: Seq<char>)
    requires
        value.len() == 32,
        forall|i: int|
            0 <= i < 32 ==> '0' <= #[trigger] value[i] <= '9' || 'a' <= value[i] <= 'f' || 'A'
                <= value[i] <= 'F',
    ensures
        ident::canonical_uuid(value) matches Some(uuid) && uuid.len() == 36 && uuid[8] == '-'
            && uuid[13] == '-' && uuid[18] == '-' && uuid[23] == '-' && (forall|i: int|
            0 <= i < 8 ==> #[trigger] uuid[i] == text::lower(value[i])) && (forall|i: int|
            8 <= i < 12 ==> #[trigger] uuid[i + 1] == text::lower(value[i])) && (forall|i: int|
            12 <= i < 16 ==> #[trigger] uuid[i + 2] == text::lower(value[i])) && (forall|i: int|
            16 <= i < 20 ==> #[trigger] uuid[i + 3] == text::lower(value[i])) && (forall|i: int|
            20 <= i < 32 ==> #[trigger] uuid[i + 4] == text::lower(value[i])),
{
    assert(ident::is_simple(value));
}

/// A UUID in braces, or as a URN in whatever case, is the UUID.
pub proof fn wrapped_uuid_is(value: Seq<char>, urn: Seq<char>)
    requires
        ident::is_hyphenated(value),
        urn.len() == 9,
        forall|i: int|
            0 <= i < 9 ==> text_laws::alike(
                #[trigger] urn[i],
                seq!['u', 'r', 'n', ':', 'u', 'u', 'i', 'd', ':'][i],
            ),
    ensures
        ident::canonical_uuid(seq!['{'] + value + seq!['}']) == ident::canonical_uuid(value),
        ident::canonical_uuid(urn + value) == ident::canonical_uuid(value),
{
    reveal_strlit("urn:uuid:");
    let name = seq!['u', 'r', 'n', ':', 'u', 'u', 'i', 'd', ':'];
    assert("urn:uuid:"@ =~= name);
    text_laws::same_ignoring_case_is(urn, name);
    let braced = seq!['{'] + value + seq!['}'];
    assert(braced.subrange(1, 37) =~= value);
    let long = urn + value;
    assert(long.take(9) =~= urn);
    assert(long.skip(9) =~= value);
}

/// Digits in groups of eight, four, four, four and twelve, with hyphens between.
pub open spec fn has_groups(value: Seq<char>) -> bool {
    value.len() == 36 && forall|i: int|
        0 <= i < 36 ==> if i == 8 || i == 13 || i == 18 || i == 23 {
            #[trigger] value[i] == '-'
        } else {
            '0' <= value[i] <= '9' || 'a' <= value[i] <= 'f' || 'A' <= value[i] <= 'F'
        }
}

proof fn groups_are(value: Seq<char>)
    ensures
        ident::is_hyphenated(value) <==> has_groups(value),
{
    if ident::is_hyphenated(value) {
        assert forall|i: int| 0 <= i < 36 implies if i == 8 || i == 13 || i == 18 || i == 23 {
            #[trigger] value[i] == '-'
        } else {
            '0' <= value[i] <= '9' || 'a' <= value[i] <= 'f' || 'A' <= value[i] <= 'F'
        } by {
            assert(if ident::is_hyphen_place(i) {
                value[i] == '-'
            } else {
                ident::is_hex(value[i])
            });
        }
    }
    if has_groups(value) {
        assert forall|i: int| 0 <= i < 36 implies if ident::is_hyphen_place(i) {
            #[trigger] value[i] == '-'
        } else {
            ident::is_hex(value[i])
        } by {}
    }
}

/// A text is a UUID in four forms: with hyphens, without them, with hyphens in braces,
/// and as a URN.
pub proof fn uuid_forms_are(value: Seq<char>)
    ensures
        ident::canonical_uuid(value) is Some <==> {
            ||| has_groups(value)
            ||| value.len() == 32 && forall|i: int|
                0 <= i < 32 ==> '0' <= #[trigger] value[i] <= '9' || 'a' <= value[i] <= 'f' || 'A'
                    <= value[i] <= 'F'
            ||| value.len() == 38 && value[0] == '{' && value[37] == '}' && has_groups(
                value.subrange(1, 37),
            )
            ||| value.len() == 45 && has_groups(value.skip(9)) && forall|i: int|
                0 <= i < 9 ==> text_laws::alike(
                    #[trigger] value[i],
                    seq!['u', 'r', 'n', ':', 'u', 'u', 'i', 'd', ':'][i],
                )
        },
{
    reveal_strlit("urn:uuid:");
    let name = seq!['u', 'r', 'n', ':', 'u', 'u', 'i', 'd', ':'];
    assert("urn:uuid:"@ =~= name);
    groups_are(value);
    if value.len() == 32 {
        if ident::is_simple(value) {
            assert forall|i: int| 0 <= i < 32 implies '0' <= #[trigger] value[i] <= '9' || 'a'
                <= value[i] <= 'f' || 'A' <= value[i] <= 'F' by {
                assert(ident::is_hex(value[i]));
            }
        }
        if forall|i: int|
            0 <= i < 32 ==> '0' <= #[trigger] value[i] <= '9' || 'a' <= value[i] <= 'f' || 'A'
                <= value[i] <= 'F' {
            assert(ident::is_simple(value));
        }
    }
    if value.len() == 38 {
        groups_are(value.subrange(1, 37));
    }
    if value.len() == 45 {
        groups_are(value.skip(9));
        let start = value.take(9);
        text_laws::same_ignoring_case_is(start, name);
        if text::same_ignoring_case(start, name) {
            assert forall|i: int| 0 <= i < 9 implies text_laws::alike(
                #[trigger] value[i],
                name[i],
            ) by {
                assert(text_laws::alike(start[i], name[i]));
            }
        }
        if forall|i: int|
            0 <= i < 9 ==> text_laws::alike(
                #[trigger] value[i],
                seq!['u', 'r', 'n', ':', 'u', 'u', 'i', 'd', ':'][i],
            ) {
            assert forall|i: int| 0 <= i < 9 implies text_laws::alike(
                #[trigger] start[i],
                name[i],
            ) by {
                assert(text_laws::alike(value[i], name[i]));
            }
        }
    }
}

/// A text of another length is no UUID.
pub proof fn other_lengths_are_none(value: Seq<char>)
    requires
        value.len() != 32,
        value.len() != 36,
        value.len() != 38,
        value.len() != 45,
    ensures
        ident::canonical_uuid(value) is None,
{
}

/// A text that ends or begins with anything but a digit, a brace or the name of URNs is
/// no UUID.
pub proof fn stray_characters_are_none(value: Seq<char>, i: int)
    requires
        0 <= i < value.len(),
        value.len() == 32 || value.len() == 36,
        !ident::is_hex(value[i]),
        value[i] != '-',
    ensures
        ident::canonical_uuid(value) is None,
{
    if ident::is_hyphenated(value) {
        assert(ident::is_hyphen_place(i) || ident::is_hex(value[i]));
    }
    if ident::is_simple(value) {
        assert(ident::is_hex(value[i]));
    }
}

// ---------------------------------------------------------------- attributes

/// Of the classes of code those are kept that begin with `language-`, in their order,
/// with single spaces between; where there is none, the attribute goes. Every other
/// attribute is kept as it is.
pub proof fn kept_attribute_is(element: Seq<char>, attribute: Seq<char>, value: Seq<char>)
    ensures
        ({
            let languages = text::words(value, true).filter(
                |class: Seq<char>|
                    class.len() >= 9 && class.take(9) == seq![
                        'l',
                        'a',
                        'n',
                        'g',
                        'u',
                        'a',
                        'g',
                        'e',
                        '-',
                    ],
            );
            let kept = markdown::attribute_kept(element, attribute, value);
            if element == seq!['c', 'o', 'd', 'e'] && attribute == seq!['c', 'l', 'a', 's', 's'] {
                if languages.len() == 0 {
                    kept is None
                } else {
                    kept == Some(text::join(languages, seq![' ']))
                }
            } else {
                kept == Some(value)
            }
        }),
{
    reveal_strlit("code");
    reveal_strlit("class");
    reveal_strlit("language-");
    reveal_strlit(" ");
    assert("code"@ =~= seq!['c', 'o', 'd', 'e']);
    assert("class"@ =~= seq!['c', 'l', 'a', 's', 's']);
    assert(" "@ =~= seq![' ']);
    let start = seq!['l', 'a', 'n', 'g', 'u', 'a', 'g', 'e', '-'];
    assert("language-"@ =~= start);
    let keep = |class: Seq<char>| text::occurs_at(class, "language-"@, 0);
    let wanted = |class: Seq<char>|
        class.len() >= 9 && class.take(9) == seq!['l', 'a', 'n', 'g', 'u', 'a', 'g', 'e', '-'];
    assert forall|class: Seq<char>| #[trigger] keep(class) == wanted(class) by {
        if class.len() >= 9 {
            assert(class.subrange(0, 9) =~= class.take(9));
        }
    }
    assert(keep =~= wanted);
}

/// Looking up a token takes away what was opened under it once its time is over, and
/// nothing else.
pub proof fn looked_up_gates_are(list: Seq<GateRow>, i: int, token: Seq<char>, now: u64)
    requires
        gates::gates_wf(list),
    ensures
        0 <= i < list.len() && list[i].token == token ==> gates::looked_up(list, token, now)
            == if now < list[i].expires_at {
            list
        } else {
            list.remove(i)
        },
        (forall|k: int| 0 <= k < list.len() ==> (#[trigger] list[k]).token != token)
            ==> gates::looked_up(list, token, now) == list,
{
    if 0 <= i < list.len() && list[i].token == token {
        let k = gates::gate_index(list, token);
        assert(gates::has_gate(list, token));
        assert(gates::tokens(list)[k] == gates::tokens(list)[i]);
    }
}

/// A gate that was opened stands behind those whose time is not over, under the token
/// that is handed out, which none of them has.
pub proof fn gate_opened_is(
    before: Seq<GateRow>,
    artifact_uuid: Seq<char>,
    now: u64,
    token: Seq<char>,
    result: Result<String, crate::error::Error>,
    after: Seq<GateRow>,
)
    requires
        now + 1_800_000 <= u64::MAX,
        gates::gate_opened(before, artifact_uuid, now, token, result, after),
    ensures
        token.len() == 48,
        match result {
            Ok(given) => {
                let left = before.filter(|gate: GateRow| now < gate.expires_at);
                &&& given@ == token
                &&& after.len() == left.len() + 1
                &&& after.drop_last() == left
                &&& after.last().token == token
                &&& after.last().artifact_uuid == artifact_uuid
                &&& after.last().expires_at == now + 1_800_000
                &&& after.last().outcome is None
                &&& forall|k: int| 0 <= k < left.len() ==> (#[trigger] left[k]).token != token
            },
            Err(_) => after == before.filter(|gate: GateRow| now < gate.expires_at) && exists|
                k: int,
            |
                0 <= k < after.len() && (#[trigger] after[k]).token == token,
        },
{
    let keep = |gate: GateRow| gate.expires_at > now;
    let wanted = |gate: GateRow| now < gate.expires_at;
    assert(keep =~= wanted);
    let left = gates::live(before, now);
    if result is Ok {
        assert(after.drop_last() =~= left);
        assert forall|k: int| 0 <= k < left.len() implies (#[trigger] left[k]).token != token by {
            assert(!gates::has_gate(left, token));
        }
    } else {
        let k = gates::gate_index(left, token);
        assert(after[k].token == token);
    }
}

/// The review page of an artifact is shown to whom has an open gate for it, as long as
/// the artifact is there.
pub proof fn review_page_is(
    state: crate::state::State,
    list: Seq<GateRow>,
    i: int,
    uuid: Seq<char>,
    now: u64,
)
    requires
        gates::gates_wf(list),
        0 <= i < list.len(),
    ensures
        ({
            let shown = web::review_access(state, list, uuid, list[i].token, now);
            &&& now >= list[i].expires_at ==> shown == Err::<(), Failure>(
                Failure::NotFound("review gate not found or expired"@),
            )
            &&& now < list[i].expires_at && list[i].artifact_uuid != uuid ==> shown == Err::<
                (),
                Failure,
            >(Failure::Invalid("review gate does not belong to this artifact"@))
            &&& now < list[i].expires_at && list[i].artifact_uuid == uuid ==> shown
                == match state.read_artifact(uuid) {
                Ok(_) => Ok::<(), Failure>(()),
                Err(failure) => Err(failure),
            }
        }),
{
    open_gate_is(list, i, list[i].token, now);
}

/// A login without a password that can be checked opens no session.
pub proof fn refused_login_is(
    enabled: bool,
    stored: StoredPassword,
    password: Seq<char>,
    before: SessionRow,
    token: Seq<char>,
    reply: web::LoginReply,
    after: SessionRow,
)
    requires
        web::logged_in(enabled, stored, password, before, token, reply, after),
    ensures
        token.len() == 64,
        !enabled ==> (reply matches web::LoginReply::Refused(status, message) && status == 404
            && message@ == "authentication is not enabled"@) && after == before,
        enabled && stored is Unset ==> (reply matches web::LoginReply::Refused(status, message)
            && status == 503 && message@ == "password authentication is not configured"@) && after
            == before,
        enabled && stored is Unreadable ==> (reply matches web::LoginReply::Refused(
            status,
            message,
        ) && status == 500 && message@ == "internal server error"@) && after == before,
        enabled && stored is Hash && !password::argon2_accepts(password, stored->Hash_0@) ==> (
        reply matches web::LoginReply::Refused(status, message) && status == 401 && message@
            == "invalid password"@) && after == before,
        enabled && stored is Hash && password::argon2_accepts(password, stored->Hash_0@) ==> (
        reply matches web::LoginReply::Opened(cookie) && cookie@ == cookie_name() + token
            + "; Path=/; HttpOnly; SameSite=Strict"@) && after.tokens.contains(token)
            && after.password_hash == Some(stored->Hash_0@),
{
    session_cookie_is(token);
    if enabled && stored is Hash {
        opened_session_is(before, stored->Hash_0@, token, token);
    }
}

/// A path is followed by the UUID of the artifact in brackets, if there is one.
pub proof fn located_is(path: Seq<char>, uuid: Seq<char>)
    ensures
        crate::model::located(path, None) == path,
        crate::model::located(path, Some(uuid)) == path + seq![' ', '['] + uuid + seq![']'],
{
    reveal_strlit(" [");
    reveal_strlit("]");
    assert(" ["@ =~= seq![' ', '[']);
    assert("]"@ =~= seq![']']);
}

// ---------------------------------------------------------------- migrations

/// A migration creates the missing tables first; it adds the columns that are missing,
/// each before the version that needs it is recorded, and records the versions in order.
pub proof fn migration_steps_are(columns: crate::schema::Columns)
    ensures
        ({
            let steps = crate::schema::steps(columns);
            &&& steps[0] == crate::schema::MigrationStep::CreateTables
            &&& steps[1] == crate::schema::MigrationStep::RecordVersion(1)
            &&& steps.last() == crate::schema::MigrationStep::RecordVersion(4)
            &&& steps.len() == 5 + (if columns.artifact_name {
                0int
            } else {
                1
            }) + (if columns.task_archived_at {
                0int
            } else {
                1
            }) + (if columns.task_completed_at {
                0int
            } else {
                1
            })
            &&& exists|two: int, three: int|
                #![trigger steps[two], steps[three]]
                {
                    &&& 1 < two < three < steps.len() - 1
                    &&& steps[two] == crate::schema::MigrationStep::RecordVersion(2)
                    &&& steps[three] == crate::schema::MigrationStep::RecordVersion(3)
                    &&& if columns.artifact_name {
                        two == 2
                    } else {
                        two == 3 && steps[2] == crate::schema::MigrationStep::AddColumn(
                            crate::schema::Column::ArtifactName,
                        )
                    }
                    &&& if columns.task_archived_at {
                        three == two + 1
                    } else {
                        three == two + 2 && steps[two + 1]
                            == crate::schema::MigrationStep::AddColumn(
                            crate::schema::Column::TaskArchivedAt,
                        )
                    }
                    &&& if columns.task_completed_at {
                        steps.len() == three + 2
                    } else {
                        steps.len() == three + 3 && steps[three + 1]
                            == crate::schema::MigrationStep::AddColumn(
                            crate::schema::Column::TaskCompletedAt,
                        )
                    }
                }
        }),
{
    let steps = crate::schema::steps(columns);
    let two = if columns.artifact_name {
        2int
    } else {
        3
    };
    let three = if columns.task_archived_at {
        two + 1
    } else {
        two + 2
    };
    assert(steps[two] == crate::schema::MigrationStep::RecordVersion(2));
    assert(steps[three] == crate::schema::MigrationStep::RecordVersion(3));
}

} // verus!
