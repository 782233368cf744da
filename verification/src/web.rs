//! The rules of the web server: who may ask, and what is answered.

use vstd::prelude::*;
use vstd::string::*;

use crate::app;
use crate::app::App;
use crate::error;
use crate::error::{invalid, other, Error, Failure};
use crate::gates;
use crate::gates::{GateRow, ReviewGates};
use crate::ident;
use crate::markdown;
use crate::model;
use crate::model::{Annotation, Artifact, Task};
use crate::password;
use crate::state;
use crate::state::State;
use crate::store;
use crate::text;

verus! {

// ---------------------------------------------------------------- sessions

/// The sessions that were opened since the password was last set.
#[derive(Debug)]
pub struct SessionState {
    /// The hash for which the sessions were opened.
    pub password_hash: Option<String>,
    pub tokens: Vec<String>,
}

/// The view of the sessions.
#[verifier::ext_equal]
pub struct SessionRow {
    pub password_hash: Option<Seq<char>>,
    pub tokens: Seq<Seq<char>>,
}

impl View for SessionState {
    type V = SessionRow;

    open spec fn view(&self) -> SessionRow {
        SessionRow {
            password_hash: text::optional(self.password_hash),
            tokens: text::texts(self.tokens@),
        }
    }
}

/// The sessions for the hash that is stored now: none if it is another one.
pub open spec fn synchronized(sessions: SessionRow, hash: Option<Seq<char>>) -> SessionRow {
    if sessions.password_hash != hash {
        SessionRow { password_hash: hash, tokens: Seq::empty() }
    } else {
        sessions
    }
}

/// The sessions with one more.
pub open spec fn with_session(
    sessions: SessionRow,
    hash: Seq<char>,
    token: Seq<char>,
) -> SessionRow {
    let current = synchronized(sessions, Some(hash));
    if current.tokens.contains(token) {
        current
    } else {
        SessionRow { tokens: current.tokens.push(token), ..current }
    }
}

impl Default for SessionState {
    fn default() -> (sessions: Self)
        ensures
            sessions@ == (SessionRow { password_hash: None, tokens: Seq::empty() }),
    {
        let sessions = SessionState { password_hash: None, tokens: Vec::new() };
        assert(sessions@.tokens =~= Seq::empty());
        sessions
    }
}

/// Forgets the sessions if the stored hash has changed.
pub fn synchronize_sessions(sessions: &mut SessionState, current_hash: Option<&str>)
    ensures
        final(sessions)@ == synchronized(old(sessions)@, text::optional_str(current_hash)),
{
    if !text::same_optional(text::borrow_optional(&sessions.password_hash), current_hash) {
        sessions.password_hash = text::own_optional(current_hash);
        sessions.tokens = Vec::new();
        assert(sessions@.tokens =~= Seq::empty());
    }
}

fn has_token(sessions: &SessionState, token: &str) -> (answer: bool)
    ensures
        answer == sessions@.tokens.contains(token@),
{
    for i in 0..sessions.tokens.len()
        invariant
            forall|j: int| 0 <= j < i ==> sessions@.tokens[j] != token@,
    {
        if text::same(sessions.tokens[i].as_str(), token) {
            assert(sessions@.tokens[i as int] == token@);
            return true;
        }
    }
    false
}

// ---------------------------------------------------------------- cookies

/// The name of the cookie that holds the token of a session.
pub const SESSION_COOKIE: &'static str = "alx_session";

/// The token in one part of a cookie header.
pub open spec fn part_token(part: Seq<char>) -> Option<Seq<char>> {
    let pair = text::trim(part);
    let at = text::position(pair, '=', 0);
    if at < pair.len() && pair.take(at) == SESSION_COOKIE@ {
        Some(pair.skip(at + 1))
    } else {
        None
    }
}

/// The first token in the parts of a cookie header.
pub open spec fn parts_token(parts: Seq<Seq<char>>) -> Option<Seq<char>>
    decreases parts.len(),
{
    if parts.len() == 0 {
        None
    } else {
        match part_token(parts[0]) {
            Some(token) => Some(token),
            None => parts_token(parts.drop_first()),
        }
    }
}

/// The token in a cookie header.
pub open spec fn cookie_token(cookie: Seq<char>) -> Option<Seq<char>> {
    parts_token(text::split(cookie, ';'))
}

fn token_in_part(part: &str) -> (token: Option<String>)
    ensures
        text::optional(token) == part_token(part@),
{
    let pair = text::trimmed(part);
    let chars = text::chars_of(pair.as_str());
    let at = text::position_of(&chars, '=', 0);
    if at < chars.len() {
        let name = text::text_between(&chars, 0, at);
        assert(name@ =~= pair@.take(at as int));
        if text::same(name.as_str(), SESSION_COOKIE) {
            let value = text::text_between(&chars, at + 1, chars.len());
            assert(value@ =~= pair@.skip(at + 1));
            return Some(value);
        }
    }
    None
}

/// The token in a cookie header.
pub fn session_token(cookie: &str) -> (token: Option<String>)
    ensures
        text::optional(token) == cookie_token(cookie@),
{
    let parts = text::split_at_each(cookie, ';');
    let ghost all = text::texts(parts@);
    assert(all.skip(0) =~= all);
    for i in 0..parts.len()
        invariant
            all == text::texts(parts@),
            parts_token(all.skip(i as int)) == cookie_token(cookie@),
    {
        assert(all.skip(i as int)[0] == parts@[i as int]@);
        if let Some(token) = token_in_part(parts[i].as_str()) {
            return Some(token);
        }
        assert(all.skip(i as int).drop_first() =~= all.skip(i + 1));
    }
    None
}

// ---------------------------------------------------------------- access

/// What becomes of a request where a password is asked for.
#[derive(Clone, Copy, Debug, PartialEq, Eq, Structural)]
pub enum Access {
    /// It is served.
    Granted,
    /// The browser is sent to the login page.
    Login,
    /// No password is set.
    NotConfigured,
    /// The session is missing or over.
    Refused,
}

/// The pages that are served to everyone.
pub open spec fn is_open(path: Seq<char>) -> bool {
    path == "/login"@ || path == "/api/login"@
}

/// A cookie header holds the token of a session.
pub open spec fn recognized(sessions: SessionRow, cookie: Option<Seq<char>>) -> bool {
    match cookie {
        Some(cookie) => match cookie_token(cookie) {
            Some(token) => sessions.tokens.contains(token),
            None => false,
        },
        None => false,
    }
}

/// What becomes of a request, with the hash that is stored now and the cookies
/// that it carries.
pub open spec fn access(
    path: Seq<char>,
    is_get: bool,
    hash: Option<Seq<char>>,
    cookie: Option<Seq<char>>,
    sessions: SessionRow,
) -> Access {
    if is_open(path) {
        Access::Granted
    } else if hash is None {
        Access::NotConfigured
    } else if recognized(synchronized(sessions, hash), cookie) {
        Access::Granted
    } else if is_get && path == "/"@ {
        Access::Login
    } else {
        Access::Refused
    }
}

/// What becomes of a request where a password is asked for. The sessions of
/// another password are forgotten.
pub fn authenticate(
    path: &str,
    is_get: bool,
    current_hash: Option<&str>,
    cookie: Option<&str>,
    sessions: &mut SessionState,
) -> (decision: Access)
    ensures
        decision == access(
            path@,
            is_get,
            text::optional_str(current_hash),
            text::optional_str(cookie),
            old(sessions)@,
        ),
        final(sessions)@ == if is_open(path@) {
            old(sessions)@
        } else {
            synchronized(old(sessions)@, text::optional_str(current_hash))
        },
{
    if text::same(path, "/login") || text::same(path, "/api/login") {
        return Access::Granted;
    }
    synchronize_sessions(sessions, current_hash);
    if current_hash.is_none() {
        return Access::NotConfigured;
    }
    if let Some(cookie) = cookie {
        if let Some(token) = session_token(cookie) {
            if has_token(sessions, token.as_str()) {
                return Access::Granted;
            }
        }
    }
    if is_get && text::same(path, "/") {
        Access::Login
    } else {
        Access::Refused
    }
}

/// What a refused request is answered: the status and the text.
pub open spec fn refusal(decision: Access) -> Option<(u16, Seq<char>)> {
    match decision {
        Access::Granted => None,
        Access::Login => Some((303, "/login"@)),
        Access::NotConfigured => Some((503, "password authentication is not configured"@)),
        Access::Refused => Some((401, "authentication required"@)),
    }
}

/// What a refused request is answered: the status and the text. Of a redirection
/// the text is its target.
pub fn refusal_reply(decision: Access) -> (reply: Option<(u16, &'static str)>)
    ensures
        match (refusal(decision), reply) {
            (Some(wanted), Some(reply)) => reply.0 == wanted.0 && reply.1@ == wanted.1,
            (None, None) => true,
            _ => false,
        },
{
    match decision {
        Access::Granted => None,
        Access::Login => Some((303, "/login")),
        Access::NotConfigured => Some((503, "password authentication is not configured")),
        Access::Refused => Some((401, "authentication required")),
    }
}

// ---------------------------------------------------------------- login

/// What the password file said.
#[derive(Debug)]
pub enum StoredPassword {
    Hash(String),
    Unset,
    Unreadable,
}

/// What a login is answered.
#[derive(Debug, PartialEq, Eq)]
pub enum LoginReply {
    /// A session was opened: the cookie to set.
    Opened(String),
    /// The status and the text of the refusal.
    Refused(u16, &'static str),
}

/// The cookie of a session.
pub open spec fn session_cookie(token: Seq<char>) -> Seq<char> {
    "alx_session="@ + token + "; Path=/; HttpOnly; SameSite=Strict"@
}

/// What a login is answered where no session is opened.
pub open spec fn login_refusal(enabled: bool, stored: StoredPassword, accepted: bool) -> Option<
    (u16, Seq<char>),
> {
    if !enabled {
        Some((404, "authentication is not enabled"@))
    } else {
        match stored {
            StoredPassword::Unset => Some((503, "password authentication is not configured"@)),
            StoredPassword::Unreadable => Some((500, "internal server error"@)),
            StoredPassword::Hash(_) => if accepted {
                None
            } else {
                Some((401, "invalid password"@))
            },
        }
    }
}

/// What a login is answered, and the sessions after it, where `accepted` says
/// whether the password is right and `token` is the token of a new session.
pub fn login_with(
    enabled: bool,
    stored: StoredPassword,
    accepted: bool,
    token: String,
    sessions: &mut SessionState,
) -> (reply: LoginReply)
    ensures
        match (login_refusal(enabled, stored, accepted), reply) {
            (Some(refusal), LoginReply::Refused(status, message)) => status == refusal.0
                && message@ == refusal.1 && final(sessions)@ == old(sessions)@,
            (None, LoginReply::Opened(cookie)) => {
                &&& cookie@ == session_cookie(token@)
                &&& stored matches StoredPassword::Hash(hash)
                &&& final(sessions)@ == with_session(old(sessions)@, hash@, token@)
            },
            _ => false,
        },
{
    if !enabled {
        return LoginReply::Refused(404, "authentication is not enabled");
    }
    match stored {
        StoredPassword::Unset => LoginReply::Refused(
            503,
            "password authentication is not configured",
        ),
        StoredPassword::Unreadable => LoginReply::Refused(500, "internal server error"),
        StoredPassword::Hash(hash) => {
            if !accepted {
                return LoginReply::Refused(401, "invalid password");
            }
            synchronize_sessions(sessions, Some(hash.as_str()));
            let cookie = text::concat3(
                "alx_session=",
                token.as_str(),
                "; Path=/; HttpOnly; SameSite=Strict",
            );
            if !has_token(sessions, token.as_str()) {
                let ghost before = sessions@.tokens;
                let ghost added = token@;
                sessions.tokens.push(token);
                assert(sessions@.tokens =~= before.push(added));
            }
            LoginReply::Opened(cookie)
        },
    }
}

/// What a login is answered, for one of the tokens that could be drawn.
pub open spec fn logged_in(
    enabled: bool,
    stored: StoredPassword,
    password: Seq<char>,
    before: SessionRow,
    token: Seq<char>,
    reply: LoginReply,
    after: SessionRow,
) -> bool {
    &&& token.len() == 64
    &&& text::is_hex_text(token)
    &&& match (
        login_refusal(
            enabled,
            stored,
            stored matches StoredPassword::Hash(hash) && password::argon2_accepts(password, hash@),
        ),
        reply,
    ) {
        (Some(refusal), LoginReply::Refused(status, message)) => status == refusal.0 && message@
            == refusal.1 && after == before,
        (None, LoginReply::Opened(cookie)) => {
            &&& cookie@ == session_cookie(token)
            &&& stored matches StoredPassword::Hash(hash)
            &&& after == with_session(before, hash@, token)
        },
        _ => false,
    }
}

/// Logs in with a password.
pub fn api_login(
    enabled: bool,
    stored: StoredPassword,
    password: &str,
    sessions: &mut SessionState,
) -> (reply: LoginReply)
    ensures
        exists|token: Seq<char>| #[trigger]
            logged_in(
                enabled,
                stored,
                password@,
                old(sessions)@,
                token,
                reply,
                final(sessions)@,
            ),
{
    let accepted = match &stored {
        StoredPassword::Hash(hash) => password::verify_password(password, hash.as_str()),
        _ => false,
    };
    let bytes: [u8; 32] = ident::random_bytes();
    let token = text::hex_of(&bytes);
    let ghost drawn = token@;
    proof {
        text::hex_has_digits(bytes@);
    }
    let reply = login_with(enabled, stored, accepted, token, sessions);
    assert(logged_in(enabled, stored, password@, old(sessions)@, drawn, reply, sessions@));
    reply
}

// ---------------------------------------------------------------- hosts and origins

/// The host in an authority, such as that of a `Host` header: what
/// `http::uri::Authority` reads, without user and port.
pub uninterp spec fn authority_host(authority: Seq<char>) -> Option<Seq<char>>;

/// Parses with `axum::http::uri::Authority::from_str` and takes `host` of it. The
/// result is named.
#[verifier::external_body]
fn host_in(authority: &str) -> (host: Option<String>)
    ensures
        text::optional(host) == authority_host(authority@),
{
    let authority = authority.parse::<axum::http::uri::Authority>().ok()?;
    Some(authority.host().to_owned())
}

/// The scheme and the authority of a URI, as far as it has them.
pub uninterp spec fn uri_parts(uri: Seq<char>) -> Option<(Option<Seq<char>>, Option<Seq<char>>)>;

/// The views of a scheme and an authority.
pub open spec fn parts_view(parts: Option<(Option<String>, Option<String>)>) -> Option<
    (Option<Seq<char>>, Option<Seq<char>>),
> {
    match parts {
        Some(parts) => Some((text::optional(parts.0), text::optional(parts.1))),
        None => None,
    }
}

/// Parses with `axum::http::Uri::from_str` and takes `scheme_str` and `authority`
/// of it. The result is named.
#[verifier::external_body]
fn parts_of(uri: &str) -> (parts: Option<(Option<String>, Option<String>)>)
    ensures
        parts_view(parts) == uri_parts(uri@),
{
    let uri = uri.parse::<axum::http::Uri>().ok()?;
    let scheme = uri.scheme_str().map(|scheme| scheme.to_owned());
    let authority = uri.authority().map(|authority| authority.as_str().to_owned());
    Some((scheme, authority))
}

/// The host that a request names in its `Host` header, if it can be read.
pub fn requested_host(authority: &str) -> (host: Option<String>)
    ensures
        text::optional(host) == authority_host(authority@),
{
    host_in(authority)
}

/// A host that cannot have been chosen by someone else: this machine by name, or an
/// IP address.
pub open spec fn is_trusted_host(host: Option<Seq<char>>, is_ip: bool) -> bool {
    match host {
        Some(host) => text::same_ignoring_case(host, "localhost"@) || is_ip,
        None => false,
    }
}

/// Whether a host is trusted. `is_ip` says whether it is an IP address.
pub fn valid_host(host: Option<&str>, is_ip: bool) -> (answer: bool)
    ensures
        answer == is_trusted_host(text::optional_str(host), is_ip),
{
    match host {
        Some(host) => text::equal_ignoring_case(host, "localhost") || is_ip,
        None => false,
    }
}

/// The origin with these parts is the host.
pub open spec fn is_same_origin(
    parts: Option<(Option<Seq<char>>, Option<Seq<char>>)>,
    host: Seq<char>,
) -> bool {
    match parts {
        Some((Some(scheme), Some(authority))) => (scheme == "http"@ || scheme == "https"@)
            && text::same_ignoring_case(authority, host),
        _ => false,
    }
}

/// Whether the origin with these parts is the host.
pub fn same_origin_parts(parts: Option<(Option<String>, Option<String>)>, host: &str) -> (answer:
    bool)
    ensures
        answer == is_same_origin(parts_view(parts), host@),
{
    match parts {
        Some((Some(scheme), Some(authority))) => (text::same(scheme.as_str(), "http") || text::same(
            scheme.as_str(),
            "https",
        )) && text::equal_ignoring_case(authority.as_str(), host),
        _ => false,
    }
}

/// Whether an origin is the host.
pub fn same_origin(origin: &str, host: &str) -> (answer: bool)
    ensures
        answer == is_same_origin(uri_parts(origin@), host@),
{
    same_origin_parts(parts_of(origin), host)
}

/// A header of a request: absent, not readable as text, or a text.
#[derive(Debug, PartialEq, Eq)]
pub enum Header {
    Absent,
    Unreadable,
    Value(String),
}

/// Why a request from a browser is refused, if it is. `trusted` says whether the
/// host is trusted, and `same` whether the origin is the host.
pub open spec fn browser_refusal(
    host: Header,
    origin: Header,
    trusted: bool,
    same: bool,
) -> Option<Seq<char>> {
    match host {
        Header::Absent => None,
        Header::Unreadable => Some("invalid Host header"@),
        Header::Value(_) => if !trusted {
            Some("Host must be an IP address or localhost"@)
        } else {
            match origin {
                Header::Absent => None,
                Header::Unreadable => Some("invalid Origin header"@),
                Header::Value(_) => if same {
                    None
                } else {
                    Some("cross-origin requests are not allowed"@)
                },
            }
        },
    }
}

/// Why a request from a browser is refused, if it is. `is_ip` says whether the
/// host is an IP address. Only requests to an IP address or `localhost` are
/// served, and from another origin none.
pub fn validate_browser_request(host: &Header, origin: &Header, is_ip: bool) -> (refusal: Option<
    &'static str,
>)
    ensures
        text::optional_str(refusal) == browser_refusal(
            *host,
            *origin,
            *host matches Header::Value(host) && is_trusted_host(authority_host(host@), is_ip),
            *host matches Header::Value(host) && *origin matches Header::Value(origin)
                && is_same_origin(uri_parts(origin@), host@),
        ),
{
    match host {
        Header::Absent => None,
        Header::Unreadable => Some("invalid Host header"),
        Header::Value(host) => {
            let name = requested_host(host.as_str());
            if !valid_host(text::borrow_optional(&name), is_ip) {
                return Some("Host must be an IP address or localhost");
            }
            match origin {
                Header::Absent => None,
                Header::Unreadable => Some("invalid Origin header"),
                Header::Value(origin) => if same_origin(origin.as_str(), host.as_str()) {
                    None
                } else {
                    Some("cross-origin requests are not allowed")
                },
            }
        },
    }
}

// ---------------------------------------------------------------- answers

/// What an error is answered: the status and the text. An error that is not about
/// the request is not shown.
pub open spec fn error_answer(failure: Failure) -> (u16, Seq<char>) {
    match failure {
        Failure::NotFound(message) => (404, message),
        Failure::Invalid(message) => (400, message),
        Failure::Other(_) => (500, "internal server error"@),
    }
}

/// What an error is answered: the status and the text.
pub fn error_reply(error: &Error) -> (reply: (u16, String))
    ensures
        (reply.0, reply.1@) == error_answer(error@),
{
    match error {
        Error::Domain(domain) => match domain.kind {
            error::DomainErrorKind::NotFound => (404, domain.message.clone()),
            error::DomainErrorKind::Invalid => (400, domain.message.clone()),
        },
        Error::Other(_) => (500, "internal server error".to_owned()),
    }
}

/// Whether a server on an address asks for a password. Away from loopback
/// addresses it does, and one must be set.
pub open spec fn serving(loopback: bool, has_password: bool) -> Result<bool, Failure> {
    if loopback {
        Ok(false)
    } else if has_password {
        Ok(true)
    } else {
        Err(
            Failure::Other(
                "non-loopback serving requires a password; set one with `alx serve password set`"@,
            ),
        )
    }
}

/// Whether a server on an address asks for a password.
pub fn serve_with_auth(loopback: bool, has_password: bool) -> (result: Result<bool, Error>)
    ensures
        match (serving(loopback, has_password), result) {
            (Ok(wanted), Ok(auth)) => auth == wanted,
            (Err(failure), Err(error)) => error@ == failure,
            _ => false,
        },
{
    if loopback {
        return Ok(false);
    }
    if !has_password {
        return Err(
            other(
                "non-loopback serving requires a password; set one with `alx serve password set`".to_owned(),
            ),
        );
    }
    Ok(true)
}

/// A task as the web page shows it.
#[derive(Debug, PartialEq, Eq)]
pub struct TaskView {
    pub task: Task,
    pub artifacts: Vec<Artifact>,
    pub rendered_task_html: String,
}

/// An artifact as the web page shows it.
#[derive(Debug, PartialEq, Eq)]
pub struct ArtifactView {
    pub artifact: Artifact,
    pub rendered_html: String,
    pub annotations: Vec<Annotation>,
}

/// A Markdown text as HTML that is safe to show.
pub open spec fn rendered(markdown: Seq<char>) -> Seq<char> {
    markdown::sanitized(
        markdown::markdown_to_html(markdown),
        markdown::IMAGE_TAG@,
        markdown::CODE_TAG@,
        markdown::CLASS_ATTRIBUTE@,
    )
}

/// A task with its artifacts and its text as HTML.
pub fn api_task(app: &App, key: &str) -> (result: Result<TaskView, Error>)
    requires
        app@.wf(),
    ensures
        match (app@.read_task(key@), result) {
            (Ok(task), Ok(shown)) => shown.task@ == task && markdown::lists_artifacts_of(
                app@,
                task.uuid,
                model::rows(shown.artifacts@),
            ) && shown.rendered_task_html@ == rendered(task.body),
            (Ok(task), Err(error)) => app@.task_named(task.uuid) == Err::<int, Failure>(error@),
            (Err(failure), Err(error)) => error@ == failure,
            _ => false,
        },
{
    let task = match app.read_task(key) {
        Err(error) => {
            return Err(error);
        },
        Ok(task) => task,
    };
    let artifacts = match app.list_artifacts(task.uuid.as_str(), None) {
        Err(error) => {
            return Err(error);
        },
        Ok(artifacts) => artifacts,
    };
    let rendered_task_html = markdown::render_markdown(task.body.as_str());
    Ok(TaskView { task, artifacts, rendered_task_html })
}

/// An artifact with its unresolved annotations and its text as HTML.
pub fn api_artifact(app: &App, uuid: &str) -> (result: Result<ArtifactView, Error>)
    requires
        app@.wf(),
    ensures
        match (app@.read_artifact(uuid@), result) {
            (Ok(artifact), Ok(shown)) => shown.artifact@ == artifact && app@.lists_annotations(
                artifact.uuid,
                false,
                model::rows(shown.annotations@),
            ) && shown.rendered_html@ == rendered(artifact.body),
            (Err(failure), Err(error)) => error@ == failure,
            _ => false,
        },
{
    let artifact = match app.read_artifact(uuid) {
        Err(error) => {
            return Err(error);
        },
        Ok(artifact) => artifact,
    };
    let annotations = match app.list_annotations(uuid, false) {
        Err(error) => {
            return Err(error);
        },
        Ok(annotations) => annotations,
    };
    let rendered_html = markdown::render_markdown(artifact.body.as_str());
    Ok(ArtifactView { artifact, rendered_html, annotations })
}

/// Deletes a task, if that was confirmed.
pub fn api_delete_task(app: &mut App, key: &str, confirm: bool) -> (result: Result<(), Error>)
    requires
        old(app)@.wf(),
    ensures
        final(app)@.wf(),
        state::order_kept(old(app)@, final(app)@),
        final(app).auth_path() == old(app).auth_path(),
        store::took_place(
            result,
            old(app)@,
            final(app)@,
            if confirm {
                old(app)@.delete_task(key@)
            } else {
                Err(Failure::Invalid("task deletion requires explicit confirmation"@))
            },
        ),
{
    if !confirm {
        return Err(invalid("task deletion requires explicit confirmation".to_owned()));
    }
    app.delete_task(key)
}

/// Opens a gate for the review of an artifact that can be changed.
pub fn api_create_review_gate(
    app: &App,
    gates: &mut ReviewGates,
    artifact_uuid: &str,
    now: u64,
) -> (result: Result<String, Error>)
    requires
        app@.wf(),
        gates::gates_wf(old(gates)@),
        now + gates::REVIEW_GATE_TTL <= u64::MAX,
    ensures
        gates::gates_wf(final(gates)@),
        match app::reviewable(app@, artifact_uuid@) {
            Ok(artifact) => exists|token: Seq<char>| #[trigger]
                gates::gate_opened(
                    old(gates)@,
                    artifact.uuid,
                    now,
                    token,
                    result,
                    final(gates)@,
                ),
            Err(failure) => result is Err && result->Err_0@ == failure && final(gates)@ == old(
                gates,
            )@,
        },
{
    match app.ensure_artifact_writable(artifact_uuid) {
        Err(error) => Err(error),
        Ok(artifact) => gates.create(artifact.uuid.as_str(), now),
    }
}

/// Whether the review page of an artifact is shown: the review gate must be open and
/// belong to the artifact, and the artifact must exist.
pub open spec fn review_access(
    state: State,
    gates: Seq<GateRow>,
    uuid: Seq<char>,
    gate: Seq<char>,
    now: u64,
) -> Result<(), Failure> {
    match gates::open_gate(gates, gate, now) {
        Err(failure) => Err(failure),
        Ok(i) => if gates[i].artifact_uuid != uuid {
            Err(Failure::Invalid("review gate does not belong to this artifact"@))
        } else {
            match state.read_artifact(uuid) {
                Err(failure) => Err(failure),
                Ok(_) => Ok(()),
            }
        },
    }
}

/// Whether the review page of an artifact is shown.
pub fn review_page(app: &App, gates: &mut ReviewGates, uuid: &str, gate: &str, now: u64) -> (result:
    Result<(), Error>)
    requires
        app@.wf(),
        gates::gates_wf(old(gates)@),
    ensures
        gates::gates_wf(final(gates)@),
        final(gates)@ == gates::looked_up(old(gates)@, gate@, now),
        error::done(result) == review_access(app@, old(gates)@, uuid@, gate@, now),
{
    let owner = match gates.artifact_uuid(gate, now) {
        Err(error) => {
            return Err(error);
        },
        Ok(owner) => owner,
    };
    if !text::same(owner.as_str(), uuid) {
        return Err(invalid("review gate does not belong to this artifact".to_owned()));
    }
    match app.read_artifact(uuid) {
        Err(error) => Err(error),
        Ok(_) => Ok(()),
    }
}

// ---------------------------------------------------------------- laws

proof fn split_without_separator(value: Seq<char>, separator: char)
    requires
        !value.contains(separator),
    ensures
        text::split(value, separator) == seq![value],
{
    text::position_is_first(value, separator, 0);
    let at = text::position(value, separator, 0);
    if at < value.len() {
        assert(value.contains(value[at]));
    }
}

/// The token of a session is found in the cookie that carries it.
pub proof fn cookie_carries_token(token: Seq<char>)
    requires
        token.len() > 0,
        text::is_hex_text(token),
    ensures
        cookie_token("alx_session="@ + token) == Some(token),
{
    reveal_strlit("alx_session=");
    reveal_strlit("alx_session");
    let cookie = "alx_session="@ + token;
    assert(!cookie.contains(';')) by {
        assert forall|i: int| 0 <= i < cookie.len() implies cookie[i] != ';' by {
            if i >= 12 {
                assert(cookie[i] == token[i - 12]);
            }
        }
    }
    split_without_separator(cookie, ';');
    assert(!text::is_whitespace(cookie[0]));
    assert(cookie.last() == token.last());
    assert(!text::is_whitespace(cookie.last())) by {
        assert(cookie.last() == token[token.len() - 1]);
    }
    assert(text::trim(cookie) == cookie);
    text::position_is_first(cookie, '=', 0);
    let at = text::position(cookie, '=', 0);
    assert(cookie[11] == '=');
    assert(at == 11) by {
        if at < 11 {
            assert(cookie[at] == "alx_session="@[at]);
        }
    }
    assert(cookie.take(11) =~= "alx_session"@);
    assert(cookie.skip(12) =~= token);
    let parts = text::split(cookie, ';');
    assert(parts[0] == cookie);
}

/// Whoever logged in is served, as long as the password stays the same.
pub proof fn login_is_recognized(
    sessions: SessionRow,
    hash: Seq<char>,
    token: Seq<char>,
    path: Seq<char>,
    is_get: bool,
)
    requires
        token.len() > 0,
        text::is_hex_text(token),
    ensures
        access(
            path,
            is_get,
            Some(hash),
            Some("alx_session="@ + token),
            with_session(sessions, hash, token),
        ) == Access::Granted,
{
    cookie_carries_token(token);
    let current = synchronized(sessions, Some(hash));
    let after = with_session(sessions, hash, token);
    if !current.tokens.contains(token) {
        assert(after.tokens[current.tokens.len() as int] == token);
    }
    assert(synchronized(after, Some(hash)) == after);
}

/// The right password opens a session, and whoever carries its cookie is served.
pub proof fn password_opens_session(
    hash: String,
    password: Seq<char>,
    before: SessionRow,
    token: Seq<char>,
    reply: LoginReply,
    after: SessionRow,
    path: Seq<char>,
    is_get: bool,
)
    requires
        password::argon2_accepts(password, hash@),
        logged_in(true, StoredPassword::Hash(hash), password, before, token, reply, after),
    ensures
        reply matches LoginReply::Opened(cookie) && cookie@ == session_cookie(token),
        access(path, is_get, Some(hash@), Some("alx_session="@ + token), after) == Access::Granted,
{
    login_is_recognized(before, hash@, token, path, is_get);
}

/// A wrong password opens none.
pub proof fn wrong_password_opens_none(
    hash: String,
    password: Seq<char>,
    before: SessionRow,
    token: Seq<char>,
    reply: LoginReply,
    after: SessionRow,
)
    requires
        !password::argon2_accepts(password, hash@),
        logged_in(true, StoredPassword::Hash(hash), password, before, token, reply, after),
    ensures
        reply is Refused,
        after == before,
{
}

/// Another password, or none, ends every session.
pub proof fn new_password_revokes(
    sessions: SessionRow,
    path: Seq<char>,
    is_get: bool,
    hash: Option<Seq<char>>,
    cookie: Option<Seq<char>>,
)
    requires
        sessions.password_hash != hash,
        !is_open(path),
    ensures
        access(path, is_get, hash, cookie, sessions) != Access::Granted,
{
}

/// Without a session nothing but the login page is served.
pub proof fn only_sessions_are_served(
    sessions: SessionRow,
    path: Seq<char>,
    is_get: bool,
    hash: Option<Seq<char>>,
    cookie: Option<Seq<char>>,
)
    requires
        access(path, is_get, hash, cookie, sessions) == Access::Granted,
        !is_open(path),
    ensures
        hash is Some,
        sessions.password_hash == hash,
        recognized(sessions, cookie),
{
}

/// What an error that is not about the request is answered does not depend on
/// it.
pub proof fn internal_errors_are_hidden(first: Seq<char>, second: Seq<char>)
    ensures
        error_answer(Failure::Other(first)) == error_answer(Failure::Other(second)),
{
}

/// What a browser is served, it asked of a trusted host, and not from another
/// origin.
pub proof fn served_is_same_origin(host: Header, origin: Header, trusted: bool, same: bool)
    requires
        host is Value,
        browser_refusal(host, origin, trusted, same) is None,
    ensures
        trusted,
        origin is Value ==> same,
        origin !is Unreadable,
{
}

} // verus!
