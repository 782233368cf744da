use alx::app::App;
use alx::error::{invalid, not_found, other, Error};
use alx::gates::{ReviewGates, ReviewOutcome, REVIEW_GATE_TTL};
use alx::password::{confirm_password, read_password_hash, verify_password};
use alx::review::{
    gate_data, gate_path, open_command, parse_response, registration_step, request_text,
    review_url, RegistrationStep,
};
use alx::service::Platform;
use alx::store::Store;
use alx::web::{
    api_artifact, api_create_review_gate, api_delete_task, api_login, api_task, authenticate,
    error_reply, login_with, refusal_reply, requested_host, review_page, same_origin,
    serve_with_auth, session_token, synchronize_sessions, valid_host, validate_browser_request,
    Access, Header, LoginReply, SessionState, StoredPassword,
};

fn new_app() -> App {
    App::new("password.hash".to_owned(), Store::new())
}

#[test]
fn passwords_are_hashed_and_verified() {
    let app = new_app();
    let contents = app.set_password("correct horse").unwrap();
    assert!(contents.starts_with("$argon2id$"));
    assert!(contents.ends_with('\n'));
    assert_ne!(contents, app.set_password("correct horse").unwrap());
    let hash = read_password_hash(Some(&contents)).unwrap();
    assert_eq!(hash, contents.trim());
    assert!(verify_password("correct horse", &hash));
    assert!(!verify_password("wrong horse", &hash));
    assert!(!verify_password("correct horse", "nonsense"));
    assert_eq!(
        app.set_password("").unwrap_err().message(),
        "password must not be empty"
    );
    assert!(app.has_password(Some(&contents)));
    assert!(!app.has_password(Some(" \n")));
    assert!(!app.has_password(None));
    assert!(confirm_password("a", "a").is_ok());
    assert_eq!(
        confirm_password("a", "b").unwrap_err().message(),
        "passwords do not match"
    );
}

fn hash_of(app: &App, password: &str) -> String {
    read_password_hash(Some(&app.set_password(password).unwrap())).unwrap()
}

#[test]
fn sessions_last_as_long_as_the_password() {
    let app = new_app();
    let hash = hash_of(&app, "secret");
    let mut sessions = SessionState::default();
    let stored = || StoredPassword::Hash(hash.clone());

    assert_eq!(
        api_login(true, stored(), "wrong", &mut sessions),
        LoginReply::Refused(401, "invalid password")
    );
    let cookie = match api_login(true, stored(), "secret", &mut sessions) {
        LoginReply::Opened(cookie) => cookie,
        refused => panic!("unexpected reply: {refused:?}"),
    };
    assert!(cookie.starts_with("alx_session="));
    assert!(cookie.ends_with("; Path=/; HttpOnly; SameSite=Strict"));
    let sent = format!("theme=dark; {}", cookie.split(';').next().unwrap());
    assert_eq!(session_token(&sent).unwrap().len(), 64);

    let access = |hash: Option<&str>, cookie: Option<&str>, sessions: &mut SessionState| {
        authenticate("/api/tasks", true, hash, cookie, sessions)
    };
    assert_eq!(access(Some(&hash), Some(&sent), &mut sessions), Access::Granted);
    assert_eq!(access(Some(&hash), None, &mut sessions), Access::Refused);
    assert_eq!(
        access(Some(&hash), Some("alx_session=0"), &mut sessions),
        Access::Refused
    );
    let rotated = hash_of(&app, "secret");
    assert_eq!(access(Some(&rotated), Some(&sent), &mut sessions), Access::Refused);
    assert_eq!(access(Some(&hash), Some(&sent), &mut sessions), Access::Refused);
    assert_eq!(access(None, Some(&sent), &mut sessions), Access::NotConfigured);
}

#[test]
fn requests_without_a_session_are_answered() {
    let mut sessions = SessionState::default();
    assert_eq!(
        authenticate("/", true, Some("h"), None, &mut sessions),
        Access::Login
    );
    assert_eq!(
        authenticate("/", false, Some("h"), None, &mut sessions),
        Access::Refused
    );
    assert_eq!(
        authenticate("/", true, None, None, &mut sessions),
        Access::NotConfigured
    );
    assert_eq!(
        authenticate("/login", true, None, None, &mut sessions),
        Access::Granted
    );
    assert_eq!(
        authenticate("/api/login", false, None, None, &mut sessions),
        Access::Granted
    );
    assert_eq!(refusal_reply(Access::Granted), None);
    assert_eq!(refusal_reply(Access::Login), Some((303, "/login")));
    assert_eq!(
        refusal_reply(Access::NotConfigured),
        Some((503, "password authentication is not configured"))
    );
    assert_eq!(
        refusal_reply(Access::Refused),
        Some((401, "authentication required"))
    );
}

#[test]
fn logins_are_answered() {
    let mut sessions = SessionState::default();
    let stored = || StoredPassword::Hash("h".to_owned());
    assert_eq!(
        login_with(false, stored(), true, "t".to_owned(), &mut sessions),
        LoginReply::Refused(404, "authentication is not enabled")
    );
    assert_eq!(
        login_with(true, StoredPassword::Unset, true, "t".to_owned(), &mut sessions),
        LoginReply::Refused(503, "password authentication is not configured")
    );
    assert_eq!(
        login_with(true, StoredPassword::Unreadable, true, "t".to_owned(), &mut sessions),
        LoginReply::Refused(500, "internal server error")
    );
    assert!(sessions.tokens.is_empty());
    assert_eq!(
        login_with(true, stored(), true, "t".to_owned(), &mut sessions),
        LoginReply::Opened("alx_session=t; Path=/; HttpOnly; SameSite=Strict".to_owned())
    );
    assert_eq!(sessions.tokens, vec!["t"]);
    synchronize_sessions(&mut sessions, Some("h"));
    assert_eq!(sessions.tokens, vec!["t"]);
    synchronize_sessions(&mut sessions, None);
    assert!(sessions.tokens.is_empty());
}

#[test]
fn cookies_are_read() {
    assert_eq!(session_token("a=b; alx_session=x=y"), Some("x=y".to_owned()));
    assert_eq!(session_token("alx_session; alx_session=1;alx_session=2"), Some("1".to_owned()));
    assert_eq!(session_token("alx_session =1"), None);
    assert_eq!(session_token(""), None);
}

fn value(text: &str) -> Header {
    Header::Value(text.to_owned())
}

#[test]
fn rebinding_hosts_and_other_origins_are_refused() {
    assert_eq!(
        validate_browser_request(&value("attacker.example:3000"), &Header::Absent, false),
        Some("Host must be an IP address or localhost")
    );
    assert_eq!(
        validate_browser_request(
            &value("127.0.0.1:3000"),
            &value("http://attacker.example"),
            true
        ),
        Some("cross-origin requests are not allowed")
    );
    assert_eq!(
        validate_browser_request(&value("127.0.0.1:3000"), &value("http://127.0.0.1:3000"), true),
        None
    );
    assert_eq!(
        validate_browser_request(&value("LocalHost:3000"), &value("https://localhost:3000"), false),
        None
    );
    assert_eq!(
        validate_browser_request(&Header::Absent, &value("http://attacker.example"), false),
        None
    );
    assert_eq!(
        validate_browser_request(&Header::Unreadable, &Header::Absent, true),
        Some("invalid Host header")
    );
    assert_eq!(
        validate_browser_request(&value("127.0.0.1"), &Header::Unreadable, true),
        Some("invalid Origin header")
    );
    assert_eq!(requested_host("127.0.0.1:3000"), Some("127.0.0.1".to_owned()));
    assert_eq!(requested_host("user@host:80"), Some("host".to_owned()));
    assert_eq!(requested_host("a b"), None);
    assert!(!valid_host(None, true));
    assert!(same_origin("http://a:1", "A:1"));
    assert!(!same_origin("ftp://a:1", "a:1"));
    assert!(!same_origin("http://a:1", "a:2"));
    assert!(!same_origin("/path", "a"));
    assert!(!same_origin("null", "null"));
    assert!(!same_origin("http://[", "a"));
}

#[test]
fn errors_are_answered_by_their_kind() {
    assert_eq!(
        error_reply(&not_found("gone".to_owned())),
        (404, "gone".to_owned())
    );
    assert_eq!(
        error_reply(&invalid("wrong".to_owned())),
        (400, "wrong".to_owned())
    );
    assert_eq!(
        error_reply(&other("secret".to_owned())),
        (500, "internal server error".to_owned())
    );
}

#[test]
fn servers_on_the_network_need_a_password() {
    assert_eq!(serve_with_auth(true, false).unwrap(), false);
    assert_eq!(serve_with_auth(true, true).unwrap(), false);
    assert_eq!(serve_with_auth(false, true).unwrap(), true);
    assert!(serve_with_auth(false, false)
        .unwrap_err()
        .message()
        .contains("requires a password"));
}

#[test]
fn pages_show_tasks_and_artifacts() {
    let mut app = new_app();
    let task = app.create_task("WEB-1", "Body").unwrap();
    let artifact = app.create_artifact(&task.uuid, "design", "# Safe").unwrap();
    let shown = api_task(&app, "WEB-1").unwrap();
    assert_eq!(shown.task, task);
    assert_eq!(shown.artifacts, vec![artifact.clone()]);
    assert_eq!(shown.rendered_task_html, "<p>Body</p>\n");
    let shown = api_artifact(&app, &artifact.uuid).unwrap();
    assert_eq!(shown.artifact, artifact);
    assert_eq!(shown.rendered_html, "<h1>Safe</h1>\n");
    assert!(shown.annotations.is_empty());
    let error = api_artifact(&app, "not-a-uuid").unwrap_err();
    assert_eq!(error_reply(&error).0, 400);
    let error = api_task(&app, "missing").unwrap_err();
    assert_eq!(error_reply(&error).0, 404);
}

#[test]
fn deleting_asks_for_confirmation() {
    let mut app = new_app();
    let task = app.create_task("archived", "Body").unwrap();
    let error = api_delete_task(&mut app, "archived", false).unwrap_err();
    assert_eq!(
        error_reply(&error),
        (400, "task deletion requires explicit confirmation".to_owned())
    );
    assert!(app.read_task(&task.uuid).is_ok());
    api_delete_task(&mut app, "archived", true).unwrap();
    assert!(app.read_task("archived").is_err());
}

#[test]
fn review_gates_open_finish_once_and_expire() {
    let mut gates = ReviewGates::default();
    let token = gates.create("artifact", 1_000).unwrap();
    assert_eq!(token.len(), 48);
    let second = gates.create("other", 1_000).unwrap();
    assert_ne!(token, second);
    assert_eq!(gates.artifact_uuid(&token, 2_000).unwrap(), "artifact");
    assert_eq!(gates.outcome(&token, 2_000).unwrap(), None);
    gates.finish(&token, 2_000).unwrap();
    assert_eq!(gates.outcome(&token, 2_000).unwrap(), Some(ReviewOutcome::Finished));
    assert_eq!(gates.outcome(&second, 2_000).unwrap(), None);
    assert_eq!(
        gates.finish(&token, 2_000).unwrap_err(),
        invalid("review gate has already been finished".to_owned())
    );
    let late = 1_000 + REVIEW_GATE_TTL;
    assert_eq!(gates.artifact_uuid(&token, late - 1).unwrap(), "artifact");
    let expired = || not_found("review gate not found or expired".to_owned());
    assert_eq!(gates.artifact_uuid(&token, late).unwrap_err(), expired());
    assert_eq!(gates.outcome(&token, 0).unwrap_err(), expired());
    assert_eq!(gates.finish("none", 0).unwrap_err(), expired());
    assert_eq!(REVIEW_GATE_TTL, 30 * 60 * 1000);
}

#[test]
fn a_token_opens_one_gate_at_a_time() {
    let mut gates = ReviewGates::default();
    let token = || "token".to_owned();
    assert_eq!(gates.create_with("a", token(), 0), Some(token()));
    assert_eq!(gates.create_with("b", token(), 1), None);
    assert_eq!(gates.artifact_uuid("token", 1).unwrap(), "a");
    assert_eq!(gates.create_with("b", "other".to_owned(), 1), Some("other".to_owned()));
    assert_eq!(gates.create_with("b", token(), REVIEW_GATE_TTL), Some(token()));
    assert_eq!(gates.artifact_uuid("token", REVIEW_GATE_TTL).unwrap(), "b");
    assert_eq!(gates.artifact_uuid("other", REVIEW_GATE_TTL).unwrap(), "b");
}

#[test]
fn review_pages_need_the_gate_of_their_artifact() {
    let mut app = new_app();
    let mut gates = ReviewGates::default();
    app.create_task("T", "").unwrap();
    let artifact = app.create_artifact("T", "notes", "").unwrap();
    let token = api_create_review_gate(&app, &mut gates, &artifact.uuid.to_uppercase(), 0).unwrap();
    assert!(review_page(&app, &mut gates, &artifact.uuid, &token, 1).is_ok());
    assert_eq!(
        review_page(&app, &mut gates, "x", &token, 1).unwrap_err(),
        invalid("review gate does not belong to this artifact".to_owned())
    );
    app.archive_task("T").unwrap();
    assert_eq!(
        api_create_review_gate(&app, &mut gates, &artifact.uuid, 0).unwrap_err(),
        Error::Other("archived task is read-only: T".to_owned())
    );
    app.delete_task("T").unwrap();
    assert!(review_page(&app, &mut gates, &artifact.uuid, &token, 1).is_err());
}

#[test]
fn requests_and_responses_of_the_local_server() {
    assert_eq!(
        request_text("POST", "/api/review-gates", "127.0.0.1:3000", "{é}"),
        "POST /api/review-gates HTTP/1.1\r\nHost: 127.0.0.1:3000\r\nContent-Type: application/json\r\nContent-Length: 4\r\nConnection: close\r\n\r\n{é}"
    );
    assert_eq!(
        parse_response("HTTP/1.1 201 Created\r\nx: y\r\n\r\n{}\r\n\r\n").unwrap(),
        (201, "{}\r\n\r\n".to_owned())
    );
    let message = |response: &str| parse_response(response).unwrap_err().message();
    assert_eq!(
        message("HTTP/1.1 200 OK\r\n"),
        "local alx server returned an invalid HTTP response"
    );
    assert_eq!(
        message("\r\n\r\nbody"),
        "local alx server returned an invalid HTTP status"
    );
    assert_eq!(
        message("HTTP/1.1\r\n\r\n"),
        "local alx server returned an invalid HTTP status"
    );
    assert_eq!(message("HTTP/1.1 x\r\n\r\n"), "invalid digit found in string");
}

#[test]
fn registration_goes_step_by_step() {
    let reply = |status: u16| Some((status, " body \n".to_owned()));
    assert_eq!(
        registration_step(reply(201), false),
        RegistrationStep::Registered(" body \n".to_owned())
    );
    assert_eq!(
        registration_step(reply(404), true),
        RegistrationStep::Failed(other(
            "the local alx server does not support review gates; restart it".to_owned()
        ))
    );
    assert_eq!(
        registration_step(reply(500), true),
        RegistrationStep::Failed(other("could not create review gate (HTTP 500): body".to_owned()))
    );
    assert_eq!(registration_step(None, true), RegistrationStep::Retry);
    assert_eq!(
        registration_step(None, false),
        RegistrationStep::Failed(other("could not connect to local alx server".to_owned()))
    );
    assert_eq!(gate_data(200, "{}".to_owned()).unwrap(), "{}");
    assert_eq!(
        gate_data(404, " gone ".to_owned()).unwrap_err().message(),
        "review gate is no longer available (HTTP 404): gone"
    );
}

#[test]
fn review_pages_are_opened_in_the_browser() {
    let url = review_url("127.0.0.1:3000", "u", "t");
    assert_eq!(url, "http://127.0.0.1:3000/review/u?gate=t");
    assert_eq!(gate_path("t"), "/api/review-gates/t");
    let arguments = vec![url.clone()];
    assert_eq!(
        open_command(Platform::Macos, &url),
        Some(("open".to_owned(), arguments.clone()))
    );
    assert_eq!(
        open_command(Platform::Linux, &url),
        Some(("xdg-open".to_owned(), arguments))
    );
    assert_eq!(
        open_command(Platform::Windows, "u").unwrap().1,
        vec!["/C", "start", "", "u"]
    );
    assert_eq!(open_command(Platform::Other, "u"), None);
}
