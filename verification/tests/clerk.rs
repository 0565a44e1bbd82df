use suno_core::clerk::{
    clerk_client_url, clerk_headers, clerk_token_url, client_request, exchange_session,
    jwt_from_reply, response_excerpt, session_from_reply, session_id_of, token_request, ClerkReply,
    Method,
};
use suno_core::errors::CliError;

fn answered(text: &str) -> ClerkReply {
    ClerkReply::Answered(serde_json::from_str(text).unwrap())
}

fn refused(status: &str, body: &str) -> ClerkReply {
    ClerkReply::Refused {
        status: status.to_string(),
        body: body.to_string(),
    }
}

#[test]
fn addresses() {
    assert_eq!(
        clerk_client_url(),
        "https://auth.suno.com/v1/client?__clerk_api_version=2025-11-10&_clerk_js_version=5.117.0"
    );
    assert_eq!(
        clerk_token_url("sess_1"),
        "https://auth.suno.com/v1/client/sessions/sess_1/tokens?__clerk_api_version=2025-11-10&_clerk_js_version=5.117.0"
    );
}

#[test]
fn requests_carry_the_cookie() {
    let expected = vec![
        ("authorization", "tok".to_string()),
        ("cookie", "__client=tok".to_string()),
        ("origin", "https://suno.com".to_string()),
        ("referer", "https://suno.com/".to_string()),
    ];
    assert_eq!(clerk_headers("tok"), expected);
    let first = client_request("tok");
    assert_eq!(first.method, Method::Get);
    assert_eq!(first.url, clerk_client_url());
    assert_eq!(first.headers, expected);
    let second = token_request("tok", "sess_1");
    assert_eq!(second.method, Method::Post);
    assert_eq!(second.url, clerk_token_url("sess_1"));
    let mut more = expected;
    more.push(("content-type", "application/x-www-form-urlencoded".to_string()));
    assert_eq!(second.headers, more);
}

#[test]
fn excerpts_are_one_short_line() {
    assert_eq!(response_excerpt("a\nb\r\nc"), "a b  c");
    let fits = "x".repeat(500);
    assert_eq!(response_excerpt(&fits), fits);
    let long = "x".repeat(501);
    assert_eq!(response_excerpt(&long), format!("{}...", fits));
    // More bytes than the limit, but fewer characters.
    let wide = "é".repeat(251);
    assert_eq!(response_excerpt(&wide), format!("{}...", wide));
    let wider = "é".repeat(600);
    assert_eq!(response_excerpt(&wider), format!("{}...", "é".repeat(500)));
}

#[test]
fn last_active_session_goes_first() {
    let body: serde_json::Value = serde_json::from_str(
        "{\"response\": {\"last_active_session_id\": \"s1\", \"sessions\": [{\"id\": \"s2\"}]}}",
    )
    .unwrap();
    assert_eq!(session_id_of(&body).as_deref(), Some("s1"));
    let body: serde_json::Value = serde_json::from_str(
        "{\"response\": {\"last_active_session_id\": null, \"sessions\": [{\"id\": \"s2\"}, {\"id\": \"s3\"}]}}",
    )
    .unwrap();
    assert_eq!(session_id_of(&body).as_deref(), Some("s2"));
}

#[test]
fn answers_without_session() {
    for text in [
        "null",
        "{}",
        "{\"response\": null}",
        "{\"response\": {\"sessions\": []}}",
        "{\"response\": {\"sessions\": {}}}",
        "{\"response\": {\"sessions\": [{\"id\": 5}]}}",
        "{\"response\": {\"sessions\": [{}, {\"id\": \"late\"}]}}",
    ] {
        match session_from_reply(answered(text)) {
            Err(CliError::Api { code, message }) => {
                assert_eq!(code, "no_session");
                assert_eq!(
                    message,
                    "No active session found — log into suno.com in your browser first"
                );
            }
            other => panic!("{}: {:?}", text, other),
        }
    }
}

#[test]
fn refused_exchange() {
    match session_from_reply(refused("401 Unauthorized", "no\nway")) {
        Err(CliError::Api { code, message }) => {
            assert_eq!(code, "clerk_exchange_failed");
            assert_eq!(message, "Clerk token exchange failed (401 Unauthorized): no way");
        }
        other => panic!("{:?}", other),
    }
}

#[test]
fn tokens_and_refusals() {
    assert_eq!(jwt_from_reply(answered("{\"jwt\": \"a.b.c\"}")).unwrap(), "a.b.c");
    match jwt_from_reply(answered("{\"jwt\": 1}")) {
        Err(CliError::Api { code, message }) => {
            assert_eq!(code, "no_jwt");
            assert_eq!(
                message,
                "Clerk returned no JWT — session may have expired, run `suno auth login` again"
            );
        }
        other => panic!("{:?}", other),
    }
    match jwt_from_reply(refused("500 Internal Server Error", "")) {
        Err(CliError::Api { code, message }) => {
            assert_eq!(code, "clerk_refresh_failed");
            assert_eq!(message, "Clerk JWT refresh failed (500 Internal Server Error): ");
        }
        other => panic!("{:?}", other),
    }
}

#[test]
fn exchange_asks_for_the_named_session() {
    let (session, request) = exchange_session(
        "tok",
        answered("{\"response\": {\"last_active_session_id\": \"s1\"}}"),
    )
    .unwrap();
    assert_eq!(session, "s1");
    assert_eq!(request.url, clerk_token_url("s1"));
    assert_eq!(request.headers[0].1, "tok");
    assert!(exchange_session("tok", answered("{}")).is_err());
}
