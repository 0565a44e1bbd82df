use base64::Engine;
use suno_core::auth::{
    browser_token, browser_token_at, expiry_claim, jwt_claims, needs_renewal, timestamp_payload,
    token_header, AuthState,
};

fn state(jwt: Option<&str>) -> AuthState {
    AuthState {
        jwt: jwt.map(String::from),
        ..AuthState::default()
    }
}

#[test]
fn default_state_is_empty_and_expired() {
    let s = AuthState::default();
    assert!(s.jwt.is_none());
    assert!(s.cookie.is_none());
    assert!(s.session_id.is_none());
    assert!(s.device_id.is_none());
    assert!(s.clerk_client_cookie.is_none());
    assert!(s.is_jwt_expired());
    assert!(s.is_jwt_expired_at(0));
}

#[test]
fn token_is_renewed_half_an_hour_ahead() {
    // {"exp":10000}
    let s = state(Some("h.eyJleHAiOjEwMDAwfQ.s"));
    assert!(!s.is_jwt_expired_at(0));
    assert!(!s.is_jwt_expired_at(8199));
    assert!(s.is_jwt_expired_at(8200));
    assert!(s.is_jwt_expired_at(20000));
    assert!(s.is_jwt_expired_at(u64::MAX));
    // {"exp":1801} and {"exp":1800}
    assert!(!state(Some("h.eyJleHAiOjE4MDF9.s")).is_jwt_expired_at(0));
    assert!(state(Some("h.eyJleHAiOjE4MDB9.s")).is_jwt_expired_at(0));
}

#[test]
fn clock_decides_between_past_and_future() {
    // The year 2100, and the first day of 1970.
    assert!(!state(Some("h.eyJleHAiOjQxMDI0NDQ4MDB9.s")).is_jwt_expired());
    assert!(state(Some("h.eyJleHAiOjEwMDAwfQ.s")).is_jwt_expired());
}

#[test]
fn unreadable_tokens_are_expired() {
    for jwt in [
        "",
        "eyJleHAiOjQxMDI0NDQ4MDB9",
        "h.eyJleHAiOjQxMDI0NDQ4MDB9",
        "h.eyJleHAiOjQxMDI0NDQ4MDB9.s.t",
        "h.!!!.s",
        "h.eyJleHAiOjEwMDAwfQ==.s",
        "h.bm90IGpzb24.s",
        "h.WzFd.s",
        "h.eyJzdWIiOiJ4In0.s",
        "h.eyJleHAiOiIxMDAwMCJ9.s",
        "h.eyJleHAiOi01fQ.s",
    ] {
        assert!(state(Some(jwt)).is_jwt_expired_at(0), "{}", jwt);
    }
}

#[test]
fn claims_are_the_middle_part() {
    assert_eq!(jwt_claims("a.b.c").as_deref(), Some("b"));
    assert_eq!(jwt_claims("..").as_deref(), Some(""));
    assert_eq!(jwt_claims("a.b"), None);
    assert_eq!(jwt_claims("a.b.c.d"), None);
}

#[test]
fn expiry_is_an_unsigned_number() {
    let value: serde_json::Value = serde_json::from_str("{\"exp\": 17}").unwrap();
    assert_eq!(expiry_claim(&value), Some(17));
    let value: serde_json::Value = serde_json::from_str("{\"exp\": 1.5}").unwrap();
    assert_eq!(expiry_claim(&value), None);
    let value: serde_json::Value = serde_json::from_str("17").unwrap();
    assert_eq!(expiry_claim(&value), None);
}

#[test]
fn renewal_of_given_expiry() {
    assert!(needs_renewal(None, 5));
    assert!(needs_renewal(Some(1805), 5));
    assert!(!needs_renewal(Some(1806), 5));
    assert!(!needs_renewal(Some(u64::MAX), 0));
}

#[test]
fn browser_token_of_a_millisecond() {
    assert_eq!(timestamp_payload(1700000000000), "{\"timestamp\":1700000000000}");
    assert_eq!(token_header("abc"), "{\"token\":\"abc\"}");
    assert_eq!(
        browser_token_at(1700000000000),
        "{\"token\":\"eyJ0aW1lc3RhbXAiOjE3MDAwMDAwMDAwMDB9\"}"
    );
    assert_eq!(browser_token_at(0), "{\"token\":\"eyJ0aW1lc3RhbXAiOjB9\"}");
}

#[test]
fn browser_token_holds_the_time() {
    let token: serde_json::Value = serde_json::from_str(&browser_token()).unwrap();
    let encoded = token.get("token").and_then(|t| t.as_str()).unwrap().to_string();
    let payload = base64::engine::general_purpose::STANDARD.decode(encoded).unwrap();
    let payload: serde_json::Value = serde_json::from_slice(&payload).unwrap();
    let ms = payload.get("timestamp").and_then(|t| t.as_u64()).unwrap();
    assert!(ms > 1_600_000_000_000);
}
