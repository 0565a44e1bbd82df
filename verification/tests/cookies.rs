use suno_core::cookies::{
    normalize_cookie_input, parse_cookie_header, prefix_can_be_cut, sanitize_device_id,
    strip_cookie_header_prefix,
};
use suno_core::errors::CliError;

#[test]
fn normalizes_raw_client_cookie() {
    let auth = normalize_cookie_input("client_token").unwrap();
    assert_eq!(auth.clerk_client_cookie, "client_token");
    assert_eq!(auth.cookie_header, "__client=client_token");
    assert!(auth.device_id.is_none());
}

#[test]
fn normalizes_full_cookie_header_and_device() {
    let auth = normalize_cookie_input(
        "Cookie: foo=bar; __client=client_token; ajs_anonymous_id=%22device-123%22",
    )
    .unwrap();
    assert_eq!(auth.clerk_client_cookie, "client_token");
    assert_eq!(auth.device_id.as_deref(), Some("device-123"));
    assert!(auth.cookie_header.contains("__client=client_token"));
}

#[test]
fn rejects_cookie_header_without_client() {
    let err = normalize_cookie_input("foo=bar; ajs_anonymous_id=device").unwrap_err();
    assert!(err.message().contains("__client"));
}

#[test]
fn header_without_client_is_a_config_error() {
    match normalize_cookie_input("a=b") {
        Err(CliError::Config(m)) => {
            assert_eq!(m, "cookie header did not contain a __client field")
        }
        other => panic!("{:?}", other),
    }
    assert!(matches!(
        normalize_cookie_input("a;b"),
        Err(CliError::Config(_))
    ));
}

#[test]
fn empty_input_is_a_config_error() {
    for input in ["", "   ", "Cookie:", " cookie:  "] {
        match normalize_cookie_input(input) {
            Err(CliError::Config(m)) => assert_eq!(m, "empty Clerk __client cookie"),
            other => panic!("{:?}", other),
        }
    }
}

#[test]
fn empty_client_field_is_refused() {
    match normalize_cookie_input("__client=; foo=bar") {
        Err(CliError::Config(m)) => {
            assert_eq!(m, "cookie header did not contain a __client field")
        }
        other => panic!("{:?}", other),
    }
}

#[test]
fn prefix_is_stripped_in_any_case() {
    assert_eq!(strip_cookie_header_prefix("  Cookie:  a=b "), "a=b");
    assert_eq!(strip_cookie_header_prefix("COOKIE:a=b"), "a=b");
    assert_eq!(strip_cookie_header_prefix("cOoKiE: a"), "a");
    assert_eq!(strip_cookie_header_prefix("cookie"), "cookie");
    assert_eq!(strip_cookie_header_prefix("cookies:a"), "cookies:a");
    assert_eq!(strip_cookie_header_prefix("\u{3000}x\u{a0}"), "x");
}

#[test]
fn header_is_read_by_name() {
    let cookies = parse_cookie_header("a=1; b = 2 ;c; =3; d=4=5; a=6;;");
    assert_eq!(cookies.get("a").map(|s| s.as_str()), Some("6"));
    assert_eq!(cookies.get("b").map(|s| s.as_str()), Some("2"));
    assert_eq!(cookies.get("d").map(|s| s.as_str()), Some("4=5"));
    assert!(cookies.get("c").is_none());
    assert!(cookies.get("").is_none());
    assert_eq!(cookies.len(), 3);
}

#[test]
fn device_ids_are_cleaned() {
    assert_eq!(sanitize_device_id(" %22abc%22 ").as_deref(), Some("abc"));
    assert_eq!(sanitize_device_id("\"abc\"").as_deref(), Some("abc"));
    assert_eq!(sanitize_device_id("'abc'").as_deref(), Some("abc"));
    assert_eq!(sanitize_device_id("\"' abc '\"").as_deref(), Some("abc"));
    assert_eq!(sanitize_device_id("'\"abc\"'").as_deref(), Some("\"abc\""));
    assert_eq!(sanitize_device_id("a%22b").as_deref(), Some("a\"b"));
    assert_eq!(sanitize_device_id("%%2222").as_deref(), Some("%\"22"));
    assert_eq!(sanitize_device_id("device-123").as_deref(), Some("device-123"));
    assert_eq!(sanitize_device_id("a;b"), None);
    assert_eq!(sanitize_device_id("%22%22"), None);
    assert_eq!(sanitize_device_id("  "), None);
}

#[test]
fn reading_a_header_again_gives_the_same_session() {
    for input in ["token", "Cookie: x=1; __client=abc; ajs_anonymous_id=dev"] {
        let first = normalize_cookie_input(input).unwrap();
        let second = normalize_cookie_input(&first.cookie_header).unwrap();
        assert_eq!(first.clerk_client_cookie, second.clerk_client_cookie);
        assert_eq!(first.cookie_header, second.cookie_header);
        assert_eq!(first.device_id, second.device_id);
    }
}

#[test]
fn doubled_field_name_is_stripped_once_from_the_header() {
    let auth = normalize_cookie_input("Cookie: Cookie: __client=abc").unwrap();
    assert_eq!(auth.clerk_client_cookie, "abc");
    assert_eq!(auth.cookie_header, "Cookie: __client=abc");
}

#[test]
fn inputs_that_cannot_be_cut_are_told() {
    assert!(prefix_can_be_cut("Cookie: a=b"));
    assert!(prefix_can_be_cut("ééé"));
    assert!(prefix_can_be_cut("  "));
    assert!(!prefix_can_be_cut(" éééé "));
    assert!(!prefix_can_be_cut("abcdefé"));
    assert!(prefix_can_be_cut("abcdefgé"));
}
