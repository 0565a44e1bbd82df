use suno_core::jar::{browser_auth_from_cookies, Cookie};

fn cookie(domain: &str, name: &str, value: &str) -> Cookie {
    Cookie {
        domain: domain.to_string(),
        name: name.to_string(),
        value: value.to_string(),
    }
}

#[test]
fn jar_without_client_has_no_session() {
    assert!(browser_auth_from_cookies(vec![]).is_none());
    assert!(browser_auth_from_cookies(vec![
        cookie("suno.com", "a", "1"),
        cookie("suno.com", "__client", ""),
        cookie("example.com", "__client", "other"),
    ])
    .is_none());
}

#[test]
fn auth_domain_goes_first_and_last_one_counts() {
    let auth = browser_auth_from_cookies(vec![
        cookie(".suno.com", "__client", "first"),
        cookie("auth.suno.com", "__client", "second"),
        cookie(".auth.suno.com", "__client", "third"),
        cookie("suno.com", "__client", "fourth"),
    ])
    .unwrap();
    assert_eq!(auth.clerk_client_cookie, "third");
}

#[test]
fn without_auth_domain_the_first_client_counts() {
    let auth = browser_auth_from_cookies(vec![
        cookie("suno.com", "__client", ""),
        cookie("www.suno.com", "__client", "one"),
        cookie("suno.com", "__client", "two"),
    ])
    .unwrap();
    assert_eq!(auth.clerk_client_cookie, "one");
}

#[test]
fn header_keeps_the_first_of_each_name_and_domain() {
    let auth = browser_auth_from_cookies(vec![
        cookie("suno.com", "__client", "t"),
        cookie("example.com", "x", "0"),
        cookie("suno.com", "x", "1"),
        cookie("suno.com", "x", "2"),
        cookie(".suno.com", "x", "3"),
    ])
    .unwrap();
    assert_eq!(auth.cookie_header, "__client=t; x=1; x=3");
}

#[test]
fn first_usable_device_id_counts() {
    let auth = browser_auth_from_cookies(vec![
        cookie("example.com", "ajs_anonymous_id", "foreign"),
        cookie("suno.com", "ajs_anonymous_id", "a;b"),
        cookie("suno.com", "ajs_anonymous_id", "%22dev%22"),
        cookie("suno.com", "ajs_anonymous_id", "later"),
        cookie("suno.com", "__client", "t"),
    ])
    .unwrap();
    assert_eq!(auth.device_id.as_deref(), Some("dev"));
}

#[test]
fn cookies_of_other_sites_do_not_matter() {
    let with = browser_auth_from_cookies(vec![
        cookie("example.com", "__client", "no"),
        cookie("suno.com", "__client", "t"),
        cookie("example.com", "y", "2"),
    ])
    .unwrap();
    let without = browser_auth_from_cookies(vec![cookie("suno.com", "__client", "t")]).unwrap();
    assert_eq!(with.clerk_client_cookie, without.clerk_client_cookie);
    assert_eq!(with.cookie_header, without.cookie_header);
    assert_eq!(with.device_id, without.device_id);
}
