use tread::headless::{
    cookies_to_header, extract_domain, fresh_session_cookies, new_session, session_expired, session_key,
    strip_html_tags, SESSION_EXPIRY_SECS,
};

#[test]
fn cookies_to_header_formats_correctly() {
    let cookies = vec![
        ("session".to_string(), "abc123".to_string()),
        ("token".to_string(), "xyz789".to_string()),
    ];
    let header = cookies_to_header(&cookies);
    assert_eq!(header, "session=abc123; token=xyz789");
}

#[test]
fn cookies_to_header_empty() {
    let header = cookies_to_header(&[]);
    assert_eq!(header, "");
}

#[test]
fn cookies_to_header_single_pair_has_no_separator() {
    assert_eq!(cookies_to_header(&[("a".to_string(), "1".to_string())]), "a=1");
}

#[test]
fn extract_domain_works() {
    assert_eq!(extract_domain("https://example.com/path"), "example.com");
    assert_eq!(extract_domain("https://sub.example.com/"), "sub.example.com");
    assert_eq!(extract_domain("http://localhost:8080/page"), "localhost:8080");
    assert_eq!(extract_domain("no scheme"), "");
}

#[test]
fn strip_html_tags_works() {
    assert_eq!(strip_html_tags("<p>Hello</p>"), "Hello");
    assert_eq!(strip_html_tags("<div class=\"x\"><span>World</span></div>"), "World");
    assert_eq!(strip_html_tags("No tags"), "No tags");
}

#[test]
fn save_and_load_session() {
    let domain = "test.tread.local";
    let cookies = vec![("session".to_string(), "test123".to_string())];
    let saved = new_session(domain, &cookies, 1_000);
    assert_eq!(saved.domain, domain);
    let loaded = fresh_session_cookies(saved, 1_000 + 60);
    assert!(loaded.is_some());
    let loaded = loaded.unwrap();
    assert_eq!(loaded.len(), 1);
    assert_eq!(loaded[0].0, "session");
    assert_eq!(loaded[0].1, "test123");
}

#[test]
fn session_expires_after_a_day() {
    let s = new_session("d", &[("a".to_string(), "b".to_string())], 0);
    assert!(fresh_session_cookies(s.clone(), SESSION_EXPIRY_SECS).is_some());
    assert!(fresh_session_cookies(s, SESSION_EXPIRY_SECS + 1).is_none());
    assert!(!session_expired(5, 10));
    assert!(session_expired(SESSION_EXPIRY_SECS + 11, 10));
}

#[test]
fn session_key_is_sixteen_hex_digits_of_sha256() {
    // SHA-256("abc") = ba7816bf8f01cfea414140de5dae2223b00361a396177a9cb410ff61f20015ad
    assert_eq!(session_key("abc"), "ba7816bf8f01cfea");
}
