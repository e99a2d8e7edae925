use tread::web::{cached_page, WebCacheMeta, WebPage, CACHE_EXPIRY_SECS};
use tread::webload::{WebAction, WebEvent, WebLoader};

fn page(url: &str) -> WebPage {
    WebPage { title: "T".to_string(), url: url.to_string(), content_html: "<p>x</p>".to_string() }
}

#[test]
fn a_fresh_cached_page_is_used_without_fetching() {
    let mut l = WebLoader::new("https://e.x/a".to_string(), false, false);
    assert!(matches!(l.step(WebEvent::Begin), WebAction::ReadCache));
    match l.step(WebEvent::Cache(Some(page("https://e.x/a")))) {
        WebAction::Done(p) => assert_eq!(p.title, "T"),
        other => panic!("expected Done, got {other:?}"),
    }
}

#[test]
fn refresh_skips_the_cache_and_uses_the_saved_session() {
    let mut l = WebLoader::new("https://e.x:8080/a".to_string(), true, false);
    match l.step(WebEvent::Begin) {
        WebAction::ReadSession { domain } => assert_eq!(domain, "e.x"),
        other => panic!("expected ReadSession, got {other:?}"),
    }
    let cookies = vec![("s".to_string(), "1".to_string())];
    assert!(matches!(l.step(WebEvent::Session(Some(cookies))), WebAction::Fetch { .. }));
    // The fetch with cookies fails: retried without cookies.
    assert!(matches!(l.step(WebEvent::Fetched(Err("HTTP 请求失败".to_string()))), WebAction::FetchPlain));
    match l.step(WebEvent::Fetched(Ok("<html/>".to_string()))) {
        WebAction::Extract { html } => assert_eq!(html, "<html/>"),
        other => panic!("expected Extract, got {other:?}"),
    }
    assert!(matches!(l.step(WebEvent::Extracted(Ok(page("https://e.x:8080/a")))), WebAction::SaveCache { .. }));
    assert!(matches!(l.step(WebEvent::Saved), WebAction::ReadBrowserCookies));
    match l.step(WebEvent::Cookies(vec![("b".to_string(), "2".to_string())])) {
        WebAction::SaveSession { domain, cookies } => {
            assert_eq!(domain, "e.x");
            assert_eq!(cookies.len(), 1);
        }
        other => panic!("expected SaveSession, got {other:?}"),
    }
    assert!(matches!(l.step(WebEvent::Saved), WebAction::Done(_)));
}

#[test]
fn a_failed_fetch_without_cookies_fails_the_load() {
    let mut l = WebLoader::new("https://e.x/a".to_string(), false, false);
    l.step(WebEvent::Begin);
    assert!(matches!(l.step(WebEvent::Cache(None)), WebAction::ReadSession { .. }));
    assert!(matches!(l.step(WebEvent::Session(None)), WebAction::ReadBrowserCookies));
    assert!(matches!(l.step(WebEvent::Cookies(vec![])), WebAction::Fetch { .. }));
    match l.step(WebEvent::Fetched(Err("HTTP 请求失败: https://e.x/a".to_string()))) {
        WebAction::Fail(m) => assert_eq!(m, "HTTP 请求失败: https://e.x/a"),
        other => panic!("expected Fail, got {other:?}"),
    }
}

#[test]
fn extraction_failures_suggest_interactive_mode() {
    let mut l = WebLoader::new("https://e.x/a".to_string(), true, false);
    l.step(WebEvent::Begin);
    l.step(WebEvent::Session(None));
    l.step(WebEvent::Cookies(vec![]));
    l.step(WebEvent::Fetched(Ok("<html/>".to_string())));
    match l.step(WebEvent::Extracted(Err("empty".to_string()))) {
        WebAction::Fail(m) => assert_eq!(m, "无法提取正文，尝试使用 -i 模式: empty"),
        other => panic!("expected Fail, got {other:?}"),
    }
    let mut l = WebLoader::new("https://e.x/a".to_string(), true, true);
    assert!(matches!(l.step(WebEvent::Begin), WebAction::ReadBrowserCookies));
    assert!(matches!(l.step(WebEvent::Cookies(vec![])), WebAction::FetchHeadless { .. }));
    l.step(WebEvent::Fetched(Ok("<html/>".to_string())));
    match l.step(WebEvent::Extracted(Err("empty".to_string()))) {
        WebAction::Fail(m) => assert_eq!(m, "无法提取正文"),
        other => panic!("expected Fail, got {other:?}"),
    }
}

#[test]
fn interactive_loads_store_the_cache_but_no_session() {
    let mut l = WebLoader::new("https://e.x/a".to_string(), true, true);
    l.step(WebEvent::Begin);
    l.step(WebEvent::Cookies(vec![]));
    l.step(WebEvent::Fetched(Ok("<html/>".to_string())));
    assert!(matches!(l.step(WebEvent::Extracted(Ok(page("https://e.x/a")))), WebAction::SaveCache { .. }));
    assert!(matches!(l.step(WebEvent::Saved), WebAction::Done(_)));
}

#[test]
fn stale_cache_entries_are_not_used() {
    let meta = WebCacheMeta { url: "u".to_string(), title: "T".to_string(), fetched_at: 1_000 };
    let fresh = cached_page(meta.clone(), "<p/>".to_string(), "u", 1_000 + CACHE_EXPIRY_SECS);
    assert_eq!(fresh.unwrap().content_html, "<p/>");
    assert!(cached_page(meta, "<p/>".to_string(), "u", 1_001 + CACHE_EXPIRY_SECS).is_none());
}
