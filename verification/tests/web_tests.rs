use tread::image::LineContent;
use tread::web::{
    article_page, cache_expired, chrono_now, days_to_ymd, extract_content, extract_domain, html_image_urls,
    html_to_lines, is_url, iso_timestamp, resolve_image_url, web_cache_key, wrap_fragment, CACHE_EXPIRY_SECS,
};

#[test]
fn extract_content_from_article() {
    let html = r#"<html><head><title>Test Article</title></head>
        <body>
        <nav>Navigation</nav>
        <article>
        <h1>Test Article</h1>
        <p>This is the main content of the article. It has multiple sentences.</p>
        <p>Another paragraph with more text content for readability scoring.</p>
        <p>Yet another paragraph to ensure the content is substantial enough for extraction.</p>
        <p>More content here to boost the score above the threshold.</p>
        <p>Final paragraph with additional text.</p>
        </article>
        <footer>Footer content</footer>
        </body></html>"#;
    let result = extract_content(html, "https://example.com/article");
    assert!(result.is_ok(), "extract_content failed: {:?}", result.err());
    let page = result.unwrap();
    assert!(!page.content_html.is_empty());
    assert!(page.content_html.contains("main content"));
    assert_eq!(page.url, "https://example.com/article");
}

#[test]
fn extract_content_empty_html_returns_error() {
    let html = "<html><body></body></html>";
    let result = extract_content(html, "https://example.com");
    assert!(result.is_err());
}

#[test]
fn extract_content_refuses_a_relative_document_url() {
    let err = extract_content("<html><body><p>x</p></body></html>", "not/absolute").unwrap_err();
    assert!(err.starts_with("Readability 解析失败: "), "{err}");
}

#[test]
fn blank_article_content_is_refused() {
    let err = article_page("T".to_string(), " \n ".to_string(), "https://e.x").unwrap_err();
    assert_eq!(err, "无法提取正文：页面内容为空");
    let page = article_page("T".to_string(), "<p>x</p>".to_string(), "https://e.x").unwrap();
    assert_eq!(page.title, "T");
    assert_eq!(page.content_html, "<p>x</p>");
}

#[test]
fn web_cache_key_deterministic() {
    let k1 = web_cache_key("https://example.com/a");
    let k2 = web_cache_key("https://example.com/a");
    let k3 = web_cache_key("https://example.com/b");
    assert_eq!(k1, k2);
    assert_ne!(k1, k3);
    assert_eq!(k1.len(), 16);
}

#[test]
fn load_web_cache_nonexistent() {
    assert!(!cache_expired(100, 100));
    assert!(!cache_expired(100 + CACHE_EXPIRY_SECS, 100));
    assert!(cache_expired(101 + CACHE_EXPIRY_SECS, 100));
    assert!(!cache_expired(5, 100));
}

#[test]
fn resolve_absolute_url() {
    let result = resolve_image_url("https://cdn.example.com/pic.jpg", "https://example.com/article/");
    assert_eq!(result, "https://cdn.example.com/pic.jpg");
}

#[test]
fn resolve_root_relative() {
    let result = resolve_image_url("/images/pic.jpg", "https://example.com/article/page.html");
    assert_eq!(result, "https://example.com/images/pic.jpg");
}

#[test]
fn resolve_relative_path() {
    let result = resolve_image_url("pic.jpg", "https://example.com/articles/page.html");
    assert_eq!(result, "https://example.com/articles/pic.jpg");
}

#[test]
fn resolve_parent_relative() {
    let result = resolve_image_url("../assets/pic.jpg", "https://example.com/articles/deep/page.html");
    assert_eq!(result, "https://example.com/articles/assets/pic.jpg");
}

#[test]
fn resolve_protocol_relative() {
    let result = resolve_image_url("//cdn.example.com/pic.jpg", "https://example.com/");
    assert_eq!(result, "https://cdn.example.com/pic.jpg");
}

#[test]
fn resolve_against_a_base_without_scheme_keeps_the_source() {
    assert_eq!(resolve_image_url("pic.jpg", "example.com/page"), "pic.jpg");
    assert_eq!(resolve_image_url("./a/./b.png", "https://h.example/x/"), "https://h.example/x/a/b.png");
}

#[test]
fn is_url_detects_http() {
    assert!(is_url("http://example.com"));
    assert!(is_url("https://example.com"));
    assert!(!is_url("./local.md"));
    assert!(!is_url("file.epub"));
    assert!(!is_url("/absolute/path"));
}

#[test]
fn domains_drop_scheme_path_and_port() {
    assert_eq!(extract_domain("https://example.com:8443/path"), "example.com");
    assert_eq!(extract_domain("no scheme here"), "");
}

#[test]
fn timestamps_are_iso_8601_utc() {
    assert_eq!(iso_timestamp(0), "1970-01-01T00:00:00Z");
    assert_eq!(iso_timestamp(951_782_400), "2000-02-29T00:00:00Z");
    assert_eq!(iso_timestamp(1_782_995_045), "2026-07-02T12:24:05Z");
    assert_eq!(days_to_ymd(0), (1970, 1, 1));
    assert_eq!(days_to_ymd(59), (1970, 3, 1));
    assert_eq!(chrono_now().len(), 20);
}

#[test]
fn fragments_are_read_as_xhtml_with_resolved_images() {
    let html = r#"<p>Hello <b>world</b></p><img src="/a.png" alt="A"/>"#;
    assert_eq!(
        wrap_fragment("<p>x</p>"),
        r#"<html xmlns="http://www.w3.org/1999/xhtml"><body><p>x</p></body></html>"#
    );
    let urls = html_image_urls(html, "https://example.com/post/1");
    assert_eq!(urls, vec!["https://example.com/a.png".to_string()]);
    let lines = html_to_lines(html, &vec![Some("/cache/a.png".to_string())], &vec![]);
    let text: Vec<String> = lines
        .iter()
        .filter_map(|l| match l {
            LineContent::Styled(spans) => Some(spans.iter().map(|s| s.text.as_str()).collect()),
            _ => None,
        })
        .collect();
    assert!(text.iter().any(|t| t.contains("Hello world")));
    let image = lines
        .iter()
        .find_map(|l| match l {
            LineContent::Image(n) => Some(n),
            _ => None,
        })
        .expect("an image line");
    assert_eq!(image.alt, "A");
    assert_eq!(image.local_path.as_deref(), Some("/cache/a.png"));
}

#[test]
fn document_urls_need_a_scheme_and_something_after_it() {
    let html = "<html><body><p>x</p></body></html>";
    for bad in ["://example.com", "1http://example.com", "ht_tp://example.com", "https://", "mailto:someone@example.com", "  "] {
        let err = extract_content(html, bad).unwrap_err();
        assert!(err.starts_with("Readability 解析失败: "), "{bad}: {err}");
    }
    for good in ["https://example.com/a", " svn+ssh://host/x ", "a.b-c://x"] {
        if let Err(e) = extract_content(html, good) {
            assert!(!e.starts_with("Readability 解析失败: "), "{good}: {e}");
        }
    }
}
