use tread::image::{image_urls, resolve_images, ImageNode, StyledSpan};
use tread::style::Style;
use tread::image::{
    cache_file_name, cache_name_candidates, content_type_to_ext, guess_extension, is_remote_url, LineContent,
    LinkNode,
};

#[test]
fn url_to_cache_path_uses_sha256() {
    let filename = cache_file_name("https://example.com/photo.jpg", "image/png");
    assert!(filename.ends_with(".jpg"));
    let hex_part = &filename[..filename.len() - 4];
    assert_eq!(hex_part.len(), 64);
    assert!(hex_part.chars().all(|c| c.is_ascii_hexdigit()));
}

#[test]
fn same_url_produces_same_path() {
    assert_eq!(cache_file_name("https://example.com/a.png", "image/jpeg"), cache_file_name("https://example.com/a.png", "image/jpeg"));
}

#[test]
fn different_urls_produce_different_paths() {
    assert_ne!(cache_file_name("https://example.com/a.png", "image/jpeg"), cache_file_name("https://example.com/b.png", "image/jpeg"));
}

#[test]
fn url_with_query_string_ignores_query() {
    assert!(cache_file_name("https://example.com/a.png?v=1", "image/jpeg").ends_with(".png"));
    assert!(cache_file_name("https://example.com/a.png?v=2", "image/jpeg").ends_with(".png"));
}

#[test]
fn cache_name_without_extension_takes_the_content_type() {
    // SHA-256("abc")
    let hex = "ba7816bf8f01cfea414140de5dae2223b00361a396177a9cb410ff61f20015ad";
    assert_eq!(cache_file_name("abc", "image/jpeg"), format!("{hex}.jpg"));
    assert!(cache_file_name("https://example.com/image?id=1", "image/jpeg").ends_with(".jpg"));
    assert!(cache_file_name("https://example.com/image?id=1", "image/webp; q=1").ends_with(".webp"));
    assert_eq!(cache_file_name("abc", "application/octet-stream"), format!("{hex}.png"));
    assert!(cache_file_name("https://example.com/pic.img", "image/gif").ends_with(".gif"));
    assert!(cache_file_name("https://example.com/pic.img", "application/octet-stream").ends_with(".img"));
    assert!(cache_file_name("https://example.com/pic.IMG?x=1", "").ends_with(".img"));
    assert!(cache_file_name("https://example.com/pic.GIF", "image/png").ends_with(".gif"));
}

#[test]
fn cache_candidates_cover_every_content_type_extension() {
    let hex = "ba7816bf8f01cfea414140de5dae2223b00361a396177a9cb410ff61f20015ad";
    let names = cache_name_candidates("abc");
    let exts = ["jpg", "png", "gif", "webp", "svg", "bmp", "tiff", "ico", "avif"];
    assert_eq!(names, exts.iter().map(|e| format!("{hex}.{e}")).collect::<Vec<_>>());
    let generic = cache_name_candidates("https://example.com/pic.img");
    assert_eq!(generic.len(), 10);
    assert!(generic[9].ends_with(".img"));
    assert!(generic[0].ends_with(".jpg"));
    let one = cache_name_candidates("https://example.com/photo.JPG?x=1");
    assert_eq!(one.len(), 1);
    assert!(one[0].ends_with(".jpg"));
}

#[test]
fn extension_guessing_lowercases_and_strips_query_and_fragment() {
    assert_eq!(guess_extension("https://x/y/Photo.JPG?size=2#top"), Some("jpg".to_string()));
    assert_eq!(guess_extension("https://x/y/photo"), None);
    assert_eq!(guess_extension("https://x/y/photo."), None);
}

#[test]
fn content_types_map_to_extensions() {
    assert_eq!(content_type_to_ext("image/jpeg"), Some("jpg"));
    assert_eq!(content_type_to_ext(" image/png ; charset=binary"), Some("png"));
    assert_eq!(content_type_to_ext("image/vnd.microsoft.icon"), Some("ico"));
    assert_eq!(content_type_to_ext("text/html"), None);
}

#[test]
fn is_remote_url_detects_http() {
    assert!(is_remote_url("http://example.com/a.png"));
    assert!(is_remote_url("https://example.com/a.png"));
    assert!(!is_remote_url("./local.png"));
    assert!(!is_remote_url("/absolute/path.png"));
}

#[test]
fn link_node_external() {
    let link = LinkNode { text: "click".to_string(), url: "https://example.com".to_string(), is_external: true };
    assert_eq!(link.text, "click");
    assert!(link.is_external);
}

#[test]
fn link_node_internal() {
    let link = LinkNode { text: "next".to_string(), url: "chapter2.xhtml".to_string(), is_external: false };
    assert!(!link.is_external);
}

#[test]
fn line_content_link_variant() {
    let link = LinkNode { text: "test".to_string(), url: "https://example.com".to_string(), is_external: true };
    let lc = LineContent::Link(link);
    match lc {
        LineContent::Link(l) => assert_eq!(l.text, "test"),
        _ => panic!("expected Link variant"),
    }
}

#[test]
fn images_resolve_in_order_and_failures_are_marked() {
    let node = |url: &str, id: usize| {
        LineContent::Image(ImageNode { alt: String::new(), url: url.to_string(), local_path: None, id, download_failed: false })
    };
    let mut lines = vec![
        node("a.png", 0),
        LineContent::Styled(vec![StyledSpan::new("x".to_string(), Style::plain())]),
        node("https://e.x/b.png", 1),
        node("c.png", 2),
    ];
    assert_eq!(image_urls(&lines), vec!["a.png", "https://e.x/b.png", "c.png"]);
    resolve_images(&mut lines, &vec![Some("/abs/a.png".to_string()), None]);
    let images: Vec<&ImageNode> = lines
        .iter()
        .filter_map(|l| match l {
            LineContent::Image(n) => Some(n),
            _ => None,
        })
        .collect();
    assert_eq!(images[0].local_path.as_deref(), Some("/abs/a.png"));
    assert!(!images[0].download_failed);
    assert!(images[1].download_failed && images[1].local_path.is_none());
    assert!(images[2].download_failed && images[2].local_path.is_none());
    assert_eq!(lines.len(), 4);
}
