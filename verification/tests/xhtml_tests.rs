use tread::image::{ImageNode, LineContent, LinkInfo};
use tread::xhtml::xhtml_to_lines;

fn convert(html: &str) -> Vec<LineContent> {
    xhtml_to_lines(html, &Vec::new(), &Vec::new())
}

fn styled_text(lines: &[LineContent]) -> Vec<String> {
    lines
        .iter()
        .filter_map(|lc| match lc {
            LineContent::Styled(spans) => Some(spans.iter().map(|s| s.text.as_str()).collect::<String>()),
            _ => None,
        })
        .collect()
}

fn images(lines: &[LineContent]) -> Vec<&ImageNode> {
    lines
        .iter()
        .filter_map(|lc| match lc {
            LineContent::Image(node) => Some(node),
            _ => None,
        })
        .collect()
}

fn inline_link_infos(lines: &[LineContent]) -> Vec<&LinkInfo> {
    lines
        .iter()
        .filter_map(|lc| match lc {
            LineContent::Styled(spans) => Some(spans),
            _ => None,
        })
        .flat_map(|spans| spans.iter())
        .filter_map(|span| span.link.as_ref())
        .collect()
}

#[test]
fn paragraph_basic() {
    let lines = convert(r#"<html><body><p>Hello world</p></body></html>"#);
    let text = styled_text(&lines);
    assert!(text.iter().any(|l| l.contains("Hello world")));
}

#[test]
fn headings() {
    let lines = convert(r#"<html><body><h1>Title</h1><h2>Sub</h2></body></html>"#);
    let text = styled_text(&lines);
    assert!(text.iter().any(|l| l.contains("# Title")));
    assert!(text.iter().any(|l| l.contains("## Sub")));
}

#[test]
fn bold_and_italic() {
    let lines = convert(r#"<html><body><p><strong>bold</strong> and <em>italic</em></p></body></html>"#);
    let text = styled_text(&lines);
    assert!(text.iter().any(|l| l.contains("bold")));
    assert!(text.iter().any(|l| l.contains("italic")));
}

#[test]
fn lists() {
    let lines = convert(r#"<html><body><ul><li>Item 1</li><li>Item 2</li></ul></body></html>"#);
    let text = styled_text(&lines);
    assert!(text.iter().any(|l| l.contains("•")));
    assert!(text.iter().any(|l| l.contains("Item 1")));
}

#[test]
fn code_block() {
    let lines = convert(r#"<html><body><pre><code>fn main() {}</code></pre></body></html>"#);
    let text = styled_text(&lines);
    assert!(text.iter().any(|l| l.contains("fn main()")));
    assert!(text.iter().any(|l| l.contains('─')));
}

#[test]
fn links() {
    let lines = convert(r#"<html><body><p><a href="https://example.com">click</a></p></body></html>"#);
    let text = styled_text(&lines);
    assert!(text.iter().any(|l| l.contains("click")));
}

#[test]
fn images_extracted() {
    let lines = convert(r#"<html><body><img src="photo.jpg" alt="A photo"/></body></html>"#);
    let imgs = images(&lines);
    assert_eq!(imgs.len(), 1);
    assert_eq!(imgs[0].alt, "A photo");
    assert_eq!(imgs[0].url, "photo.jpg");
}

#[test]
fn image_with_extractor() {
    let html = r#"<html><body><img src="img.png" alt="test"/></body></html>"#;
    // The image's local file, as an extractor would give it for "img.png".
    let sources = tread::xhtml::xhtml_image_sources(html);
    let paths: Vec<Option<String>> = sources
        .iter()
        .map(|href| if href == "img.png" { Some("/cached/img.png".to_string()) } else { None })
        .collect();
    let lines = xhtml_to_lines(html, &paths, &Vec::new());
    let imgs = images(&lines);
    assert_eq!(imgs.len(), 1);
    assert!(imgs[0].local_path.is_some());
    assert!(!imgs[0].download_failed);
}

#[test]
fn image_extractor_returns_none_marks_failed() {
    let html = r#"<html><body><img src="missing.png" alt="gone"/></body></html>"#;
    let paths: Vec<Option<String>> = vec![None];
    let lines = xhtml_to_lines(html, &paths, &Vec::new());
    let imgs = images(&lines);
    assert!(imgs[0].download_failed);
}

#[test]
fn unknown_tags_preserve_text() {
    let lines = convert(r#"<html><body><ruby>漢</ruby><p>Normal</p></body></html>"#);
    let text = styled_text(&lines);
    assert!(text.iter().any(|l| l.contains("漢")));
    assert!(text.iter().any(|l| l.contains("Normal")));
}

#[test]
fn head_and_style_ignored() {
    let lines = convert(
        r#"<html><head><title>Title</title><style>body{color:red}</style></head><body><p>Content</p></body></html>"#,
    );
    let text = styled_text(&lines);
    assert!(!text.iter().any(|l| l.contains("color:red")));
    assert!(text.iter().any(|l| l.contains("Content")));
}

#[test]
fn blockquote() {
    let lines = convert(r#"<html><body><blockquote>A quote</blockquote></body></html>"#);
    let text = styled_text(&lines);
    assert!(text.iter().any(|l| l.contains('▎')));
    assert!(text.iter().any(|l| l.contains("A quote")));
}

#[test]
fn empty_body() {
    let lines = convert(r#"<html><body></body></html>"#);
    assert!(lines.is_empty()
        || lines.iter().all(|l| match l {
            LineContent::Styled(s) => s.is_empty(),
            _ => true,
        }));
}

#[test]
fn xhtml_link_external() {
    let lines = convert(r#"<html><body><p><a href="https://example.com">visit</a></p></body></html>"#);
    let links = inline_link_infos(&lines);
    assert!(!links.is_empty());
    assert_eq!(links[0].url, "https://example.com");
    assert!(links[0].is_external);
}

#[test]
fn xhtml_link_internal() {
    let lines = convert(r#"<html><body><p><a href="chapter2.xhtml">next</a></p></body></html>"#);
    let links = inline_link_infos(&lines);
    assert!(!links.is_empty());
    assert!(!links[0].is_external);
}

#[test]
fn xhtml_link_has_link_icon_prefix() {
    let lines = convert(r#"<html><body><p><a href="https://example.com">visit</a></p></body></html>"#);
    let text = styled_text(&lines);
    assert!(text.iter().any(|l| l.contains("🔗")));
}

#[test]
fn table_is_drawn_in_the_given_widths() {
    let html = r#"<html><body><table><tr><th>Name</th><th>Size</th></tr><tr><td>alpha</td><td>1</td></tr></table></body></html>"#;
    let natural = tread::xhtml::xhtml_table_widths(html);
    assert_eq!(natural, vec![vec![5, 4]]);
    let lines = xhtml_to_lines(html, &Vec::new(), &natural);
    let text = styled_text(&lines);
    assert!(text.iter().any(|l| l == "┌─────┬────┐"));
    assert!(text.iter().any(|l| l == "│ alpha │ 1    │"));
    assert!(text.iter().any(|l| l.contains("alpha")));
    assert!(text.iter().any(|l| l.starts_with('└')));
}

#[test]
fn xhtml_images_are_numbered_in_order() {
    let lines = convert(r#"<html><body><p>x</p><img src="a.png"/><p>y</p><img src="b.png" alt="b"/></body></html>"#);
    let ids: Vec<usize> = images(&lines).iter().map(|n| n.id).collect();
    assert_eq!(ids, vec![0, 1]);
}
