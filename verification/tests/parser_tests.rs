use tread::image::{ImageNode, LineContent, LinkInfo, StyledSpan};
use tread::markdown::parse_markdown;
use tread::style::Color;

fn plain(lines: &[LineContent]) -> Vec<String> {
    lines
        .iter()
        .filter_map(|lc| match lc {
            LineContent::Styled(spans) => Some(spans.iter().map(|s| s.text.as_str()).collect::<String>()),
            LineContent::Image(_) | LineContent::Link(_) => None,
        })
        .collect()
}

fn styled_lines(lines: &[LineContent]) -> Vec<&Vec<StyledSpan>> {
    lines
        .iter()
        .filter_map(|lc| match lc {
            LineContent::Styled(spans) => Some(spans),
            _ => None,
        })
        .collect()
}

fn image_nodes(lines: &[LineContent]) -> Vec<&ImageNode> {
    lines
        .iter()
        .filter_map(|lc| match lc {
            LineContent::Image(node) => Some(node),
            _ => None,
        })
        .collect()
}

fn inline_link_infos(lines: &[LineContent]) -> Vec<&LinkInfo> {
    lines
        .iter()
        .filter_map(|lc| match lc {
            LineContent::Styled(spans) => Some(spans),
            _ => None,
        })
        .flat_map(|spans| spans.iter())
        .filter_map(|span| span.link.as_ref())
        .collect()
}

fn spans_with<'a>(lines: &'a [LineContent], text: &str) -> Vec<&'a StyledSpan> {
    styled_lines(lines).into_iter().flat_map(|l| l.iter()).filter(|span| span.text.contains(text)).collect()
}

fn line_has_fg(line: &[StyledSpan], color: Color) -> bool {
    line.iter().any(|s| s.style.fg == Some(color))
}

#[test]
fn h1_has_yellow_bold_underline() {
    let lines = parse_markdown("# Hello");
    let sl = styled_lines(&lines);
    assert!(!sl.is_empty());
    let first = sl[0];
    assert!(plain(&lines)[0].contains("Hello"));
    assert!(line_has_fg(first, Color::Yellow));
    assert!(first.iter().any(|s| s.style.bold));
    assert!(first.iter().any(|s| s.style.underlined));
}

#[test]
fn h2_has_cyan_bold() {
    let lines = parse_markdown("## Subtitle");
    let first = styled_lines(&lines)[0];
    assert!(plain(&lines)[0].contains("Subtitle"));
    assert!(line_has_fg(first, Color::Cyan));
    assert!(first.iter().any(|s| s.style.bold));
}

#[test]
fn h3_has_green_bold() {
    let lines = parse_markdown("### Section");
    let first = styled_lines(&lines)[0];
    assert!(line_has_fg(first, Color::Green));
    assert!(first.iter().any(|s| s.style.bold));
}

#[test]
fn h4_has_magenta_bold() {
    let lines = parse_markdown("#### Sub");
    let first = styled_lines(&lines)[0];
    assert!(line_has_fg(first, Color::Magenta));
    assert!(first.iter().any(|s| s.style.bold));
}

#[test]
fn h5_has_blue_bold() {
    let lines = parse_markdown("##### Deep");
    let first = styled_lines(&lines)[0];
    assert!(line_has_fg(first, Color::Blue));
    assert!(first.iter().any(|s| s.style.bold));
}

#[test]
fn bold_text_has_bold_modifier() {
    let lines = parse_markdown("some **bold** text");
    let all_bold = spans_with(&lines, "bold");
    assert!(!all_bold.is_empty());
    assert!(all_bold.iter().any(|span| span.style.bold));
}

#[test]
fn italic_text_has_italic_modifier() {
    let lines = parse_markdown("some *italic* text");
    let all_it = spans_with(&lines, "italic");
    assert!(!all_it.is_empty());
    assert!(all_it.iter().any(|span| span.style.italic));
}

#[test]
fn strikethrough_text_has_crossed_out_modifier() {
    let lines = parse_markdown("some ~~struck~~ text");
    let all_st = spans_with(&lines, "struck");
    assert!(!all_st.is_empty());
    assert!(all_st.iter().any(|span| span.style.crossed_out));
}

#[test]
fn inline_code_has_green_fg_black_bg() {
    let lines = parse_markdown("some `code` here");
    let code_spans = spans_with(&lines, "code");
    assert!(!code_spans.is_empty());
    assert!(code_spans.iter().any(|span| span.style.fg == Some(Color::Green)));
}

#[test]
fn link_has_blue_underlined() {
    let lines = parse_markdown("[click](https://example.com)");
    let link_spans = spans_with(&lines, "click");
    assert!(!link_spans.is_empty());
    assert!(link_spans.iter().any(|span| span.style.fg == Some(Color::Blue)));
    assert!(link_spans.iter().any(|span| span.style.underlined));
}

#[test]
fn fenced_code_block_with_language() {
    let lines = parse_markdown("```rust\nlet x = 1;\n```");
    let text = plain(&lines);
    assert!(text.iter().any(|l| l.contains("rust")));
    assert!(text.iter().any(|l| l.contains("let x = 1;")));
    assert!(text.iter().any(|l| l.contains('─')));
}

#[test]
fn fenced_code_block_without_language() {
    let lines = parse_markdown("```\nhello\n```");
    let text = plain(&lines);
    assert!(text.iter().any(|l| l.contains("hello")));
    assert!(text.iter().any(|l| l.contains('─')));
}

#[test]
fn unordered_list_has_bullet_marker() {
    let lines = parse_markdown("- item one\n- item two");
    let text = plain(&lines);
    assert!(text.iter().any(|l| l.contains('•')));
    assert!(text.iter().any(|l| l.contains("item one")));
    assert!(text.iter().any(|l| l.contains("item two")));
}

#[test]
fn nested_list_has_extra_indent() {
    let lines = parse_markdown("- outer\n  - inner");
    let text = plain(&lines);
    let inner_line = text.iter().find(|l| l.contains("inner")).unwrap();
    let outer_line = text.iter().find(|l| l.contains("outer")).unwrap();
    let outer_indent = outer_line.len() - outer_line.trim_start().len();
    let inner_indent = inner_line.len() - inner_line.trim_start().len();
    assert!(
        inner_indent > outer_indent,
        "outer={outer_line:?} (indent={outer_indent}), inner={inner_line:?} (indent={inner_indent})"
    );
}

#[test]
fn blockquote_has_prefix() {
    let lines = parse_markdown("> quoted text");
    let text = plain(&lines);
    assert!(text.iter().any(|l| l.contains('▎')));
    assert!(text.iter().any(|l| l.contains("quoted text")));
}

#[test]
fn table_cells_separated_by_pipe() {
    let lines = parse_markdown("| A | B |\n|---|---|\n| 1 | 2 |");
    let text = plain(&lines);
    assert!(text.iter().any(|l| l.contains('│')));
    assert!(text.iter().any(|l| l.contains('A')));
    assert!(text.iter().any(|l| l.contains('1')));
}

#[test]
fn horizontal_rule_renders_dashes() {
    let lines = parse_markdown("---");
    let text = plain(&lines);
    assert!(text.iter().any(|l| l.contains('─')));
}

#[test]
fn empty_input_returns_empty_vec() {
    let lines = parse_markdown("");
    assert!(lines.is_empty());
    assert!(parse_markdown(" \n\t ").is_empty());
}

#[test]
fn image_with_alt_text() {
    let lines = parse_markdown("![公司 Logo](logo.png)");
    let imgs = image_nodes(&lines);
    assert_eq!(imgs.len(), 1);
    assert_eq!(imgs[0].alt, "公司 Logo");
    assert_eq!(imgs[0].url, "logo.png");
    assert_eq!(imgs[0].id, 0);
}

#[test]
fn image_with_empty_alt() {
    let lines = parse_markdown("![](photo.jpg)");
    let imgs = image_nodes(&lines);
    assert_eq!(imgs.len(), 1);
    assert_eq!(imgs[0].alt, "");
    assert_eq!(imgs[0].url, "photo.jpg");
}

#[test]
fn image_with_remote_url() {
    let lines = parse_markdown("![封面](https://example.com/cover.jpg)");
    let imgs = image_nodes(&lines);
    assert_eq!(imgs.len(), 1);
    assert_eq!(imgs[0].url, "https://example.com/cover.jpg");
}

#[test]
fn multiple_images_get_unique_ids() {
    let lines = parse_markdown("![a](1.png)\n\n![b](2.png)\n\n![c](3.png)");
    let imgs = image_nodes(&lines);
    assert_eq!(imgs.len(), 3);
    assert_eq!(imgs[0].id, 0);
    assert_eq!(imgs[1].id, 1);
    assert_eq!(imgs[2].id, 2);
}

#[test]
fn image_preserves_surrounding_text() {
    let lines = parse_markdown("前文\n\n![图](img.png)\n\n后文");
    let text = plain(&lines);
    assert!(text.iter().any(|l| l.contains("前文")));
    assert!(text.iter().any(|l| l.contains("后文")));
    assert_eq!(image_nodes(&lines).len(), 1);
}

#[test]
fn parser_link_external() {
    let lines = parse_markdown("[click](https://example.com)");
    let links = inline_link_infos(&lines);
    assert!(!links.is_empty());
    assert_eq!(links[0].url, "https://example.com");
    assert!(links[0].is_external);
}

#[test]
fn parser_link_internal() {
    let lines = parse_markdown("[next](chapter2.xhtml#section)");
    let links = inline_link_infos(&lines);
    assert!(!links.is_empty());
    assert!(!links[0].is_external);
}

#[test]
fn multiple_links_in_paragraph() {
    let lines = parse_markdown("See [a](url1) and [b](url2)");
    let links = inline_link_infos(&lines);
    assert!(links.len() >= 2);
}

#[test]
fn parser_link_has_link_icon_prefix() {
    let lines = parse_markdown("[click](https://example.com)");
    let text = plain(&lines);
    assert!(text.iter().any(|l| l.contains("🔗")));
}

#[test]
fn markdown_images_are_numbered_in_order() {
    let lines = parse_markdown("![a](one.png)\n\ntext\n\n![b](two.png)\n\n![c](https://example.com/three.png)\n");
    let ids: Vec<usize> = lines
        .iter()
        .filter_map(|lc| match lc {
            LineContent::Image(node) => Some(node.id),
            _ => None,
        })
        .collect();
    assert_eq!(ids, vec![0, 1, 2]);
}
