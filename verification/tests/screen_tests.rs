use tread::app::App;
use tread::epub::TocEntry;
use tread::image::{ImageNode, LineContent, LinkInfo, LinkNode, StyledSpan};
use tread::keys::{KeyCode, KeyEvent, KeyModifiers};
use tread::screen::{help_lines, screen_lines, status_bar_line, toc_lines};
use tread::style::{Color, Style};
use unicode_width::UnicodeWidthStr;

fn render_text_width(line: &[StyledSpan]) -> usize {
    let text: String = line.iter().map(|span| span.text.as_str()).collect();
    UnicodeWidthStr::width(text.as_str())
}

fn text_of(line: &[StyledSpan]) -> String {
    line.iter().map(|span| span.text.as_str()).collect()
}

#[test]
fn status_bar_fills_full_width_with_wide_characters() {
    let mut app = App::new(
        vec![LineContent::Styled(Vec::new()); 269],
        "LLM 编译知识库：如何让知识库持续积累和互联？".to_string(),
    );
    app.set_height(1, 80);
    let line = status_bar_line(&app, 120);
    assert_eq!(render_text_width(&line), 120);
}

#[test]
fn status_bar_fills_full_width_with_status_message() {
    let mut app = App::new(vec![LineContent::Styled(Vec::new()); 42], "test.md".to_string());
    app.set_height(10, 80);
    app.status_message = Some("下载失败，请重试".to_string());
    let line = status_bar_line(&app, 80);
    assert_eq!(render_text_width(&line), 80);
    assert_eq!(line[2].text, " ⚠ 下载失败，请重试 ");
    assert_eq!(line[2].style.fg, Some(Color::Yellow));
}

#[test]
fn status_bar_shows_position_and_progress() {
    let mut app = App::new(vec![LineContent::Styled(Vec::new()); 40], "a.md".to_string());
    app.set_height(10, 80);
    app.scroll_to_line(10);
    let line = status_bar_line(&app, 20);
    assert_eq!(line[0].text, " a.md ");
    assert!(line[0].style.bold);
    assert_eq!(line[1].text, " 11/40 ");
    assert_eq!(line[2].text, " 50% [?]帮助 [D]书架 [q]退出 ");
    assert_eq!(line[3].text, "");
}

#[test]
fn content_rows_start_at_the_scroll_and_fill_the_height() {
    let lines: Vec<LineContent> = (0..10)
        .map(|i| LineContent::Styled(vec![StyledSpan::new(format!("line_{i}"), Style::plain())]))
        .collect();
    let mut app = App::new(lines, "a.md".to_string());
    app.set_height(3, 80);
    app.scroll_to_line(4);
    let rows = screen_lines(&app);
    let texts: Vec<String> = rows.iter().map(|r| text_of(r)).collect();
    assert_eq!(texts, vec!["line_4", "line_5", "line_6"]);
}

#[test]
fn images_and_links_show_with_their_markers_and_focus() {
    let lines = vec![
        LineContent::Image(ImageNode {
            alt: "".to_string(),
            url: "https://e.x/a.png".to_string(),
            local_path: None,
            id: 0,
            download_failed: true,
        }),
        LineContent::Link(LinkNode { text: "next".to_string(), url: "ch2.xhtml".to_string(), is_external: false }),
        LineContent::Styled(vec![
            StyledSpan::new("see ".to_string(), Style::plain()),
            StyledSpan::with_link(
                "here".to_string(),
                Style::plain().with_fg(Color::Blue),
                LinkInfo { url: "https://e.x".to_string(), is_external: true },
            ),
        ]),
    ];
    let mut app = App::new(lines, "a.md".to_string());
    app.set_height(10, 80);
    let rows = screen_lines(&app);
    assert_eq!(text_of(&rows[0]), "[📷 image ⚠ 下载失败]");
    assert_eq!(rows[0][0].style.fg, Some(Color::Red));
    assert_eq!(text_of(&rows[1]), "🔗 next");
    assert_eq!(rows[1][0].style.fg, Some(Color::Blue));
    let here = |rows: &Vec<Vec<StyledSpan>>| rows[2].iter().find(|s| s.text == "here").unwrap().style;
    assert_eq!(here(&rows).fg, Some(Color::Blue));
    // Focus the image, then the block link, then the inline link.
    app.handle_key(KeyEvent::new(KeyCode::Tab, KeyModifiers::none()));
    let rows = screen_lines(&app);
    assert_eq!(rows[0][0].style.bg, Some(Color::DarkGray));
    app.handle_key(KeyEvent::new(KeyCode::Tab, KeyModifiers::none()));
    app.handle_key(KeyEvent::new(KeyCode::Tab, KeyModifiers::none()));
    let rows = screen_lines(&app);
    assert_eq!(rows[2][0].style.bg, None);
    let focused = here(&rows);
    assert_eq!(focused.fg, Some(Color::White));
    assert_eq!(focused.bg, Some(Color::DarkGray));
    assert!(focused.bold && focused.underlined);
}

#[test]
fn table_of_contents_marks_the_selection_and_indents_levels() {
    let mut app = App::new(vec![], "b.epub".to_string());
    app.set_epub_mode(
        None,
        2,
        0,
        vec![
            TocEntry { title: "一".to_string(), href: "a".to_string(), level: 1 },
            TocEntry { title: "二".to_string(), href: "b".to_string(), level: 2 },
        ],
        vec!["a".to_string(), "b".to_string()],
    );
    let rows = toc_lines(&app);
    assert_eq!(text_of(&rows[0]), "▶ 一");
    assert_eq!(rows[0][0].style.fg, Some(Color::Yellow));
    assert_eq!(text_of(&rows[1]), "    二");
    assert_eq!(rows[1][1].style.fg, Some(Color::White));
}

#[test]
fn help_lists_every_key_padded_to_twelve_columns() {
    let rows = help_lines();
    assert_eq!(rows.len(), 19);
    assert_eq!(text_of(&rows[0]), "");
    assert_eq!(rows[1][1].text, "j / ↓       ");
    assert_eq!(rows[18][2].text, "退出");
}
