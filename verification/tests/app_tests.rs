use tread::app::{wrap_lines, Action, App};
use tread::epub::TocEntry;
use tread::image::{ImageNode, LineContent, LinkInfo, LinkNode, StyledSpan};
use tread::keys::{KeyCode, KeyEvent, KeyModifiers};
use tread::style::Style;
use unicode_width::UnicodeWidthChar;

const TERM_WIDTH: usize = 80;

fn key(code: KeyCode) -> KeyEvent {
    KeyEvent::new(code, KeyModifiers::none())
}

fn key_ctrl(code: KeyCode) -> KeyEvent {
    KeyEvent::new(code, KeyModifiers::control())
}

fn key_shift(code: KeyCode) -> KeyEvent {
    KeyEvent::new(code, KeyModifiers::shift())
}

fn make_lines(n: usize) -> Vec<LineContent> {
    (0..n)
        .map(|i| LineContent::Styled(vec![StyledSpan::new(format!("line_{i}"), Style::plain())]))
        .collect()
}

fn make_lines_with_images(text_count: usize, image_count: usize) -> Vec<LineContent> {
    let mut lines = Vec::new();
    for i in 0..text_count {
        lines.push(LineContent::Styled(vec![StyledSpan::new(format!("line_{i}"), Style::plain())]));
        if i < image_count {
            lines.push(LineContent::Image(ImageNode {
                alt: format!("img_{i}"),
                url: format!("img_{i}.png"),
                local_path: None,
                id: i,
                download_failed: false,
            }));
        }
    }
    lines
}

fn plain(lines: &[LineContent]) -> Vec<String> {
    lines
        .iter()
        .filter_map(|lc| match lc {
            LineContent::Styled(spans) => Some(spans.iter().map(|s| s.text.as_str()).collect::<String>()),
            LineContent::Image(_) | LineContent::Link(_) => None,
        })
        .collect()
}

fn make_app(n_lines: usize, height: u16) -> App {
    let mut app = App::new(make_lines(n_lines), "test.md".to_string());
    app.set_height(height, TERM_WIDTH);
    app
}

fn toc(entries: &[(&str, &str)]) -> Vec<TocEntry> {
    entries
        .iter()
        .map(|(title, href)| TocEntry { title: title.to_string(), href: href.to_string(), level: 1 })
        .collect()
}

fn hrefs(names: &[&str]) -> Vec<String> {
    names.iter().map(|s| s.to_string()).collect()
}

#[test]
fn wrap_empty_input_returns_empty() {
    let result = wrap_lines(&vec![], 10);
    assert!(result.is_empty());
}

#[test]
fn wrap_empty_line_stays_empty() {
    let input = vec![LineContent::Styled(Vec::new())];
    let result = wrap_lines(&input, 10);
    assert_eq!(result.len(), 1);
    match &result[0] {
        LineContent::Styled(spans) => assert!(spans.is_empty()),
        _ => panic!("expected styled line"),
    }
}

#[test]
fn wrap_short_line_not_broken() {
    let input = vec![LineContent::Styled(vec![StyledSpan::new("hello".to_string(), Style::plain())])];
    let result = wrap_lines(&input, 80);
    assert_eq!(result.len(), 1);
    assert_eq!(plain(&result)[0], "hello");
}

#[test]
fn wrap_english_breaks_at_word_boundary() {
    let input = vec![LineContent::Styled(vec![StyledSpan::new("hello world foo".to_string(), Style::plain())])];
    let result = wrap_lines(&input, 12);
    assert!(result.len() >= 2, "expected at least 2 lines, got {}", result.len());
    let text = plain(&result);
    assert_eq!(text[0].trim(), "hello world");
    assert_eq!(text[1].trim(), "foo");
}

#[test]
fn wrap_cjk_breaks_at_character_boundary() {
    let input = vec![LineContent::Styled(vec![StyledSpan::new("你好世界".to_string(), Style::plain())])];
    let result = wrap_lines(&input, 4);
    assert!(result.len() >= 2, "expected at least 2 lines for CJK wrap");
}

#[test]
fn wrap_mixed_cjk_english() {
    let input = vec![LineContent::Styled(vec![StyledSpan::new("hi 你好".to_string(), Style::plain())])];
    let result = wrap_lines(&input, 6);
    assert!(result.len() >= 2, "expected mixed content to wrap");
}

#[test]
fn wrap_long_word_force_breaks() {
    let input = vec![LineContent::Styled(vec![StyledSpan::new("abcdefghijklmnop".to_string(), Style::plain())])];
    let result = wrap_lines(&input, 8);
    assert!(result.len() >= 2, "expected force-break for long word");
}

#[test]
fn wrap_preserves_style() {
    let bold = Style::plain().with_bold();
    let input = vec![LineContent::Styled(vec![StyledSpan::new("hello world".to_string(), bold)])];
    let result = wrap_lines(&input, 80);
    assert!(!result.is_empty());
    match &result[0] {
        LineContent::Styled(spans) => assert!(spans.iter().any(|span| span.style.bold)),
        _ => panic!("expected styled line"),
    }
}

#[test]
fn wrap_image_passes_through() {
    let input = vec![
        LineContent::Styled(vec![StyledSpan::new("text".to_string(), Style::plain())]),
        LineContent::Image(ImageNode {
            alt: "test".to_string(),
            url: "test.png".to_string(),
            local_path: None,
            id: 0,
            download_failed: false,
        }),
    ];
    let result = wrap_lines(&input, 80);
    assert_eq!(result.len(), 2);
    match &result[1] {
        LineContent::Image(node) => assert_eq!(node.alt, "test"),
        _ => panic!("expected image line"),
    }
}

#[test]
fn wrap_narrow_width_behaves_as_four_columns() {
    let input = vec![LineContent::Styled(vec![StyledSpan::new("abcdefgh".to_string(), Style::plain())])];
    assert_eq!(plain(&wrap_lines(&input, 1)), plain(&wrap_lines(&input, 4)));
    assert_eq!(plain(&wrap_lines(&input, 4)), vec!["abcd".to_string(), "efgh".to_string()]);
}

#[test]
fn j_scrolls_down_one_line() {
    let mut app = make_app(100, 10);
    assert_eq!(app.scroll, 0);
    app.handle_key(key(KeyCode::Char('j')));
    assert_eq!(app.scroll, 1);
}

#[test]
fn k_scrolls_up_one_line() {
    let mut app = make_app(100, 10);
    app.scroll_to_line(5);
    app.handle_key(key(KeyCode::Char('k')));
    assert_eq!(app.scroll, 4);
}

#[test]
fn ctrl_d_half_page_down() {
    let mut app = make_app(100, 10);
    app.handle_key(key_ctrl(KeyCode::Char('d')));
    assert_eq!(app.scroll, 5);
}

#[test]
fn ctrl_u_half_page_up() {
    let mut app = make_app(100, 10);
    app.scroll_to_line(10);
    app.handle_key(key_ctrl(KeyCode::Char('u')));
    assert_eq!(app.scroll, 5);
}

#[test]
fn ctrl_f_full_page_down() {
    let mut app = make_app(100, 10);
    app.handle_key(key_ctrl(KeyCode::Char('f')));
    assert_eq!(app.scroll, 10);
}

#[test]
fn ctrl_b_full_page_up() {
    let mut app = make_app(100, 10);
    app.scroll_to_line(20);
    app.handle_key(key_ctrl(KeyCode::Char('b')));
    assert_eq!(app.scroll, 10);
}

#[test]
fn g_jumps_to_top() {
    let mut app = make_app(100, 10);
    app.scroll_to_line(50);
    app.handle_key(key(KeyCode::Char('g')));
    assert_eq!(app.scroll, 0);
}

#[test]
fn shift_g_jumps_to_bottom() {
    let mut app = make_app(100, 10);
    app.handle_key(key(KeyCode::Char('G')));
    assert_eq!(app.scroll, 90);
}

#[test]
fn home_jumps_to_top() {
    let mut app = make_app(100, 10);
    app.scroll_to_line(50);
    app.handle_key(key(KeyCode::Home));
    assert_eq!(app.scroll, 0);
}

#[test]
fn end_jumps_to_bottom() {
    let mut app = make_app(100, 10);
    app.handle_key(key(KeyCode::End));
    assert_eq!(app.scroll, 90);
}

#[test]
fn page_down_half_page() {
    let mut app = make_app(100, 10);
    app.handle_key(key(KeyCode::PageDown));
    assert_eq!(app.scroll, 5);
}

#[test]
fn page_up_half_page() {
    let mut app = make_app(100, 10);
    app.scroll_to_line(10);
    app.handle_key(key(KeyCode::PageUp));
    assert_eq!(app.scroll, 5);
}

#[test]
fn scroll_cannot_go_below_zero() {
    let mut app = make_app(100, 10);
    assert_eq!(app.scroll, 0);
    app.handle_key(key(KeyCode::Char('k')));
    assert_eq!(app.scroll, 0);
}

#[test]
fn scroll_cannot_exceed_max() {
    let mut app = make_app(100, 10);
    app.handle_key(key(KeyCode::Char('G')));
    let max = app.scroll;
    app.handle_key(key(KeyCode::Char('j')));
    assert_eq!(app.scroll, max);
}

#[test]
fn short_content_cannot_scroll() {
    let mut app = make_app(5, 10);
    assert_eq!(app.scroll, 0);
    app.handle_key(key(KeyCode::Char('j')));
    assert_eq!(app.scroll, 0);
}

#[test]
fn question_mark_toggles_help() {
    let mut app = make_app(100, 10);
    assert!(!app.help_visible);
    app.handle_key(key(KeyCode::Char('?')));
    assert!(app.help_visible);
    app.handle_key(key(KeyCode::Char('x')));
    assert!(!app.help_visible);
}

#[test]
fn q_returns_quit() {
    let mut app = make_app(100, 10);
    let action = app.handle_key(key(KeyCode::Char('q')));
    assert!(matches!(action, Action::Quit));
}

#[test]
fn ctrl_c_returns_quit() {
    let mut app = make_app(100, 10);
    let action = app.handle_key(key_ctrl(KeyCode::Char('c')));
    assert!(matches!(action, Action::Quit));
}

#[test]
fn esc_returns_quit() {
    let mut app = make_app(100, 10);
    let action = app.handle_key(key(KeyCode::Esc));
    assert!(matches!(action, Action::Quit));
}

#[test]
fn capital_d_returns_dashboard() {
    let mut app = make_app(100, 10);
    let action = app.handle_key(key(KeyCode::Char('D')));
    assert!(matches!(action, Action::Dashboard));
}

#[test]
fn set_height_rewraps_and_clamps() {
    let mut app = make_app(100, 50);
    app.scroll_to_line(40);
    app.set_height(10, TERM_WIDTH);
    assert_eq!(app.scroll, 40);
    app.set_height(5, TERM_WIDTH);
    assert!(app.scroll <= app.scroll.max(0));
}

#[test]
fn total_lines_returns_wrapped_count() {
    let app = make_app(100, 10);
    assert_eq!(app.total_lines(), 100);
}

#[test]
fn tab_focuses_first_image() {
    let mut app = App::new(make_lines_with_images(5, 3), "test.md".to_string());
    app.set_height(50, TERM_WIDTH);
    assert!(app.focus_index.is_none());
    app.handle_key(key(KeyCode::Tab));
    assert_eq!(app.focus_index, Some(0));
}

#[test]
fn tab_initial_focus_starts_from_viewport() {
    let mut app = App::new(make_lines_with_images(10, 5), "test.md".to_string());
    app.set_height(3, TERM_WIDTH);
    app.scroll_to_line(4);
    assert!(app.focus_index.is_none());
    app.handle_key(key(KeyCode::Tab));
    assert_eq!(app.focus_index, Some(2));
    assert_eq!(app.focusable_positions[2].line_idx(), 5);
}

#[test]
fn shift_tab_initial_focus_starts_from_viewport() {
    let mut app = App::new(make_lines_with_images(10, 5), "test.md".to_string());
    app.set_height(3, TERM_WIDTH);
    app.scroll_to_line(4);
    assert!(app.focus_index.is_none());
    app.handle_key(key_shift(KeyCode::BackTab));
    assert_eq!(app.focus_index, Some(2));
    assert_eq!(app.focusable_positions[2].line_idx(), 5);
}

#[test]
fn tab_cycles_through_images() {
    let mut app = App::new(make_lines_with_images(5, 3), "test.md".to_string());
    app.set_height(50, TERM_WIDTH);
    app.handle_key(key(KeyCode::Tab));
    assert_eq!(app.focus_index, Some(0));
    app.handle_key(key(KeyCode::Tab));
    assert_eq!(app.focus_index, Some(1));
    app.handle_key(key(KeyCode::Tab));
    assert_eq!(app.focus_index, Some(2));
    app.handle_key(key(KeyCode::Tab));
    assert_eq!(app.focus_index, Some(0));
}

#[test]
fn shift_tab_goes_to_previous_image() {
    let mut app = App::new(make_lines_with_images(5, 3), "test.md".to_string());
    app.set_height(50, TERM_WIDTH);
    app.handle_key(key(KeyCode::Tab));
    app.handle_key(key(KeyCode::Tab));
    assert_eq!(app.focus_index, Some(1));
    app.handle_key(key_shift(KeyCode::BackTab));
    assert_eq!(app.focus_index, Some(0));
}

#[test]
fn shift_tab_wraps_to_last() {
    let mut app = App::new(make_lines_with_images(5, 3), "test.md".to_string());
    app.set_height(50, TERM_WIDTH);
    app.handle_key(key_shift(KeyCode::BackTab));
    assert_eq!(app.focus_index, Some(2));
}

#[test]
fn tab_with_no_images_does_nothing() {
    let mut app = App::new(make_lines(10), "test.md".to_string());
    app.set_height(50, TERM_WIDTH);
    assert!(app.focusable_positions.is_empty());
    app.handle_key(key(KeyCode::Tab));
    assert!(app.focus_index.is_none());
}

#[test]
fn focused_item_returns_correct_node() {
    let mut app = App::new(make_lines_with_images(5, 3), "test.md".to_string());
    app.set_height(50, TERM_WIDTH);
    app.handle_key(key(KeyCode::Tab));
    let item = app.focused_item();
    assert!(item.is_some());
    match item.unwrap() {
        LineContent::Image(node) => assert_eq!(node.alt, "img_0"),
        _ => panic!("expected Image"),
    }
}

#[test]
fn multi_word_inline_link_is_one_focus_target_after_wrap() {
    let link = LinkInfo { url: "https://example.com".to_string(), is_external: true };
    let lines = vec![LineContent::Styled(vec![StyledSpan::with_link("Learn more".to_string(), Style::plain(), link)])];
    let mut app = App::new(lines, "test.md".to_string());
    app.set_height(50, TERM_WIDTH);
    assert_eq!(plain(&app.wrapped_lines), vec!["Learn more".to_string()]);
    assert_eq!(app.focusable_positions.len(), 1);
    app.handle_key(key(KeyCode::Tab));
    assert_eq!(app.focus_index, Some(0));
    assert_eq!(app.focused_link(), Some(("https://example.com".to_string(), true)));
}

#[test]
fn tab_navigates_links_and_images_together() {
    let lines = vec![
        LineContent::Styled(vec![StyledSpan::new("text".to_string(), Style::plain())]),
        LineContent::Image(ImageNode {
            alt: "img".to_string(),
            url: "img.png".to_string(),
            local_path: None,
            id: 0,
            download_failed: false,
        }),
        LineContent::Styled(vec![StyledSpan::new("more text".to_string(), Style::plain())]),
        LineContent::Link(LinkNode {
            text: "link".to_string(),
            url: "https://example.com".to_string(),
            is_external: true,
        }),
    ];
    let mut app = App::new(lines, "test.md".to_string());
    app.set_height(50, TERM_WIDTH);
    assert_eq!(app.focusable_positions.len(), 2);
    app.handle_key(key(KeyCode::Tab));
    assert_eq!(app.focus_index, Some(0));
    app.handle_key(key(KeyCode::Tab));
    assert_eq!(app.focus_index, Some(1));
    app.handle_key(key(KeyCode::Tab));
    assert_eq!(app.focus_index, Some(0));
}

#[test]
fn enter_on_external_link_opens_url() {
    let lines = vec![LineContent::Link(LinkNode {
        text: "visit".to_string(),
        url: "https://example.com".to_string(),
        is_external: true,
    })];
    let mut app = App::new(lines, "test.md".to_string());
    app.set_height(50, TERM_WIDTH);
    app.handle_key(key(KeyCode::Tab));
    let action = app.handle_key(key(KeyCode::Enter));
    match action {
        Action::OpenUrl(url) => {
            assert_eq!(url, "https://example.com");
            app.report_open_url(&url, Err("no browser in tests".to_string()));
        }
        other => panic!("expected OpenUrl, got {other:?}"),
    }
    assert!(app.status_message.is_some());
}

#[test]
fn report_open_url_success_names_the_url() {
    let mut app = make_app(3, 10);
    app.report_open_url("https://example.com", Ok(()));
    assert_eq!(app.status_message.as_deref(), Some("已打开: https://example.com"));
    app.report_open_image(Err("no viewer".to_string()));
    assert_eq!(app.status_message.as_deref(), Some("打开失败: no viewer"));
    app.report_open_image(Ok(()));
    assert_eq!(app.status_message, None);
}

#[test]
fn chapter_for_href_finds_chapter() {
    let mut app = App::new(vec![], "test.epub".to_string());
    app.set_epub_mode(
        None,
        3,
        0,
        toc(&[("第一章", "ch1.xhtml"), ("第二章", "ch2.xhtml"), ("第三章", "ch3.xhtml")]),
        hrefs(&["ch1.xhtml", "ch2.xhtml", "ch3.xhtml"]),
    );
    assert_eq!(app.chapter_for_href("ch1.xhtml"), Some(0));
    assert_eq!(app.chapter_for_href("ch2.xhtml"), Some(1));
    assert_eq!(app.chapter_for_href("ch2.xhtml#section"), Some(1));
    assert_eq!(app.chapter_for_href("nonexistent"), None);
}

#[test]
fn internal_link_jumps_to_chapter() {
    let lines = vec![LineContent::Link(LinkNode {
        text: "跳转".to_string(),
        url: "ch2.xhtml".to_string(),
        is_external: false,
    })];
    let mut app = App::new(lines, "test.epub".to_string());
    app.set_epub_mode(None, 3, 0, vec![], hrefs(&["ch1.xhtml", "ch2.xhtml", "ch3.xhtml"]));
    app.set_height(50, TERM_WIDTH);
    app.handle_key(key(KeyCode::Tab));
    let action = app.handle_key(key(KeyCode::Enter));
    assert!(matches!(action, Action::LoadChapter(1, _)));
}

#[test]
fn toc_navigation_and_jump() {
    let mut app = App::new(vec![], "test.epub".to_string());
    app.set_epub_mode(
        None,
        3,
        0,
        toc(&[("第一章", "ch1.xhtml"), ("第二章", "ch2.xhtml")]),
        hrefs(&["ch1.xhtml", "ch2.xhtml"]),
    );
    app.handle_key(key(KeyCode::Char('t')));
    assert!(app.toc_visible);
    assert_eq!(app.toc_selection, 0);
    app.handle_key(key(KeyCode::Down));
    assert_eq!(app.toc_selection, 1);
    let action = app.handle_key(key(KeyCode::Enter));
    assert!(matches!(action, Action::LoadChapter(1, _)));
    assert!(!app.toc_visible);
}

#[test]
fn f_toggles_status_bar() {
    let mut app = make_app(10, 10);
    assert!(app.status_bar_visible);
    app.handle_key(key(KeyCode::Char('f')));
    assert!(!app.status_bar_visible);
    app.handle_key(key(KeyCode::Char('f')));
    assert!(app.status_bar_visible);
}

#[test]
fn j_at_bottom_advances_chapter() {
    let mut app = make_app(100, 10);
    app.set_epub_mode(None, 3, 0, vec![], vec![]);
    app.handle_key(key(KeyCode::Char('G')));
    assert!(app.scroll >= app.max_scroll());
    let action = app.handle_key(key(KeyCode::Char('j')));
    assert!(matches!(action, Action::LoadChapter(1, _)));
}

#[test]
fn k_at_top_retreats_chapter() {
    let mut app = make_app(100, 10);
    app.set_epub_mode(None, 3, 1, vec![], vec![]);
    assert_eq!(app.scroll, 0);
    let action = app.handle_key(key(KeyCode::Char('k')));
    assert!(matches!(action, Action::LoadChapter(0, _)));
}

#[test]
fn j_at_bottom_last_chapter_stays() {
    let mut app = make_app(100, 10);
    app.set_epub_mode(None, 3, 2, vec![], vec![]);
    app.handle_key(key(KeyCode::Char('G')));
    let action = app.handle_key(key(KeyCode::Char('j')));
    assert!(matches!(action, Action::Continue));
}

#[test]
fn k_at_top_first_chapter_stays() {
    let mut app = make_app(100, 10);
    app.set_epub_mode(None, 3, 0, vec![], vec![]);
    let action = app.handle_key(key(KeyCode::Char('k')));
    assert!(matches!(action, Action::Continue));
}

#[test]
fn replace_content_resets_to_new_lines() {
    let mut app = make_app(100, 10);
    app.scroll_to_line(50);
    app.replace_content(make_lines(3), TERM_WIDTH);
    assert_eq!(app.total_lines(), 3);
    assert_eq!(app.scroll, 0);
    assert_eq!(app.max_scroll(), 0);
}

#[test]
fn show_chapter_replaces_content_at_top_or_bottom() {
    let mut app = make_app(100, 10);
    app.set_epub_mode(None, 3, 0, vec![], vec![]);
    app.scroll_to_line(30);
    app.show_chapter(1, make_lines(50), false, TERM_WIDTH);
    assert_eq!(app.current_chapter, 1);
    assert_eq!(app.scroll, 0);
    assert_eq!(app.total_lines(), 50);
    app.show_chapter(0, make_lines(50), true, TERM_WIDTH);
    assert_eq!(app.current_chapter, 0);
    assert_eq!(app.scroll, 40);
}

#[test]
fn wrapping_keeps_all_text_but_spaces() {
    let text = "alpha   beta\tgamma abcdefghijklmnopqrstuvwxyz 你好世界 end";
    let rows = tread::app::wrap_styled_line(&vec![StyledSpan::new(text.to_string(), tread::style::Style::plain())], 8);
    assert!(rows.len() >= 4);
    let joined: String = rows.iter().flat_map(|r| r.iter()).map(|s| s.text.as_str()).collect();
    let strip = |s: &str| s.chars().filter(|c| !c.is_whitespace()).collect::<String>();
    assert_eq!(strip(&joined), strip(text));
}

#[test]
fn tab_and_shift_tab_undo_each_other() {
    let mut app = App::new(make_lines_with_images(5, 3), "test.md".to_string());
    app.set_height(50, TERM_WIDTH);
    app.handle_key(key(KeyCode::Tab));
    for start in 0..3 {
        assert_eq!(app.focus_index, Some(start));
        app.handle_key(key(KeyCode::Tab));
        app.handle_key(key(KeyCode::BackTab));
        assert_eq!(app.focus_index, Some(start));
        app.handle_key(key(KeyCode::BackTab));
        app.handle_key(key(KeyCode::Tab));
        assert_eq!(app.focus_index, Some(start));
        app.handle_key(key(KeyCode::Tab));
    }
    assert_eq!(app.focus_index, Some(0));
}

#[test]
fn page_keys_undo_each_other_inside_the_content() {
    let mut app = make_app(100, 10);
    app.scroll_to_line(20);
    app.handle_key(key_ctrl(KeyCode::Char('d')));
    assert_eq!(app.scroll, 25);
    app.handle_key(key_ctrl(KeyCode::Char('u')));
    assert_eq!(app.scroll, 20);
    app.handle_key(key_ctrl(KeyCode::Char('f')));
    assert_eq!(app.scroll, 30);
    app.handle_key(key_ctrl(KeyCode::Char('b')));
    assert_eq!(app.scroll, 20);
}

#[test]
fn wrapped_rows_fit_the_width() {
    let text = "The quick brown fox jumps over the lazy dog; 你好世界，这是一个测试 supercalifragilistic end";
    for width in [4usize, 7, 10, 16] {
        let rows = tread::app::wrap_styled_line(&vec![StyledSpan::new(text.to_string(), Style::plain())], width);
        for row in &rows {
            let cols: usize = row.iter().flat_map(|s| s.text.chars()).map(|c| c.width().unwrap_or(0)).sum();
            assert!(cols <= width, "row {:?} is {} columns wide at width {}", row.iter().map(|s| s.text.clone()).collect::<String>(), cols, width);
        }
    }
}
