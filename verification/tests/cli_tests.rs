use tread::cli::{epub_start, web_display_title, web_start_scroll};
use tread::cli::{
    dashboard_entry_from_history, dashboard_remove, display_filename, is_epub, markdown_history_scroll,
    markdown_initial_line, open_request_from_history, parse_command_intent, progress_percent, resolve_reader_restore,
    CommandIntent, HistoryPosition, ReaderRestoreRequest, ReaderSpecificProgress, ReaderTarget, RestorePosition,
    RestoreSource,
};
use tread::dashboard::{DashboardEntry, DashboardState, PathSuggestion, TargetKind};
use tread::epub::ReadingProgress;
use tread::history::{HistoryEntry, HistoryFile, ReadingPosition, TargetIdentity};
use tread::prompt::{
    complete_selected_suggestion, local_open_request, parse_dashboard_prompt_args, prompt_plan, split_whitespace,
    LocalPathStatus, PromptPlan,
};
use tread::shelf::{dashboard_render_plan, dashboard_visual_lines};
use tread::web::WebProgress;

#[test]
fn no_args_parse_to_dashboard_intent() {
    let intent = parse_command_intent(&["tread"]).expect("bare tread should parse");
    assert_eq!(intent, CommandIntent::Dashboard);
}

#[test]
fn url_direct_open_preserves_refresh_and_interactive_flags() {
    let intent = parse_command_intent(&["tread", "https://example.test/articles/intro", "--refresh", "--interactive"])
        .expect("url with web flags should parse");
    let CommandIntent::Open(request) = intent else {
        panic!("expected direct open intent for URL");
    };
    assert_eq!(request.target, ReaderTarget::Web("https://example.test/articles/intro".to_string()));
    assert!(request.refresh, "explicit --refresh must reach web reader");
    assert!(request.interactive, "explicit --interactive must reach web reader");
}

#[test]
fn epub_path_direct_open_is_open_intent() {
    let intent = parse_command_intent(&["tread", "books/novel.epub"]).expect("epub path should parse");
    let CommandIntent::Open(request) = intent else {
        panic!("expected direct open intent for EPUB path");
    };
    assert_eq!(request.target, ReaderTarget::Epub("books/novel.epub".to_string()));
}

#[test]
fn invalid_extra_argument_is_rejected() {
    let err = parse_command_intent(&["tread", "notes.md", "--refesh"]).unwrap_err();
    assert!(err.to_string().contains("无效参数: --refesh"));
}

#[test]
fn markdown_line_argument_becomes_start_line() {
    let intent = parse_command_intent(&["tread", "-r", "notes.md", "12"]).unwrap();
    let CommandIntent::Open(request) = intent else {
        panic!("expected open intent");
    };
    assert_eq!(request.target, ReaderTarget::Markdown("notes.md".to_string()));
    assert!(request.refresh);
    assert_eq!(request.initial_position_override, Some(HistoryPosition::MarkdownLine { line: 12 }));
    assert_eq!(
        parse_command_intent(&["tread", "notes.md", "12", "13"]).unwrap_err(),
        "无效参数: 13"
    );
    assert_eq!(parse_command_intent(&["tread", "a.md", "x1"]).unwrap_err(), "无效参数: x1");
}

#[test]
fn markdown_explicit_line_override_wins_over_saved_history() {
    let restore = resolve_reader_restore(ReaderRestoreRequest {
        target: ReaderTarget::Markdown("/tmp/tread-notes.md".to_string()),
        explicit_markdown_line: Some(50),
        unified_history_position: Some(HistoryPosition::MarkdownLine { line: 12 }),
        reader_specific_progress: None,
    });
    assert_eq!(restore, RestorePosition::MarkdownLine { line: 50, source: RestoreSource::ExplicitCliLine });
}

#[test]
fn web_restore_uses_reader_specific_progress_before_unified_history() {
    let restore = resolve_reader_restore(ReaderRestoreRequest {
        target: ReaderTarget::Web("https://example.test/articles/intro".to_string()),
        explicit_markdown_line: None,
        unified_history_position: Some(HistoryPosition::WebScroll { scroll: 8 }),
        reader_specific_progress: Some(ReaderSpecificProgress::Web(WebProgress {
            url: "https://example.test/articles/intro".to_string(),
            scroll: 42,
            saved_at: "2026-07-09T00:00:00Z".to_string(),
        })),
    });
    assert_eq!(restore, RestorePosition::Scroll { scroll: 42, source: RestoreSource::ReaderSpecificProgress });
}

#[test]
fn epub_restore_uses_reader_specific_progress_before_unified_history() {
    let restore = resolve_reader_restore(ReaderRestoreRequest {
        target: ReaderTarget::Epub("/tmp/tread-book.epub".to_string()),
        explicit_markdown_line: None,
        unified_history_position: Some(HistoryPosition::EpubLocation { chapter: 1, scroll: 9 }),
        reader_specific_progress: Some(ReaderSpecificProgress::Epub(ReadingProgress { chapter: 3, scroll: 77 })),
    });
    assert_eq!(
        restore,
        RestorePosition::EpubLocation { chapter: 3, scroll: 77, source: RestoreSource::ReaderSpecificProgress }
    );
}

#[test]
fn restore_without_anything_starts_at_the_beginning() {
    let restore = resolve_reader_restore(ReaderRestoreRequest {
        target: ReaderTarget::Web("https://example.test".to_string()),
        explicit_markdown_line: None,
        unified_history_position: None,
        reader_specific_progress: None,
    });
    assert_eq!(restore, RestorePosition::Scroll { scroll: 0, source: RestoreSource::DefaultStart });
}

fn history_entry(id: &str, kind: tread::history::TargetKind, target: &str, position: ReadingPosition) -> HistoryEntry {
    HistoryEntry {
        id: id.to_string(),
        kind,
        title: "Book".to_string(),
        target: target.to_string(),
        position,
        progress_percent: 70,
        updated_at: "2026-07-09T00:00:00Z".to_string(),
        starred: false,
        hidden: false,
    }
}

#[test]
fn dashboard_history_open_preserves_epub_position_override() {
    let entry = history_entry(
        "epub:book",
        tread::history::TargetKind::Epub,
        "/tmp/book.epub",
        ReadingPosition::Epub { chapter: 22, scroll: 7 },
    );
    let request = open_request_from_history(&entry).expect("history entry should open");
    assert_eq!(request.target, ReaderTarget::Epub("/tmp/book.epub".to_string()));
    assert_eq!(request.initial_position_override, Some(HistoryPosition::EpubLocation { chapter: 22, scroll: 7 }));
    let shown = dashboard_entry_from_history(&entry);
    assert_eq!(shown.kind, TargetKind::Epub);
    assert_eq!(shown.progress_percent, 70);
}

#[test]
fn dashboard_prompt_url_accepts_interactive_and_refresh_flags() {
    let Ok(PromptPlan::Open(request)) = prompt_plan("https://example.com/app -i --refresh") else {
        panic!("expected an open request");
    };
    assert_eq!(request.target, ReaderTarget::Web("https://example.com/app".to_string()));
    assert!(request.interactive);
    assert!(request.refresh);
    assert_eq!(request.initial_position_override, None);
}

#[test]
fn dashboard_prompt_url_accepts_flags_before_target() {
    let Ok(PromptPlan::Open(request)) = prompt_plan("--interactive https://example.com/app") else {
        panic!("expected an open request");
    };
    assert_eq!(request.target, ReaderTarget::Web("https://example.com/app".to_string()));
    assert!(request.interactive);
    assert!(!request.refresh);
}

#[test]
fn dashboard_prompt_rejects_interactive_for_local_files() {
    let err = prompt_plan("/tmp/tread_main_test_prompt_local_interactive/notes.md -i").unwrap_err();
    assert!(err.contains("-i 只适用于 URL"));
}

#[test]
fn dashboard_prompt_directory_returns_error_instead_of_markdown_open_request() {
    let root = "/tmp/tread_main_test_prompt_directory";
    let Ok(PromptPlan::CheckLocal { path, refresh }) = prompt_plan(root) else {
        panic!("expected a local path to check");
    };
    assert_eq!(path, root);
    assert!(!refresh);
    let err = local_open_request(path, refresh, LocalPathStatus::Directory).unwrap_err();
    assert!(err.contains("不是文件"));
    assert!(err.contains(root));
}

#[test]
fn local_prompt_targets_open_by_extension_or_report_why_not() {
    let ok = local_open_request("/b/novel.EPUB".to_string(), true, LocalPathStatus::Readable).unwrap();
    assert_eq!(ok.target, ReaderTarget::Epub("/b/novel.EPUB".to_string()));
    assert!(ok.refresh && !ok.interactive);
    let md = local_open_request("/b/notes.md".to_string(), false, LocalPathStatus::Readable).unwrap();
    assert_eq!(md.target, ReaderTarget::Markdown("/b/notes.md".to_string()));
    assert_eq!(local_open_request("/x".to_string(), false, LocalPathStatus::Missing).unwrap_err(), "路径不存在: /x");
    assert_eq!(
        local_open_request("/x".to_string(), false, LocalPathStatus::Unreadable("denied".to_string())).unwrap_err(),
        "无法打开: /x (denied)"
    );
}

#[test]
fn prompt_arguments_are_checked_word_by_word() {
    assert_eq!(parse_dashboard_prompt_args("  ").unwrap_err(), "请输入路径或 URL");
    assert_eq!(parse_dashboard_prompt_args("a.md -x").unwrap_err(), "未知参数: -x");
    assert_eq!(parse_dashboard_prompt_args("a.md b.md").unwrap_err(), "只能输入一个路径或 URL: b.md");
    let args = parse_dashboard_prompt_args("\ta.md  -r\n").unwrap();
    assert_eq!(args.target, "a.md");
    assert!(args.refresh && !args.interactive);
    assert_eq!(split_whitespace("  a\u{3000}b \n c "), vec!["a", "b", "c"]);
}

#[test]
fn completing_a_directory_suggestion_adds_a_separator() {
    let suggestions = vec![
        PathSuggestion { path: "/tmp/books".to_string(), display: "books/".to_string(), is_dir: true },
        PathSuggestion { path: "/tmp/a.md".to_string(), display: "a.md".to_string(), is_dir: false },
    ];
    let mut prompt = "~/bo".to_string();
    assert!(complete_selected_suggestion(&mut prompt, &suggestions, 0));
    assert_eq!(prompt, "/tmp/books/");
    assert!(!complete_selected_suggestion(&mut prompt, &suggestions, 1));
    assert_eq!(prompt, "/tmp/a.md");
    assert!(!complete_selected_suggestion(&mut prompt, &suggestions, 5));
    assert_eq!(prompt, "/tmp/a.md");
}

#[test]
fn markdown_without_line_override_restores_from_unified_history() {
    let restore = resolve_reader_restore(ReaderRestoreRequest {
        target: ReaderTarget::Markdown("/tmp/tread-notes.md".to_string()),
        explicit_markdown_line: None,
        unified_history_position: Some(HistoryPosition::MarkdownLine { line: 34 }),
        reader_specific_progress: None,
    });
    assert_eq!(restore, RestorePosition::MarkdownLine { line: 34, source: RestoreSource::UnifiedHistory });
}

#[test]
fn markdown_direct_open_uses_saved_history_scroll_unless_cli_line_is_explicit() {
    let root = "/tmp/tread_main_test_markdown_restore";
    let file = "/tmp/tread_main_test_markdown_restore/notes.md";
    let identity =
        TargetIdentity::for_local_path(file, tread::history::TargetKind::Markdown, root, Some(file)).unwrap();
    let history = HistoryFile {
        entries: vec![HistoryEntry {
            title: "Notes".to_string(),
            progress_percent: 40,
            ..history_entry(&identity.id, tread::history::TargetKind::Markdown, file, ReadingPosition::Markdown { scroll: 41 })
        }],
    };
    let saved = markdown_history_scroll(&history, &identity.id);
    assert_eq!(markdown_initial_line(None, saved), 41);
    assert_eq!(markdown_initial_line(Some(HistoryPosition::MarkdownLine { line: 7 }), saved), 6);
    assert_eq!(markdown_history_scroll(&history, "markdown:other"), None);
    assert_eq!(markdown_initial_line(None, None), 0);
}

#[test]
fn dashboard_remove_persistence_hides_entry_and_clears_starred() {
    let id = TargetIdentity::for_web_url("https://example.test/favorite").id;
    let mut history = HistoryFile {
        entries: vec![HistoryEntry {
            starred: true,
            ..history_entry(&id, tread::history::TargetKind::Web, "https://example.test/favorite", ReadingPosition::Web { scroll: 12 })
        }],
    };
    dashboard_remove(&mut history, &id, "2026-07-10T00:00:00Z");
    let entry = history.entry(&id).unwrap();
    assert!(entry.hidden);
    assert!(!entry.starred);
    assert_eq!(entry.updated_at, "2026-07-10T00:00:00Z");
}

#[test]
fn file_names_and_epub_detection() {
    assert_eq!(display_filename("/a/b/notes.md"), "notes.md");
    assert_eq!(display_filename("/"), "/");
    assert!(is_epub("x/Book.ePub"));
    assert!(!is_epub("x/book.epub.md"));
}

fn sample_dashboard_state() -> DashboardState {
    DashboardState::from_history(vec![DashboardEntry {
        id: "epub:book".to_string(),
        kind: TargetKind::Epub,
        title: "境界-吴军".to_string(),
        target: "/Users/awu/Data/frontend/github/tread/test.epub".to_string(),
        progress_percent: 1,
        updated_at: "2026-07-09T00:00:00Z".to_string(),
        starred: false,
        hidden: false,
    }])
}

#[test]
fn dashboard_render_plan_keeps_full_layout_when_height_allows() {
    let state = sample_dashboard_state();
    let plan = dashboard_render_plan(&state, 72, 12, None, None, 0, None);
    let text: Vec<&str> = plan.lines.iter().map(|line| line.text.as_str()).collect();
    assert_eq!(text[0], "tread");
    assert!(text.iter().any(|line| line.contains("最近阅读")));
    assert!(text.iter().any(|line| line.contains("Enter open")));
    assert!(text.iter().any(|line| line.contains("境界-吴军")));
}

#[test]
fn dashboard_render_plan_uses_compact_recent_area_when_height_is_constrained() {
    let state = sample_dashboard_state();
    let plan = dashboard_render_plan(&state, 72, 5, None, None, 0, None);
    let text: Vec<&str> = plan.lines.iter().map(|line| line.text.as_str()).collect();
    assert_eq!(text.len(), 5);
    assert_eq!(text[0], "tread");
    assert!(text[2].contains("最近阅读"));
    assert!(text[3].contains("EPUB"));
    assert!(text[4].contains("test.epub"));
    assert!(!text.iter().any(|line| line.contains("Enter open")));
}

#[test]
fn dashboard_render_plan_uses_minimal_fallback_below_three_rows() {
    let state = sample_dashboard_state();
    let plan = dashboard_render_plan(&state, 72, 2, None, None, 0, None);
    assert_eq!(plan.lines.len(), 1);
    assert!(plan.lines[0].text.contains("终端高度太小"));
}

#[test]
fn dashboard_render_plan_truncates_prompt_suggestions_to_height_budget() {
    let state = sample_dashboard_state();
    let suggestions = vec![
        PathSuggestion { path: "/tmp/alpha.md".to_string(), display: "alpha.md".to_string(), is_dir: false },
        PathSuggestion { path: "/tmp/beta.md".to_string(), display: "beta.md".to_string(), is_dir: false },
    ];
    let plan = dashboard_render_plan(&state, 72, 4, Some("~/Books/"), Some(suggestions.as_slice()), 0, None);
    let text: Vec<&str> = plan.lines.iter().map(|line| line.text.as_str()).collect();
    assert_eq!(text.len(), 4);
    assert!(text[3].starts_with("打开: ~/Books/"));
    assert!(!text.iter().any(|line| line.contains("alpha.md")));
    // "打开" is two double-width characters: 4 + ": ".len() + "~/Books/".len()
    assert_eq!(plan.prompt_cursor, Some((14, 3)));
}

#[test]
fn dashboard_render_plan_may_hide_prompt_to_preserve_recent_area() {
    let state = sample_dashboard_state();
    let suggestions = vec![PathSuggestion {
        path: "/tmp/alpha.md".to_string(),
        display: "alpha.md".to_string(),
        is_dir: false,
    }];
    let plan =
        dashboard_render_plan(&state, 72, 3, Some("~/Books/"), Some(suggestions.as_slice()), 0, Some("路径不存在"));
    let text: Vec<&str> = plan.lines.iter().map(|line| line.text.as_str()).collect();
    assert_eq!(text.len(), 3);
    assert!(text[0].contains("最近阅读"));
    assert!(text[1].contains("EPUB"));
    assert!(text[2].contains("test.epub"));
    assert!(!text.iter().any(|line| line.starts_with("打开:")));
    assert!(!text.iter().any(|line| line.starts_with("错误:")));
    assert_eq!(plan.prompt_cursor, None);
}

#[test]
fn dashboard_visual_lines_use_reader_shelf_layout() {
    let state = sample_dashboard_state();
    let lines = dashboard_visual_lines(&state, 72);
    let text: Vec<&str> = lines.iter().map(|line| line.text.as_str()).collect();
    assert_eq!(text[0], "tread");
    assert!(text.iter().any(|line| line.contains("最近阅读")));
    assert!(text.iter().any(|line| line.contains("EPUB")));
    assert!(text.iter().any(|line| line.contains("境界-吴军")));
    assert!(text.iter().any(|line| line.contains("Enter open")));
    assert!(lines.iter().any(|line| line.selected && line.text.contains("EPUB")));
}

fn columns(s: &str) -> usize {
    unicode_width::UnicodeWidthStr::width(s)
}

#[test]
fn dashboard_visual_lines_truncate_long_targets_by_display_width() {
    let state = DashboardState::from_history(vec![DashboardEntry {
        id: "md:notes".to_string(),
        kind: TargetKind::Markdown,
        title: "很长很长的阅读笔记标题".to_string(),
        target: "/a/very/long/path/that/does/not/fit/in/a/narrow/dashboard/notes.md".to_string(),
        progress_percent: 42,
        updated_at: "2026-07-09T00:00:00Z".to_string(),
        starred: false,
        hidden: false,
    }]);
    let lines = dashboard_visual_lines(&state, 48);
    assert!(lines.iter().any(|line| line.text.contains("…")));
    assert!(lines.iter().all(|line| columns(&line.text) <= 48));
}

#[test]
fn progress_percent_reports_nonzero_after_first_advance() {
    assert_eq!(progress_percent(0, 1_000), 0);
    assert_eq!(progress_percent(1, 1_000), 1);
    assert_eq!(progress_percent(1, 250), 1);
    assert_eq!(progress_percent(5_000, 1_000), 100);
    assert_eq!(progress_percent(3, 0), 0);
}

#[test]
fn readers_start_at_the_asked_position_then_the_saved_one() {
    let saved = WebProgress { url: "u".to_string(), scroll: 9, saved_at: "t".to_string() };
    assert_eq!(web_start_scroll(Some(HistoryPosition::WebScroll { scroll: 4 }), Some(saved.clone())), 4);
    assert_eq!(web_start_scroll(Some(HistoryPosition::MarkdownLine { line: 4 }), Some(saved)), 9);
    assert_eq!(web_start_scroll(None, None), 0);
    let p = ReadingProgress { chapter: 2, scroll: 8 };
    assert_eq!(epub_start(Some(HistoryPosition::EpubLocation { chapter: 5, scroll: 1 }), Some(p)), (5, 1));
    assert_eq!(epub_start(None, Some(p)), (2, 8));
    assert_eq!(epub_start(None, None), (0, 0));
    assert_eq!(web_display_title("", "https://e.x"), "https://e.x");
    assert_eq!(web_display_title("T", "https://e.x"), "T");
}

#[test]
fn dashboard_render_plan_never_exceeds_height() {
    let state = sample_dashboard_state();
    let suggestions = vec![
        PathSuggestion { path: "/tmp/a.md".to_string(), display: "a.md".to_string(), is_dir: false },
        PathSuggestion { path: "/tmp/b.md".to_string(), display: "b.md".to_string(), is_dir: false },
        PathSuggestion { path: "/tmp/c.md".to_string(), display: "c.md".to_string(), is_dir: false },
    ];
    for height in 0u16..30 {
        let plan = dashboard_render_plan(&state, 72, height, Some("~/"), Some(suggestions.as_slice()), 1, Some("bad"));
        let limit = if height < 3 { 1 } else { height as usize };
        assert!(plan.lines.len() <= limit, "height {height}: {} lines", plan.lines.len());
    }
}

#[test]
fn dashboard_compact_plan_keeps_recent_area_before_prompt() {
    let state = sample_dashboard_state();
    let plan = dashboard_render_plan(&state, 72, 3, Some("~/Books/"), None, 0, Some("bad"));
    let text: Vec<&str> = plan.lines.iter().map(|line| line.text.as_str()).collect();
    assert_eq!(text.len(), 3);
    assert!(text[0].contains("最近阅读"));
    assert!(text[1].contains("EPUB"));
    assert!(text[2].contains("test.epub"));
    assert!(!text.iter().any(|line| line.starts_with("打开:")));
    assert_eq!(plan.prompt_cursor, None);
}
