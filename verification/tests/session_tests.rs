use tread::cli::{HistoryPosition, ReaderTarget};
use tread::dashboard::PathSuggestion;
use tread::history::{HistoryEntry, ReadingPosition, TargetKind};
use tread::keys::{KeyCode, KeyEvent, KeyModifiers};
use tread::prompt::LocalPathStatus;
use tread::session::{DashboardEffect, DashboardSession};
use tread::suggest::{DirEntryInfo, ListingStatus};

fn key(code: KeyCode) -> KeyEvent {
    KeyEvent::new(code, KeyModifiers::none())
}

fn entry(id: &str, kind: TargetKind, target: &str, position: ReadingPosition, starred: bool) -> HistoryEntry {
    HistoryEntry {
        id: id.to_string(),
        kind,
        title: id.to_string(),
        target: target.to_string(),
        position,
        progress_percent: 10,
        updated_at: "2026-07-09T00:00:00Z".to_string(),
        starred,
        hidden: false,
    }
}

fn session() -> DashboardSession {
    DashboardSession::new(vec![
        entry("epub:book", TargetKind::Epub, "/b/book.epub", ReadingPosition::Epub { chapter: 2, scroll: 5 }, false),
        entry("web:page", TargetKind::Web, "https://e.x/p", ReadingPosition::Web { scroll: 3 }, false),
    ])
}

fn type_text(s: &mut DashboardSession, text: &str) -> DashboardEffect {
    let mut last = DashboardEffect::Redraw;
    for c in text.chars() {
        last = s.handle_key(key(KeyCode::Char(c)));
    }
    last
}

#[test]
fn enter_reopens_the_selected_history_entry() {
    let mut s = session();
    match s.handle_key(key(KeyCode::Enter)) {
        DashboardEffect::Open(r) => {
            assert_eq!(r.target, ReaderTarget::Epub("/b/book.epub".to_string()));
            assert_eq!(r.initial_position_override, Some(HistoryPosition::EpubLocation { chapter: 2, scroll: 5 }));
        }
        other => panic!("expected Open, got {other:?}"),
    }
}

#[test]
fn quit_keys_and_ctrl_c_leave() {
    let mut s = session();
    assert!(matches!(s.handle_key(key(KeyCode::Char('q'))), DashboardEffect::Quit));
    assert!(matches!(s.handle_key(key(KeyCode::Esc)), DashboardEffect::Quit));
    s.handle_key(key(KeyCode::Char('o')));
    assert!(s.prompt_open);
    let ctrl_c = KeyEvent::new(KeyCode::Char('c'), KeyModifiers::control());
    assert!(matches!(s.handle_key(ctrl_c), DashboardEffect::Quit));
}

#[test]
fn starring_and_removing_ask_to_store_the_change() {
    let mut s = session();
    match s.handle_key(key(KeyCode::Char('s'))) {
        DashboardEffect::SaveStar { id, starred } => {
            assert_eq!(id, "epub:book");
            assert!(starred);
        }
        other => panic!("expected SaveStar, got {other:?}"),
    }
    match s.handle_key(key(KeyCode::Char('r'))) {
        DashboardEffect::SaveRemoval { id } => assert_eq!(id, "epub:book"),
        other => panic!("expected SaveRemoval, got {other:?}"),
    }
    assert!(s.state.entry("epub:book").unwrap().hidden);
}

#[test]
fn typing_a_url_in_the_prompt_opens_it_with_flags() {
    let mut s = session();
    s.handle_key(key(KeyCode::Char('o')));
    let eff = type_text(&mut s, "https://e.x/a -r");
    assert!(matches!(eff, DashboardEffect::Redraw));
    assert_eq!(s.prompt, "https://e.x/a -r");
    match s.handle_key(key(KeyCode::Enter)) {
        DashboardEffect::Open(r) => {
            assert_eq!(r.target, ReaderTarget::Web("https://e.x/a".to_string()));
            assert!(r.refresh);
        }
        other => panic!("expected Open, got {other:?}"),
    }
}

#[test]
fn local_paths_are_checked_then_opened_or_reported() {
    let mut s = session();
    s.handle_key(key(KeyCode::Char('o')));
    let eff = type_text(&mut s, "/tmp/notes.md");
    match eff {
        DashboardEffect::ListDirectory { dir, prefix } => {
            assert_eq!(dir, "/tmp");
            assert_eq!(prefix, "notes.md");
        }
        other => panic!("expected ListDirectory, got {other:?}"),
    }
    match s.handle_key(key(KeyCode::Enter)) {
        DashboardEffect::CheckLocal { path, refresh } => {
            assert_eq!(path, "/tmp/notes.md");
            assert!(s.local_checked(path.clone(), refresh, LocalPathStatus::Missing).is_none());
            assert_eq!(s.error.as_deref(), Some("路径不存在: /tmp/notes.md"));
            let r = s.local_checked(path, refresh, LocalPathStatus::Readable).unwrap();
            assert_eq!(r.target, ReaderTarget::Markdown("/tmp/notes.md".to_string()));
        }
        other => panic!("expected CheckLocal, got {other:?}"),
    }
}

#[test]
fn prompt_errors_show_and_clear_on_edit() {
    let mut s = session();
    s.handle_key(key(KeyCode::Char('o')));
    assert!(matches!(s.handle_key(key(KeyCode::Enter)), DashboardEffect::Redraw));
    assert_eq!(s.error.as_deref(), Some("请输入路径或 URL"));
    type_text(&mut s, "a");
    assert_eq!(s.error, None);
    s.handle_key(key(KeyCode::Backspace));
    assert_eq!(s.prompt, "");
    s.handle_key(key(KeyCode::Esc));
    assert!(!s.prompt_open);
}

#[test]
fn completions_are_listed_selected_and_taken() {
    let mut s = session();
    s.handle_key(key(KeyCode::Char('o')));
    type_text(&mut s, "/d/b");
    s.receive_listing(
        "/d",
        "b",
        ListingStatus::Listed(vec![
            DirEntryInfo { name: "book.md".to_string(), path: "/d/book.md".to_string(), is_dir: false },
            DirEntryInfo { name: "books".to_string(), path: "/d/books".to_string(), is_dir: true },
            DirEntryInfo { name: "a".to_string(), path: "/d/a".to_string(), is_dir: false },
        ]),
    );
    let labels: Vec<&str> = s.suggestions.iter().map(|x| x.display.as_str()).collect();
    assert_eq!(labels, vec!["books/", "book.md"]);
    s.handle_key(key(KeyCode::Down));
    s.handle_key(key(KeyCode::Down));
    assert_eq!(s.selected_suggestion, 1);
    s.handle_key(key(KeyCode::Up));
    assert_eq!(s.selected_suggestion, 0);
    match s.handle_key(key(KeyCode::Tab)) {
        DashboardEffect::ListDirectory { dir, prefix } => {
            assert_eq!(dir, "/d/books/");
            assert_eq!(prefix, "");
        }
        other => panic!("expected ListDirectory, got {other:?}"),
    }
    assert_eq!(s.prompt, "/d/books/");
    assert!(s.suggestions.is_empty());
    s.receive_listing("/d/books/", "", ListingStatus::Missing);
    assert!(s.suggestions.is_empty());
    s.suggestions = vec![PathSuggestion { path: "/d/books/x.md".to_string(), display: "x.md".to_string(), is_dir: false }];
    match s.handle_key(key(KeyCode::Enter)) {
        DashboardEffect::CheckLocal { path, .. } => assert_eq!(path, "/d/books/x.md"),
        other => panic!("expected CheckLocal, got {other:?}"),
    }
}

#[test]
fn the_session_renders_through_the_dashboard_plan() {
    let s = session();
    let plan = s.render_plan(72, 12);
    assert_eq!(plan.lines[0].text, "tread");
    assert_eq!(plan.prompt_cursor, None);
}
