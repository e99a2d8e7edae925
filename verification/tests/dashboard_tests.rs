use tread::dashboard::{
    expand_tilde_with, join_path, parse_open_prompt, DashboardEntry, DashboardRow, DashboardState,
    PathSuggestion, PromptErrorKind, PromptTarget, TargetKind,
};
use tread::keys::{KeyCode, KeyEvent, KeyModifiers};
use tread::suggest::{
    suggestion_dir_and_prefix, suggestions_for_listing, suggestions_from_entries, wants_suggestions,
    DirEntryInfo, ListingStatus,
};

fn key(code: KeyCode) -> KeyEvent {
    KeyEvent::new(code, KeyModifiers::none())
}

fn entry(id: &str, title: &str, target: &str, updated_at: &str, starred: bool, hidden: bool) -> DashboardEntry {
    DashboardEntry {
        id: id.to_string(),
        kind: TargetKind::Markdown,
        title: title.to_string(),
        target: target.to_string(),
        progress_percent: 0,
        updated_at: updated_at.to_string(),
        starred,
        hidden,
    }
}

fn row_ids(rows: &[DashboardRow]) -> Vec<String> {
    rows.iter().map(|row| row.entry_id.clone()).collect()
}

fn suggestion_labels(suggestions: &[PathSuggestion]) -> Vec<String> {
    suggestions.iter().map(|suggestion| suggestion.display.clone()).collect()
}

fn dir_entry(dir: &str, name: &str, is_dir: bool) -> DirEntryInfo {
    DirEntryInfo { name: name.to_string(), path: format!("{dir}/{name}"), is_dir }
}

#[test]
fn visible_rows_split_starred_and_recent_without_duplicates() {
    let entries = vec![
        entry("starred", "Starred", "starred.md", "2026-07-09T00:00:01Z", true, false),
        entry("recent", "Recent", "recent.md", "2026-07-09T00:00:02Z", false, false),
        entry("hidden-starred", "Hidden", "hidden.md", "2026-07-09T00:00:03Z", true, true),
    ];
    let state = DashboardState::from_history(entries);
    assert_eq!(row_ids(&state.starred_rows()), vec!["starred"]);
    assert_eq!(row_ids(&state.recent_rows()), vec!["recent"]);
    let all_rows = row_ids(&state.visible_rows());
    assert_eq!(all_rows, vec!["starred", "recent"]);
    assert_eq!(all_rows.iter().filter(|id| id.as_str() == "starred").count(), 1);
    assert!(!all_rows.iter().any(|id| id == "hidden-starred"));
}

#[test]
fn recent_rows_sort_by_descending_updated_at() {
    let entries = vec![
        entry("older", "Older", "older.md", "2026-07-08T00:00:00Z", false, false),
        entry("newest", "Newest", "newest.md", "2026-07-10T00:00:00Z", false, false),
        entry("middle", "Middle", "middle.md", "2026-07-09T00:00:00Z", false, false),
    ];
    let state = DashboardState::from_history(entries);
    assert_eq!(row_ids(&state.recent_rows()), vec!["newest", "middle", "older"]);
}

#[test]
fn recent_rows_keep_stored_order_for_equal_timestamps() {
    let entries = vec![
        entry("a", "A", "a.md", "2026-07-09T00:00:00Z", false, false),
        entry("b", "B", "b.md", "2026-07-09T00:00:00Z", false, false),
        entry("c", "C", "c.md", "2026-07-10T00:00:00Z", false, false),
    ];
    let state = DashboardState::from_history(entries);
    assert_eq!(row_ids(&state.recent_rows()), vec!["c", "a", "b"]);
}

#[test]
fn s_toggles_selected_entry_between_starred_and_recent() {
    let entries = vec![entry("book", "Book", "book.md", "2026-07-09T00:00:00Z", false, false)];
    let mut state = DashboardState::from_history(entries);
    state.handle_key(key(KeyCode::Char('s')));
    assert_eq!(row_ids(&state.starred_rows()), vec!["book"]);
    assert!(state.recent_rows().is_empty());
    state.handle_key(key(KeyCode::Char('s')));
    assert!(state.starred_rows().is_empty());
    assert_eq!(row_ids(&state.recent_rows()), vec!["book"]);
}

#[test]
fn r_hides_selected_entry_and_clears_starred() {
    let entries = vec![entry("favorite", "Favorite", "favorite.md", "2026-07-09T00:00:00Z", true, false)];
    let mut state = DashboardState::from_history(entries);
    state.handle_key(key(KeyCode::Char('r')));
    let removed = state.entry("favorite").unwrap();
    assert!(removed.hidden);
    assert!(!removed.starred);
    assert!(state.visible_rows().is_empty());
}

#[test]
fn j_k_and_arrows_move_selection_within_visible_rows() {
    let entries = vec![
        entry("first", "First", "first.md", "2026-07-09T00:00:03Z", false, false),
        entry("second", "Second", "second.md", "2026-07-09T00:00:02Z", false, false),
        entry("third", "Third", "third.md", "2026-07-09T00:00:01Z", false, false),
    ];
    let mut state = DashboardState::from_history(entries);
    assert_eq!(state.selected_entry_id(), Some("first"));
    state.handle_key(key(KeyCode::Char('j')));
    assert_eq!(state.selected_entry_id(), Some("second"));
    state.handle_key(key(KeyCode::Down));
    assert_eq!(state.selected_entry_id(), Some("third"));
    state.handle_key(key(KeyCode::Down));
    assert_eq!(state.selected_entry_id(), Some("third"));
    state.handle_key(key(KeyCode::Char('k')));
    assert_eq!(state.selected_entry_id(), Some("second"));
    state.handle_key(key(KeyCode::Up));
    assert_eq!(state.selected_entry_id(), Some("first"));
    state.handle_key(key(KeyCode::Up));
    assert_eq!(state.selected_entry_id(), Some("first"));
}

#[test]
fn empty_dashboard_has_no_selection() {
    let mut state = DashboardState::from_history(vec![]);
    assert_eq!(state.selected_entry_id(), None);
    state.handle_key(key(KeyCode::Char('j')));
    state.handle_key(key(KeyCode::Char('s')));
    assert_eq!(state.selected_entry_id(), None);
    assert!(state.visible_rows().is_empty());
}

#[test]
fn open_prompt_detects_http_and_https_urls() {
    assert_eq!(
        parse_open_prompt("https://example.com/read"),
        PromptTarget::Url("https://example.com/read".to_string())
    );
    assert_eq!(
        parse_open_prompt("http://example.com/read"),
        PromptTarget::Url("http://example.com/read".to_string())
    );
    assert!(matches!(parse_open_prompt("ftp://example.com/read"), PromptTarget::LocalPath(_)));
    assert!(matches!(parse_open_prompt("example.com/read"), PromptTarget::LocalPath(_)));
}

#[test]
fn tilde_expands_against_home() {
    assert_eq!(expand_tilde_with("~", Some("/home/u")), "/home/u");
    assert_eq!(expand_tilde_with("~/notes.md", Some("/home/u")), "/home/u/notes.md");
    assert_eq!(expand_tilde_with("~/notes.md", None), "~/notes.md");
    assert_eq!(expand_tilde_with("~other/x", Some("/home/u")), "~other/x");
    assert_eq!(join_path("/a/", "b"), "/a/b");
    assert_eq!(join_path("/a", "/b"), "/b");
}

#[test]
fn local_path_suggestions_are_one_level_directory_first_sorted_and_limited() {
    let root = "/tmp/tread_dashboard_test_suggestions_sorted";
    let input = format!("{root}/");
    let (dir, prefix) = suggestion_dir_and_prefix(&input);
    assert_eq!(dir, input);
    assert_eq!(prefix, "");
    let mut entries = vec![
        dir_entry(root, "beta_dir", true),
        dir_entry(root, "alpha_dir", true),
        dir_entry(root, "zeta.md", false),
        dir_entry(root, "alpha.md", false),
    ];
    for i in 0..60 {
        entries.push(dir_entry(root, &format!("file_{i:02}.md"), false));
    }
    let suggestions = suggestions_for_listing(&dir, &prefix, &ListingStatus::Listed(entries)).unwrap();
    let labels = suggestion_labels(&suggestions);
    assert_eq!(labels.len(), 50);
    assert_eq!(labels[0], "alpha_dir/");
    assert_eq!(labels[1], "beta_dir/");
    assert_eq!(labels[2], "alpha.md");
    assert_eq!(labels[3], "file_00.md");
    assert!(!labels.iter().any(|label| label == "nested_match/"));
    assert!(suggestions[0].is_dir);
    assert_eq!(suggestions[0].path, format!("{root}/alpha_dir"));
}

#[test]
fn path_suggestions_match_prefix_in_current_directory_only() {
    let root = "/tmp/tread_dashboard_test_suggestions_prefix";
    let (dir, prefix) = suggestion_dir_and_prefix(&format!("{root}/bo"));
    assert_eq!(dir, root);
    assert_eq!(prefix, "bo");
    let entries = vec![
        dir_entry(root, "bookshelf", true),
        dir_entry(root, "other", true),
        dir_entry(root, "book.epub", false),
        dir_entry(root, "notes.md", false),
    ];
    let suggestions = suggestions_for_listing(&dir, &prefix, &ListingStatus::Listed(entries)).unwrap();
    assert_eq!(suggestion_labels(&suggestions), vec!["bookshelf/", "book.epub"]);
}

#[test]
fn missing_suggestion_path_returns_recoverable_prompt_error() {
    let (dir, prefix) = suggestion_dir_and_prefix("/tmp/tread_dashboard_missing_nope/prefix");
    assert_eq!(dir, "/tmp/tread_dashboard_missing_nope");
    let err = suggestions_for_listing(&dir, &prefix, &ListingStatus::Missing).unwrap_err();
    assert!(matches!(err.kind, PromptErrorKind::MissingPath));
    assert!(err.recoverable);
    assert_eq!(err.message, "路径不存在: /tmp/tread_dashboard_missing_nope");
}

#[test]
fn unreadable_suggestion_directory_returns_recoverable_prompt_error() {
    let (dir, prefix) = suggestion_dir_and_prefix("/tmp/suggestions_file_parent/not_a_directory/child");
    let err = suggestions_for_listing(&dir, &prefix, &ListingStatus::NotADirectory).unwrap_err();
    assert!(matches!(err.kind, PromptErrorKind::Io));
    assert!(err.recoverable);
    assert_eq!(err.message, "不是目录: /tmp/suggestions_file_parent/not_a_directory");
    let err = suggestions_for_listing(&dir, &prefix, &ListingStatus::Unreadable("denied".to_string())).unwrap_err();
    assert!(matches!(err.kind, PromptErrorKind::Io));
    assert_eq!(err.message, "denied");
}

#[test]
fn suggestion_ties_keep_listing_order_and_plain_names_sort_by_code_point() {
    let entries = vec![
        dir_entry("/d", "b.md", false),
        dir_entry("/d", "B.md", false),
        dir_entry("/d", "a", true),
    ];
    let s = suggestions_from_entries(&entries, "");
    assert_eq!(suggestion_labels(&s), vec!["a/", "B.md", "b.md"]);
}

#[test]
fn relative_and_bare_prompt_paths_list_their_parent() {
    assert_eq!(suggestion_dir_and_prefix("notes"), ("".to_string(), "notes".to_string()));
    assert_eq!(suggestion_dir_and_prefix("docs/no"), ("docs".to_string(), "no".to_string()));
    assert_eq!(suggestion_dir_and_prefix("/"), ("/".to_string(), "".to_string()));
    assert_eq!(suggestion_dir_and_prefix(""), (".".to_string(), "".to_string()));
}

#[test]
fn suggestions_are_not_offered_for_blank_or_web_prompts() {
    assert!(!wants_suggestions("   "));
    assert!(!wants_suggestions("https://example.com"));
    assert!(wants_suggestions("~/bo"));
}

#[test]
fn starring_twice_restores_the_entry_and_starred_rows_come_first() {
    let mut state = DashboardState::from_history(vec![
        entry("a", "A", "/a.md", "3", false, false),
        entry("b", "B", "/b.md", "2", true, false),
        entry("c", "C", "/c.md", "1", false, false),
    ]);
    assert_eq!(row_ids(&state.visible_rows()), vec!["b", "a", "c"]);
    state.handle_key(key(KeyCode::Char('j')));
    state.handle_key(key(KeyCode::Char('j')));
    assert_eq!(state.selected_entry_id(), Some("c"));
    state.handle_key(key(KeyCode::Char('s')));
    assert_eq!(row_ids(&state.visible_rows()), vec!["b", "c", "a"]);

    let mut single = DashboardState::from_history(vec![entry("a", "A", "/a.md", "3", false, false)]);
    single.handle_key(key(KeyCode::Char('s')));
    assert!(single.entry("a").unwrap().starred);
    single.handle_key(key(KeyCode::Char('s')));
    assert!(!single.entry("a").unwrap().starred);
    assert_eq!(row_ids(&single.visible_rows()), vec!["a"]);
}
