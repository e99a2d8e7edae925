use tread::history::{
    clamp_percent, now_timestamp, HistoryEntry, HistoryFile, HistoryTarget, ReadingPosition, TargetIdentity,
    TargetKind,
};

fn web_target(url: &str, title: &str) -> HistoryTarget {
    HistoryTarget::Web { url: url.to_string(), title: title.to_string() }
}

fn entry(id: String, kind: TargetKind, title: &str, target: &str) -> HistoryEntry {
    HistoryEntry {
        id,
        kind,
        title: title.to_string(),
        target: target.to_string(),
        position: ReadingPosition::Web { scroll: 0 },
        progress_percent: 0,
        updated_at: "2026-07-09T00:00:00Z".to_string(),
        starred: false,
        hidden: false,
    }
}

#[test]
fn web_identity_uses_same_url_string_key_as_web_progress_and_cache() {
    let url = "https://example.com/read?chapter=1#frag";
    let identity = TargetIdentity::for_web_url(url);
    assert_eq!(identity.id, format!("web:{}", tread::web::web_cache_key(url)));
    assert_eq!(identity.identity_source, url);
    assert_eq!(identity.display_target, url);
}

#[test]
fn reopening_same_web_url_updates_the_existing_history_entry() {
    let mut history = HistoryFile { entries: Vec::new() };
    let url = "https://example.com/same-url";
    history.record_successful_open(
        web_target(url, "Original Title"),
        ReadingPosition::Web { scroll: 12 },
        10,
        "2026-07-09T00:00:00Z",
    );
    history.record_successful_open(
        web_target(url, "Updated Title"),
        ReadingPosition::Web { scroll: 34 },
        20,
        "2026-07-09T00:01:00Z",
    );
    assert_eq!(history.entries.len(), 1);
    assert_eq!(history.entries[0].title, "Updated Title");
    assert_eq!(history.entries[0].position, ReadingPosition::Web { scroll: 34 });
    assert_eq!(history.entries[0].progress_percent, 20);
    assert_eq!(history.entries[0].updated_at, "2026-07-09T00:01:00Z");
}

#[test]
fn local_file_identity_uses_canonical_absolute_path_for_existing_files() {
    let root = "/tmp/tread_history_test_canonical";
    let relative_with_dot = "books/./novel.md";
    // What the file system gives when the resolved path is canonicalized.
    let canonical = "/tmp/tread_history_test_canonical/books/novel.md";
    let resolved = tread::history::resolve_local_path(relative_with_dot, root);
    assert_eq!(resolved, "/tmp/tread_history_test_canonical/books/./novel.md");
    let identity = TargetIdentity::for_local_path(relative_with_dot, TargetKind::Markdown, root, Some(canonical)).unwrap();
    assert_eq!(identity.id, TargetIdentity::local_id(TargetKind::Markdown, canonical));
    assert_eq!(identity.identity_source, canonical);
    assert_eq!(identity.display_target, relative_with_dot);
}

#[test]
fn local_file_identity_falls_back_to_resolved_absolute_path_when_canonicalization_fails() {
    let root = "/tmp/tread_history_test_fallback/";
    let missing_relative = "drafts/missing.md";
    let resolved_absolute = "/tmp/tread_history_test_fallback/drafts/missing.md";
    let identity = TargetIdentity::for_local_path(missing_relative, TargetKind::Markdown, root, None).unwrap();
    assert_eq!(identity.id, TargetIdentity::local_id(TargetKind::Markdown, resolved_absolute));
    assert_eq!(identity.identity_source, resolved_absolute);
    assert_eq!(identity.display_target, missing_relative);
    let absolute = TargetIdentity::for_local_path("/elsewhere/a.md", TargetKind::Markdown, root, None).unwrap();
    assert_eq!(absolute.identity_source, "/elsewhere/a.md");
}

#[test]
fn epub_and_markdown_file_identities_do_not_collide_for_same_path() {
    let root = "/tmp/tread_history_test_kind_prefix";
    let file = "/tmp/tread_history_test_kind_prefix/book.epub";
    let epub = TargetIdentity::for_local_path(file, TargetKind::Epub, root, Some(file)).unwrap();
    let markdown = TargetIdentity::for_local_path(file, TargetKind::Markdown, root, Some(file)).unwrap();
    assert_ne!(epub.id, markdown.id);
    assert!(epub.id.starts_with("epub:"));
    assert!(markdown.id.starts_with("markdown:"));
}

#[test]
fn reopening_hidden_target_makes_it_visible_and_unstarred() {
    let url = "https://example.com/hidden";
    let id = TargetIdentity::for_web_url(url).id;
    let mut history = HistoryFile {
        entries: vec![HistoryEntry { hidden: true, starred: true, ..entry(id, TargetKind::Web, "Hidden", url) }],
    };
    history.record_successful_open(web_target(url, "Hidden"), ReadingPosition::Web { scroll: 0 }, 0, "2026-07-09T00:02:00Z");
    assert_eq!(history.entries.len(), 1);
    assert!(!history.entries[0].hidden);
    assert!(!history.entries[0].starred);
}

#[test]
fn reopening_starred_target_preserves_visible_star_but_clears_hidden_star() {
    let visible_url = "https://example.com/visible-starred";
    let hidden_url = "https://example.com/hidden-starred";
    let visible_id = TargetIdentity::for_web_url(visible_url).id;
    let hidden_id = TargetIdentity::for_web_url(hidden_url).id;
    let mut history = HistoryFile {
        entries: vec![
            HistoryEntry { hidden: false, starred: true, ..entry(visible_id.clone(), TargetKind::Web, "Visible", visible_url) },
            HistoryEntry { hidden: true, starred: true, ..entry(hidden_id.clone(), TargetKind::Web, "Hidden", hidden_url) },
        ],
    };
    history.record_successful_open(
        web_target(visible_url, "Visible reopened"),
        ReadingPosition::Web { scroll: 10 },
        10,
        "2026-07-09T00:02:00Z",
    );
    history.record_successful_open(
        web_target(hidden_url, "Hidden reopened"),
        ReadingPosition::Web { scroll: 20 },
        20,
        "2026-07-09T00:03:00Z",
    );
    let visible = history.entry(&visible_id).unwrap();
    assert!(!visible.hidden);
    assert!(visible.starred);
    let hidden = history.entry(&hidden_id).unwrap();
    assert!(!hidden.hidden);
    assert!(!hidden.starred);
}

#[test]
fn progress_percent_is_clamped_before_storage() {
    let mut history = HistoryFile { entries: Vec::new() };
    history.record_successful_open(
        web_target("https://example.com/negative", "Negative"),
        ReadingPosition::Web { scroll: 0 },
        -25,
        "2026-07-09T00:00:00Z",
    );
    history.record_successful_open(
        web_target("https://example.com/in-range", "In Range"),
        ReadingPosition::Web { scroll: 50 },
        42,
        "2026-07-09T00:00:01Z",
    );
    history.record_successful_open(
        web_target("https://example.com/too-high", "Too High"),
        ReadingPosition::Web { scroll: 100 },
        150,
        "2026-07-09T00:00:02Z",
    );
    let percents: Vec<i16> = history.entries.iter().map(|entry| entry.progress_percent).collect();
    assert_eq!(percents, vec![0, 42, 100]);
    assert_eq!(clamp_percent(i16::MIN), 0);
    assert_eq!(clamp_percent(i16::MAX), 100);
}

#[test]
fn progress_update_preserves_newer_starred_and_hidden_changes() {
    let url = "https://example.com/concurrent";
    let mut history = HistoryFile { entries: Vec::new() };
    let session = history.record_successful_open(
        web_target(url, "Concurrent"),
        ReadingPosition::Web { scroll: 10 },
        10,
        "2026-07-09T00:00:00Z",
    );
    history.set_starred(&session.entry_id, true, "2026-07-09T00:01:00Z").unwrap();
    history.set_hidden(&session.entry_id, true, "2026-07-09T00:02:00Z").unwrap();
    history
        .update_progress_from_session(&session, ReadingPosition::Web { scroll: 99 }, 90, "2026-07-09T00:03:00Z")
        .unwrap();
    let entry = history.entry(&session.entry_id).unwrap();
    assert_eq!(entry.position, ReadingPosition::Web { scroll: 99 });
    assert_eq!(entry.progress_percent, 90);
    assert!(entry.starred, "newer dashboard star change must survive reader exit");
    assert!(entry.hidden, "newer dashboard remove change must survive reader exit");
}

#[test]
fn changing_an_unknown_entry_leaves_the_history_alone() {
    let mut history = HistoryFile { entries: Vec::new() };
    assert!(history.set_starred("web:nope", true, "t").is_ok());
    assert!(history.set_hidden("web:nope", true, "t").is_ok());
    assert!(history.entry("web:nope").is_none());
    assert!(history.entries.is_empty());
}

#[test]
fn now_timestamp_is_decimal_seconds() {
    let t = now_timestamp();
    assert!(!t.is_empty());
    assert!(t.chars().all(|c| c.is_ascii_digit()));
}

#[test]
fn backup_name_holds_time_and_process() {
    assert_eq!(tread::history::history_backup_name(1_752_000_000_123, 4242), "history.json.bak.1752000000123-4242");
    assert_eq!(tread::history::history_backup_name(0, 0), "history.json.bak.0-0");
    assert_eq!(
        tread::history::history_backup_name(u128::MAX, u32::MAX),
        format!("history.json.bak.{}-{}", u128::MAX, u32::MAX)
    );
}
