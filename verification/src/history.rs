//! Unified reading history: one entry per target (web page, EPUB or Markdown file), with
//! its last reading position, progress, star and hidden flags.
use vstd::prelude::*;
use crate::text::{owned, push_str, str_eq};
use crate::hashing::{short_hash, short_key};

verus! {

/// What kind of document an entry refers to.
#[derive(Debug, Clone, Copy, PartialEq, Eq, Structural)]
pub enum TargetKind {
    Web,
    Epub,
    Markdown,
}

/// Where the reader was in a document.
#[derive(Debug, Clone, Copy, PartialEq, Eq, Structural)]
pub enum ReadingPosition {
    Web { scroll: usize },
    Epub { chapter: usize, scroll: usize },
    Markdown { scroll: usize },
}

/// One history entry.
#[derive(Debug, Clone, PartialEq, Eq)]
pub struct HistoryEntry {
    pub id: String,
    pub kind: TargetKind,
    pub title: String,
    pub target: String,
    pub position: ReadingPosition,
    pub progress_percent: i16,
    pub updated_at: String,
    pub starred: bool,
    pub hidden: bool,
}

/// Abstract value of a history entry.
pub struct EntryView {
    pub id: Seq<char>,
    pub kind: TargetKind,
    pub title: Seq<char>,
    pub target: Seq<char>,
    pub position: ReadingPosition,
    pub progress_percent: i16,
    pub updated_at: Seq<char>,
    pub starred: bool,
    pub hidden: bool,
}

impl View for HistoryEntry {
    type V = EntryView;

    open spec fn view(&self) -> EntryView {
        EntryView {
            id: self.id@,
            kind: self.kind,
            title: self.title@,
            target: self.target@,
            position: self.position,
            progress_percent: self.progress_percent,
            updated_at: self.updated_at@,
            starred: self.starred,
            hidden: self.hidden,
        }
    }
}

/// The whole history file.
#[derive(Debug, Clone, PartialEq, Eq, Default)]
pub struct HistoryFile {
    pub entries: Vec<HistoryEntry>,
}

/// Views of a sequence of entries.
pub open spec fn entry_views(s: Seq<HistoryEntry>) -> Seq<EntryView> {
    s.map_values(|e: HistoryEntry| e@)
}

impl View for HistoryFile {
    type V = Seq<EntryView>;

    open spec fn view(&self) -> Seq<EntryView> {
        entry_views(self.entries@)
    }
}

/// How a target is identified in the history.
#[derive(Debug, Clone, PartialEq, Eq)]
pub struct TargetIdentity {
    pub id: String,
    pub identity_source: String,
    pub display_target: String,
}

/// A target that was opened successfully. For local files, `path` is the resolved absolute
/// path that identifies the file (the caller resolves it against the working directory and
/// canonicalizes it where the file exists).
#[derive(Debug, Clone, PartialEq, Eq)]
pub enum HistoryTarget {
    Web { url: String, title: String },
    Epub { path: String, title: String },
    Markdown { path: String, title: String },
}

/// The entry that an open reader session updates when it exits.
#[derive(Debug, Clone, PartialEq, Eq)]
pub struct HistorySession {
    pub entry_id: String,
    pub opened_at: String,
}

/// Produced when an unreadable history file was moved aside.
#[derive(Debug, Clone, PartialEq, Eq)]
pub struct HistoryRecovery {
    pub recoverable: bool,
    pub backup_path: String,
}

/// The history as loaded, with a recovery notice when the stored file was unreadable.
#[derive(Debug, Clone, PartialEq, Eq)]
pub struct LoadedHistory {
    pub history: HistoryFile,
    pub recovery: Option<HistoryRecovery>,
}

/// Where the history is stored.
#[derive(Debug, Clone)]
pub struct HistoryStore {
    path: String,
}

/// Error of the history operations; none of them fails.
#[derive(Debug, Clone, PartialEq, Eq)]
pub enum HistoryError {
    Unavailable,
}

// ───────────────────────────── identities ─────────────────────────────

/// Identifier prefix of each kind.
pub open spec fn kind_prefix(kind: TargetKind) -> Seq<char> {
    match kind {
        TargetKind::Web => seq!['w', 'e', 'b'],
        TargetKind::Epub => seq!['e', 'p', 'u', 'b'],
        TargetKind::Markdown => seq!['m', 'a', 'r', 'k', 'd', 'o', 'w', 'n'],
    }
}

/// `"<kind>:<short hash of path>"`.
pub open spec fn local_id_spec(kind: TargetKind, path: Seq<char>) -> Seq<char> {
    kind_prefix(kind) + seq![':'] + short_hash(path)
}

/// Identifier of a web page: `"web:"` followed by the short key that also names its cache and
/// progress files.
pub open spec fn web_id_spec(url: Seq<char>) -> Seq<char> {
    kind_prefix(TargetKind::Web) + seq![':'] + crate::web::web_cache_key_spec(url)
}

fn kind_prefix_string(kind: TargetKind) -> (res: String)
    ensures
        res@ == kind_prefix(kind),
{
    let s = match kind {
        TargetKind::Web => "web",
        TargetKind::Epub => "epub",
        TargetKind::Markdown => "markdown",
    };
    proof {
        reveal_strlit("web");
        reveal_strlit("epub");
        reveal_strlit("markdown");
    }
    let r = owned(s);
    assert(r@ =~= kind_prefix(kind));
    r
}

fn prefixed_id(kind: TargetKind, key: &str) -> (res: String)
    ensures
        res@ == kind_prefix(kind) + seq![':'] + key@,
{
    let mut id = kind_prefix_string(kind);
    crate::text::push_char(&mut id, ':');
    push_str(&mut id, key);
    id
}

impl TargetIdentity {
    /// Identity of a web page: the URL string itself is the identity and the display target.
    pub fn for_web_url(url: &str) -> (res: Self)
        ensures
            res.id@ == web_id_spec(url@),
            res.identity_source@ == url@,
            res.display_target@ == url@,
    {
        let key = crate::web::web_cache_key(url);
        TargetIdentity {
            id: prefixed_id(TargetKind::Web, key.as_str()),
            identity_source: owned(url),
            display_target: owned(url),
        }
    }

    /// Identity of a local file given as `path`: the path made absolute against `cwd`
    /// (`resolve_local_path`), or its canonical form when the file system gave one (the caller
    /// canonicalizes the resolved path and passes the outcome), shown as `path`.
    pub fn for_local_path(path: &str, kind: TargetKind, cwd: &str, canonical: Option<&str>) -> (res: Result<
        Self,
        HistoryError,
    >)
        ensures
            res matches Ok(identity) && {
                let source = match canonical {
                    Some(c) => c@,
                    None => resolve_local_spec(path@, cwd@),
                };
                &&& identity.identity_source@ == source
                &&& identity.id@ == local_id_spec(kind, source)
                &&& identity.display_target@ == path@
            },
    {
        let resolved = resolve_local_path(path, cwd);
        let source = match canonical {
            Some(c) => owned(c),
            None => resolved,
        };
        Ok(Self::for_resolved_local_path(source.as_str(), kind, path))
    }

    /// Identity of a local file whose resolved path is `identity_path`, shown as `display_target`.
    pub fn for_resolved_local_path(identity_path: &str, kind: TargetKind, display_target: &str) -> (res: Self)
        ensures
            res.id@ == local_id_spec(kind, identity_path@),
            res.identity_source@ == identity_path@,
            res.display_target@ == display_target@,
    {
        TargetIdentity {
            id: Self::local_id(kind, identity_path),
            identity_source: owned(identity_path),
            display_target: owned(display_target),
        }
    }

    /// `"<kind>:<short hash of path>"`.
    pub fn local_id(kind: TargetKind, path: &str) -> (res: String)
        ensures
            res@ == local_id_spec(kind, path@),
    {
        let key = short_key(path);
        prefixed_id(kind, key.as_str())
    }
}

impl HistoryTarget {
    pub open spec fn kind_spec(&self) -> TargetKind {
        match self {
            HistoryTarget::Web { .. } => TargetKind::Web,
            HistoryTarget::Epub { .. } => TargetKind::Epub,
            HistoryTarget::Markdown { .. } => TargetKind::Markdown,
        }
    }

    pub open spec fn title_spec(&self) -> Seq<char> {
        match self {
            HistoryTarget::Web { title, .. } => title@,
            HistoryTarget::Epub { title, .. } => title@,
            HistoryTarget::Markdown { title, .. } => title@,
        }
    }

    /// The identifier of the entry this target maps to.
    pub open spec fn id_spec(&self) -> Seq<char> {
        match self {
            HistoryTarget::Web { url, .. } => web_id_spec(url@),
            HistoryTarget::Epub { path, .. } => local_id_spec(TargetKind::Epub, path@),
            HistoryTarget::Markdown { path, .. } => local_id_spec(TargetKind::Markdown, path@),
        }
    }

    /// What is stored as the entry's target: the URL for web pages, the resolved path for files.
    pub open spec fn stored_target_spec(&self) -> Seq<char> {
        match self {
            HistoryTarget::Web { url, .. } => url@,
            HistoryTarget::Epub { path, .. } => path@,
            HistoryTarget::Markdown { path, .. } => path@,
        }
    }

    pub fn kind(&self) -> (res: TargetKind)
        ensures
            res == self.kind_spec(),
    {
        match self {
            HistoryTarget::Web { .. } => TargetKind::Web,
            HistoryTarget::Epub { .. } => TargetKind::Epub,
            HistoryTarget::Markdown { .. } => TargetKind::Markdown,
        }
    }

    pub fn title(&self) -> (res: &str)
        ensures
            res@ == self.title_spec(),
    {
        match self {
            HistoryTarget::Web { title, .. } => title.as_str(),
            HistoryTarget::Epub { title, .. } => title.as_str(),
            HistoryTarget::Markdown { title, .. } => title.as_str(),
        }
    }

    /// The identity of this target.
    pub fn identity(&self) -> (res: TargetIdentity)
        ensures
            res.id@ == self.id_spec(),
            res.identity_source@ == self.stored_target_spec(),
    {
        match self {
            HistoryTarget::Web { url, .. } => TargetIdentity::for_web_url(url.as_str()),
            HistoryTarget::Epub { path, .. } => TargetIdentity::for_resolved_local_path(
                path.as_str(),
                TargetKind::Epub,
                path.as_str(),
            ),
            HistoryTarget::Markdown { path, .. } => TargetIdentity::for_resolved_local_path(
                path.as_str(),
                TargetKind::Markdown,
                path.as_str(),
            ),
        }
    }
}

/// `cwd.join(path)` for a relative `path` (`Path::is_absolute` on Unix: a leading `/`), the
/// path itself for an absolute one.
pub open spec fn resolve_local_spec(path: Seq<char>, cwd: Seq<char>) -> Seq<char> {
    if path.len() > 0 && path[0] == '/' {
        path
    } else {
        crate::dashboard::join_path_spec(cwd, path)
    }
}

/// A local path made absolute against the working directory `cwd`.
pub fn resolve_local_path(path: &str, cwd: &str) -> (res: String)
    ensures
        res@ == resolve_local_spec(path@, cwd@),
{
    let v = crate::text::chars_of(path);
    if v.len() > 0 && v[0] == '/' {
        owned(path)
    } else {
        crate::dashboard::join_path(cwd, path)
    }
}

// ───────────────────────────── lookups ─────────────────────────────

/// `i` is the first position holding an entry with identifier `id`.
pub open spec fn is_first_id(entries: Seq<EntryView>, id: Seq<char>, i: int) -> bool {
    &&& 0 <= i < entries.len()
    &&& entries[i].id == id
    &&& forall|j: int| 0 <= j < i ==> entries[j].id != id
}

/// Position of the first entry with identifier `id`.
pub open spec fn first_index(entries: Seq<EntryView>, id: Seq<char>) -> Option<int> {
    if exists|i: int| 0 <= i < entries.len() && entries[i].id == id {
        Some(choose|i: int| is_first_id(entries, id, i))
    } else {
        None
    }
}

pub proof fn lemma_first_index(entries: Seq<EntryView>, id: Seq<char>, i: int)
    requires
        is_first_id(entries, id, i),
    ensures
        first_index(entries, id) == Some(i),
{
    let k = choose|k: int| is_first_id(entries, id, k);
    assert(is_first_id(entries, id, k));
    if k < i {
        assert(entries[k].id == id);
    } else if k > i {
        assert(entries[i].id == id);
    }
}

/// Clamps a progress percentage to `0..=100`.
pub open spec fn clamp_percent_spec(value: i16) -> i16 {
    if value < 0 {
        0
    } else if value > 100 {
        100
    } else {
        value
    }
}

/// `value.clamp(0, 100)`.
pub fn clamp_percent(value: i16) -> (res: i16)
    ensures
        res == clamp_percent_spec(value),
        0 <= res <= 100,
{
    if value < 0 {
        0
    } else if value > 100 {
        100
    } else {
        value
    }
}

/// The entry created for a first successful open.
pub open spec fn new_entry_spec(
    target: HistoryTarget,
    position: ReadingPosition,
    percent: i16,
    updated_at: Seq<char>,
) -> EntryView {
    EntryView {
        id: target.id_spec(),
        kind: target.kind_spec(),
        title: target.title_spec(),
        target: target.stored_target_spec(),
        position: position,
        progress_percent: clamp_percent_spec(percent),
        updated_at: updated_at,
        starred: false,
        hidden: false,
    }
}

/// An existing entry after its target was opened again: it becomes visible, and loses its star
/// if it had been hidden.
pub open spec fn reopened_entry_spec(
    old: EntryView,
    target: HistoryTarget,
    position: ReadingPosition,
    percent: i16,
    updated_at: Seq<char>,
) -> EntryView {
    EntryView {
        id: old.id,
        kind: target.kind_spec(),
        title: target.title_spec(),
        target: target.stored_target_spec(),
        position: position,
        progress_percent: clamp_percent_spec(percent),
        updated_at: updated_at,
        starred: if old.hidden { false } else { old.starred },
        hidden: false,
    }
}

/// The history after a successful open of `target`.
pub open spec fn record_open_spec(
    entries: Seq<EntryView>,
    target: HistoryTarget,
    position: ReadingPosition,
    percent: i16,
    updated_at: Seq<char>,
) -> Seq<EntryView> {
    match first_index(entries, target.id_spec()) {
        Some(i) => entries.update(i, reopened_entry_spec(entries[i], target, position, percent, updated_at)),
        None => entries.push(new_entry_spec(target, position, percent, updated_at)),
    }
}

proof fn lemma_first_exists(entries: Seq<EntryView>, id: Seq<char>, i: int)
    requires
        0 <= i < entries.len(),
        entries[i].id == id,
    ensures
        exists|k: int| is_first_id(entries, id, k),
    decreases i,
{
    if exists|j: int| 0 <= j < i && entries[j].id == id {
        let j = choose|j: int| 0 <= j < i && entries[j].id == id;
        lemma_first_exists(entries, id, j);
    } else {
        assert(is_first_id(entries, id, i));
    }
}

/// No two entries share an identifier.
pub open spec fn ids_distinct(entries: Seq<EntryView>) -> bool {
    forall|i: int, j: int| 0 <= i < j < entries.len() ==> #[trigger] entries[i].id != #[trigger] entries[j].id
}

/// Recording a successful open keeps one entry per target: afterwards the target has an
/// entry, visible, at the position and progress recorded; the history grows only when the
/// target had none; and identifiers stay distinct.
pub proof fn lemma_record_open_one_entry_per_target(
    entries: Seq<EntryView>,
    target: HistoryTarget,
    position: ReadingPosition,
    percent: i16,
    updated_at: Seq<char>,
)
    requires
        ids_distinct(entries),
    ensures
        ({
            let r = record_open_spec(entries, target, position, percent, updated_at);
            &&& ids_distinct(r)
            &&& r.len() == if first_index(entries, target.id_spec()) is Some { entries.len() } else { entries.len() + 1 }
            &&& first_index(r, target.id_spec()) matches Some(k) && !r[k].hidden && r[k].position == position
                && r[k].progress_percent == clamp_percent_spec(percent) && r[k].updated_at == updated_at
        }),
{
    let id = target.id_spec();
    let r = record_open_spec(entries, target, position, percent, updated_at);
    match first_index(entries, id) {
        Some(i) => {
            let w = choose|w: int| 0 <= w < entries.len() && entries[w].id == id;
            lemma_first_exists(entries, id, w);
            let c = choose|c: int| is_first_id(entries, id, c);
            lemma_first_index(entries, id, c);
            assert(r[i].id == id);
            assert(ids_distinct(r)) by {
                assert forall|a: int, b: int| 0 <= a < b < r.len() implies #[trigger] r[a].id != #[trigger] r[b].id by {
                    if a != i && b != i {
                        assert(r[a] == entries[a] && r[b] == entries[b]);
                    } else if a == i {
                        assert(r[b] == entries[b]);
                        assert(entries[a].id == id);
                    } else {
                        assert(r[a] == entries[a]);
                        assert(entries[b].id == id);
                    }
                }
            }
            assert(is_first_id(r, id, i)) by {
                assert forall|k: int| 0 <= k < i implies r[k].id != id by {
                    assert(r[k] == entries[k]);
                }
            }
            lemma_first_index(r, id, i);
        },
        None => {
            let n = entries.len() as int;
            assert(forall|k: int| 0 <= k < n ==> entries[k].id != id);
            assert(ids_distinct(r)) by {
                assert forall|a: int, b: int| 0 <= a < b < r.len() implies #[trigger] r[a].id != #[trigger] r[b].id by {
                    assert(r[a] == entries[a]);
                    if b < n {
                        assert(r[b] == entries[b]);
                    } else {
                        assert(r[b].id == id);
                    }
                }
            }
            assert(is_first_id(r, id, n)) by {
                assert forall|k: int| 0 <= k < n implies r[k].id != id by {
                    assert(r[k] == entries[k]);
                }
            }
            lemma_first_index(r, id, n);
        },
    }
}

/// Reopening a target keeps its star only when its entry was visible: an entry that the
/// dashboard had removed comes back visible and unstarred, and a first open makes a visible,
/// unstarred entry at the end.
pub proof fn lemma_reopen_star_rule(
    entries: Seq<EntryView>,
    target: HistoryTarget,
    position: ReadingPosition,
    percent: i16,
    updated_at: Seq<char>,
)
    ensures
        ({
            let r = record_open_spec(entries, target, position, percent, updated_at);
            let id = target.id_spec();
            match first_index(entries, id) {
                Some(i) => first_index(r, id) == Some(i) && !r[i].hidden && r[i].starred == (entries[i].starred
                    && !entries[i].hidden),
                None => first_index(r, id) == Some(entries.len() as int) && !r[entries.len() as int].hidden
                    && !r[entries.len() as int].starred,
            }
        }),
{
    let id = target.id_spec();
    let r = record_open_spec(entries, target, position, percent, updated_at);
    match first_index(entries, id) {
        Some(i) => {
            let w = choose|w: int| 0 <= w < entries.len() && entries[w].id == id;
            lemma_first_exists(entries, id, w);
            let c = choose|c: int| is_first_id(entries, id, c);
            lemma_first_index(entries, id, c);
            assert(is_first_id(r, id, i)) by {
                assert forall|k: int| 0 <= k < i implies r[k].id != id by {
                    assert(r[k] == entries[k]);
                }
            }
            lemma_first_index(r, id, i);
        },
        None => {
            let n = entries.len() as int;
            assert(forall|k: int| 0 <= k < n ==> entries[k].id != id);
            assert(is_first_id(r, id, n)) by {
                assert forall|k: int| 0 <= k < n implies r[k].id != id by {
                    assert(r[k] == entries[k]);
                }
            }
            lemma_first_index(r, id, n);
        },
    }
}

/// The history after the entry `id` got a new position and progress.
pub open spec fn progress_update_spec(
    entries: Seq<EntryView>,
    id: Seq<char>,
    position: ReadingPosition,
    percent: i16,
    updated_at: Seq<char>,
) -> Seq<EntryView> {
    match first_index(entries, id) {
        Some(i) => entries.update(
            i,
            EntryView {
                position: position,
                progress_percent: clamp_percent_spec(percent),
                updated_at: updated_at,
                ..entries[i]
            },
        ),
        None => entries,
    }
}

/// Storing a reader's progress changes only the position, progress and time of its entry:
/// star and hidden flags set meanwhile on the dashboard stay, and no entry comes or goes.
pub proof fn lemma_progress_update_keeps_flags(
    entries: Seq<EntryView>,
    id: Seq<char>,
    position: ReadingPosition,
    percent: i16,
    updated_at: Seq<char>,
)
    ensures
        ({
            let r = progress_update_spec(entries, id, position, percent, updated_at);
            &&& r.len() == entries.len()
            &&& forall|k: int| 0 <= k < r.len() ==> (#[trigger] r[k]).starred == entries[k].starred && r[k].hidden
                == entries[k].hidden && r[k].id == entries[k].id
        }),
{
    if exists|w: int| 0 <= w < entries.len() && entries[w].id == id {
        let w = choose|w: int| 0 <= w < entries.len() && entries[w].id == id;
        lemma_first_exists(entries, id, w);
        let c = choose|c: int| is_first_id(entries, id, c);
        lemma_first_index(entries, id, c);
    }
}

/// The history after the star flag of entry `id` was set.
pub open spec fn set_starred_spec(
    entries: Seq<EntryView>,
    id: Seq<char>,
    starred: bool,
    updated_at: Seq<char>,
) -> Seq<EntryView> {
    match first_index(entries, id) {
        Some(i) => entries.update(i, EntryView { starred: starred, updated_at: updated_at, ..entries[i] }),
        None => entries,
    }
}

/// The history after the hidden flag of entry `id` was set.
pub open spec fn set_hidden_spec(
    entries: Seq<EntryView>,
    id: Seq<char>,
    hidden: bool,
    updated_at: Seq<char>,
) -> Seq<EntryView> {
    match first_index(entries, id) {
        Some(i) => entries.update(i, EntryView { hidden: hidden, updated_at: updated_at, ..entries[i] }),
        None => entries,
    }
}

impl HistoryEntry {
    /// A field-by-field copy.
    pub fn duplicate(&self) -> (res: Self)
        ensures
            res@ == self@,
    {
        HistoryEntry {
            id: self.id.clone(),
            kind: self.kind,
            title: self.title.clone(),
            target: self.target.clone(),
            position: self.position,
            progress_percent: self.progress_percent,
            updated_at: self.updated_at.clone(),
            starred: self.starred,
            hidden: self.hidden,
        }
    }
}

impl HistoryFile {
    /// Position of the first entry with identifier `id`.
    pub fn index_of(&self, id: &str) -> (res: Option<usize>)
        ensures
            match res {
                Some(i) => first_index(self@, id@) == Some(i as int) && is_first_id(self@, id@, i as int),
                None => first_index(self@, id@) is None,
            },
    {
        let mut i: usize = 0;
        while i < self.entries.len()
            invariant
                i <= self.entries@.len(),
                forall|j: int| 0 <= j < i ==> self@[j].id != id@,
            decreases self.entries@.len() - i,
        {
            if str_eq(self.entries[i].id.as_str(), id) {
                proof {
                    lemma_first_index(self@, id@, i as int);
                }
                return Some(i);
            }
            i = i + 1;
        }
        None
    }

    /// The first entry with identifier `id`.
    pub fn entry(&self, id: &str) -> (res: Option<&HistoryEntry>)
        ensures
            match first_index(self@, id@) {
                Some(i) => res matches Some(e) && e@ == self@[i],
                None => res is None,
            },
    {
        match self.index_of(id) {
            Some(i) => Some(&self.entries[i]),
            None => None,
        }
    }

    /// The first entry with identifier `id`, for modification.
    pub fn entry_mut(&mut self, id: &str) -> (res: Option<&mut HistoryEntry>)
        ensures
            match first_index(old(self)@, id@) {
                Some(i) => res matches Some(e) && (*e)@ == old(self)@[i] && final(self)@
                    == old(self)@.update(i, (*final(e))@),
                None => res is None && final(self)@ == old(self)@,
            },
    {
        match self.index_of(id) {
            Some(i) => Some(&mut self.entries[i]),
            None => None,
        }
    }

    /// Records a successful open of `target`: the existing entry for the target is updated in
    /// place (made visible, and unstarred if it had been hidden), or a new entry is appended.
    pub fn record_successful_open(
        &mut self,
        target: HistoryTarget,
        position: ReadingPosition,
        progress_percent: i16,
        updated_at: &str,
    ) -> (session: HistorySession)
        ensures
            final(self)@ == record_open_spec(old(self)@, target, position, progress_percent, updated_at@),
            session.entry_id@ == target.id_spec(),
            session.opened_at@ == updated_at@,
    {
        let identity = target.identity();
        let id = identity.id;
        let percent = clamp_percent(progress_percent);
        let kind = target.kind();
        let title = owned(target.title());
        let stored_target = identity.identity_source;
        match self.index_of(id.as_str()) {
            Some(i) => {
                let was_hidden = self.entries[i].hidden;
                let starred = if was_hidden {
                    false
                } else {
                    self.entries[i].starred
                };
                let entry = HistoryEntry {
                    id: self.entries[i].id.clone(),
                    kind,
                    title,
                    target: stored_target,
                    position,
                    progress_percent: percent,
                    updated_at: owned(updated_at),
                    starred,
                    hidden: false,
                };
                let ghost before = self@;
                self.entries.set(i, entry);
                assert(self@ =~= record_open_spec(before, target, position, progress_percent, updated_at@));
            },
            None => {
                let entry = HistoryEntry {
                    id: id.clone(),
                    kind,
                    title,
                    target: stored_target,
                    position,
                    progress_percent: percent,
                    updated_at: owned(updated_at),
                    starred: false,
                    hidden: false,
                };
                let ghost before = self@;
                self.entries.push(entry);
                assert(self@ =~= record_open_spec(before, target, position, progress_percent, updated_at@));
            },
        }
        HistorySession { entry_id: id, opened_at: owned(updated_at) }
    }

    /// Stores the reader's final position and progress in the session's entry; the star and
    /// hidden flags, which the dashboard may have changed meanwhile, are kept.
    pub fn update_progress_from_session(
        &mut self,
        session: &HistorySession,
        position: ReadingPosition,
        progress_percent: i16,
        updated_at: &str,
    ) -> (res: Result<(), HistoryError>)
        ensures
            res is Ok,
            final(self)@ == progress_update_spec(
                old(self)@,
                session.entry_id@,
                position,
                progress_percent,
                updated_at@,
            ),
    {
        if let Some(i) = self.index_of(session.entry_id.as_str()) {
            let mut entry = self.entries[i].duplicate();
            entry.position = position;
            entry.progress_percent = clamp_percent(progress_percent);
            entry.updated_at = owned(updated_at);
            let ghost before = self@;
            self.entries.set(i, entry);
            assert(self@ =~= progress_update_spec(before, session.entry_id@, position, progress_percent, updated_at@));
        }
        Ok(())
    }

    /// Sets the star flag of entry `id`, if there is one.
    pub fn set_starred(&mut self, id: &str, starred: bool, updated_at: &str) -> (res: Result<(), HistoryError>)
        ensures
            res is Ok,
            final(self)@ == set_starred_spec(old(self)@, id@, starred, updated_at@),
    {
        if let Some(i) = self.index_of(id) {
            let mut entry = self.entries[i].duplicate();
            entry.starred = starred;
            entry.updated_at = owned(updated_at);
            let ghost before = self@;
            self.entries.set(i, entry);
            assert(self@ =~= set_starred_spec(before, id@, starred, updated_at@));
        }
        Ok(())
    }

    /// Sets the hidden flag of entry `id`, if there is one.
    pub fn set_hidden(&mut self, id: &str, hidden: bool, updated_at: &str) -> (res: Result<(), HistoryError>)
        ensures
            res is Ok,
            final(self)@ == set_hidden_spec(old(self)@, id@, hidden, updated_at@),
    {
        if let Some(i) = self.index_of(id) {
            let mut entry = self.entries[i].duplicate();
            entry.hidden = hidden;
            entry.updated_at = owned(updated_at);
            let ghost before = self@;
            self.entries.set(i, entry);
            assert(self@ =~= set_hidden_spec(before, id@, hidden, updated_at@));
        }
        Ok(())
    }
}

impl HistoryStore {
    /// A store kept at `path`.
    pub fn at(path: String) -> (res: Self)
        ensures
            res.path_spec() == path@,
    {
        HistoryStore { path }
    }

    pub closed spec fn path_spec(&self) -> Seq<char> {
        self.path@
    }

    /// Where the history file lives.
    pub fn path(&self) -> (res: &str)
        ensures
            res@ == self.path_spec(),
    {
        self.path.as_str()
    }
}

/// The name an unreadable history file is moved to: `history.json.bak.<millis>-<pid>`.
pub open spec fn backup_name_spec(millis: nat, pid: nat) -> Seq<char> {
    "history.json.bak."@ + crate::text::decimal(millis) + seq!['-'] + crate::text::decimal(pid)
}

/// The backup name for a history file moved aside at `millis` milliseconds since the epoch by
/// process `pid`.
pub fn history_backup_name(millis: u128, pid: u32) -> (res: String)
    ensures
        res@ == backup_name_spec(millis as nat, pid as nat),
{
    let mut name = owned("history.json.bak.");
    crate::text::push_decimal_wide(&mut name, millis);
    crate::text::push_char(&mut name, '-');
    crate::text::push_decimal(&mut name, pid as u64);
    name
}

// ───────────────────────────── timestamps ─────────────────────────────

/// Seconds since the Unix epoch, read from the system clock (0 when the clock is before the
/// epoch). Nothing is stated of the value: it depends on the time.
#[verifier::external_body]
pub(crate) fn unix_now_secs() -> (res: u64) {
    std::time::SystemTime::now().duration_since(std::time::UNIX_EPOCH).unwrap_or_default().as_secs()
}

/// The current time as decimal seconds since the Unix epoch.
pub fn now_timestamp() -> (res: String)
    ensures
        exists|secs: u64| res@ == crate::text::decimal(secs as nat),
{
    let secs = unix_now_secs();
    crate::text::u64_to_string(secs)
}

} // verus!
