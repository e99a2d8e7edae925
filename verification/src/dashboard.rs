//! The reading dashboard: starred and recent rows, selection, star and remove, and the
//! open prompt.
use vstd::prelude::*;
use crate::keys::{KeyCode, KeyEvent};
use crate::text::{chars_of, lex_less, lex_lt, owned, str_eq};

verus! {

/// What kind of document a dashboard entry refers to.
#[derive(Debug, Clone, Copy, PartialEq, Eq, Structural)]
pub enum TargetKind {
    Web,
    Epub,
    Markdown,
}

/// One entry shown on the dashboard.
#[derive(Debug, Clone, PartialEq, Eq)]
pub struct DashboardEntry {
    pub id: String,
    pub kind: TargetKind,
    pub title: String,
    pub target: String,
    pub progress_percent: i16,
    pub updated_at: String,
    pub starred: bool,
    pub hidden: bool,
}

/// Abstract value of a dashboard entry.
pub struct DEntry {
    pub id: Seq<char>,
    pub kind: TargetKind,
    pub title: Seq<char>,
    pub target: Seq<char>,
    pub progress_percent: i16,
    pub updated_at: Seq<char>,
    pub starred: bool,
    pub hidden: bool,
}

impl View for DashboardEntry {
    type V = DEntry;

    open spec fn view(&self) -> DEntry {
        DEntry {
            id: self.id@,
            kind: self.kind,
            title: self.title@,
            target: self.target@,
            progress_percent: self.progress_percent,
            updated_at: self.updated_at@,
            starred: self.starred,
            hidden: self.hidden,
        }
    }
}

/// A row of the dashboard list.
#[derive(Debug, Clone, PartialEq, Eq)]
pub struct DashboardRow {
    pub entry_id: String,
}

/// A completion offered by the open prompt.
#[derive(Debug, Clone, PartialEq, Eq)]
pub struct PathSuggestion {
    pub path: String,
    pub display: String,
    pub is_dir: bool,
}

/// What the open prompt asks for.
#[derive(Debug, Clone, PartialEq, Eq)]
pub enum PromptTarget {
    Url(String),
    LocalPath(String),
}

/// Why the prompt could not complete.
#[derive(Debug, Clone, Copy, PartialEq, Eq, Structural)]
pub enum PromptErrorKind {
    MissingPath,
    Io,
}

/// An error shown under the prompt.
#[derive(Debug, Clone, PartialEq, Eq)]
pub struct PromptError {
    pub kind: PromptErrorKind,
    pub recoverable: bool,
    pub message: String,
}

/// Dashboard state: the entries and the selected row.
pub struct DashboardState {
    entries: Vec<DashboardEntry>,
    selected: usize,
}

/// Views of a sequence of entries.
pub open spec fn dentry_views(s: Seq<DashboardEntry>) -> Seq<DEntry> {
    s.map_values(|e: DashboardEntry| e@)
}

// ───────────────────────────── rows ─────────────────────────────

/// Identifiers of the visible starred entries, in stored order.
pub open spec fn starred_ids(s: Seq<DEntry>) -> Seq<Seq<char>>
    decreases s.len(),
{
    if s.len() == 0 {
        Seq::empty()
    } else if !s.last().hidden && s.last().starred {
        starred_ids(s.drop_last()).push(s.last().id)
    } else {
        starred_ids(s.drop_last())
    }
}

/// The visible entries that are not starred, in stored order.
pub open spec fn recent_entries(s: Seq<DEntry>) -> Seq<DEntry>
    decreases s.len(),
{
    if s.len() == 0 {
        Seq::empty()
    } else if !s.last().hidden && !s.last().starred {
        recent_entries(s.drop_last()).push(s.last())
    } else {
        recent_entries(s.drop_last())
    }
}

/// Inserts `e` into `sorted` (newest first) after every entry updated no earlier than `e`.
pub open spec fn insert_newest_first(sorted: Seq<DEntry>, e: DEntry) -> Seq<DEntry>
    decreases sorted.len(),
{
    if sorted.len() == 0 {
        seq![e]
    } else if !lex_lt(sorted.last().updated_at, e.updated_at) {
        sorted.push(e)
    } else {
        insert_newest_first(sorted.drop_last(), e).push(sorted.last())
    }
}

/// Stable sort by descending `updated_at`.
pub open spec fn sort_newest_first(s: Seq<DEntry>) -> Seq<DEntry>
    decreases s.len(),
{
    if s.len() == 0 {
        Seq::empty()
    } else {
        insert_newest_first(sort_newest_first(s.drop_last()), s.last())
    }
}

/// Identifiers of a sequence of entries.
pub open spec fn ids_of(s: Seq<DEntry>) -> Seq<Seq<char>> {
    s.map_values(|e: DEntry| e.id)
}

/// Identifiers of the recent rows: visible, unstarred, newest first.
pub open spec fn recent_ids(s: Seq<DEntry>) -> Seq<Seq<char>> {
    ids_of(sort_newest_first(recent_entries(s)))
}

/// All rows: starred first, then recent.
pub open spec fn visible_ids(s: Seq<DEntry>) -> Seq<Seq<char>> {
    starred_ids(s) + recent_ids(s)
}

/// Identifiers of the rows of `rows`.
pub open spec fn row_ids(rows: Seq<DashboardRow>) -> Seq<Seq<char>> {
    rows.map_values(|r: DashboardRow| r.entry_id@)
}

/// The first position holding an entry with identifier `id`.
pub open spec fn first_entry_index(s: Seq<DEntry>, id: Seq<char>) -> Option<int> {
    if exists|i: int| 0 <= i < s.len() && s[i].id == id {
        Some(choose|i: int| 0 <= i < s.len() && s[i].id == id && forall|j: int| 0 <= j < i ==> s[j].id != id)
    } else {
        None
    }
}

proof fn lemma_first_entry_index(s: Seq<DEntry>, id: Seq<char>, i: int)
    requires
        0 <= i < s.len(),
        s[i].id == id,
        forall|j: int| 0 <= j < i ==> s[j].id != id,
    ensures
        first_entry_index(s, id) == Some(i),
{
    let k = choose|k: int| 0 <= k < s.len() && s[k].id == id && forall|j: int| 0 <= j < k ==> s[j].id != id;
    assert(0 <= k < s.len() && s[k].id == id && forall|j: int| 0 <= j < k ==> s[j].id != id);
    if k < i {
        assert(s[k].id == id);
    } else if k > i {
        assert(s[i].id == id);
    }
}

proof fn lemma_first_exists(s: Seq<DEntry>, id: Seq<char>, n: int)
    requires
        0 <= n <= s.len(),
        exists|i: int| 0 <= i < n && s[i].id == id,
    ensures
        exists|k: int| 0 <= k < s.len() && s[k].id == id && forall|j: int| 0 <= j < k ==> s[j].id != id,
    decreases n,
{
    if exists|i: int| 0 <= i < n - 1 && s[i].id == id {
        lemma_first_exists(s, id, n - 1);
    } else {
        let k = n - 1;
        assert(s[k].id == id);
        assert(forall|j: int| 0 <= j < k ==> s[j].id != id);
    }
}

/// What `first_entry_index` gives is the first position with that identifier.
pub proof fn lemma_first_entry_index_spec(s: Seq<DEntry>, id: Seq<char>)
    ensures
        match first_entry_index(s, id) {
            Some(k) => 0 <= k < s.len() && s[k].id == id && forall|j: int| 0 <= j < k ==> s[j].id != id,
            None => forall|j: int| 0 <= j < s.len() ==> s[j].id != id,
        },
{
    if exists|i: int| 0 <= i < s.len() && s[i].id == id {
        lemma_first_exists(s, id, s.len() as int);
    }
}

proof fn lemma_starred_ids_from_entries(s: Seq<DEntry>)
    ensures
        forall|k: int| 0 <= k < starred_ids(s).len() ==> exists|i: int| 0 <= i < s.len() && s[i].id == #[trigger] starred_ids(s)[k],
    decreases s.len(),
{
    if s.len() > 0 {
        lemma_starred_ids_from_entries(s.drop_last());
        let r = starred_ids(s.drop_last());
        assert forall|k: int| 0 <= k < starred_ids(s).len() implies exists|i: int| 0 <= i < s.len() && s[i].id == #[trigger] starred_ids(s)[k] by {
            if k < r.len() {
                let i = choose|i: int| 0 <= i < s.drop_last().len() && s.drop_last()[i].id == r[k];
                assert(s[i].id == starred_ids(s)[k]);
            } else {
                assert(s[s.len() - 1].id == starred_ids(s)[k]);
            }
        }
    }
}

proof fn lemma_recent_entries_from_entries(s: Seq<DEntry>)
    ensures
        forall|k: int| 0 <= k < recent_entries(s).len() ==> s.contains(#[trigger] recent_entries(s)[k]),
    decreases s.len(),
{
    if s.len() > 0 {
        lemma_recent_entries_from_entries(s.drop_last());
        let r = recent_entries(s.drop_last());
        assert forall|k: int| 0 <= k < recent_entries(s).len() implies s.contains(#[trigger] recent_entries(s)[k]) by {
            if k < r.len() {
                assert(s.drop_last().contains(r[k]));
                let i = choose|i: int| 0 <= i < s.drop_last().len() && s.drop_last()[i] == r[k];
                assert(s[i] == recent_entries(s)[k]);
            } else {
                assert(s[s.len() - 1] == recent_entries(s)[k]);
            }
        }
    }
}

proof fn lemma_insert_contents(sorted: Seq<DEntry>, e: DEntry)
    ensures
        insert_newest_first(sorted, e).len() == sorted.len() + 1,
        forall|k: int| 0 <= k < insert_newest_first(sorted, e).len() ==> (#[trigger] insert_newest_first(sorted, e)[k] == e
            || sorted.contains(insert_newest_first(sorted, e)[k])),
    decreases sorted.len(),
{
    if sorted.len() > 0 && lex_lt(sorted.last().updated_at, e.updated_at) {
        lemma_insert_contents(sorted.drop_last(), e);
        let r = insert_newest_first(sorted.drop_last(), e);
        assert forall|k: int| 0 <= k < insert_newest_first(sorted, e).len() implies (#[trigger] insert_newest_first(sorted, e)[k] == e
            || sorted.contains(insert_newest_first(sorted, e)[k])) by {
            if k < r.len() {
                if r[k] != e {
                    assert(sorted.drop_last().contains(r[k]));
                    let i = choose|i: int| 0 <= i < sorted.drop_last().len() && sorted.drop_last()[i] == r[k];
                    assert(sorted[i] == r[k]);
                }
            } else {
                assert(sorted[sorted.len() - 1] == insert_newest_first(sorted, e)[k]);
            }
        }
    } else if sorted.len() > 0 {
        assert forall|k: int| 0 <= k < insert_newest_first(sorted, e).len() implies (#[trigger] insert_newest_first(sorted, e)[k] == e
            || sorted.contains(insert_newest_first(sorted, e)[k])) by {
            if k < sorted.len() {
                assert(sorted[k] == insert_newest_first(sorted, e)[k]);
            }
        }
    }
}

proof fn lemma_sort_contents(s: Seq<DEntry>)
    ensures
        sort_newest_first(s).len() == s.len(),
        forall|k: int| 0 <= k < sort_newest_first(s).len() ==> s.contains(#[trigger] sort_newest_first(s)[k]),
    decreases s.len(),
{
    if s.len() > 0 {
        lemma_sort_contents(s.drop_last());
        let r = sort_newest_first(s.drop_last());
        lemma_insert_contents(r, s.last());
        assert forall|k: int| 0 <= k < sort_newest_first(s).len() implies s.contains(#[trigger] sort_newest_first(s)[k]) by {
            let x = sort_newest_first(s)[k];
            if x == s.last() {
                assert(s[s.len() - 1] == x);
            } else {
                assert(r.contains(x));
                let j = choose|j: int| 0 <= j < r.len() && r[j] == x;
                assert(s.drop_last().contains(r[j]));
                let i = choose|i: int| 0 <= i < s.drop_last().len() && s.drop_last()[i] == x;
                assert(s[i] == x);
            }
        }
    }
}

/// Entries newest first: none was updated before one that comes after it.
pub open spec fn newest_first(s: Seq<DEntry>) -> bool {
    forall|i: int, j: int| 0 <= i < j < s.len() ==> !lex_lt(#[trigger] s[i].updated_at, #[trigger] s[j].updated_at)
}

proof fn lemma_insert_newest_first(sorted: Seq<DEntry>, e: DEntry)
    requires
        newest_first(sorted),
    ensures
        newest_first(insert_newest_first(sorted, e)),
        insert_newest_first(sorted, e).to_multiset() =~= sorted.to_multiset().insert(e),
    decreases sorted.len(),
{
    broadcast use vstd::seq_lib::group_to_multiset_ensures;
    broadcast use vstd::multiset::group_multiset_axioms;

    lemma_insert_contents(sorted, e);
    let res = insert_newest_first(sorted, e);
    if sorted.len() == 0 {
        assert(res =~= Seq::<DEntry>::empty().push(e));
        assert(sorted =~= Seq::<DEntry>::empty());
    } else if !lex_lt(sorted.last().updated_at, e.updated_at) {
        assert forall|i: int, j: int| 0 <= i < j < res.len() implies !lex_lt(
            #[trigger] res[i].updated_at,
            #[trigger] res[j].updated_at,
        ) by {
            if j == sorted.len() && i < sorted.len() - 1 {
                crate::text::lemma_lex_not_before_transitive(
                    sorted[i].updated_at,
                    sorted.last().updated_at,
                    e.updated_at,
                );
            }
        }
    } else {
        let d = sorted.drop_last();
        let last = sorted.last();
        assert(newest_first(d)) by {
            assert forall|i: int, j: int| 0 <= i < j < d.len() implies !lex_lt(
                #[trigger] d[i].updated_at,
                #[trigger] d[j].updated_at,
            ) by {
                assert(d[i] == sorted[i] && d[j] == sorted[j]);
            }
        }
        lemma_insert_newest_first(d, e);
        lemma_insert_contents(d, e);
        let r = insert_newest_first(d, e);
        assert(res == r.push(last));
        crate::text::lemma_lex_asymmetric(last.updated_at, e.updated_at);
        assert forall|i: int, j: int| 0 <= i < j < res.len() implies !lex_lt(
            #[trigger] res[i].updated_at,
            #[trigger] res[j].updated_at,
        ) by {
            if j == r.len() {
                assert(res[i] == r[i]);
                if r[i] != e {
                    assert(d.contains(r[i]));
                    let k = choose|k: int| 0 <= k < d.len() && d[k] == r[i];
                    assert(sorted[k] == r[i]);
                    assert(sorted[sorted.len() - 1] == last);
                }
            } else {
                assert(res[i] == r[i] && res[j] == r[j]);
            }
        }
        assert(sorted =~= d.push(last));
        assert(res.to_multiset() =~= r.to_multiset().insert(last));
        assert(sorted.to_multiset() =~= d.to_multiset().insert(last));
    }
}

proof fn lemma_sort_newest_first(s: Seq<DEntry>)
    ensures
        newest_first(sort_newest_first(s)),
        sort_newest_first(s).to_multiset() =~= s.to_multiset(),
    decreases s.len(),
{
    broadcast use vstd::seq_lib::group_to_multiset_ensures;

    if s.len() > 0 {
        lemma_sort_newest_first(s.drop_last());
        lemma_insert_newest_first(sort_newest_first(s.drop_last()), s.last());
        assert(s =~= s.drop_last().push(s.last()));
    }
}

/// The recent rows show the visible unstarred entries, each as often as it is stored,
/// newest first.
pub proof fn lemma_recent_rows_newest_first(s: Seq<DEntry>)
    ensures
        newest_first(sort_newest_first(recent_entries(s))),
        sort_newest_first(recent_entries(s)).to_multiset() =~= recent_entries(s).to_multiset(),
        forall|k: int| 0 <= k < recent_entries(s).len() ==> !(#[trigger] recent_entries(s)[k]).hidden
            && !recent_entries(s)[k].starred,
{
    lemma_sort_newest_first(recent_entries(s));
    lemma_recent_entries_visible(s);
}

proof fn lemma_recent_entries_visible(s: Seq<DEntry>)
    ensures
        forall|k: int| 0 <= k < recent_entries(s).len() ==> !(#[trigger] recent_entries(s)[k]).hidden
            && !recent_entries(s)[k].starred,
    decreases s.len(),
{
    if s.len() > 0 {
        lemma_recent_entries_visible(s.drop_last());
    }
}

/// Some visible starred entry has identifier `id`.
pub open spec fn has_visible_starred(s: Seq<DEntry>, id: Seq<char>) -> bool {
    exists|i: int| 0 <= i < s.len() && #[trigger] s[i].id == id && s[i].starred && !s[i].hidden
}

/// The starred rows name visible starred entries.
pub proof fn lemma_starred_rows_visible(s: Seq<DEntry>)
    ensures
        forall|k: int| 0 <= k < starred_ids(s).len() ==> has_visible_starred(s, #[trigger] starred_ids(s)[k]),
    decreases s.len(),
{
    if s.len() > 0 {
        lemma_starred_rows_visible(s.drop_last());
        let p = starred_ids(s.drop_last());
        assert forall|k: int| 0 <= k < starred_ids(s).len() implies has_visible_starred(s, #[trigger] starred_ids(s)[k]) by {
            if k < p.len() {
                assert(starred_ids(s)[k] == p[k]);
                assert(has_visible_starred(s.drop_last(), p[k]));
                let i = choose|i: int| 0 <= i < s.drop_last().len() && #[trigger] s.drop_last()[i].id == p[k]
                    && s.drop_last()[i].starred && !s.drop_last()[i].hidden;
                assert(s[i] == s.drop_last()[i]);
            } else {
                assert(s[s.len() - 1] == s.last());
            }
        }
    }
}

/// Some visible unstarred entry has identifier `id`.
pub open spec fn has_visible_unstarred(s: Seq<DEntry>, id: Seq<char>) -> bool {
    exists|i: int| 0 <= i < s.len() && #[trigger] s[i].id == id && !s[i].starred && !s[i].hidden
}

/// Starred entries are shown first: the first rows name visible starred entries, the rows
/// after them visible entries without a star.
pub proof fn lemma_starred_shown_first(s: Seq<DEntry>)
    ensures
        forall|k: int| 0 <= k < starred_ids(s).len() ==> has_visible_starred(s, #[trigger] visible_ids(s)[k]),
        forall|k: int|
            starred_ids(s).len() <= k < visible_ids(s).len() ==> has_visible_unstarred(
                s,
                #[trigger] visible_ids(s)[k],
            ),
{
    lemma_starred_rows_visible(s);
    lemma_recent_entries_from_entries(s);
    lemma_recent_entries_visible(s);
    lemma_sort_contents(recent_entries(s));
    let st = starred_ids(s);
    let srt = sort_newest_first(recent_entries(s));
    assert forall|k: int| 0 <= k < st.len() implies has_visible_starred(s, #[trigger] visible_ids(s)[k]) by {
        assert(visible_ids(s)[k] == st[k]);
    }
    assert forall|k: int| st.len() <= k < visible_ids(s).len() implies has_visible_unstarred(
        s,
        #[trigger] visible_ids(s)[k],
    ) by {
        let x = srt[k - st.len()];
        assert(visible_ids(s)[k] == x.id);
        assert(recent_entries(s).contains(x));
        let j = choose|j: int| 0 <= j < recent_entries(s).len() && recent_entries(s)[j] == x;
        assert(!recent_entries(s)[j].hidden && !recent_entries(s)[j].starred);
        assert(s.contains(recent_entries(s)[j]));
        let i = choose|i: int| 0 <= i < s.len() && s[i] == x;
        assert(s[i].id == visible_ids(s)[k]);
    }
}

/// No two entries share an identifier.
pub open spec fn dentry_ids_distinct(s: Seq<DEntry>) -> bool {
    forall|i: int, j: int| 0 <= i < j < s.len() ==> #[trigger] s[i].id != #[trigger] s[j].id
}

/// Removing an entry from the dashboard takes its row away: when no two entries share an
/// identifier, no row names the removed entry afterwards, and the other entries stay as they
/// were.
pub proof fn lemma_remove_hides_row(s: Seq<DEntry>, id: Seq<char>)
    requires
        dentry_ids_distinct(s),
    ensures
        hide_spec(s, id).len() == s.len(),
        forall|k: int| 0 <= k < s.len() && s[k].id != id ==> #[trigger] hide_spec(s, id)[k] == s[k],
        !visible_ids(hide_spec(s, id)).contains(id),
{
    let r = hide_spec(s, id);
    lemma_first_entry_index_spec(s, id);
    lemma_starred_shown_first(r);
    if visible_ids(r).contains(id) {
        let k = choose|k: int| 0 <= k < visible_ids(r).len() && visible_ids(r)[k] == id;
        let i = if k < starred_ids(r).len() {
            assert(has_visible_starred(r, visible_ids(r)[k]));
            choose|i: int| 0 <= i < r.len() && #[trigger] r[i].id == id && r[i].starred && !r[i].hidden
        } else {
            assert(has_visible_unstarred(r, visible_ids(r)[k]));
            choose|i: int| 0 <= i < r.len() && #[trigger] r[i].id == id && !r[i].starred && !r[i].hidden
        };
        assert(r[i].id == id && !r[i].hidden);
        match first_entry_index(s, id) {
            Some(f) => {
                if i != f {
                    assert(r[i] == s[i]);
                    if i < f {
                        assert(s[i].id != s[f].id);
                    } else {
                        assert(s[f].id != s[i].id);
                    }
                }
            },
            None => {
                assert(r[i] == s[i]);
            },
        }
    }
}

/// Starring an entry twice leaves the entries as they were.
pub proof fn lemma_toggle_star_twice(s: Seq<DEntry>, id: Seq<char>)
    ensures
        toggle_star_spec(toggle_star_spec(s, id), id) == s,
{
    let t = toggle_star_spec(s, id);
    lemma_first_entry_index_spec(s, id);
    match first_entry_index(s, id) {
        Some(i) => {
            let flipped = DEntry { starred: !s[i].starred, ..s[i] };
            assert(t == s.update(i, flipped));
            assert(t[i].id == id);
            assert forall|j: int| 0 <= j < i implies t[j].id != id by {
                assert(t[j] == s[j]);
            }
            lemma_first_index_is(t, id, i);
            assert(DEntry { starred: !flipped.starred, ..flipped } == s[i]);
            assert(t.update(i, DEntry { starred: !t[i].starred, ..t[i] }) =~= s);
        },
        None => {},
    }
}

/// The first position holding `id` is `first_entry_index`.
proof fn lemma_first_index_is(s: Seq<DEntry>, id: Seq<char>, i: int)
    requires
        0 <= i < s.len(),
        s[i].id == id,
        forall|j: int| 0 <= j < i ==> s[j].id != id,
    ensures
        first_entry_index(s, id) == Some(i),
{
    lemma_first_entry_index_spec(s, id);
    let k = first_entry_index(s, id)->0;
    if k < i {
        assert(s[k].id == id);
    } else if k > i {
        assert(s[i].id == id);
    }
}

/// The visible entries, in stored order.
pub open spec fn visible_entries_spec(s: Seq<DEntry>) -> Seq<DEntry>
    decreases s.len(),
{
    if s.len() == 0 {
        Seq::empty()
    } else if !s.last().hidden {
        visible_entries_spec(s.drop_last()).push(s.last())
    } else {
        visible_entries_spec(s.drop_last())
    }
}

proof fn lemma_ids_push(s: Seq<DEntry>, e: DEntry)
    ensures
        ids_of(s.push(e)) == ids_of(s).push(e.id),
{
    assert(ids_of(s.push(e)) =~= ids_of(s).push(e.id));
}

proof fn lemma_insert_ids(sorted: Seq<DEntry>, e: DEntry)
    ensures
        ids_of(insert_newest_first(sorted, e)).to_multiset() =~= ids_of(sorted).to_multiset().insert(e.id),
    decreases sorted.len(),
{
    broadcast use vstd::seq_lib::group_to_multiset_ensures;

    if sorted.len() == 0 {
        lemma_ids_push(sorted, e);
        assert(seq![e] =~= sorted.push(e));
    } else if !lex_lt(sorted.last().updated_at, e.updated_at) {
        lemma_ids_push(sorted, e);
    } else {
        let d = sorted.drop_last();
        lemma_insert_ids(d, e);
        lemma_ids_push(insert_newest_first(d, e), sorted.last());
        lemma_ids_push(d, sorted.last());
        assert(d.push(sorted.last()) =~= sorted);
    }
}

proof fn lemma_sort_ids(s: Seq<DEntry>)
    ensures
        ids_of(sort_newest_first(s)).to_multiset() =~= ids_of(s).to_multiset(),
    decreases s.len(),
{
    broadcast use vstd::seq_lib::group_to_multiset_ensures;

    if s.len() > 0 {
        lemma_sort_ids(s.drop_last());
        lemma_insert_ids(sort_newest_first(s.drop_last()), s.last());
        lemma_ids_push(s.drop_last(), s.last());
        assert(s.drop_last().push(s.last()) =~= s);
    }
}

proof fn lemma_split_ids(s: Seq<DEntry>)
    ensures
        starred_ids(s).to_multiset().add(ids_of(recent_entries(s)).to_multiset()) =~= ids_of(
            visible_entries_spec(s),
        ).to_multiset(),
    decreases s.len(),
{
    broadcast use vstd::seq_lib::group_to_multiset_ensures;
    broadcast use vstd::multiset::group_multiset_axioms;

    if s.len() == 0 {
        assert(ids_of(Seq::<DEntry>::empty()) =~= Seq::<Seq<char>>::empty());
    } else {
        let d = s.drop_last();
        let e = s.last();
        lemma_split_ids(d);
        lemma_ids_push(recent_entries(d), e);
        lemma_ids_push(visible_entries_spec(d), e);
    }
}

proof fn lemma_visible_counts(s: Seq<DEntry>)
    requires
        dentry_ids_distinct(s),
    ensures
        forall|i: int|
            0 <= i < s.len() ==> ids_of(visible_entries_spec(s)).to_multiset().count(#[trigger] s[i].id) == if s[i].hidden {
                0nat
            } else {
                1nat
            },
        forall|x: Seq<char>|
            (forall|j: int| 0 <= j < s.len() ==> s[j].id != x) ==> ids_of(visible_entries_spec(s)).to_multiset().count(x)
                == 0,
    decreases s.len(),
{
    broadcast use vstd::seq_lib::group_to_multiset_ensures;
    broadcast use vstd::multiset::group_multiset_axioms;

    if s.len() == 0 {
        assert(ids_of(Seq::<DEntry>::empty()) =~= Seq::<Seq<char>>::empty());
    } else {
        let d = s.drop_last();
        let e = s.last();
        assert forall|i: int, j: int| 0 <= i < j < d.len() implies #[trigger] d[i].id != #[trigger] d[j].id by {
            assert(d[i] == s[i] && d[j] == s[j]);
        }
        lemma_visible_counts(d);
        lemma_ids_push(visible_entries_spec(d), e);
        let m = ids_of(visible_entries_spec(s)).to_multiset();
        let md = ids_of(visible_entries_spec(d)).to_multiset();
        assert forall|i: int| 0 <= i < s.len() implies m.count(#[trigger] s[i].id) == if s[i].hidden {
            0nat
        } else {
            1nat
        } by {
            if i < d.len() {
                assert(d[i] == s[i]);
                assert(s[i].id != s[s.len() - 1].id);
            } else {
                assert forall|j: int| 0 <= j < d.len() implies d[j].id != e.id by {
                    assert(d[j] == s[j]);
                    assert(s[j].id != s[s.len() - 1].id);
                }
            }
        }
        assert forall|x: Seq<char>| (forall|j: int| 0 <= j < s.len() ==> s[j].id != x) implies m.count(x) == 0 by {
            assert forall|j: int| 0 <= j < d.len() implies d[j].id != x by {
                assert(d[j] == s[j]);
            }
            assert(s[s.len() - 1].id != x);
        }
    }
}

/// The dashboard's rows are the visible entries: as multisets, the row identifiers are the
/// identifiers of the entries that are not hidden. When no two entries share an identifier,
/// every visible entry has exactly one row and no hidden entry has one.
pub proof fn lemma_rows_are_the_visible_entries(s: Seq<DEntry>)
    ensures
        visible_ids(s).to_multiset() =~= ids_of(visible_entries_spec(s)).to_multiset(),
        dentry_ids_distinct(s) ==> forall|i: int|
            0 <= i < s.len() ==> visible_ids(s).to_multiset().count(#[trigger] s[i].id) == if s[i].hidden {
                0nat
            } else {
                1nat
            },
{
    vstd::seq_lib::lemma_multiset_commutative(starred_ids(s), recent_ids(s));
    lemma_sort_ids(recent_entries(s));
    lemma_split_ids(s);
    if dentry_ids_distinct(s) {
        lemma_visible_counts(s);
    }
}

/// Every row stands for an entry.
pub proof fn lemma_rows_name_entries(s: Seq<DEntry>)
    ensures
        forall|k: int| 0 <= k < visible_ids(s).len() ==> exists|i: int| 0 <= i < s.len() && s[i].id == #[trigger] visible_ids(s)[k],
{
    lemma_starred_ids_from_entries(s);
    lemma_recent_entries_from_entries(s);
    lemma_sort_contents(recent_entries(s));
    let st = starred_ids(s);
    let srt = sort_newest_first(recent_entries(s));
    assert forall|k: int| 0 <= k < visible_ids(s).len() implies exists|i: int| 0 <= i < s.len() && s[i].id == #[trigger] visible_ids(s)[k] by {
        if k < st.len() {
            assert(visible_ids(s)[k] == st[k]);
        } else {
            let x = srt[k - st.len()];
            assert(visible_ids(s)[k] == x.id);
            assert(recent_entries(s).contains(x));
            let j = choose|j: int| 0 <= j < recent_entries(s).len() && recent_entries(s)[j] == x;
            assert(s.contains(recent_entries(s)[j]));
            let i = choose|i: int| 0 <= i < s.len() && s[i] == x;
            assert(s[i].id == visible_ids(s)[k]);
        }
    }
}

pub proof fn lemma_row_has_entry(s: Seq<DEntry>, k: int)
    requires
        0 <= k < visible_ids(s).len(),
    ensures
        first_entry_index(s, visible_ids(s)[k]) is Some,
{
    lemma_rows_name_entries(s);
    assert(exists|i: int| 0 <= i < s.len() && s[i].id == #[trigger] visible_ids(s)[k]);
}

/// The selection after keeping it within `len` rows.
pub open spec fn clamp_selection_spec(selected: nat, len: nat) -> nat {
    if len == 0 {
        0
    } else if selected >= len {
        (len - 1) as nat
    } else {
        selected
    }
}

/// Entries after the entry `id` had its star flipped.
pub open spec fn toggle_star_spec(s: Seq<DEntry>, id: Seq<char>) -> Seq<DEntry> {
    match first_entry_index(s, id) {
        Some(i) => s.update(i, DEntry { starred: !s[i].starred, ..s[i] }),
        None => s,
    }
}

/// Entries after the entry `id` was removed from view (hidden and unstarred).
pub open spec fn hide_spec(s: Seq<DEntry>, id: Seq<char>) -> Seq<DEntry> {
    match first_entry_index(s, id) {
        Some(i) => s.update(i, DEntry { hidden: true, starred: false, ..s[i] }),
        None => s,
    }
}

fn row_for(entry: &DashboardEntry) -> (res: DashboardRow)
    ensures
        res.entry_id@ == entry.id@,
{
    DashboardRow { entry_id: entry.id.clone() }
}

/// Rows for the identifiers of `v[i]` for each index in `order`.
fn rows_at(v: &Vec<DashboardEntry>, order: &Vec<usize>) -> (res: Vec<DashboardRow>)
    requires
        forall|k: int| 0 <= k < order@.len() ==> order@[k] < v@.len(),
    ensures
        row_ids(res@) == order@.map_values(|i: usize| v@[i as int].id@),
{
    let mut res: Vec<DashboardRow> = Vec::new();
    let mut k: usize = 0;
    while k < order.len()
        invariant
            k <= order@.len(),
            forall|k: int| 0 <= k < order@.len() ==> order@[k] < v@.len(),
            row_ids(res@) == order@.take(k as int).map_values(|i: usize| v@[i as int].id@),
        decreases order@.len() - k,
    {
        let ghost before = res@;
        let row = row_for(&v[order[k]]);
        res.push(row);
        assert(res@ == before.push(row));
        assert(row_ids(res@) =~= row_ids(before).push(v@[order@[k as int] as int].id@));
        assert(order@.take(k + 1) =~= order@.take(k as int).push(order@[k as int]));
        assert(row_ids(res@) =~= order@.take(k + 1).map_values(|i: usize| v@[i as int].id@));
        k = k + 1;
    }
    assert(order@.take(order@.len() as int) =~= order@);
    res
}

impl DashboardState {
    pub closed spec fn entries_view(&self) -> Seq<DEntry> {
        dentry_views(self.entries@)
    }

    pub closed spec fn selected_index(&self) -> nat {
        self.selected as nat
    }

    /// A dashboard over `entries`, with the first row selected.
    pub fn from_history(entries: Vec<DashboardEntry>) -> (res: Self)
        ensures
            res.entries_view() == dentry_views(entries@),
            res.selected_index() == 0,
    {
        DashboardState { entries, selected: 0 }
    }

    /// Rows of the visible starred entries, in stored order.
    pub fn starred_rows(&self) -> (res: Vec<DashboardRow>)
        ensures
            row_ids(res@) == starred_ids(self.entries_view()),
    {
        let ghost s = self.entries_view();
        let mut res: Vec<DashboardRow> = Vec::new();
        let mut i: usize = 0;
        while i < self.entries.len()
            invariant
                i <= self.entries@.len(),
                s == dentry_views(self.entries@),
                row_ids(res@) == starred_ids(s.take(i as int)),
            decreases self.entries@.len() - i,
        {
            assert(s.take(i + 1).drop_last() =~= s.take(i as int));
            if !self.entries[i].hidden && self.entries[i].starred {
                res.push(row_for(&self.entries[i]));
                assert(row_ids(res@) =~= starred_ids(s.take(i + 1)));
            } else {
                assert(row_ids(res@) =~= starred_ids(s.take(i + 1)));
            }
            i = i + 1;
        }
        assert(s.take(s.len() as int) =~= s);
        res
    }

    /// Positions of the visible unstarred entries, newest first (stable).
    fn recent_order(&self) -> (res: Vec<usize>)
        ensures
            forall|k: int| 0 <= k < res@.len() ==> res@[k] < self.entries@.len(),
            res@.map_values(|i: usize| self.entries_view()[i as int]) == sort_newest_first(
                recent_entries(self.entries_view()),
            ),
    {
        let ghost s = self.entries_view();
        let mut res: Vec<usize> = Vec::new();
        let mut i: usize = 0;
        while i < self.entries.len()
            invariant
                i <= self.entries@.len(),
                s == dentry_views(self.entries@),
                forall|k: int| 0 <= k < res@.len() ==> res@[k] < self.entries@.len(),
                res@.map_values(|j: usize| s[j as int]) == sort_newest_first(recent_entries(s.take(i as int))),
            decreases self.entries@.len() - i,
        {
            assert(s.take(i + 1).drop_last() =~= s.take(i as int));
            if !self.entries[i].hidden && !self.entries[i].starred {
                let key = chars_of(self.entries[i].updated_at.as_str());
                let ghost sorted = res@.map_values(|j: usize| s[j as int]);
                let mut p = res.len();
                assert(sorted.take(p as int) =~= sorted);
                assert(sorted.subrange(p as int, sorted.len() as int) =~= Seq::<DEntry>::empty());
                while p > 0
                    invariant
                        p <= res@.len(),
                        key@ == s[i as int].updated_at,
                        s == dentry_views(self.entries@),
                        forall|k: int| 0 <= k < res@.len() ==> res@[k] < self.entries@.len(),
                        sorted == res@.map_values(|j: usize| s[j as int]),
                        i < self.entries@.len(),
                        insert_newest_first(sorted, s[i as int]) == insert_newest_first(
                            sorted.take(p as int),
                            s[i as int],
                        ) + sorted.subrange(p as int, sorted.len() as int),
                    ensures
                        p <= res@.len(),
                        sorted == res@.map_values(|j: usize| s[j as int]),
                        insert_newest_first(sorted, s[i as int]) == insert_newest_first(
                            sorted.take(p as int),
                            s[i as int],
                        ) + sorted.subrange(p as int, sorted.len() as int),
                        p == 0 || !lex_lt(sorted[p - 1].updated_at, s[i as int].updated_at),
                    decreases p,
                {
                    let other = chars_of(self.entries[res[p - 1]].updated_at.as_str());
                    assert(sorted[p - 1] == s[res@[p - 1] as int]);
                    if !lex_less(&other, &key) {
                        break;
                    }
                    proof {
                        let t = sorted.take(p as int);
                        assert(t.last() == sorted[p - 1]);
                        assert(t.drop_last() =~= sorted.take(p - 1));
                        assert(sorted.subrange(p - 1, sorted.len() as int) =~= seq![sorted[p - 1]]
                            + sorted.subrange(p as int, sorted.len() as int));
                    }
                    p = p - 1;
                }
                proof {
                    let t = sorted.take(p as int);
                    if p > 0 {
                        assert(t.last() == sorted[p - 1]);
                    }
                    assert(insert_newest_first(t, s[i as int]) =~= t.push(s[i as int]));
                }
                let ghost before = res@;
                res.insert(p, i);
                assert(res@.map_values(|j: usize| s[j as int]) =~= sorted.take(p as int).push(s[i as int])
                    + sorted.subrange(p as int, sorted.len() as int));
                proof {
                    let prev = recent_entries(s.take(i as int));
                    let now = recent_entries(s.take(i + 1));
                    assert(s.take(i + 1).last() == s[i as int]);
                    assert(now =~= prev.push(s[i as int]));
                    assert(now.drop_last() =~= prev);
                    assert(sort_newest_first(now) == insert_newest_first(sort_newest_first(prev), s[i as int]));
                }
            } else {
                assert(recent_entries(s.take(i + 1)) =~= recent_entries(s.take(i as int)));
            }
            i = i + 1;
        }
        assert(s.take(s.len() as int) =~= s);
        res
    }

    /// Rows of the visible unstarred entries, most recently updated first.
    pub fn recent_rows(&self) -> (res: Vec<DashboardRow>)
        ensures
            row_ids(res@) == recent_ids(self.entries_view()),
    {
        let order = self.recent_order();
        let res = rows_at(&self.entries, &order);
        assert(row_ids(res@) =~= recent_ids(self.entries_view()));
        res
    }

    /// Starred rows followed by recent rows.
    pub fn visible_rows(&self) -> (res: Vec<DashboardRow>)
        ensures
            row_ids(res@) == visible_ids(self.entries_view()),
    {
        let mut rows = self.starred_rows();
        let mut recent = self.recent_rows();
        rows.append(&mut recent);
        assert(row_ids(rows@) =~= visible_ids(self.entries_view()));
        rows
    }

    fn entry_index(&self, id: &str) -> (res: Option<usize>)
        ensures
            match res {
                Some(i) => i < self.entries@.len() && first_entry_index(self.entries_view(), id@) == Some(i as int)
                    && self.entries_view()[i as int].id == id@,
                None => first_entry_index(self.entries_view(), id@) is None,
            },
    {
        let mut i: usize = 0;
        while i < self.entries.len()
            invariant
                i <= self.entries@.len(),
                forall|j: int| 0 <= j < i ==> self.entries_view()[j].id != id@,
            decreases self.entries@.len() - i,
        {
            if str_eq(self.entries[i].id.as_str(), id) {
                proof {
                    lemma_first_entry_index(self.entries_view(), id@, i as int);
                }
                return Some(i);
            }
            i = i + 1;
        }
        None
    }

    /// The first entry with identifier `id`.
    pub fn entry(&self, id: &str) -> (res: Option<&DashboardEntry>)
        ensures
            match first_entry_index(self.entries_view(), id@) {
                Some(i) => res matches Some(e) && e@ == self.entries_view()[i],
                None => res is None,
            },
    {
        match self.entry_index(id) {
            Some(i) => Some(&self.entries[i]),
            None => None,
        }
    }

    /// The identifier of the selected row, if the selection is on a row.
    pub fn selected_entry_id(&self) -> (res: Option<&str>)
        ensures
            match res {
                Some(id) => self.selected_index() < visible_ids(self.entries_view()).len() && id@
                    == visible_ids(self.entries_view())[self.selected_index() as int],
                None => self.selected_index() >= visible_ids(self.entries_view()).len(),
            },
    {
        let rows = self.visible_rows();
        if self.selected >= rows.len() {
            return None;
        }
        let row_id = rows[self.selected].entry_id.as_str();
        assert(row_id@ == row_ids(rows@)[self.selected as int]);
        proof {
            lemma_row_has_entry(self.entries_view(), self.selected as int);
        }
        match self.entry_index(row_id) {
            Some(i) => Some(self.entries[i].id.as_str()),
            None => None,
        }
    }

    /// `j`/Down and `k`/Up move the selection, `s` stars or unstars the selected entry and `r`
    /// removes it from view; other keys do nothing.
    pub fn handle_key(&mut self, key: KeyEvent)
        ensures
            final(self).entries_view() == key_entries_spec(old(self).entries_view(), old(self).selected_index(), key),
            final(self).selected_index() == key_selected_spec(old(self).entries_view(), old(self).selected_index(), key),
    {
        match key.code {
            KeyCode::Char(c) => {
                if c == 'j' {
                    self.move_selection(1);
                } else if c == 'k' {
                    self.move_selection(-1);
                } else if c == 's' {
                    self.toggle_selected_star();
                } else if c == 'r' {
                    self.hide_selected();
                }
            },
            KeyCode::Down => self.move_selection(1),
            KeyCode::Up => self.move_selection(-1),
            _ => {},
        }
    }

    fn move_selection(&mut self, delta: isize)
        requires
            delta == 1 || delta == -1,
        ensures
            final(self).entries_view() == old(self).entries_view(),
            final(self).selected_index() == if delta > 0 {
                move_down_spec(old(self).selected_index(), visible_ids(old(self).entries_view()).len())
            } else {
                move_up_spec(old(self).selected_index(), visible_ids(old(self).entries_view()).len())
            },
    {
        let len = self.visible_rows().len();
        if len == 0 {
            self.selected = 0;
            return;
        }
        if delta > 0 {
            if self.selected >= len - 1 {
                self.selected = len - 1;
            } else {
                self.selected = self.selected + 1;
            }
        } else {
            if self.selected > 0 {
                self.selected = self.selected - 1;
            }
        }
    }

    #[verifier::rlimit(40)]
    #[verifier::spinoff_prover]
    fn toggle_selected_star(&mut self)
        ensures
            final(self).entries_view() == selected_toggle_spec(old(self).entries_view(), old(self).selected_index()),
            final(self).selected_index() == after_change_selection(
                old(self).entries_view(),
                old(self).selected_index(),
                final(self).entries_view(),
            ),
    {
        let id = match self.selected_entry_id() {
            Some(id) => owned(id),
            None => {
                return;
            },
        };
        if let Some(i) = self.entry_index(id.as_str()) {
            let ghost before = self.entries_view();
            let mut entry = self.entries[i].clone_entry();
            entry.starred = !entry.starred;
            self.entries.set(i, entry);
            assert(self.entries_view() =~= toggle_star_spec(before, id@));
        }
        self.clamp_selection();
    }

    #[verifier::rlimit(40)]
    #[verifier::spinoff_prover]
    fn hide_selected(&mut self)
        ensures
            final(self).entries_view() == selected_hide_spec(old(self).entries_view(), old(self).selected_index()),
            final(self).selected_index() == after_change_selection(
                old(self).entries_view(),
                old(self).selected_index(),
                final(self).entries_view(),
            ),
    {
        let id = match self.selected_entry_id() {
            Some(id) => owned(id),
            None => {
                return;
            },
        };
        if let Some(i) = self.entry_index(id.as_str()) {
            let ghost before = self.entries_view();
            let mut entry = self.entries[i].clone_entry();
            entry.hidden = true;
            entry.starred = false;
            self.entries.set(i, entry);
            assert(self.entries_view() =~= hide_spec(before, id@));
        }
        self.clamp_selection();
    }

    fn clamp_selection(&mut self)
        ensures
            final(self).entries_view() == old(self).entries_view(),
            final(self).selected_index() == clamp_selection_spec(
                old(self).selected_index(),
                visible_ids(old(self).entries_view()).len(),
            ),
    {
        let len = self.visible_rows().len();
        if len == 0 {
            self.selected = 0;
        } else if self.selected >= len {
            self.selected = len - 1;
        }
    }
}

impl DashboardEntry {
    /// A field-by-field copy.
    pub fn clone_entry(&self) -> (res: Self)
        ensures
            res@ == self@,
    {
        DashboardEntry {
            id: self.id.clone(),
            kind: self.kind,
            title: self.title.clone(),
            target: self.target.clone(),
            progress_percent: self.progress_percent,
            updated_at: self.updated_at.clone(),
            starred: self.starred,
            hidden: self.hidden,
        }
    }
}

/// Selection after `j`/Down.
pub open spec fn move_down_spec(selected: nat, len: nat) -> nat {
    if len == 0 {
        0
    } else if selected + 1 >= len {
        (len - 1) as nat
    } else {
        selected + 1
    }
}

/// Selection after `k`/Up.
pub open spec fn move_up_spec(selected: nat, len: nat) -> nat {
    if len == 0 {
        0
    } else if selected == 0 {
        0
    } else {
        (selected - 1) as nat
    }
}

/// Entries after `s` on the selected row.
pub open spec fn selected_toggle_spec(s: Seq<DEntry>, selected: nat) -> Seq<DEntry> {
    if selected < visible_ids(s).len() {
        toggle_star_spec(s, visible_ids(s)[selected as int])
    } else {
        s
    }
}

/// Entries after `r` on the selected row.
pub open spec fn selected_hide_spec(s: Seq<DEntry>, selected: nat) -> Seq<DEntry> {
    if selected < visible_ids(s).len() {
        hide_spec(s, visible_ids(s)[selected as int])
    } else {
        s
    }
}

/// Selection after the selected entry changed: kept within the new rows when there was a
/// selected row, unchanged otherwise.
pub open spec fn after_change_selection(before: Seq<DEntry>, selected: nat, after: Seq<DEntry>) -> nat {
    if selected < visible_ids(before).len() {
        clamp_selection_spec(selected, visible_ids(after).len())
    } else {
        selected
    }
}

/// The entries after a key on the dashboard list: `s` stars or unstars the selected entry,
/// `r` hides it.
pub open spec fn key_entries_spec(entries: Seq<DEntry>, selected: nat, key: KeyEvent) -> Seq<DEntry> {
    match key.code {
        KeyCode::Char(c) => if c == 's' {
            selected_toggle_spec(entries, selected)
        } else if c == 'r' {
            selected_hide_spec(entries, selected)
        } else {
            entries
        },
        _ => entries,
    }
}

/// The selected row after a key on the dashboard list: `j`/Down and `k`/Up move it, and it
/// stays within the rows after `s` and `r`.
pub open spec fn key_selected_spec(entries: Seq<DEntry>, selected: nat, key: KeyEvent) -> nat {
    let n = visible_ids(entries).len();
    match key.code {
        KeyCode::Char(c) => if c == 'j' {
            move_down_spec(selected, n)
        } else if c == 'k' {
            move_up_spec(selected, n)
        } else if c == 's' || c == 'r' {
            after_change_selection(entries, selected, key_entries_spec(entries, selected, key))
        } else {
            selected
        },
        KeyCode::Down => move_down_spec(selected, n),
        KeyCode::Up => move_up_spec(selected, n),
        _ => selected,
    }
}

/// `http://` or `https://` at the start.
pub open spec fn is_http_url(s: Seq<char>) -> bool {
    crate::text::has_prefix(s, seq!['h', 't', 't', 'p', ':', '/', '/'])
        || crate::text::has_prefix(s, seq!['h', 't', 't', 'p', 's', ':', '/', '/'])
}

/// Whether `s` starts with `http://` or `https://`.
pub fn starts_with_http(s: &str) -> (res: bool)
    ensures
        res == is_http_url(s@),
{
    let a = "http://";
    let b = "https://";
    proof {
        reveal_strlit("http://");
        reveal_strlit("https://");
    }
    assert(a@ =~= seq!['h', 't', 't', 'p', ':', '/', '/']);
    assert(b@ =~= seq!['h', 't', 't', 'p', 's', ':', '/', '/']);
    crate::text::starts_with(s, a) || crate::text::starts_with(s, b)
}

/// Joins `rest` to `base` as a path: `rest` itself when absolute, otherwise with one `/` between.
pub open spec fn join_path_spec(base: Seq<char>, rest: Seq<char>) -> Seq<char> {
    if rest.len() > 0 && rest[0] == '/' {
        rest
    } else if base.len() == 0 || base.last() == '/' {
        base + rest
    } else {
        base + seq!['/'] + rest
    }
}

/// `Path::join` on Unix: `rest` replaces `base` when absolute, else one `/` separates them.
pub fn join_path(base: &str, rest: &str) -> (res: String)
    ensures
        res@ == join_path_spec(base@, rest@),
{
    let b = chars_of(base);
    let r = chars_of(rest);
    if r.len() > 0 && r[0] == '/' {
        return owned(rest);
    }
    let mut res = owned(base);
    if !(b.len() == 0 || b[b.len() - 1] == '/') {
        crate::text::push_char(&mut res, '/');
    }
    crate::text::push_str(&mut res, rest);
    res
}

/// `~` and `~/…` expanded against `home` when it is known.
pub open spec fn expand_tilde_spec(input: Seq<char>, home: Option<Seq<char>>) -> Seq<char> {
    if input == seq!['~'] {
        match home {
            Some(h) => h,
            None => input,
        }
    } else if crate::text::has_prefix(input, seq!['~', '/']) && home is Some {
        join_path_spec(home->0, input.subrange(2, input.len() as int))
    } else {
        input
    }
}

/// The user's home directory, as the `dirs` crate finds it (from the environment). Nothing is
/// stated of the result: it depends on the environment.
#[verifier::external_body]
pub(crate) fn home_dir() -> (res: Option<String>) {
    dirs::home_dir().map(|p| p.to_string_lossy().into_owned())
}

/// Expands a leading `~` against the given home directory.
pub fn expand_tilde_with(input: &str, home: Option<&str>) -> (res: String)
    ensures
        res@ == expand_tilde_spec(input@, match home { Some(h) => Some(h@), None => None }),
{
    let v = chars_of(input);
    if v.len() == 1 && v[0] == '~' {
        assert(input@ =~= seq!['~']);
        return match home {
            Some(h) => owned(h),
            None => owned(input),
        };
    }
    assert(input@ != seq!['~']);
    let is_home_rel = v.len() >= 2 && v[0] == '~' && v[1] == '/';
    assert(is_home_rel == crate::text::has_prefix(input@, seq!['~', '/'])) by {
        if v@.len() >= 2 {
            if is_home_rel {
                assert(v@.subrange(0, 2) =~= seq!['~', '/']);
            } else {
                assert(v@.subrange(0, 2)[0] == v@[0]);
                assert(v@.subrange(0, 2)[1] == v@[1]);
            }
        }
    }
    if is_home_rel {
        if let Some(h) = home {
            let rest = crate::text::string_from_range(&v, 2, v.len());
            return join_path(h, rest.as_str());
        }
    }
    owned(input)
}

/// A leading `~` expanded against the user's home directory (as the environment gives it).
pub fn expand_tilde(input: &str) -> (res: String)
    ensures
        exists|home: Option<Seq<char>>| res@ == expand_tilde_spec(input@, home),
{
    let home = home_dir();
    let h = match &home {
        Some(h) => Some(h.as_str()),
        None => None,
    };
    let res = expand_tilde_with(input, h);
    assert(res@ == expand_tilde_spec(input@, match h { Some(x) => Some(x@), None => None }));
    res
}

/// What the open prompt's input names: a URL when it starts with `http://` or `https://`,
/// otherwise a local path with a leading `~` expanded against the home directory.
pub fn parse_open_prompt(input: &str) -> (res: PromptTarget)
    ensures
        is_http_url(input@) ==> (res matches PromptTarget::Url(u) && u@ == input@),
        !is_http_url(input@) ==> (res matches PromptTarget::LocalPath(p) && exists|home: Option<Seq<char>>|
            p@ == expand_tilde_spec(input@, home)),
{
    if starts_with_http(input) {
        PromptTarget::Url(owned(input))
    } else {
        let home = home_dir();
        let h = match &home {
            Some(h) => Some(h.as_str()),
            None => None,
        };
        let p = expand_tilde_with(input, h);
        PromptTarget::LocalPath(p)
    }
}

/// A recoverable prompt error.
pub fn prompt_error(kind: PromptErrorKind, message: String) -> (res: PromptError)
    ensures
        res.kind == kind,
        res.recoverable,
        res.message@ == message@,
{
    PromptError { kind, recoverable: true, message }
}

} // verus!
