//! Completions for the open prompt: which directory is listed, which of its entries match
//! the typed prefix, and in what order they are offered.
use vstd::prelude::*;
use crate::text::{chars_of, has_prefix, lex_less, lex_lt, owned, push_char, starts_with};
use crate::dashboard::{PathSuggestion, PromptError, PromptErrorKind, prompt_error};

verus! {

/// At most this many suggestions are offered.
pub const MAX_SUGGESTIONS: usize = 50;

// ───────────────────────────── which directory ─────────────────────────────

/// `Path::parent` of a path, as std computes it.
pub uninterp spec fn std_path_parent(path: Seq<char>) -> Option<Seq<char>>;

/// `std::path::Path::parent`, the path without its final component (`None` for a root or an
/// empty path). Its result depends on the path alone, and is named.
#[verifier::external_body]
fn path_parent(path: &str) -> (res: Option<String>)
    ensures
        match res {
            Some(p) => std_path_parent(path@) == Some(p@),
            None => std_path_parent(path@) is None,
        },
{
    match std::path::Path::new(path).parent() {
        Some(p) => Some(p.to_string_lossy().into_owned()),
        None => None,
    }
}

/// The directory to list and the name prefix to match for a prompt path (with `~` already
/// expanded): a path ending in `/` lists that directory with no prefix; otherwise its parent
/// (`.` without one) is listed and its file name (empty without one) is the prefix.
pub open spec fn dir_and_prefix_spec(path: Seq<char>) -> (Seq<char>, Seq<char>) {
    if path.len() > 0 && path.last() == '/' {
        (path, Seq::empty())
    } else {
        (
            match std_path_parent(path) {
                Some(p) => p,
                None => seq!['.'],
            },
            match crate::cli::file_name_spec(path) {
                Some(n) => n,
                None => Seq::empty(),
            },
        )
    }
}

/// The directory to list and the prefix to match for a prompt path.
pub fn suggestion_dir_and_prefix(path: &str) -> (res: (String, String))
    ensures
        (res.0@, res.1@) == dir_and_prefix_spec(path@),
{
    let v = chars_of(path);
    if v.len() > 0 && v[v.len() - 1] == '/' {
        return (owned(path), String::new());
    }
    let dir = match path_parent(path) {
        Some(p) => p,
        None => {
            let d = ".";
            proof {
                reveal_strlit(".");
            }
            assert(d@ =~= seq!['.']);
            owned(d)
        },
    };
    let prefix = match crate::cli::file_name(path) {
        Some(n) => n,
        None => String::new(),
    };
    (dir, prefix)
}

/// What the file system says of the directory to list.
#[derive(Debug, Clone, PartialEq, Eq)]
pub enum ListingStatus {
    Missing,
    NotADirectory,
    Unreadable(String),
    Listed(Vec<DirEntryInfo>),
}

/// An entry of the listed directory.
#[derive(Debug, Clone, PartialEq, Eq)]
pub struct DirEntryInfo {
    pub name: String,
    pub path: String,
    pub is_dir: bool,
}

// ───────────────────────────── which entries, in what order ─────────────────────────────

/// The abstract value of a suggestion.
pub struct SuggView {
    pub path: Seq<char>,
    pub display: Seq<char>,
    pub is_dir: bool,
}

/// The view of a suggestion.
pub open spec fn sugg_view(s: PathSuggestion) -> SuggView {
    SuggView { path: s.path@, display: s.display@, is_dir: s.is_dir }
}

/// Views of suggestions.
pub open spec fn sugg_views(s: Seq<PathSuggestion>) -> Seq<SuggView> {
    s.map_values(|x: PathSuggestion| sugg_view(x))
}

/// The suggestion an entry gives: directories are shown with a trailing `/`.
pub open spec fn entry_suggestion(e: DirEntryInfo) -> SuggView {
    SuggView {
        path: e.path@,
        display: if e.is_dir {
            e.name@.push('/')
        } else {
            e.name@
        },
        is_dir: e.is_dir,
    }
}

/// The suggestions of the entries whose names start with `prefix`, in listing order.
pub open spec fn candidates(entries: Seq<DirEntryInfo>, prefix: Seq<char>) -> Seq<SuggView>
    decreases entries.len(),
{
    if entries.len() == 0 {
        Seq::empty()
    } else if has_prefix(entries.last().name@, prefix) {
        candidates(entries.drop_last(), prefix).push(entry_suggestion(entries.last()))
    } else {
        candidates(entries.drop_last(), prefix)
    }
}

/// The order of suggestions: directories first, then by displayed name.
pub open spec fn sugg_before(a: SuggView, b: SuggView) -> bool {
    (a.is_dir && !b.is_dir) || (a.is_dir == b.is_dir && lex_lt(a.display, b.display))
}

/// Inserts `e` into `sorted` after every suggestion that does not come after it.
pub open spec fn insert_suggestion(sorted: Seq<SuggView>, e: SuggView) -> Seq<SuggView>
    decreases sorted.len(),
{
    if sorted.len() == 0 {
        seq![e]
    } else if !sugg_before(e, sorted.last()) {
        sorted.push(e)
    } else {
        insert_suggestion(sorted.drop_last(), e).push(sorted.last())
    }
}

/// Stable sort of suggestions: directories first, then by displayed name.
pub open spec fn sort_suggestions(s: Seq<SuggView>) -> Seq<SuggView>
    decreases s.len(),
{
    if s.len() == 0 {
        Seq::empty()
    } else {
        insert_suggestion(sort_suggestions(s.drop_last()), s.last())
    }
}

/// The suggestions offered for a directory listing and a prefix: the matching entries, sorted,
/// at most `MAX_SUGGESTIONS` of them.
pub open spec fn offered(entries: Seq<DirEntryInfo>, prefix: Seq<char>) -> Seq<SuggView> {
    let s = sort_suggestions(candidates(entries, prefix));
    if s.len() <= MAX_SUGGESTIONS {
        s
    } else {
        s.take(MAX_SUGGESTIONS as int)
    }
}

/// Suggestions in offering order: none comes before one offered ahead of it.
pub open spec fn in_offer_order(s: Seq<SuggView>) -> bool {
    forall|i: int, j: int| 0 <= i < j < s.len() ==> !sugg_before(#[trigger] s[j], #[trigger] s[i])
}

proof fn lemma_not_before_transitive(a: SuggView, b: SuggView, c: SuggView)
    requires
        !sugg_before(a, b),
        !sugg_before(b, c),
    ensures
        !sugg_before(a, c),
{
    if a.is_dir == b.is_dir && b.is_dir == c.is_dir {
        crate::text::lemma_lex_not_before_transitive(a.display, b.display, c.display);
    }
}

proof fn lemma_insert_in_order(sorted: Seq<SuggView>, e: SuggView)
    requires
        in_offer_order(sorted),
    ensures
        in_offer_order(insert_suggestion(sorted, e)),
        insert_suggestion(sorted, e).to_multiset() =~= sorted.to_multiset().insert(e),
    decreases sorted.len(),
{
    broadcast use vstd::seq_lib::group_to_multiset_ensures;
    broadcast use vstd::multiset::group_multiset_axioms;

    let res = insert_suggestion(sorted, e);
    if sorted.len() == 0 {
        assert(res =~= Seq::<SuggView>::empty().push(e));
        assert(sorted =~= Seq::<SuggView>::empty());
    } else if !sugg_before(e, sorted.last()) {
        assert forall|i: int, j: int| 0 <= i < j < res.len() implies !sugg_before(#[trigger] res[j], #[trigger] res[i]) by {
            if j == sorted.len() && i < sorted.len() - 1 {
                lemma_not_before_transitive(e, sorted.last(), sorted[i]);
            }
        }
    } else {
        let d = sorted.drop_last();
        let last = sorted.last();
        assert(in_offer_order(d)) by {
            assert forall|i: int, j: int| 0 <= i < j < d.len() implies !sugg_before(#[trigger] d[j], #[trigger] d[i]) by {
                assert(d[i] == sorted[i] && d[j] == sorted[j]);
            }
        }
        lemma_insert_in_order(d, e);
        let r = insert_suggestion(d, e);
        assert(res == r.push(last));
        assert(r.to_multiset() =~= d.to_multiset().insert(e));
        crate::text::lemma_lex_asymmetric(e.display, last.display);
        assert forall|i: int, j: int| 0 <= i < j < res.len() implies !sugg_before(#[trigger] res[j], #[trigger] res[i]) by {
            if j == r.len() {
                assert(res[i] == r[i]);
                assert(r.to_multiset().count(r[i]) > 0);
                if r[i] != e {
                    assert(d.to_multiset().count(r[i]) > 0);
                    assert(d.contains(r[i]));
                    let k = choose|k: int| 0 <= k < d.len() && d[k] == r[i];
                    assert(sorted[k] == r[i]);
                    assert(sorted[sorted.len() - 1] == last);
                }
            } else {
                assert(res[i] == r[i] && res[j] == r[j]);
            }
        }
        assert(sorted =~= d.push(last));
        assert(res.to_multiset() =~= r.to_multiset().insert(last));
        assert(sorted.to_multiset() =~= d.to_multiset().insert(last));
    }
}

proof fn lemma_sort_in_order(s: Seq<SuggView>)
    ensures
        in_offer_order(sort_suggestions(s)),
        sort_suggestions(s).to_multiset() =~= s.to_multiset(),
    decreases s.len(),
{
    broadcast use vstd::seq_lib::group_to_multiset_ensures;

    if s.len() > 0 {
        lemma_sort_in_order(s.drop_last());
        lemma_insert_in_order(sort_suggestions(s.drop_last()), s.last());
        assert(s =~= s.drop_last().push(s.last()));
    }
}

/// The suggestions offered are the matching entries, directories first, each group by
/// displayed name; all of them when there are at most `MAX_SUGGESTIONS`, otherwise the first
/// `MAX_SUGGESTIONS` in that order.
pub proof fn lemma_offered_sorted_and_limited(entries: Seq<DirEntryInfo>, prefix: Seq<char>)
    ensures
        in_offer_order(offered(entries, prefix)),
        sort_suggestions(candidates(entries, prefix)).to_multiset() =~= candidates(entries, prefix).to_multiset(),
        offered(entries, prefix) =~= sort_suggestions(candidates(entries, prefix)).take(
            if candidates(entries, prefix).len() <= MAX_SUGGESTIONS { candidates(entries, prefix).len() as int } else { MAX_SUGGESTIONS as int },
        ),
{
    broadcast use vstd::seq_lib::group_to_multiset_ensures;

    let c = candidates(entries, prefix);
    lemma_sort_in_order(c);
    let s = sort_suggestions(c);
    assert(s.len() == c.len()) by {
        assert(s.to_multiset().len() == c.to_multiset().len());
    }
    let o = offered(entries, prefix);
    assert forall|i: int, j: int| 0 <= i < j < o.len() implies !sugg_before(#[trigger] o[j], #[trigger] o[i]) by {
        assert(o[i] == s[i] && o[j] == s[j]);
    }
}

fn suggestion_for(e: &DirEntryInfo) -> (res: PathSuggestion)
    ensures
        sugg_view(res) == entry_suggestion(*e),
{
    let mut display = e.name.clone();
    if e.is_dir {
        push_char(&mut display, '/');
    }
    PathSuggestion { path: e.path.clone(), display, is_dir: e.is_dir }
}

/// Whether `a` is offered before `b`.
fn before(a: &PathSuggestion, b: &PathSuggestion) -> (res: bool)
    ensures
        res == sugg_before(sugg_view(*a), sugg_view(*b)),
{
    if a.is_dir != b.is_dir {
        return a.is_dir;
    }
    let x = chars_of(a.display.as_str());
    let y = chars_of(b.display.as_str());
    lex_less(&x, &y)
}

/// Inserts `s` into the sorted suggestions `sorted`.
fn insert_sorted(sorted: &mut Vec<PathSuggestion>, s: PathSuggestion)
    ensures
        sugg_views(final(sorted)@) == insert_suggestion(sugg_views(old(sorted)@), sugg_view(s)),
{
    let ghost v = sugg_views(sorted@);
    let ghost e = sugg_view(s);
    let mut p = sorted.len();
    assert(v.take(p as int) =~= v);
    assert(v.subrange(p as int, v.len() as int) =~= Seq::<SuggView>::empty());
    while p > 0
        invariant
            p <= sorted@.len(),
            v == sugg_views(sorted@),
            e == sugg_view(s),
            insert_suggestion(v, e) == insert_suggestion(v.take(p as int), e) + v.subrange(
                p as int,
                v.len() as int,
            ),
        ensures
            p <= sorted@.len(),
            v == sugg_views(sorted@),
            insert_suggestion(v, e) == insert_suggestion(v.take(p as int), e) + v.subrange(
                p as int,
                v.len() as int,
            ),
            p == 0 || !sugg_before(e, v[p - 1]),
        decreases p,
    {
        if !before(&s, &sorted[p - 1]) {
            break;
        }
        proof {
            let t = v.take(p as int);
            assert(t.last() == v[p - 1]);
            assert(t.drop_last() =~= v.take(p - 1));
            assert(v.subrange(p - 1, v.len() as int) =~= seq![v[p - 1]] + v.subrange(
                p as int,
                v.len() as int,
            ));
        }
        p = p - 1;
    }
    proof {
        let t = v.take(p as int);
        if p > 0 {
            assert(t.last() == v[p - 1]);
        }
        assert(insert_suggestion(t, e) =~= t.push(e));
    }
    sorted.insert(p, s);
    assert(sugg_views(sorted@) =~= v.take(p as int).push(e) + v.subrange(p as int, v.len() as int));
}

/// The suggestions for a directory listing and a prefix: the entries whose names start with
/// the prefix, directories first (shown with a trailing `/`), each group by displayed name, at
/// most `MAX_SUGGESTIONS` of them.
pub fn suggestions_from_entries(entries: &Vec<DirEntryInfo>, prefix: &str) -> (res: Vec<PathSuggestion>)
    ensures
        sugg_views(res@) == offered(entries@, prefix@),
{
    let mut sorted: Vec<PathSuggestion> = Vec::new();
    let mut i: usize = 0;
    while i < entries.len()
        invariant
            i <= entries@.len(),
            sugg_views(sorted@) == sort_suggestions(candidates(entries@.take(i as int), prefix@)),
        decreases entries@.len() - i,
    {
        let ghost prev = candidates(entries@.take(i as int), prefix@);
        assert(entries@.take(i + 1).drop_last() =~= entries@.take(i as int));
        assert(entries@.take(i + 1).last() == entries@[i as int]);
        let e = &entries[i];
        if starts_with(e.name.as_str(), prefix) {
            let s = suggestion_for(e);
            insert_sorted(&mut sorted, s);
            proof {
                let now = candidates(entries@.take(i + 1), prefix@);
                assert(now =~= prev.push(entry_suggestion(entries@[i as int])));
                assert(now.drop_last() =~= prev);
            }
        }
        i = i + 1;
    }
    assert(entries@.take(entries@.len() as int) =~= entries@);
    if sorted.len() > MAX_SUGGESTIONS {
        sorted.truncate(MAX_SUGGESTIONS);
        assert(sugg_views(sorted@) =~= offered(entries@, prefix@));
    }
    sorted
}

/// The message for a directory to list that does not exist.
pub open spec fn missing_dir_message(dir: Seq<char>) -> Seq<char> {
    seq!['路', '径', '不', '存', '在', ':', ' '] + dir
}

/// The message for a path to list that is not a directory.
pub open spec fn not_dir_message(dir: Seq<char>) -> Seq<char> {
    seq!['不', '是', '目', '录', ':', ' '] + dir
}

/// The suggestions for the listed directory `dir`, or the recoverable error that the file
/// system's answer gives: a missing directory, a path that is not one, or a listing error.
pub fn suggestions_for_listing(dir: &str, prefix: &str, status: &ListingStatus) -> (res: Result<
    Vec<PathSuggestion>,
    PromptError,
>)
    ensures
        match *status {
            ListingStatus::Missing => res matches Err(e) && e.kind == PromptErrorKind::MissingPath
                && e.recoverable && e.message@ == missing_dir_message(dir@),
            ListingStatus::NotADirectory => res matches Err(e) && e.kind == PromptErrorKind::Io
                && e.recoverable && e.message@ == not_dir_message(dir@),
            ListingStatus::Unreadable(msg) => res matches Err(e) && e.kind == PromptErrorKind::Io
                && e.recoverable && e.message@ == msg@,
            ListingStatus::Listed(entries) => res matches Ok(s) && sugg_views(s@) == offered(
                entries@,
                prefix@,
            ),
        },
{
    match status {
        ListingStatus::Missing => {
            let p = "路径不存在: ";
            proof {
                reveal_strlit("路径不存在: ");
            }
            let mut m = owned(p);
            crate::text::push_str(&mut m, dir);
            assert(m@ =~= missing_dir_message(dir@));
            Err(prompt_error(PromptErrorKind::MissingPath, m))
        },
        ListingStatus::NotADirectory => {
            let p = "不是目录: ";
            proof {
                reveal_strlit("不是目录: ");
            }
            let mut m = owned(p);
            crate::text::push_str(&mut m, dir);
            assert(m@ =~= not_dir_message(dir@));
            Err(prompt_error(PromptErrorKind::Io, m))
        },
        ListingStatus::Unreadable(msg) => Err(prompt_error(PromptErrorKind::Io, msg.clone())),
        ListingStatus::Listed(entries) => Ok(suggestions_from_entries(entries, prefix)),
    }
}

/// Whether the prompt asks for completions at all: not when blank or a web URL.
pub fn wants_suggestions(prompt: &str) -> (res: bool)
    ensures
        res == !(crate::text::trim(prompt@).len() == 0 || crate::dashboard::is_http_url(prompt@)),
{
    !(crate::text::is_blank(prompt) || crate::dashboard::starts_with_http(prompt))
}

} // verus!
