//! Command line and open requests: what to open, how to restore the reading position, and
//! how history entries and prompt input become open requests.
use vstd::prelude::*;
use crate::text::{chars_of, owned, push_str, str_eq, string_from_range, is_ws, has_prefix};
use crate::history::{HistoryEntry, ReadingPosition, EntryView};
use crate::dashboard::{DashboardEntry, DEntry, PromptTarget, is_http_url};

verus! {

/// What the program was asked to do.
#[derive(Debug, Clone, PartialEq, Eq)]
pub enum CommandIntent {
    Dashboard,
    Open(OpenRequest),
}

/// A request to open a reader.
#[derive(Debug, Clone, PartialEq, Eq)]
pub struct OpenRequest {
    pub target: ReaderTarget,
    pub refresh: bool,
    pub interactive: bool,
    pub initial_position_override: Option<HistoryPosition>,
}

/// Which reader, on what.
#[derive(Debug, Clone, PartialEq, Eq)]
pub enum ReaderTarget {
    Web(String),
    Epub(String),
    Markdown(String),
}

/// A position to start reading at.
#[derive(Debug, Clone, Copy, PartialEq, Eq, Structural)]
pub enum HistoryPosition {
    WebScroll { scroll: usize },
    EpubLocation { chapter: usize, scroll: usize },
    MarkdownLine { line: usize },
}

/// Progress that a reader saved in its own files.
#[derive(Debug, Clone, PartialEq, Eq)]
pub enum ReaderSpecificProgress {
    Web(crate::web::WebProgress),
    Epub(crate::epub::ReadingProgress),
}

/// Everything known about where to restore a reader.
#[derive(Debug, Clone, PartialEq, Eq)]
pub struct ReaderRestoreRequest {
    pub target: ReaderTarget,
    pub explicit_markdown_line: Option<usize>,
    pub unified_history_position: Option<HistoryPosition>,
    pub reader_specific_progress: Option<ReaderSpecificProgress>,
}

/// Where a restored position came from.
#[derive(Debug, Clone, Copy, PartialEq, Eq, Structural)]
pub enum RestoreSource {
    ExplicitCliLine,
    ReaderSpecificProgress,
    UnifiedHistory,
    DefaultStart,
}

/// A restored reading position.
#[derive(Debug, Clone, Copy, PartialEq, Eq, Structural)]
pub enum RestorePosition {
    Scroll { scroll: usize, source: RestoreSource },
    EpubLocation { chapter: usize, scroll: usize, source: RestoreSource },
    MarkdownLine { line: usize, source: RestoreSource },
}

/// Abstract value of a reader target.
pub enum TargetView {
    Web(Seq<char>),
    Epub(Seq<char>),
    Markdown(Seq<char>),
}

impl View for ReaderTarget {
    type V = TargetView;

    open spec fn view(&self) -> TargetView {
        match self {
            ReaderTarget::Web(u) => TargetView::Web(u@),
            ReaderTarget::Epub(p) => TargetView::Epub(p@),
            ReaderTarget::Markdown(p) => TargetView::Markdown(p@),
        }
    }
}

// ───────────────────────────── numbers on the command line ─────────────────────────────

/// `s` consists of ASCII digits only.
pub open spec fn all_digits(s: Seq<char>) -> bool {
    forall|i: int| 0 <= i < s.len() ==> '0' <= #[trigger] s[i] && s[i] <= '9'
}

/// Value of an ASCII digit.
pub open spec fn digit_value(c: char) -> nat {
    ((c as u32) - ('0' as u32)) as nat
}

/// Decimal value of a digit string.
pub open spec fn digits_value(s: Seq<char>) -> nat
    decreases s.len(),
{
    if s.len() == 0 {
        0
    } else {
        digits_value(s.drop_last()) * 10 + digit_value(s.last())
    }
}

/// `usize::from_str`: optional `+`, then at least one ASCII digit, with no overflow.
pub open spec fn parse_usize_spec(s: Seq<char>) -> Option<usize> {
    let d = if s.len() > 0 && s[0] == '+' { s.drop_first() } else { s };
    if d.len() > 0 && all_digits(d) && digits_value(d) <= usize::MAX {
        Some(digits_value(d) as usize)
    } else {
        None
    }
}

proof fn lemma_digits_value_monotone(s: Seq<char>, i: int)
    requires
        0 <= i <= s.len(),
        all_digits(s),
    ensures
        digits_value(s.take(i)) <= digits_value(s),
    decreases s.len() - i,
{
    if i < s.len() {
        assert(s.take(s.len() as int) =~= s);
        lemma_digits_value_monotone(s, i + 1);
        assert(s.take(i + 1).drop_last() =~= s.take(i));
        assert(digits_value(s.take(i + 1)) == digits_value(s.take(i)) * 10 + digit_value(s[i]));
    } else {
        assert(s.take(i) =~= s);
    }
}

/// Parses a line number (`str::parse::<usize>`).
pub fn parse_usize(s: &str) -> (res: Option<usize>)
    ensures
        res == parse_usize_spec(s@),
{
    let v = chars_of(s);
    let start: usize = if v.len() > 0 && v[0] == '+' { 1 } else { 0 };
    let ghost d = if s@.len() > 0 && s@[0] == '+' { s@.drop_first() } else { s@ };
    assert(d =~= v@.subrange(start as int, v@.len() as int));
    if start >= v.len() {
        return None;
    }
    let mut value: u128 = 0;
    let mut i = start;
    while i < v.len()
        invariant
            start <= i <= v@.len(),
            d == (if s@.len() > 0 && s@[0] == '+' { s@.drop_first() } else { s@ }),
            d =~= v@.subrange(start as int, v@.len() as int),
            all_digits(d.take(i - start)),
            value == digits_value(d.take(i - start)),
            value <= usize::MAX,
        decreases v@.len() - i,
    {
        let c = v[i];
        if !('0' <= c && c <= '9') {
            assert(d[i - start] == c);
            assert(!all_digits(d));
            return None;
        }
        let ghost t = d.take(i - start + 1);
        assert(t.drop_last() =~= d.take(i - start));
        assert(t.last() == c);
        value = value * 10 + ((c as u32) - ('0' as u32)) as u128;
        assert(value == digits_value(t));
        if value > usize::MAX as u128 {
            proof {
                assert(all_digits(t));
                if all_digits(d) {
                    lemma_digits_value_monotone(d, i - start + 1);
                }
            }
            return None;
        }
        i = i + 1;
    }
    assert(d.take(d.len() as int) =~= d);
    Some(value as usize)
}

// ───────────────────────────── paths ─────────────────────────────

/// Start of the path segment that ends at `end` (just after the previous `/`, or 0).
pub open spec fn segment_start(s: Seq<char>, end: nat) -> nat
    decreases end,
{
    if end == 0 || end > s.len() {
        0
    } else if s[end - 1] == '/' {
        end
    } else {
        segment_start(s, (end - 1) as nat)
    }
}

/// Bounds of the final normal component of the path `s[..end]`, as `Path::file_name` finds it on
/// Unix: trailing separators and `.` components are skipped, and there is none when the path
/// ends in `..`, in the root, or in a leading `.`.
pub open spec fn file_name_bounds(s: Seq<char>, end: nat) -> Option<(nat, nat)>
    decreases end,
{
    if end == 0 || end > s.len() {
        None
    } else if s[end - 1] == '/' {
        file_name_bounds(s, (end - 1) as nat)
    } else {
        let start = segment_start(s, end);
        if start >= end {
            None
        } else if end - start == 1 && s[start as int] == '.' {
            if start == 0 {
                None
            } else {
                file_name_bounds(s, start)
            }
        } else if end - start == 2 && s[start as int] == '.' && s[start + 1int] == '.' {
            None
        } else {
            Some((start, end))
        }
    }
}

/// The file name of a path.
pub open spec fn file_name_spec(s: Seq<char>) -> Option<Seq<char>> {
    match file_name_bounds(s, s.len()) {
        Some((a, b)) => Some(s.subrange(a as int, b as int)),
        None => None,
    }
}

proof fn lemma_segment_start(s: Seq<char>, end: nat)
    requires
        end <= s.len(),
    ensures
        segment_start(s, end) <= end,
        forall|k: int| segment_start(s, end) <= k < end ==> s[k] != '/',
        segment_start(s, end) > 0 ==> s[segment_start(s, end) - 1] == '/',
    decreases end,
{
    if end > 0 && s[end - 1] != '/' {
        lemma_segment_start(s, (end - 1) as nat);
    }
}

fn segment_start_exec(v: &Vec<char>, end: usize) -> (res: usize)
    requires
        end <= v@.len(),
    ensures
        res == segment_start(v@, end as nat),
{
    let mut k = end;
    while k > 0 && v[k - 1] != '/'
        invariant
            k <= end <= v@.len(),
            segment_start(v@, k as nat) == segment_start(v@, end as nat),
        decreases k,
    {
        k = k - 1;
    }
    k
}

fn file_name_bounds_exec(v: &Vec<char>, end: usize) -> (res: Option<(usize, usize)>)
    requires
        end <= v@.len(),
    ensures
        match res {
            Some((a, b)) => file_name_bounds(v@, end as nat) == Some((a as nat, b as nat)) && a <= b <= v@.len(),
            None => file_name_bounds(v@, end as nat) is None,
        },
    decreases end,
{
    if end == 0 {
        return None;
    }
    if v[end - 1] == '/' {
        return file_name_bounds_exec(v, end - 1);
    }
    let start = segment_start_exec(v, end);
    proof {
        lemma_segment_start(v@, end as nat);
    }
    if start >= end {
        return None;
    }
    if end - start == 1 && v[start] == '.' {
        if start == 0 {
            return None;
        }
        return file_name_bounds_exec(v, start);
    }
    if end - start == 2 && v[start] == '.' && v[start + 1] == '.' {
        return None;
    }
    Some((start, end))
}

/// `Path::file_name` on Unix, as a string.
pub fn file_name(path: &str) -> (res: Option<String>)
    ensures
        match res {
            Some(n) => file_name_spec(path@) == Some(n@),
            None => file_name_spec(path@) is None,
        },
{
    let v = chars_of(path);
    match file_name_bounds_exec(&v, v.len()) {
        Some((a, b)) => Some(string_from_range(&v, a, b)),
        None => None,
    }
}

/// The extension of a file name: the part after the last `.`, when that `.` is not its first
/// character (`Path::extension`).
pub open spec fn extension_of(name: Seq<char>) -> Option<Seq<char>> {
    if exists|i: int| 0 < i < name.len() && name[i] == '.' {
        let i = choose|i: int| 0 < i < name.len() && name[i] == '.' && forall|j: int| i < j < name.len() ==> name[j] != '.';
        Some(name.subrange(i + 1, name.len() as int))
    } else {
        None
    }
}

/// The character is the given lowercase letter or its uppercase form.
pub open spec fn ascii_ci_is(c: char, lower: char, upper: char) -> bool {
    c == lower || c == upper
}

/// `eq_ignore_ascii_case` of the extension with `epub`.
pub open spec fn is_epub_extension(ext: Seq<char>) -> bool {
    &&& ext.len() == 4
    &&& ascii_ci_is(ext[0], 'e', 'E')
    &&& ascii_ci_is(ext[1], 'p', 'P')
    &&& ascii_ci_is(ext[2], 'u', 'U')
    &&& ascii_ci_is(ext[3], 'b', 'B')
}

/// The path names a file with extension `epub`, in any ASCII case.
pub open spec fn is_epub_spec(path: Seq<char>) -> bool {
    match file_name_spec(path) {
        Some(name) => match extension_of(name) {
            Some(ext) => is_epub_extension(ext),
            None => false,
        },
        None => false,
    }
}

fn char_ci_is(c: char, lower: char, upper: char) -> (res: bool)
    ensures
        res == ascii_ci_is(c, lower, upper),
{
    c == lower || c == upper
}

proof fn lemma_extension_at(name: Seq<char>, i: int)
    requires
        0 < i < name.len(),
        name[i] == '.',
        forall|j: int| i < j < name.len() ==> name[j] != '.',
    ensures
        extension_of(name) == Some(name.subrange(i + 1, name.len() as int)),
{
    let k = choose|k: int| 0 < k < name.len() && name[k] == '.' && forall|j: int| k < j < name.len() ==> name[j] != '.';
    assert(0 < k < name.len() && name[k] == '.' && forall|j: int| k < j < name.len() ==> name[j] != '.');
    if k < i {
        assert(name[i] == '.');
    } else if k > i {
        assert(name[k] == '.');
    }
}

/// The extension of the file name of a path (`Path::extension`).
pub open spec fn file_extension_spec(path: Seq<char>) -> Option<Seq<char>> {
    match file_name_spec(path) {
        Some(name) => extension_of(name),
        None => None,
    }
}

/// The extension of the file name of a path.
pub fn extension(path: &str) -> (res: Option<String>)
    ensures
        match res {
            Some(e) => file_extension_spec(path@) == Some(e@),
            None => file_extension_spec(path@) is None,
        },
{
    let name = match file_name(path) {
        Some(n) => n,
        None => {
            return None;
        },
    };
    let v = chars_of(name.as_str());
    match crate::text::rfind_char(&v, v.len(), '.') {
        Some(i) => {
            if i == 0 {
                assert(!exists|k: int| 0 < k < v@.len() && v@[k] == '.');
                return None;
            }
            proof {
                lemma_extension_at(v@, i as int);
            }
            Some(crate::text::string_from_range(&v, i + 1, v.len()))
        },
        None => {
            assert(!exists|k: int| 0 < k < v@.len() && v@[k] == '.');
            None
        },
    }
}

/// Whether the path has the extension `epub`, ignoring ASCII case.
pub fn is_epub(path: &str) -> (res: bool)
    ensures
        res == is_epub_spec(path@),
{
    let name = match file_name(path) {
        Some(n) => n,
        None => {
            return false;
        },
    };
    let v = chars_of(name.as_str());
    match crate::text::rfind_char(&v, v.len(), '.') {
        Some(i) => {
            if i == 0 {
                assert(!exists|k: int| 0 < k < v@.len() && v@[k] == '.');
                return false;
            }
            proof {
                lemma_extension_at(v@, i as int);
            }
            let n = v.len() - (i + 1);
            if n != 4 {
                return false;
            }
            let ok = char_ci_is(v[i + 1], 'e', 'E') && char_ci_is(v[i + 2], 'p', 'P') && char_ci_is(
                v[i + 3],
                'u',
                'U',
            ) && char_ci_is(v[i + 4], 'b', 'B');
            let ghost ext = v@.subrange(i + 1, v@.len() as int);
            assert(ext[0] == v@[i + 1] && ext[1] == v@[i + 2] && ext[2] == v@[i + 3] && ext[3] == v@[i + 4]);
            ok
        },
        None => {
            assert(!exists|k: int| 0 < k < v@.len() && v@[k] == '.');
            false
        },
    }
}

/// The file name of a path for display, or the whole path when it has none.
pub fn display_filename(file_path: &str) -> (res: String)
    ensures
        res@ == match file_name_spec(file_path@) {
            Some(n) => n,
            None => file_path@,
        },
{
    match file_name(file_path) {
        Some(n) => n,
        None => owned(file_path),
    }
}

// ───────────────────────────── the command line ─────────────────────────────

/// Flags and positional arguments gathered so far.
pub struct ArgScan {
    pub target: Option<Seq<char>>,
    pub refresh: bool,
    pub interactive: bool,
    pub line: Option<usize>,
}

pub open spec fn seq_r() -> Seq<char> {
    seq!['-', 'r']
}

pub open spec fn seq_refresh() -> Seq<char> {
    seq!['-', '-', 'r', 'e', 'f', 'r', 'e', 's', 'h']
}

pub open spec fn seq_i() -> Seq<char> {
    seq!['-', 'i']
}

pub open spec fn seq_interactive() -> Seq<char> {
    seq!['-', '-', 'i', 'n', 't', 'e', 'r', 'a', 'c', 't', 'i', 'v', 'e']
}

/// The message for a rejected argument.
pub open spec fn invalid_argument_message(arg: Seq<char>) -> Seq<char> {
    seq!['无', '效', '参', '数', ':', ' '] + arg
}

/// Scanning the arguments after the program name: `-r`/`--refresh`, `-i`/`--interactive`, the
/// first other argument is the target, the next one a line number; anything else is an error.
pub open spec fn scan_args(args: Seq<Seq<char>>) -> Result<ArgScan, Seq<char>>
    decreases args.len(),
{
    if args.len() == 0 {
        Ok(ArgScan { target: None, refresh: false, interactive: false, line: None })
    } else {
        match scan_args(args.drop_last()) {
            Err(e) => Err(e),
            Ok(st) => {
                let arg = args.last();
                if arg == seq_r() || arg == seq_refresh() {
                    Ok(ArgScan { refresh: true, ..st })
                } else if arg == seq_i() || arg == seq_interactive() {
                    Ok(ArgScan { interactive: true, ..st })
                } else if st.target is None {
                    Ok(ArgScan { target: Some(arg), ..st })
                } else if st.line is None {
                    match parse_usize_spec(arg) {
                        Some(n) => Ok(ArgScan { line: Some(n), ..st }),
                        None => Err(invalid_argument_message(arg)),
                    }
                } else {
                    Err(invalid_argument_message(arg))
                }
            },
        }
    }
}

/// Whether `a` is `-r` or `--refresh`.
pub open spec fn is_refresh_flag(a: Seq<char>) -> bool {
    a == seq!['-', 'r'] || a == seq!['-', '-', 'r', 'e', 'f', 'r', 'e', 's', 'h']
}

/// Whether `a` is `-i` or `--interactive`.
pub open spec fn is_interactive_flag(a: Seq<char>) -> bool {
    a == seq!['-', 'i'] || a == seq!['-', '-', 'i', 'n', 't', 'e', 'r', 'a', 'c', 't', 'i', 'v', 'e']
}

proof fn lemma_scan_flags(args: Seq<Seq<char>>)
    ensures
        scan_args(args) is Ok ==> {
            &&& scan_args(args)->Ok_0.refresh == exists|i: int| 0 <= i < args.len() && is_refresh_flag(#[trigger] args[i])
            &&& scan_args(args)->Ok_0.interactive == exists|i: int|
                0 <= i < args.len() && is_interactive_flag(#[trigger] args[i])
        },
    decreases args.len(),
{
    if args.len() > 0 {
        let init = args.drop_last();
        lemma_scan_flags(init);
        assert(seq_r() =~= seq!['-', 'r']);
        assert(seq_refresh() =~= seq!['-', '-', 'r', 'e', 'f', 'r', 'e', 's', 'h']);
        assert(seq_i() =~= seq!['-', 'i']);
        assert(seq_interactive() =~= seq!['-', '-', 'i', 'n', 't', 'e', 'r', 'a', 'c', 't', 'i', 'v', 'e']);
        assert(!is_interactive_flag(seq!['-', 'r']) && !is_interactive_flag(
            seq!['-', '-', 'r', 'e', 'f', 'r', 'e', 's', 'h'],
        )) by {
            assert(seq!['-', 'r'][1] != seq!['-', 'i'][1]);
            assert(seq!['-', 'r'].len() != seq!['-', '-', 'i', 'n', 't', 'e', 'r', 'a', 'c', 't', 'i', 'v', 'e'].len());
            assert(seq!['-', '-', 'r', 'e', 'f', 'r', 'e', 's', 'h'].len() != seq!['-', 'i'].len());
            assert(seq!['-', '-', 'r', 'e', 'f', 'r', 'e', 's', 'h'].len() != seq![
                '-',
                '-',
                'i',
                'n',
                't',
                'e',
                'r',
                'a',
                'c',
                't',
                'i',
                'v',
                'e',
            ].len());
        }
        if scan_args(args) is Ok {
            let st = scan_args(init)->Ok_0;
            let arg = args.last();
            assert forall|i: int| 0 <= i < init.len() implies init[i] == args[i] by {}
            if is_refresh_flag(arg) {
                assert(is_refresh_flag(args[args.len() - 1]));
            } else if is_interactive_flag(arg) {
                assert(is_interactive_flag(args[args.len() - 1]));
            }
            if exists|i: int| 0 <= i < args.len() && is_refresh_flag(#[trigger] args[i]) {
                let i = choose|i: int| 0 <= i < args.len() && is_refresh_flag(#[trigger] args[i]);
                if i < init.len() {
                    assert(is_refresh_flag(init[i]));
                }
            }
            if exists|i: int| 0 <= i < args.len() && is_interactive_flag(#[trigger] args[i]) {
                let i = choose|i: int| 0 <= i < args.len() && is_interactive_flag(#[trigger] args[i]);
                if i < init.len() {
                    assert(is_interactive_flag(init[i]));
                }
            }
            if exists|i: int| 0 <= i < init.len() && is_refresh_flag(#[trigger] init[i]) {
                let i = choose|i: int| 0 <= i < init.len() && is_refresh_flag(#[trigger] init[i]);
                assert(is_refresh_flag(args[i]));
            }
            if exists|i: int| 0 <= i < init.len() && is_interactive_flag(#[trigger] init[i]) {
                let i = choose|i: int| 0 <= i < init.len() && is_interactive_flag(#[trigger] init[i]);
                assert(is_interactive_flag(args[i]));
            }
        }
    }
}

/// The two flags of an open request are independent: refresh is set exactly when some
/// argument after the program name is `-r` or `--refresh`, and interactive exactly when some
/// argument is `-i` or `--interactive`.
pub proof fn lemma_open_flags(args: Seq<Seq<char>>, intent: CommandIntent)
    requires
        command_intent_ok(args, intent),
    ensures
        match intent {
            CommandIntent::Open(r) => {
                &&& r.refresh == exists|i: int| 1 <= i < args.len() && is_refresh_flag(#[trigger] args[i])
                &&& r.interactive == exists|i: int| 1 <= i < args.len() && is_interactive_flag(#[trigger] args[i])
            },
            CommandIntent::Dashboard => true,
        },
{
    if args.len() > 0 {
        let rest = args.drop_first();
        lemma_scan_flags(rest);
        if let CommandIntent::Open(r) = intent {
            if exists|i: int| 1 <= i < args.len() && is_refresh_flag(#[trigger] args[i]) {
                let i = choose|i: int| 1 <= i < args.len() && is_refresh_flag(#[trigger] args[i]);
                assert(is_refresh_flag(rest[i - 1]));
            }
            if exists|i: int| 0 <= i < rest.len() && is_refresh_flag(#[trigger] rest[i]) {
                let i = choose|i: int| 0 <= i < rest.len() && is_refresh_flag(#[trigger] rest[i]);
                assert(is_refresh_flag(args[i + 1]));
            }
            if exists|i: int| 1 <= i < args.len() && is_interactive_flag(#[trigger] args[i]) {
                let i = choose|i: int| 1 <= i < args.len() && is_interactive_flag(#[trigger] args[i]);
                assert(is_interactive_flag(rest[i - 1]));
            }
            if exists|i: int| 0 <= i < rest.len() && is_interactive_flag(#[trigger] rest[i]) {
                let i = choose|i: int| 0 <= i < rest.len() && is_interactive_flag(#[trigger] rest[i]);
                assert(is_interactive_flag(args[i + 1]));
            }
        }
    } else {
        lemma_scan_flags(args);
    }
}

/// The reader for a target string: web for `http(s)://` URLs, EPUB for `.epub` paths,
/// Markdown otherwise.
pub open spec fn target_for(t: Seq<char>) -> TargetView {
    if is_http_url(t) {
        TargetView::Web(t)
    } else if is_epub_spec(t) {
        TargetView::Epub(t)
    } else {
        TargetView::Markdown(t)
    }
}

/// Whether `s` is a web URL (`http://` or `https://`).
pub fn is_url(s: &str) -> (res: bool)
    ensures
        res == is_http_url(s@),
{
    crate::dashboard::starts_with_http(s)
}

fn reader_target_for(t: String) -> (res: ReaderTarget)
    ensures
        res@ == target_for(t@),
{
    if is_url(t.as_str()) {
        ReaderTarget::Web(t)
    } else if is_epub(t.as_str()) {
        ReaderTarget::Epub(t)
    } else {
        ReaderTarget::Markdown(t)
    }
}

fn matches_either(arg: &str, short: &str, long: &str) -> (res: bool)
    ensures
        res == (arg@ == short@ || arg@ == long@),
{
    str_eq(arg, short) || str_eq(arg, long)
}

/// The error message for an argument.
fn invalid_argument(arg: &str) -> (res: String)
    ensures
        res@ == invalid_argument_message(arg@),
{
    let prefix = "无效参数: ";
    proof {
        reveal_strlit("无效参数: ");
    }
    let mut m = owned(prefix);
    push_str(&mut m, arg);
    assert(m@ =~= invalid_argument_message(arg@));
    m
}

/// Views of the arguments.
pub open spec fn arg_views(args: Seq<&str>) -> Seq<Seq<char>> {
    args.map_values(|a: &str| a@)
}

/// What the command line `args` (program name first) asks for: the dashboard when no target
/// is given, otherwise an open request, with an explicit line number as a Markdown start line.
pub open spec fn command_intent_ok(args: Seq<Seq<char>>, intent: CommandIntent) -> bool {
    let rest = if args.len() > 0 { args.drop_first() } else { args };
    match scan_args(rest) {
        Ok(st) => match st.target {
            None => intent == CommandIntent::Dashboard,
            Some(t) => intent matches CommandIntent::Open(r) && r.target@ == target_for(t) && r.refresh
                == st.refresh && r.interactive == st.interactive && r.initial_position_override == (
            match st.line {
                Some(l) => Some(HistoryPosition::MarkdownLine { line: l }),
                None => None,
            }),
        },
        Err(_) => false,
    }
}

/// The error for a command line, if it is rejected.
pub open spec fn command_error(args: Seq<Seq<char>>) -> Option<Seq<char>> {
    let rest = if args.len() > 0 { args.drop_first() } else { args };
    match scan_args(rest) {
        Ok(_) => None,
        Err(e) => Some(e),
    }
}

/// Parses the command line (program name first).
pub fn parse_command_intent(args: &[&str]) -> (res: Result<CommandIntent, String>)
    ensures
        match res {
            Ok(intent) => command_error(arg_views(args@)) is None && command_intent_ok(arg_views(args@), intent),
            Err(e) => command_error(arg_views(args@)) == Some(e@),
        },
{
    let ghost all = arg_views(args@);
    let ghost rest = if all.len() > 0 { all.drop_first() } else { all };
    let mut target: Option<String> = None;
    let mut refresh = false;
    let mut interactive = false;
    let mut explicit_line: Option<usize> = None;
    let start: usize = if args.len() > 0 { 1 } else { 0 };
    let r = "-r";
    let refresh_flag = "--refresh";
    let i_flag = "-i";
    let interactive_flag = "--interactive";
    proof {
        reveal_strlit("-r");
        reveal_strlit("--refresh");
        reveal_strlit("-i");
        reveal_strlit("--interactive");
    }
    assert(r@ =~= seq_r());
    assert(refresh_flag@ =~= seq_refresh());
    assert(i_flag@ =~= seq_i());
    assert(interactive_flag@ =~= seq_interactive());
    let mut k = start;
    while k < args.len()
        invariant
            start <= k <= args@.len(),
            start == (if args@.len() > 0 { 1int } else { 0int }),
            all == arg_views(args@),
            rest == (if all.len() > 0 { all.drop_first() } else { all }),
            r@ == seq_r(),
            refresh_flag@ == seq_refresh(),
            i_flag@ == seq_i(),
            interactive_flag@ == seq_interactive(),
            scan_args(rest.take(k - start)) == Ok::<ArgScan, Seq<char>>(ArgScan {
                target: match target {
                    Some(t) => Some(t@),
                    None => None,
                },
                refresh: refresh,
                interactive: interactive,
                line: explicit_line,
            }),
        decreases args@.len() - k,
    {
        let arg = args[k];
        let ghost pre = rest.take(k - start);
        proof {
            assert(rest.take(k - start + 1).drop_last() =~= pre);
            assert(rest.take(k - start + 1).last() == arg@);
        }
        if matches_either(arg, r, refresh_flag) {
            refresh = true;
        } else if matches_either(arg, i_flag, interactive_flag) {
            interactive = true;
        } else if target.is_none() {
            target = Some(owned(arg));
        } else if explicit_line.is_none() {
            match parse_usize(arg) {
                Some(line) => {
                    explicit_line = Some(line);
                },
                None => {
                    proof {
                        lemma_scan_error_sticks(rest, (k - start + 1) as nat);
                    }
                    return Err(invalid_argument(arg));
                },
            }
        } else {
            proof {
                lemma_scan_error_sticks(rest, (k - start + 1) as nat);
            }
            return Err(invalid_argument(arg));
        }
        k = k + 1;
    }
    assert(rest.take(k - start) =~= rest);
    match target {
        None => Ok(CommandIntent::Dashboard),
        Some(t) => {
            let reader_target = reader_target_for(t);
            let initial_position_override = match explicit_line {
                Some(line) => Some(HistoryPosition::MarkdownLine { line }),
                None => None,
            };
            Ok(
                CommandIntent::Open(
                    OpenRequest { target: reader_target, refresh, interactive, initial_position_override },
                ),
            )
        },
    }
}

proof fn lemma_scan_error_sticks(args: Seq<Seq<char>>, n: nat)
    requires
        n <= args.len(),
        scan_args(args.take(n as int)) is Err,
    ensures
        scan_args(args) == scan_args(args.take(n as int)),
    decreases args.len() - n,
{
    if n < args.len() {
        assert(args.take(n + 1int).drop_last() =~= args.take(n as int));
        lemma_scan_error_sticks(args, n + 1);
    } else {
        assert(args.take(n as int) =~= args);
    }
}

// ───────────────────────────── restoring positions ─────────────────────────────

/// Where a reader starts: for web pages and EPUBs the reader's own saved progress wins over
/// the unified history; for Markdown an explicit command-line line wins over the history.
pub open spec fn restore_spec(request: ReaderRestoreRequest) -> RestorePosition {
    match request.target {
        ReaderTarget::Web(_) => match request.reader_specific_progress {
            Some(ReaderSpecificProgress::Web(progress)) => RestorePosition::Scroll {
                scroll: progress.scroll,
                source: RestoreSource::ReaderSpecificProgress,
            },
            _ => match request.unified_history_position {
                Some(HistoryPosition::WebScroll { scroll }) => RestorePosition::Scroll {
                    scroll,
                    source: RestoreSource::UnifiedHistory,
                },
                _ => RestorePosition::Scroll { scroll: 0, source: RestoreSource::DefaultStart },
            },
        },
        ReaderTarget::Epub(_) => match request.reader_specific_progress {
            Some(ReaderSpecificProgress::Epub(progress)) => RestorePosition::EpubLocation {
                chapter: progress.chapter,
                scroll: progress.scroll,
                source: RestoreSource::ReaderSpecificProgress,
            },
            _ => match request.unified_history_position {
                Some(HistoryPosition::EpubLocation { chapter, scroll }) => RestorePosition::EpubLocation {
                    chapter,
                    scroll,
                    source: RestoreSource::UnifiedHistory,
                },
                _ => RestorePosition::EpubLocation { chapter: 0, scroll: 0, source: RestoreSource::DefaultStart },
            },
        },
        ReaderTarget::Markdown(_) => match request.explicit_markdown_line {
            Some(line) => RestorePosition::MarkdownLine { line, source: RestoreSource::ExplicitCliLine },
            None => match request.unified_history_position {
                Some(HistoryPosition::MarkdownLine { line }) => RestorePosition::MarkdownLine {
                    line,
                    source: RestoreSource::UnifiedHistory,
                },
                _ => RestorePosition::MarkdownLine { line: 0, source: RestoreSource::DefaultStart },
            },
        },
    }
}

/// Chooses the position to restore a reader at.
pub fn resolve_reader_restore(request: ReaderRestoreRequest) -> (res: RestorePosition)
    ensures
        res == restore_spec(request),
{
    match request.target {
        ReaderTarget::Web(_) => match request.reader_specific_progress {
            Some(ReaderSpecificProgress::Web(progress)) => RestorePosition::Scroll {
                scroll: progress.scroll,
                source: RestoreSource::ReaderSpecificProgress,
            },
            _ => match request.unified_history_position {
                Some(HistoryPosition::WebScroll { scroll }) => RestorePosition::Scroll {
                    scroll,
                    source: RestoreSource::UnifiedHistory,
                },
                _ => RestorePosition::Scroll { scroll: 0, source: RestoreSource::DefaultStart },
            },
        },
        ReaderTarget::Epub(_) => match request.reader_specific_progress {
            Some(ReaderSpecificProgress::Epub(progress)) => RestorePosition::EpubLocation {
                chapter: progress.chapter,
                scroll: progress.scroll,
                source: RestoreSource::ReaderSpecificProgress,
            },
            _ => match request.unified_history_position {
                Some(HistoryPosition::EpubLocation { chapter, scroll }) => RestorePosition::EpubLocation {
                    chapter,
                    scroll,
                    source: RestoreSource::UnifiedHistory,
                },
                _ => RestorePosition::EpubLocation { chapter: 0, scroll: 0, source: RestoreSource::DefaultStart },
            },
        },
        ReaderTarget::Markdown(_) => {
            if let Some(line) = request.explicit_markdown_line {
                return RestorePosition::MarkdownLine { line, source: RestoreSource::ExplicitCliLine };
            }
            match request.unified_history_position {
                Some(HistoryPosition::MarkdownLine { line }) => RestorePosition::MarkdownLine {
                    line,
                    source: RestoreSource::UnifiedHistory,
                },
                _ => RestorePosition::MarkdownLine { line: 0, source: RestoreSource::DefaultStart },
            }
        },
    }
}

/// The first Markdown line to show (0-based): the 1-based command-line line when given,
/// otherwise the scroll saved in the history, otherwise the top.
pub fn markdown_initial_line(
    initial_position_override: Option<HistoryPosition>,
    history_scroll: Option<usize>,
) -> (res: usize)
    ensures
        res == match initial_position_override {
            Some(HistoryPosition::MarkdownLine { line }) => if line == 0 { 0 } else { (line - 1) as usize },
            _ => match history_scroll {
                Some(s) => s,
                None => 0,
            },
        },
{
    match initial_position_override {
        Some(HistoryPosition::MarkdownLine { line }) => if line == 0 { 0 } else { line - 1 },
        _ => match history_scroll {
            Some(s) => s,
            None => 0,
        },
    }
}

/// The Markdown scroll that the history holds for the entry `id`, if it holds one.
pub open spec fn markdown_scroll_spec(history: Seq<crate::history::EntryView>, id: Seq<char>) -> Option<usize> {
    match crate::history::first_index(history, id) {
        Some(i) => match history[i].position {
            ReadingPosition::Markdown { scroll } => Some(scroll),
            _ => None,
        },
        None => None,
    }
}

/// The saved Markdown scroll of the entry `id` in the history.
pub fn markdown_history_scroll(history: &crate::history::HistoryFile, id: &str) -> (res: Option<usize>)
    ensures
        res == markdown_scroll_spec(history@, id@),
{
    match history.entry(id) {
        Some(e) => match e.position {
            ReadingPosition::Markdown { scroll } => Some(scroll),
            _ => None,
        },
        None => None,
    }
}

/// Reading progress in percent, rounded up: `ceil(min(position, total) * 100 / total)`, and 0
/// at the start or for empty content.
pub open spec fn progress_percent_spec(position: nat, total: nat) -> int {
    if total == 0 || position == 0 {
        0
    } else {
        let m = if position < total { position } else { total };
        (m * 100 + total - 1) / (total as int)
    }
}

/// Reading progress in percent.
pub fn progress_percent(position: usize, total: usize) -> (res: i16)
    requires
        (if position < total { position } else { total }) * 100 <= usize::MAX,
    ensures
        res == progress_percent_spec(position as nat, total as nat),
        0 <= res <= 100,
        position > 0 && total > 0 ==> res >= 1,
{
    if total == 0 || position == 0 {
        return 0;
    }
    let m = if position < total { position } else { total };
    let prod = m * 100;
    let q = prod / total;
    let r = prod % total;
    let c = if r == 0 { q } else { q + 1 };
    proof {
        lemma_progress_bounds(m as int, total as int, q as int, r as int);
    }
    c as i16
}

proof fn lemma_progress_bounds(m: int, total: int, q: int, r: int)
    requires
        0 < m <= total,
        q == (m * 100) / total,
        r == (m * 100) % total,
    ensures
        q <= 100,
        r != 0 ==> q < 100,
        (if r == 0 { q } else { q + 1 }) == (m * 100 + total - 1) / total,
        (if r == 0 { q } else { q + 1 }) >= 1,
{
    assert(m * 100 == q * total + r) by (nonlinear_arith)
        requires
            q == (m * 100) / total,
            r == (m * 100) % total,
            total > 0,
    ;
    assert(0 <= r < total) by (nonlinear_arith)
        requires
            r == (m * 100) % total,
            total > 0,
    ;
    assert(q <= 100) by (nonlinear_arith)
        requires
            m * 100 == q * total + r,
            0 <= r < total,
            m <= total,
            total > 0,
    ;
    assert(r != 0 ==> q < 100) by (nonlinear_arith)
        requires
            m * 100 == q * total + r,
            0 <= r < total,
            m <= total,
            total > 0,
    ;
    assert((if r == 0 { q } else { q + 1 }) == (m * 100 + total - 1) / total) by (nonlinear_arith)
        requires
            m * 100 == q * total + r,
            0 <= r < total,
            total > 0,
    ;
    assert(q >= 1 || r != 0) by (nonlinear_arith)
        requires
            m * 100 == q * total + r,
            m > 0,
            0 <= r < total,
            total > 0,
    ;
}

// ───────────────────────────── history entries ─────────────────────────────

/// The dashboard's kind for a history kind.
pub open spec fn dashboard_kind(kind: crate::history::TargetKind) -> crate::dashboard::TargetKind {
    match kind {
        crate::history::TargetKind::Web => crate::dashboard::TargetKind::Web,
        crate::history::TargetKind::Epub => crate::dashboard::TargetKind::Epub,
        crate::history::TargetKind::Markdown => crate::dashboard::TargetKind::Markdown,
    }
}

/// A history entry as the dashboard lists it.
pub open spec fn dashboard_entry_view(e: EntryView) -> DEntry {
    DEntry {
        id: e.id,
        kind: dashboard_kind(e.kind),
        title: e.title,
        target: e.target,
        progress_percent: e.progress_percent,
        updated_at: e.updated_at,
        starred: e.starred,
        hidden: e.hidden,
    }
}

/// A history entry as the dashboard shows it.
pub fn dashboard_entry_from_history(entry: &HistoryEntry) -> (res: DashboardEntry)
    ensures
        res@ == dashboard_entry_view(entry@),
{
    DashboardEntry {
        id: entry.id.clone(),
        kind: match entry.kind {
            crate::history::TargetKind::Web => crate::dashboard::TargetKind::Web,
            crate::history::TargetKind::Epub => crate::dashboard::TargetKind::Epub,
            crate::history::TargetKind::Markdown => crate::dashboard::TargetKind::Markdown,
        },
        title: entry.title.clone(),
        target: entry.target.clone(),
        progress_percent: entry.progress_percent,
        updated_at: entry.updated_at.clone(),
        starred: entry.starred,
        hidden: entry.hidden,
    }
}

/// The request that reopens a history entry: its target in the reader of its kind, at its
/// saved position, with no flags.
pub open spec fn history_request_ok(e: EntryView, r: OpenRequest) -> bool {
    &&& r.target@ == (match e.kind {
        crate::history::TargetKind::Web => TargetView::Web(e.target),
        crate::history::TargetKind::Epub => TargetView::Epub(e.target),
        crate::history::TargetKind::Markdown => TargetView::Markdown(e.target),
    })
    &&& !r.refresh
    &&& !r.interactive
    &&& r.initial_position_override == Some(history_override(e.position))
}

/// The start position an entry's saved position asks for; Markdown scrolls become 1-based lines.
pub open spec fn history_override(position: ReadingPosition) -> HistoryPosition {
    match position {
        ReadingPosition::Web { scroll } => HistoryPosition::WebScroll { scroll },
        ReadingPosition::Epub { chapter, scroll } => HistoryPosition::EpubLocation { chapter, scroll },
        ReadingPosition::Markdown { scroll } => HistoryPosition::MarkdownLine {
            line: if scroll == usize::MAX { usize::MAX } else { (scroll + 1) as usize },
        },
    }
}

/// The open request that continues reading a history entry where it was left.
pub fn open_request_from_history(entry: &HistoryEntry) -> (res: Option<OpenRequest>)
    ensures
        res matches Some(r) && history_request_ok(entry@, r),
{
    let target = match entry.kind {
        crate::history::TargetKind::Web => ReaderTarget::Web(entry.target.clone()),
        crate::history::TargetKind::Epub => ReaderTarget::Epub(entry.target.clone()),
        crate::history::TargetKind::Markdown => ReaderTarget::Markdown(entry.target.clone()),
    };
    let initial_position_override = match entry.position {
        ReadingPosition::Web { scroll } => Some(HistoryPosition::WebScroll { scroll }),
        ReadingPosition::Epub { chapter, scroll } => Some(HistoryPosition::EpubLocation { chapter, scroll }),
        ReadingPosition::Markdown { scroll } => Some(HistoryPosition::MarkdownLine {
            line: scroll.saturating_add(1),
        }),
    };
    Some(OpenRequest { target, refresh: false, interactive: false, initial_position_override })
}

/// The history after the dashboard removed entry `id`: hidden, then unstarred, both stamped
/// `updated_at`.
pub fn dashboard_remove(history: &mut crate::history::HistoryFile, id: &str, updated_at: &str)
    ensures
        final(history)@ == crate::history::set_starred_spec(
            crate::history::set_hidden_spec(old(history)@, id@, true, updated_at@),
            id@,
            false,
            updated_at@,
        ),
{
    let _ = history.set_hidden(id, true, updated_at);
    let _ = history.set_starred(id, false, updated_at);
}


// ───────────────────────────── where readers start ─────────────────────────────

/// Where a web page opens: at the scroll the caller asks for, else at the saved progress,
/// else at the top.
pub fn web_start_scroll(initial_position_override: Option<HistoryPosition>, saved: Option<crate::web::WebProgress>) -> (res: usize)
    ensures
        res == match initial_position_override {
            Some(HistoryPosition::WebScroll { scroll }) => scroll,
            _ => match saved {
                Some(p) => p.scroll,
                None => 0,
            },
        },
{
    match initial_position_override {
        Some(HistoryPosition::WebScroll { scroll }) => scroll,
        _ => match saved {
            Some(p) => p.scroll,
            None => 0,
        },
    }
}

/// Where an EPUB opens: at the location the caller asks for, else at the saved progress,
/// else at the start.
pub fn epub_start(initial_position_override: Option<HistoryPosition>, saved: Option<crate::epub::ReadingProgress>) -> (res: (usize, usize))
    ensures
        res == match initial_position_override {
            Some(HistoryPosition::EpubLocation { chapter, scroll }) => (chapter, scroll),
            _ => match saved {
                Some(p) => (p.chapter, p.scroll),
                None => (0usize, 0usize),
            },
        },
{
    match initial_position_override {
        Some(HistoryPosition::EpubLocation { chapter, scroll }) => (chapter, scroll),
        _ => match saved {
            Some(p) => (p.chapter, p.scroll),
            None => (0, 0),
        },
    }
}

/// The title a web page shows: its own, or its URL when it has none.
pub fn web_display_title(title: &str, url: &str) -> (res: String)
    ensures
        res@ == if title@.len() == 0 { url@ } else { title@ },
{
    if chars_of(title).len() == 0 {
        owned(url)
    } else {
        owned(title)
    }
}

} // verus!
