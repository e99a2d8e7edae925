//! EPUB books: package metadata, chapter paths, paragraph merging and cached lines.
use vstd::prelude::*;
use crate::image::{
    copy_line, copy_spans, line_view, lines_view, spans_text, spans_text_exec, spans_view, LineContent,
    LineView, SpanView, StyledSpan,
};
use crate::style::{plain_style, style_of_data, Style, StyleData};
use crate::text::{chars_of, owned, push_str, str_eq, trim, trim_bounds};
use crate::search::{find_sub, find_sub_exec};
use crate::xml::{attr_str, attrs_view, before_eof, first_attr, read_tokens, token_of, tokens_view, xml_tokens, XmlEvent, XmlToken};

verus! {

/// Where the reader was in a book.
#[derive(Debug, Clone, Copy, PartialEq, Eq, Structural)]
pub struct ReadingProgress {
    pub chapter: usize,
    pub scroll: usize,
}

/// Book metadata from the package document.
#[derive(Debug, Clone)]
pub struct EpubMetadata {
    pub title: String,
    pub author: String,
    pub language: String,
}

impl Default for EpubMetadata {
    fn default() -> (res: EpubMetadata)
        ensures
            res.title@.len() == 0,
            res.author@.len() == 0,
            res.language@.len() == 0,
    {
        EpubMetadata { title: String::new(), author: String::new(), language: String::new() }
    }
}

/// An entry of the package manifest.
#[derive(Debug, Clone)]
pub struct ManifestItem {
    pub id: String,
    pub href: String,
    pub media_type: String,
}

/// A chapter of the reading order.
#[derive(Debug, Clone)]
pub struct SpineItem {
    pub idref: String,
    pub href: String,
}

/// An entry of the table of contents.
#[derive(Debug, Clone)]
pub struct TocEntry {
    pub title: String,
    pub href: String,
    pub level: usize,
}

/// An opened EPUB book: its package data and where it lives. The manifest holds each id once.
#[derive(Debug)]
pub struct EpubBook {
    pub metadata: EpubMetadata,
    pub manifest: Vec<ManifestItem>,
    pub spine: Vec<SpineItem>,
    pub toc: Vec<TocEntry>,
    pub opf_dir: String,
    pub file_path: String,
}

// ───────────────────────────── paths inside the archive ─────────────────────────────

/// A manifest or spine `href` resolved against the directory of the package document:
/// a leading `/` is dropped, an empty directory leaves the href alone, otherwise the two are
/// joined with `/`.
pub open spec fn resolve_href_spec(base_dir: Seq<char>, href: Seq<char>) -> Seq<char> {
    if href.len() > 0 && href[0] == '/' {
        href.skip(1)
    } else if base_dir.len() == 0 {
        href
    } else {
        base_dir + seq!['/'] + href
    }
}

/// Resolves an href against the package document's directory.
pub fn resolve_href(base_dir: &str, href: &str) -> (res: String)
    ensures
        res@ == resolve_href_spec(base_dir@, href@),
{
    let h = chars_of(href);
    if h.len() > 0 && h[0] == '/' {
        let r = crate::text::string_from_range(&h, 1, h.len());
        assert(r@ =~= href@.skip(1));
        return r;
    }
    if chars_of(base_dir).len() == 0 {
        return owned(href);
    }
    let mut res = owned(base_dir);
    crate::text::push_char(&mut res, '/');
    push_str(&mut res, href);
    res
}

/// The directory part of a path: before its last `/`, or empty when it has none.
pub open spec fn parent_dir_spec(path: Seq<char>) -> Seq<char> {
    match crate::search::last_index_of(path, '/') {
        Some(k) => path.take(k as int),
        None => Seq::empty(),
    }
}

/// The directory of a path inside the archive.
pub fn parent_dir(path: &str) -> (res: String)
    ensures
        res@ == parent_dir_spec(path@),
{
    let v = chars_of(path);
    proof {
        crate::search::lemma_last_index_of(v@, '/');
    }
    match crate::search::last_index_exec(&v, '/') {
        Some(k) => {
            let r = crate::text::string_from_range(&v, 0, k);
            assert(r@ =~= path@.take(k as int));
            r
        },
        None => String::new(),
    }
}

impl EpubBook {
    /// The number of chapters.
    pub fn chapter_count(&self) -> (res: usize)
        ensures
            res == self.spine@.len(),
    {
        self.spine.len()
    }

    /// The short hash that keys this book's progress and caches: the first 16 hexadecimal
    /// digits of the SHA-256 of its file path.
    pub fn book_hash(&self) -> (res: String)
        ensures
            res@ == crate::hashing::short_hash(self.file_path@),
    {
        crate::hashing::short_key(self.file_path.as_str())
    }

    /// The archive path of a chapter, or the out-of-range message.
    pub fn chapter_path(&self, chapter_index: usize) -> (res: Result<String, String>)
        ensures
            chapter_index < self.spine@.len() ==> (res matches Ok(p) && p@ == resolve_href_spec(
                self.opf_dir@,
                self.spine@[chapter_index as int].href@,
            )),
            chapter_index >= self.spine@.len() ==> (res matches Err(m) && m@ == "章节索引超出范围: "@
                + crate::text::decimal(chapter_index as nat) + " >= "@ + crate::text::decimal(
                self.spine@.len() as nat,
            )),
    {
        if chapter_index >= self.spine.len() {
            let mut m = owned("章节索引超出范围: ");
            crate::text::push_decimal(&mut m, chapter_index as u64);
            push_str(&mut m, " >= ");
            crate::text::push_decimal(&mut m, self.spine.len() as u64);
            return Err(m);
        }
        Ok(resolve_href(self.opf_dir.as_str(), self.spine[chapter_index].href.as_str()))
    }
}

// ───────────────────────────── paragraph merging ─────────────────────────────

/// Whether a character is uppercase, as `char::is_uppercase` decides (Unicode `Uppercase`).
pub uninterp spec fn unicode_is_uppercase(c: char) -> bool;

/// `char::is_uppercase`. The contract claims only that the result is the Unicode property.
#[verifier::external_body]
pub(crate) fn is_uppercase(c: char) -> (res: bool)
    ensures
        res == unicode_is_uppercase(c),
{
    c.is_uppercase()
}

/// Punctuation after which a sentence goes on.
pub open spec fn continues_sentence(c: char) -> bool {
    c == '，' || c == ',' || c == '、' || c == '：' || c == ':' || c == '\u{201c}' || c == '\u{201d}'
        || c == '）' || c == ')' || c == ';' || c == '；' || c == '—' || c == '…'
}

/// Punctuation that ends a sentence.
pub open spec fn ends_sentence(c: char) -> bool {
    c == '。' || c == '！' || c == '？' || c == '.' || c == '!' || c == '?'
}

/// A first character that opens a new paragraph (a chapter heading or an opening quote or
/// bracket).
pub open spec fn opens_paragraph(c: char) -> bool {
    c == '第' || c == '「' || c == '\u{201c}' || c == '\u{201d}' || c == '（' || c == '('
}

/// Whether the paragraph after `prev` continues it: both non-blank, the next does not open a
/// new paragraph, and the previous ends in continuing punctuation, or in no sentence-ending
/// punctuation while the next does not start uppercase.
pub open spec fn should_merge_spec(prev: Seq<char>, next: Seq<char>) -> bool {
    let p = trim(prev);
    let n = trim(next);
    if p.len() == 0 || n.len() == 0 {
        false
    } else if opens_paragraph(n[0]) {
        false
    } else if continues_sentence(p.last()) {
        true
    } else if ends_sentence(p.last()) {
        false
    } else {
        !unicode_is_uppercase(n[0])
    }
}

/// A paragraph whose text (without surrounding white space) ends with a sentence-ending mark,
/// `。`, `！`, `？`, `.`, `!` or `?`, is never continued by the next one.
pub proof fn lemma_sentence_end_never_merges(prev: Seq<char>, next: Seq<char>)
    requires
        trim(prev).len() > 0,
        ({
            let c = trim(prev).last();
            c == '。' || c == '！' || c == '？' || c == '.' || c == '!' || c == '?'
        }),
    ensures
        !should_merge_spec(prev, next),
{
}

/// The other rules for joining paragraphs (both taken without surrounding white space): a
/// blank one never joins; a next paragraph opening with `第`, `「`, a curly double quote, `（`
/// or `(` never joins; otherwise one after continuing punctuation (`，` `,` `、` `：` `:`
/// curly double quotes `）` `)` `;` `；` `—` `…`) always joins, and one after any other
/// character that does not end a sentence joins exactly when it does not start uppercase.
pub proof fn lemma_merge_rules(prev: Seq<char>, next: Seq<char>)
    ensures
        trim(prev).len() == 0 || trim(next).len() == 0 ==> !should_merge_spec(prev, next),
        trim(next).len() > 0 && ({
            let c = trim(next)[0];
            c == '第' || c == '「' || c == '\u{201c}' || c == '\u{201d}' || c == '（' || c == '('
        }) ==> !should_merge_spec(prev, next),
        trim(prev).len() > 0 && trim(next).len() > 0 && ({
            let c = trim(next)[0];
            !(c == '第' || c == '「' || c == '\u{201c}' || c == '\u{201d}' || c == '（' || c == '(')
        }) ==> {
            let l = trim(prev).last();
            &&& (l == '，' || l == ',' || l == '、' || l == '：' || l == ':' || l == '\u{201c}' || l == '\u{201d}'
                || l == '）' || l == ')' || l == ';' || l == '；' || l == '—' || l == '…') ==> should_merge_spec(prev, next)
            &&& !(l == '，' || l == ',' || l == '、' || l == '：' || l == ':' || l == '\u{201c}' || l == '\u{201d}'
                || l == '）' || l == ')' || l == ';' || l == '；' || l == '—' || l == '…') && !(l == '。' || l == '！'
                || l == '？' || l == '.' || l == '!' || l == '?') ==> should_merge_spec(prev, next) == !unicode_is_uppercase(
                trim(next)[0],
            )
        },
{
}

/// Decides whether two paragraphs are one paragraph broken in the wrong place.
pub fn should_merge_paragraphs(prev_text: &str, next_text: &str) -> (res: bool)
    ensures
        res == should_merge_spec(prev_text@, next_text@),
{
    let pv = chars_of(prev_text);
    let nv = chars_of(next_text);
    let (pa, pb) = trim_bounds(&pv, 0, pv.len());
    let (na, nb) = trim_bounds(&nv, 0, nv.len());
    assert(pv@.subrange(0, pv@.len() as int) =~= pv@);
    assert(nv@.subrange(0, nv@.len() as int) =~= nv@);
    if pa == pb || na == nb {
        return false;
    }
    let last = pv[pb - 1];
    let first = nv[na];
    assert(trim(prev_text@).last() == last);
    assert(trim(next_text@)[0] == first);
    let new_para = first == '第' || first == '「' || first == '\u{201c}' || first == '\u{201d}' || first
        == '（' || first == '(';
    if new_para {
        return false;
    }
    let continues = last == '，' || last == ',' || last == '、' || last == '：' || last == ':' || last
        == '\u{201c}' || last == '\u{201d}' || last == '）' || last == ')' || last == ';' || last == '；'
        || last == '—' || last == '…';
    if continues {
        return true;
    }
    let ends = last == '。' || last == '！' || last == '？' || last == '.' || last == '!' || last == '?';
    if ends {
        return false;
    }
    !is_uppercase(first)
}

/// How paragraph merging sees a line.
pub enum LineKind {
    /// A styled line with non-blank text.
    Content(Seq<char>),
    /// A styled line whose text is blank.
    Empty,
    /// An image or a link line.
    NonText,
}

/// The kind of a line.
pub open spec fn kind_of(l: LineView) -> LineKind {
    match l {
        LineView::Styled(spans) => if trim(spans_text(spans)).len() == 0 {
            LineKind::Empty
        } else {
            LineKind::Content(spans_text(spans))
        },
        _ => LineKind::NonText,
    }
}

/// The first index at or after `j` whose line is not blank.
pub open spec fn skip_blank(lines: Seq<LineView>, j: nat) -> nat
    decreases lines.len() - j,
{
    if j < lines.len() && kind_of(lines[j as int]) is Empty {
        skip_blank(lines, j + 1)
    } else {
        j
    }
}

pub proof fn lemma_skip_blank(lines: Seq<LineView>, j: nat)
    ensures
        j <= skip_blank(lines, j),
        j <= lines.len() ==> skip_blank(lines, j) <= lines.len(),
        skip_blank(lines, j) < lines.len() ==> !(kind_of(lines[skip_blank(lines, j) as int]) is Empty),
        j < lines.len() && kind_of(lines[j as int]) is Empty ==> j < skip_blank(lines, j),
    decreases lines.len() - j,
{
    if j < lines.len() && kind_of(lines[j as int]) is Empty {
        lemma_skip_blank(lines, j + 1);
    }
}

/// Whether a line counts as content before a blank run: a styled line with spans, an image or
/// a link.
pub open spec fn has_content(l: LineView) -> bool {
    match l {
        LineView::Styled(spans) => spans.len() > 0,
        _ => true,
    }
}

/// The one-space span put between two merged paragraphs.
pub open spec fn space_span() -> SpanView {
    SpanView { text: seq![' '], style: plain_style(), link: None }
}

/// Merging from line `i`, given the last line emitted so far. A run of blank lines becomes
/// one empty line when there is content on both sides of it, and nothing otherwise; a
/// paragraph that the next paragraph (past blank lines) continues is joined to it with a
/// space; other lines stay as they are.
pub open spec fn merge_from(lines: Seq<LineView>, i: nat, last: Option<LineView>) -> Seq<LineView>
    decreases lines.len() - i,
{
    if i >= lines.len() {
        Seq::empty()
    } else {
        proof {
            lemma_skip_blank(lines, i);
            lemma_skip_blank(lines, i + 1);
        }
        match kind_of(lines[i as int]) {
            LineKind::Empty => {
                let j = skip_blank(lines, i);
                let before = match last {
                    Some(l) => has_content(l),
                    None => false,
                };
                if before && j < lines.len() {
                    let e = LineView::Styled(Seq::empty());
                    seq![e] + merge_from(lines, j, Some(e))
                } else {
                    merge_from(lines, j, last)
                }
            },
            LineKind::Content(text) => {
                let j = skip_blank(lines, i + 1);
                if j < lines.len() && kind_of(lines[j as int]) is Content && should_merge_spec(
                    text,
                    kind_of(lines[j as int])->Content_0,
                ) {
                    let m = LineView::Styled(
                        lines[i as int]->Styled_0 + seq![space_span()] + lines[j as int]->Styled_0,
                    );
                    seq![m] + merge_from(lines, j + 1, Some(m))
                } else {
                    seq![lines[i as int]] + merge_from(lines, i + 1, Some(lines[i as int]))
                }
            },
            LineKind::NonText => seq![lines[i as int]] + merge_from(lines, i + 1, Some(lines[i as int])),
        }
    }
}

/// The lines after paragraph merging.
pub open spec fn merge_paragraphs_spec(lines: Seq<LineView>) -> Seq<LineView> {
    merge_from(lines, 0, None)
}

/// The empty line that a run of blank lines becomes.
pub open spec fn blank_line() -> LineView {
    LineView::Styled(Seq::empty())
}

proof fn lemma_content_has_spans(l: LineView)
    requires
        kind_of(l) is Content,
    ensures
        l matches LineView::Styled(spans) && spans.len() > 0,
{
    if let LineView::Styled(spans) = l {
        if spans.len() == 0 {
            assert(spans_text(spans) =~= Seq::<char>::empty());
            assert(trim(spans_text(spans)).len() == 0) by {
                assert(crate::text::lead_ws(Seq::<char>::empty()) == 0);
            }
        }
    }
}

proof fn lemma_merge_from_blanks(lines: Seq<LineView>, i: nat, last: Option<LineView>)
    ensures
        forall|k: int| 0 <= k < merge_from(lines, i, last).len() && #[trigger] merge_from(lines, i, last)[k] == blank_line()
            ==> (if k == 0 {
                last matches Some(l) && has_content(l)
            } else {
                has_content(merge_from(lines, i, last)[k - 1])
            }) && k + 1 < merge_from(lines, i, last).len(),
    decreases lines.len() - i,
{
    let out = merge_from(lines, i, last);
    if i < lines.len() {
        lemma_skip_blank(lines, i);
        lemma_skip_blank(lines, i + 1);
        match kind_of(lines[i as int]) {
            LineKind::Empty => {
                let j = skip_blank(lines, i);
                let before = match last {
                    Some(l) => has_content(l),
                    None => false,
                };
                if before && j < lines.len() {
                    let e = blank_line();
                    let rest = merge_from(lines, j, Some(e));
                    lemma_merge_from_blanks(lines, j, Some(e));
                    lemma_skip_blank(lines, j);
                    lemma_skip_blank(lines, j + 1);
                    assert(rest.len() > 0);
                    assert(out == seq![e] + rest);
                    assert forall|k: int| 0 <= k < out.len() && #[trigger] out[k] == blank_line() implies (if k == 0 {
                        last matches Some(l) && has_content(l)
                    } else {
                        has_content(out[k - 1])
                    }) && k + 1 < out.len() by {
                        if k > 0 {
                            assert(out[k] == rest[k - 1]);
                            if k > 1 {
                                assert(out[k - 1] == rest[k - 2]);
                            }
                        }
                    }
                } else {
                    lemma_merge_from_blanks(lines, j, last);
                }
            },
            LineKind::Content(text) => {
                let j = skip_blank(lines, i + 1);
                lemma_content_has_spans(lines[i as int]);
                if j < lines.len() && kind_of(lines[j as int]) is Content && should_merge_spec(
                    text,
                    kind_of(lines[j as int])->Content_0,
                ) {
                    let m = LineView::Styled(
                        lines[i as int]->Styled_0 + seq![space_span()] + lines[j as int]->Styled_0,
                    );
                    lemma_merge_from_blanks(lines, j + 1, Some(m));
                    let rest = merge_from(lines, j + 1, Some(m));
                    assert(out == seq![m] + rest);
                    assert(m != blank_line()) by {
                        assert((lines[i as int]->Styled_0 + seq![space_span()] + lines[j as int]->Styled_0).len() > 0);
                    }
                    assert forall|k: int| 0 <= k < out.len() && #[trigger] out[k] == blank_line() implies (if k == 0 {
                        last matches Some(l) && has_content(l)
                    } else {
                        has_content(out[k - 1])
                    }) && k + 1 < out.len() by {
                        if k > 0 {
                            assert(out[k] == rest[k - 1]);
                            if k > 1 {
                                assert(out[k - 1] == rest[k - 2]);
                            }
                        }
                    }
                } else {
                    let m = lines[i as int];
                    lemma_merge_from_blanks(lines, i + 1, Some(m));
                    let rest = merge_from(lines, i + 1, Some(m));
                    assert(out == seq![m] + rest);
                    assert(m != blank_line());
                    assert forall|k: int| 0 <= k < out.len() && #[trigger] out[k] == blank_line() implies (if k == 0 {
                        last matches Some(l) && has_content(l)
                    } else {
                        has_content(out[k - 1])
                    }) && k + 1 < out.len() by {
                        if k > 0 {
                            assert(out[k] == rest[k - 1]);
                            if k > 1 {
                                assert(out[k - 1] == rest[k - 2]);
                            }
                        }
                    }
                }
            },
            LineKind::NonText => {
                let m = lines[i as int];
                lemma_merge_from_blanks(lines, i + 1, Some(m));
                let rest = merge_from(lines, i + 1, Some(m));
                assert(out == seq![m] + rest);
                assert forall|k: int| 0 <= k < out.len() && #[trigger] out[k] == blank_line() implies (if k == 0 {
                    last matches Some(l) && has_content(l)
                } else {
                    has_content(out[k - 1])
                }) && k + 1 < out.len() by {
                    if k > 0 {
                        assert(out[k] == rest[k - 1]);
                        if k > 1 {
                            assert(out[k - 1] == rest[k - 2]);
                        }
                    }
                }
            },
        }
    }
}

/// After merging, an empty line only ever stands between two lines with content: never
/// first, never last, and never next to another empty line.
pub proof fn lemma_merged_blank_lines_separate_content(lines: Seq<LineView>)
    ensures
        forall|k: int| 0 <= k < merge_paragraphs_spec(lines).len() && #[trigger] merge_paragraphs_spec(lines)[k] == blank_line()
            ==> 0 < k && k + 1 < merge_paragraphs_spec(lines).len() && has_content(merge_paragraphs_spec(lines)[k - 1])
            && merge_paragraphs_spec(lines)[k + 1] != blank_line(),
{
    lemma_merge_from_blanks(lines, 0, None);
    let out = merge_paragraphs_spec(lines);
    assert forall|k: int| 0 <= k < out.len() && #[trigger] out[k] == blank_line() implies 0 < k && k + 1 < out.len()
        && has_content(out[k - 1]) && out[k + 1] != blank_line() by {
        if out[k + 1] == blank_line() {
            assert(has_content(out[k]));
        }
    }
}

/// The kind of a line, computed.
fn line_kind(l: &LineContent) -> (res: (bool, bool, String))
    ensures
        res.0 <==> kind_of(line_view(*l)) is Empty,
        res.1 <==> kind_of(line_view(*l)) is Content,
        res.1 ==> kind_of(line_view(*l))->Content_0 == res.2@,
{
    match l {
        LineContent::Styled(spans) => {
            let text = spans_text_exec(spans);
            let blank = crate::text::is_blank(text.as_str());
            (blank, !blank, text)
        },
        _ => (false, false, String::new()),
    }
}

fn skip_blank_exec(lines: &Vec<LineContent>, j: usize) -> (res: usize)
    requires
        j <= lines@.len(),
    ensures
        res == skip_blank(lines_view(lines@), j as nat),
{
    let ghost lv = lines_view(lines@);
    let mut k = j;
    while k < lines.len()
        invariant
            j <= k <= lines@.len(),
            lv == lines_view(lines@),
            skip_blank(lv, k as nat) == skip_blank(lv, j as nat),
        decreases lines@.len() - k,
    {
        let (blank, _, _) = line_kind(&lines[k]);
        assert(lv[k as int] == line_view(lines@[k as int]));
        if !blank {
            return k;
        }
        k = k + 1;
    }
    k
}

/// The last line of `result`, if any.
pub open spec fn last_line(result: Seq<LineView>) -> Option<LineView> {
    if result.len() == 0 {
        None
    } else {
        Some(result.last())
    }
}

/// Merges paragraphs that a chapter's markup broke in the middle of a sentence, and collapses
/// runs of blank lines.
pub fn merge_paragraphs(lines: Vec<LineContent>) -> (res: Vec<LineContent>)
    ensures
        lines_view(res@) == merge_paragraphs_spec(lines_view(lines@)),
{
    let ghost lv = lines_view(lines@);
    let mut result: Vec<LineContent> = Vec::new();
    let mut i: usize = 0;
    while i < lines.len()
        invariant
            i <= lines@.len(),
            lv == lines_view(lines@),
            lines_view(result@) + merge_from(lv, i as nat, last_line(lines_view(result@))) == merge_from(
                lv,
                0,
                None,
            ),
        decreases lines@.len() - i,
    {
        proof {
            lemma_skip_blank(lv, i as nat);
            lemma_skip_blank(lv, (i + 1) as nat);
        }
        let ghost rv = lines_view(result@);
        let ghost last = last_line(rv);
        assert(lv[i as int] == line_view(lines@[i as int]));
        let (blank, content, text) = line_kind(&lines[i]);
        if blank {
            let before = if result.len() > 0 {
                match &result[result.len() - 1] {
                    LineContent::Styled(spans) => spans.len() > 0,
                    _ => true,
                }
            } else {
                false
            };
            assert(before == (match last {
                Some(l) => has_content(l),
                None => false,
            })) by {
                if result@.len() > 0 {
                    assert(rv.last() == line_view(result@.last()));
                }
            }
            let j = skip_blank_exec(&lines, i);
            if before && j < lines.len() {
                let e = LineContent::Styled(Vec::new());
                assert(line_view(e) == LineView::Styled(Seq::<SpanView>::empty())) by {
                    assert(spans_view(Seq::<StyledSpan>::empty()) =~= Seq::<SpanView>::empty());
                }
                result.push(e);
                assert(lines_view(result@) =~= rv.push(line_view(e)));
            }
            i = j;
        } else if content {
            let j = skip_blank_exec(&lines, i + 1);
            let mut merged = false;
            if j < lines.len() {
                let (_, next_content, next_text) = line_kind(&lines[j]);
                assert(lv[j as int] == line_view(lines@[j as int]));
                if next_content && should_merge_paragraphs(text.as_str(), next_text.as_str()) {
                    match (&lines[i], &lines[j]) {
                        (LineContent::Styled(a), LineContent::Styled(b)) => {
                            let mut spans = copy_spans(a);
                            let space = owned(" ");
                            proof {
                                reveal_strlit(" ");
                            }
                            assert(space@ =~= seq![' ']);
                            let sp = StyledSpan::new(space, Style::plain());
                            assert(crate::image::span_view(sp) == space_span());
                            spans.push(sp);
                            let mut rest = copy_spans(b);
                            let ghost sv1 = spans@;
                            spans.append(&mut rest);
                            assert(spans_view(spans@) =~= spans_view(a@) + seq![space_span()] + spans_view(b@));
                            let m = LineContent::Styled(spans);
                            let ghost rv2 = lines_view(result@);
                            result.push(m);
                            assert(lines_view(result@) =~= rv2.push(line_view(m)));
                            i = j + 1;
                            merged = true;
                        },
                        _ => {},
                    }
                }
            }
            if !merged {
                let c = copy_line(&lines[i]);
                result.push(c);
                assert(lines_view(result@) =~= rv.push(line_view(c)));
                i = i + 1;
            }
        } else {
            let c = copy_line(&lines[i]);
            result.push(c);
            assert(lines_view(result@) =~= rv.push(line_view(c)));
            i = i + 1;
        }
    }
    assert(lines_view(result@) + merge_from(lv, i as nat, last_line(lines_view(result@))) =~= lines_view(result@));
    result
}

// ───────────────────────────── cached chapter lines ─────────────────────────────

/// Serializable link info of a span.
#[derive(Debug, Clone)]
pub struct CachedLinkInfo {
    pub url: String,
    pub is_external: bool,
}

/// Serializable span: text, style and optional link.
#[derive(Debug, Clone)]
pub struct CachedSpan {
    pub text: String,
    pub style: StyleData,
    pub link: Option<CachedLinkInfo>,
}

/// Serializable form of a content line.
#[derive(Debug, Clone)]
pub enum CachedLine {
    Styled { spans: Vec<CachedSpan> },
    Empty,
    Image {
        alt: String,
        url: String,
        local_path: Option<String>,
        id: usize,
        download_failed: bool,
    },
    Link { text: String, url: String, is_external: bool },
}

/// The span that a cached span stands for.
pub open spec fn span_of_cached(s: CachedSpan) -> SpanView {
    SpanView {
        text: s.text@,
        style: style_of_data(s.style),
        link: match s.link {
            Some(l) => Some((l.url@, l.is_external)),
            None => None,
        },
    }
}

/// The line that a cached line stands for.
pub open spec fn line_of_cached(c: CachedLine) -> LineView {
    match c {
        CachedLine::Styled { spans } => LineView::Styled(spans@.map_values(|s: CachedSpan| span_of_cached(s))),
        CachedLine::Empty => LineView::Styled(Seq::empty()),
        CachedLine::Image { alt, url, local_path, id, download_failed } => LineView::Image(
            crate::image::ImageView {
                alt: alt@,
                url: url@,
                local_path: match local_path {
                    Some(p) => Some(p@),
                    None => None,
                },
                id,
                download_failed,
            },
        ),
        CachedLine::Link { text, url, is_external } => LineView::Link(text@, url@, is_external),
    }
}

/// The serializable form of a content line; reading it back gives the same line.
pub fn cached_from_line(lc: &LineContent) -> (res: CachedLine)
    ensures
        line_of_cached(res) == line_view(*lc),
{
    match lc {
        LineContent::Styled(spans) => {
            let mut out: Vec<CachedSpan> = Vec::new();
            let mut i: usize = 0;
            while i < spans.len()
                invariant
                    i <= spans@.len(),
                    out@.len() == i,
                    forall|k: int| 0 <= k < i ==> #[trigger] span_of_cached(out@[k]) == crate::image::span_view(spans@[k]),
                decreases spans@.len() - i,
            {
                let sp = &spans[i];
                let link = match &sp.link {
                    Some(l) => Some(CachedLinkInfo { url: owned(l.url.as_str()), is_external: l.is_external }),
                    None => None,
                };
                out.push(CachedSpan { text: owned(sp.text.as_str()), style: crate::style::style_to_data(sp.style), link });
                i = i + 1;
            }
            let res = CachedLine::Styled { spans: out };
            assert(out@.map_values(|s: CachedSpan| span_of_cached(s)) =~= spans_view(spans@));
            res
        },
        LineContent::Image(n) => CachedLine::Image {
            alt: owned(n.alt.as_str()),
            url: owned(n.url.as_str()),
            local_path: match &n.local_path {
                Some(p) => Some(owned(p.as_str())),
                None => None,
            },
            id: n.id,
            download_failed: n.download_failed,
        },
        LineContent::Link(n) => CachedLine::Link {
            text: owned(n.text.as_str()),
            url: owned(n.url.as_str()),
            is_external: n.is_external,
        },
    }
}

/// The content line of a serializable line.
pub fn line_from_cached(c: &CachedLine) -> (res: LineContent)
    ensures
        line_view(res) == line_of_cached(*c),
{
    match c {
        CachedLine::Styled { spans } => {
            let mut out: Vec<StyledSpan> = Vec::new();
            let mut i: usize = 0;
            while i < spans.len()
                invariant
                    i <= spans@.len(),
                    out@.len() == i,
                    forall|k: int| 0 <= k < i ==> #[trigger] crate::image::span_view(out@[k]) == span_of_cached(spans@[k]),
                decreases spans@.len() - i,
            {
                let sp = &spans[i];
                let style = crate::style::style_from_data(&sp.style);
                let text = owned(sp.text.as_str());
                let s = match &sp.link {
                    Some(l) => StyledSpan::with_link(
                        text,
                        style,
                        crate::image::LinkInfo { url: owned(l.url.as_str()), is_external: l.is_external },
                    ),
                    None => StyledSpan::new(text, style),
                };
                out.push(s);
                i = i + 1;
            }
            assert(spans_view(out@) =~= spans@.map_values(|s: CachedSpan| span_of_cached(s)));
            LineContent::Styled(out)
        },
        CachedLine::Empty => {
            let v: Vec<StyledSpan> = Vec::new();
            assert(spans_view(v@) =~= Seq::<SpanView>::empty());
            LineContent::Styled(v)
        },
        CachedLine::Image { alt, url, local_path, id, download_failed } => LineContent::Image(
            crate::image::ImageNode {
                alt: owned(alt.as_str()),
                url: owned(url.as_str()),
                local_path: match local_path {
                    Some(p) => Some(owned(p.as_str())),
                    None => None,
                },
                id: *id,
                download_failed: *download_failed,
            },
        ),
        CachedLine::Link { text, url, is_external } => LineContent::Link(
            crate::image::LinkNode { text: owned(text.as_str()), url: owned(url.as_str()), is_external: *is_external },
        ),
    }
}

/// The file name of a chapter's cache: `chapter_<index>.json`.
pub fn chapter_cache_name(chapter_idx: usize) -> (res: String)
    ensures
        res@ == "chapter_"@ + crate::text::decimal(chapter_idx as nat) + ".json"@,
{
    let mut s = owned("chapter_");
    crate::text::push_decimal(&mut s, chapter_idx as u64);
    push_str(&mut s, ".json");
    s
}

// ───────────────────────────── package documents ─────────────────────────────

/// The path of the package document named by `META-INF/container.xml`: the `full-path` of the
/// first `rootfile` element that has a non-empty one.
pub open spec fn container_path(toks: Seq<XmlToken>) -> Option<Seq<char>>
    decreases toks.len(),
{
    if toks.len() == 0 {
        None
    } else {
        match toks[0] {
            XmlToken::Empty(name, attrs) => if name == "rootfile"@ && first_attr(attrs, "full-path"@).len() > 0 {
                Some(first_attr(attrs, "full-path"@))
            } else {
                container_path(toks.skip(1))
            },
            _ => container_path(toks.skip(1)),
        }
    }
}

/// The message when the container names no package document.
pub open spec fn no_rootfile_message() -> Seq<char> {
    "container.xml 中未找到 rootfile"@
}

/// Finds the package document's path in the content of `META-INF/container.xml`.
pub fn parse_container(content: &str) -> (res: Result<String, String>)
    ensures
        match container_path(before_eof(xml_tokens(content@))) {
            Some(p) => res matches Ok(r) && r@ == p,
            None => res matches Err(m) && m@ == no_rootfile_message(),
        },
{
    let toks = read_tokens(content);
    let ghost tv = tokens_view(toks@);
    let mut i: usize = 0;
    assert(tv.skip(0) =~= tv);
    while i < toks.len()
        invariant
            i <= toks@.len(),
            tv == tokens_view(toks@),
            tv == before_eof(xml_tokens(content@)),
            container_path(tv) == container_path(tv.skip(i as int)),
        decreases toks@.len() - i,
    {
        assert(tv.skip(i as int)[0] == token_of(toks@[i as int]));
        assert(tv.skip(i as int).skip(1) =~= tv.skip(i + 1));
        if let XmlEvent::Empty { name, attrs } = &toks[i] {
            if str_eq(name.as_str(), "rootfile") {
                let path = attr_str(attrs, "full-path");
                if chars_of(path.as_str()).len() > 0 {
                    assert(container_path(tv.skip(i as int)) == Some(path@));
                    return Ok(path);
                }
            }
        }
        i = i + 1;
    }
    assert(tv.skip(i as int) =~= Seq::<XmlToken>::empty());
    Err(owned("container.xml 中未找到 rootfile"))
}

/// The package document read so far: metadata, manifest entries (id, href, media type), spine
/// entries (idref, href), the table of contents reference, and where the reader is.
pub struct OpfState {
    pub title: Seq<char>,
    pub author: Seq<char>,
    pub language: Seq<char>,
    pub manifest: Seq<(Seq<char>, Seq<char>, Seq<char>)>,
    pub spine: Seq<(Seq<char>, Seq<char>)>,
    pub ncx: Option<Seq<char>>,
    pub in_metadata: bool,
    pub in_spine: bool,
    pub current_tag: Seq<char>,
}

/// The first manifest position with identifier `id`.
pub open spec fn manifest_index(m: Seq<(Seq<char>, Seq<char>, Seq<char>)>, id: Seq<char>) -> Option<nat>
    decreases m.len(),
{
    if m.len() == 0 {
        None
    } else {
        match manifest_index(m.drop_last(), id) {
            Some(k) => Some(k),
            None => if m.last().0 == id {
                Some((m.len() - 1) as nat)
            } else {
                None
            },
        }
    }
}

/// The manifest with an entry stored under its identifier, replacing an entry with that
/// identifier.
pub open spec fn manifest_insert(m: Seq<(Seq<char>, Seq<char>, Seq<char>)>, e: (Seq<char>, Seq<char>, Seq<char>)) -> Seq<
    (Seq<char>, Seq<char>, Seq<char>),
> {
    match manifest_index(m, e.0) {
        Some(k) => m.update(k as int, e),
        None => m.push(e),
    }
}

/// The href of the manifest entry with identifier `id`, or empty.
pub open spec fn manifest_href(m: Seq<(Seq<char>, Seq<char>, Seq<char>)>, id: Seq<char>) -> Seq<char> {
    match manifest_index(m, id) {
        Some(k) => m[k as int].1,
        None => Seq::empty(),
    }
}

/// A media type naming the NCX table of contents.
pub open spec fn is_ncx_type(mt: Seq<char>) -> bool {
    find_sub(mt, "ncx"@) is Some || find_sub(mt, "dtbncx"@) is Some
}

/// A manifest `item` element: stored when it has an id, and taken as the table of contents
/// when its media type is NCX.
pub open spec fn opf_item(st: OpfState, attrs: Seq<(Seq<char>, Seq<char>)>) -> OpfState {
    let id = first_attr(attrs, "id"@);
    let href = first_attr(attrs, "href"@);
    let mt = first_attr(attrs, "media-type"@);
    if id.len() == 0 {
        st
    } else {
        OpfState {
            ncx: if is_ncx_type(mt) {
                Some(href)
            } else {
                st.ncx
            },
            manifest: manifest_insert(st.manifest, (id, href, mt)),
            ..st
        }
    }
}

/// One token of the package document.
pub open spec fn opf_step(st: OpfState, tok: XmlToken) -> OpfState {
    match tok {
        XmlToken::Start(name, attrs) => {
            let st1 = OpfState { current_tag: name, ..st };
            if name == "metadata"@ {
                OpfState { in_metadata: true, ..st1 }
            } else if name == "spine"@ {
                let toc = first_attr(attrs, "toc"@);
                OpfState {
                    in_spine: true,
                    ncx: if toc.len() > 0 {
                        Some(toc)
                    } else {
                        st1.ncx
                    },
                    ..st1
                }
            } else if name == "item"@ && !st1.in_spine {
                opf_item(st1, attrs)
            } else {
                st1
            }
        },
        XmlToken::Empty(name, attrs) => if name == "item"@ && !st.in_spine {
            opf_item(st, attrs)
        } else if name == "itemref"@ && st.in_spine {
            let idref = first_attr(attrs, "idref"@);
            if idref.len() > 0 {
                OpfState { spine: st.spine.push((idref, manifest_href(st.manifest, idref))), ..st }
            } else {
                st
            }
        } else {
            st
        },
        XmlToken::End(name) => {
            let st1 = if name == "metadata"@ {
                OpfState { in_metadata: false, ..st }
            } else if name == "spine"@ {
                OpfState { in_spine: false, ..st }
            } else {
                st
            };
            OpfState { current_tag: Seq::empty(), ..st1 }
        },
        XmlToken::Text(t) => if st.in_metadata {
            if st.current_tag == "title"@ {
                OpfState { title: t, ..st }
            } else if st.current_tag == "creator"@ {
                OpfState { author: t, ..st }
            } else if st.current_tag == "language"@ {
                OpfState { language: t, ..st }
            } else {
                st
            }
        } else {
            st
        },
        _ => st,
    }
}

/// The package document after the given tokens.
pub open spec fn opf_walk(toks: Seq<XmlToken>) -> OpfState
    decreases toks.len(),
{
    if toks.len() == 0 {
        OpfState {
            title: Seq::empty(),
            author: Seq::empty(),
            language: Seq::empty(),
            manifest: Seq::empty(),
            spine: Seq::empty(),
            ncx: None,
            in_metadata: false,
            in_spine: false,
            current_tag: Seq::empty(),
        }
    } else {
        opf_step(opf_walk(toks.drop_last()), toks.last())
    }
}

/// What the package document holds.
pub struct OpfData {
    pub metadata: EpubMetadata,
    pub manifest: Vec<ManifestItem>,
    pub spine: Vec<SpineItem>,
    pub ncx: Option<String>,
}

/// The views of manifest entries.
pub open spec fn manifest_view(m: Seq<ManifestItem>) -> Seq<(Seq<char>, Seq<char>, Seq<char>)> {
    m.map_values(|e: ManifestItem| (e.id@, e.href@, e.media_type@))
}

/// The views of spine entries.
pub open spec fn spine_view(s: Seq<SpineItem>) -> Seq<(Seq<char>, Seq<char>)> {
    s.map_values(|e: SpineItem| (e.idref@, e.href@))
}

fn manifest_index_exec(m: &Vec<ManifestItem>, id: &str) -> (res: Option<usize>)
    ensures
        match res {
            Some(r) => manifest_index(manifest_view(m@), id@) == Some(r as nat) && r < m@.len(),
            None => manifest_index(manifest_view(m@), id@) is None,
        },
{
    let ghost mv = manifest_view(m@);
    let mut i: usize = 0;
    while i < m.len()
        invariant
            i <= m@.len(),
            mv == manifest_view(m@),
            manifest_index(mv.take(i as int), id@) is None,
        decreases m@.len() - i,
    {
        assert(mv.take(i + 1).drop_last() =~= mv.take(i as int));
        assert(mv.take(i + 1).last() == (m@[i as int].id@, m@[i as int].href@, m@[i as int].media_type@));
        if str_eq(m[i].id.as_str(), id) {
            proof {
                lemma_manifest_index_prefix(mv, id@, i + 1);
            }
            return Some(i);
        }
        i = i + 1;
    }
    assert(mv.take(i as int) =~= mv);
    None
}

proof fn lemma_manifest_index_prefix(m: Seq<(Seq<char>, Seq<char>, Seq<char>)>, id: Seq<char>, n: int)
    requires
        1 <= n <= m.len(),
        manifest_index(m.take(n - 1), id) is None,
        m[n - 1].0 == id,
    ensures
        manifest_index(m, id) == Some((n - 1) as nat),
    decreases m.len(),
{
    assert(m.take(n).drop_last() =~= m.take(n - 1));
    if n < m.len() {
        assert(m.drop_last().take(n) =~= m.take(n));
        assert(m.drop_last().take(n - 1) =~= m.take(n - 1));
        lemma_manifest_index_prefix(m.drop_last(), id, n);
    } else {
        assert(m.take(n) =~= m);
    }
}

fn contains_str(s: &str, p: &str) -> (res: bool)
    ensures
        res == (find_sub(s@, p@) is Some),
{
    let v = chars_of(s);
    let pv = chars_of(p);
    find_sub_exec(&v, 0, &pv).is_some()
}

/// The computed state of a package document walk.
struct OpfRun {
    title: String,
    author: String,
    language: String,
    manifest: Vec<ManifestItem>,
    spine: Vec<SpineItem>,
    ncx: Option<String>,
    in_metadata: bool,
    in_spine: bool,
    current_tag: String,
}

impl OpfRun {
    spec fn oview(&self) -> OpfState {
        OpfState {
            title: self.title@,
            author: self.author@,
            language: self.language@,
            manifest: manifest_view(self.manifest@),
            spine: spine_view(self.spine@),
            ncx: crate::app::opt_view(self.ncx),
            in_metadata: self.in_metadata,
            in_spine: self.in_spine,
            current_tag: self.current_tag@,
        }
    }

    fn item(&mut self, attrs: &Vec<(String, String)>)
        ensures
            final(self).oview() == opf_item(old(self).oview(), attrs_view(attrs@)),
    {
        let id = attr_str(attrs, "id");
        let href = attr_str(attrs, "href");
        let mt = attr_str(attrs, "media-type");
        if chars_of(id.as_str()).len() == 0 {
            return;
        }
        let ghost st0 = self.oview();
        let is_ncx = contains_str(mt.as_str(), "ncx") || contains_str(mt.as_str(), "dtbncx");
        assert(is_ncx == is_ncx_type(mt@));
        if is_ncx {
            self.ncx = Some(owned(href.as_str()));
        }
        let ghost before = manifest_view(self.manifest@);
        let ghost e = (id@, href@, mt@);
        let k = manifest_index_exec(&self.manifest, id.as_str());
        let entry = ManifestItem { id, href, media_type: mt };
        match k {
            Some(k) => {
                self.manifest.set(k, entry);
                assert(manifest_view(self.manifest@) =~= before.update(k as int, e));
            },
            None => {
                self.manifest.push(entry);
                assert(manifest_view(self.manifest@) =~= before.push(e));
            },
        }
        assert(manifest_view(self.manifest@) == manifest_insert(st0.manifest, e));
        assert(self.oview().ncx == (if is_ncx_type(mt@) { Some(href@) } else { st0.ncx }));
    }

    fn step(&mut self, ev: &XmlEvent)
        ensures
            final(self).oview() == opf_step(old(self).oview(), token_of(*ev)),
    {
        match ev {
            XmlEvent::Start { name, attrs } => {
                self.current_tag = owned(name.as_str());
                if str_eq(name.as_str(), "metadata") {
                    self.in_metadata = true;
                } else if str_eq(name.as_str(), "spine") {
                    self.in_spine = true;
                    let toc = attr_str(attrs, "toc");
                    if chars_of(toc.as_str()).len() > 0 {
                        self.ncx = Some(toc);
                    }
                } else if str_eq(name.as_str(), "item") && !self.in_spine {
                    self.item(attrs);
                }
            },
            XmlEvent::Empty { name, attrs } => {
                if str_eq(name.as_str(), "item") && !self.in_spine {
                    self.item(attrs);
                } else if str_eq(name.as_str(), "itemref") && self.in_spine {
                    let idref = attr_str(attrs, "idref");
                    if chars_of(idref.as_str()).len() > 0 {
                        let href = match manifest_index_exec(&self.manifest, idref.as_str()) {
                            Some(k) => owned(self.manifest[k].href.as_str()),
                            None => String::new(),
                        };
                        let ghost before = spine_view(self.spine@);
                        let ghost e = (idref@, href@);
                        self.spine.push(SpineItem { idref, href });
                        assert(spine_view(self.spine@) =~= before.push(e));
                    }
                }
            },
            XmlEvent::End { name } => {
                if str_eq(name.as_str(), "metadata") {
                    self.in_metadata = false;
                } else if str_eq(name.as_str(), "spine") {
                    self.in_spine = false;
                }
                self.current_tag = String::new();
            },
            XmlEvent::Text(t) => {
                if self.in_metadata {
                    let tag = self.current_tag.as_str();
                    if str_eq(tag, "title") {
                        self.title = owned(t.as_str());
                    } else if str_eq(tag, "creator") {
                        self.author = owned(t.as_str());
                    } else if str_eq(tag, "language") {
                        self.language = owned(t.as_str());
                    }
                }
            },
            _ => {},
        }
    }
}

/// Reads the package document: metadata, manifest, reading order and the reference to the
/// table of contents.
pub fn parse_opf(content: &str) -> (res: OpfData)
    ensures
        ({
            let st = opf_walk(before_eof(xml_tokens(content@)));
            &&& res.metadata.title@ == st.title
            &&& res.metadata.author@ == st.author
            &&& res.metadata.language@ == st.language
            &&& manifest_view(res.manifest@) == st.manifest
            &&& spine_view(res.spine@) == st.spine
            &&& crate::app::opt_view(res.ncx) == st.ncx
        }),
{
    let toks = read_tokens(content);
    let ghost tv = tokens_view(toks@);
    let mut run = OpfRun {
        title: String::new(),
        author: String::new(),
        language: String::new(),
        manifest: Vec::new(),
        spine: Vec::new(),
        ncx: None,
        in_metadata: false,
        in_spine: false,
        current_tag: String::new(),
    };
    assert(run.oview() =~= opf_walk(tv.take(0))) by {
        assert(manifest_view(run.manifest@) =~= Seq::<(Seq<char>, Seq<char>, Seq<char>)>::empty());
        assert(spine_view(run.spine@) =~= Seq::<(Seq<char>, Seq<char>)>::empty());
    }
    let mut i: usize = 0;
    while i < toks.len()
        invariant
            i <= toks@.len(),
            tv == tokens_view(toks@),
            tv == before_eof(xml_tokens(content@)),
            run.oview() == opf_walk(tv.take(i as int)),
        decreases toks@.len() - i,
    {
        assert(tv.take(i + 1).drop_last() =~= tv.take(i as int));
        assert(tv.take(i + 1).last() == token_of(toks@[i as int]));
        run.step(&toks[i]);
        i = i + 1;
    }
    assert(tv.take(i as int) =~= tv);
    OpfData {
        metadata: EpubMetadata { title: run.title, author: run.author, language: run.language },
        manifest: run.manifest,
        spine: run.spine,
        ncx: run.ncx,
    }
}

// ───────────────────────────── table of contents ─────────────────────────────

/// The table of contents read so far: entries (title, href, level) and where the reader is.
pub struct NcxState {
    pub toc: Seq<(Seq<char>, Seq<char>, usize)>,
    pub in_navpoint: bool,
    pub in_navlabel: bool,
    pub depth: usize,
    pub title: Seq<char>,
    pub href: Seq<char>,
}

/// One token of the NCX document: a `navPoint` opens an entry one level deeper, its label's
/// first non-blank text (trimmed) is the title, its `content` `src` (before any `#`) the href,
/// and the entry is kept at the end of the `navPoint` when it has a title.
pub open spec fn ncx_step(st: NcxState, tok: XmlToken) -> NcxState {
    match tok {
        XmlToken::Start(name, _) => if name == "navPoint"@ {
            NcxState {
                in_navpoint: true,
                depth: crate::xhtml::capu(st.depth + 1),
                title: Seq::empty(),
                href: Seq::empty(),
                ..st
            }
        } else if name == "navLabel"@ && st.in_navpoint {
            NcxState { in_navlabel: true, ..st }
        } else {
            st
        },
        XmlToken::Empty(name, attrs) => if name == "content"@ && st.in_navpoint {
            NcxState { href: crate::search::before_sub(first_attr(attrs, "src"@), seq!['#']), ..st }
        } else {
            st
        },
        XmlToken::Text(t) => if st.in_navlabel && trim(t).len() > 0 && st.title.len() == 0 {
            NcxState { title: trim(t), ..st }
        } else {
            st
        },
        XmlToken::End(name) => if name == "navPoint"@ {
            let d = crate::xhtml::capu(st.depth - 1);
            NcxState {
                toc: if st.title.len() > 0 {
                    st.toc.push((st.title, st.href, st.depth))
                } else {
                    st.toc
                },
                depth: d,
                in_navpoint: d > 0,
                ..st
            }
        } else if name == "navLabel"@ {
            NcxState { in_navlabel: false, ..st }
        } else {
            st
        },
        _ => st,
    }
}

/// The table of contents after the given tokens.
pub open spec fn ncx_walk(toks: Seq<XmlToken>) -> NcxState
    decreases toks.len(),
{
    if toks.len() == 0 {
        NcxState { toc: Seq::empty(), in_navpoint: false, in_navlabel: false, depth: 0, title: Seq::empty(), href: Seq::empty() }
    } else {
        ncx_step(ncx_walk(toks.drop_last()), toks.last())
    }
}

/// The views of table of contents entries.
pub open spec fn toc_view(t: Seq<TocEntry>) -> Seq<(Seq<char>, Seq<char>, usize)> {
    t.map_values(|e: TocEntry| (e.title@, e.href@, e.level))
}

/// Reads the table of contents of an NCX document.
pub fn parse_ncx(content: &str) -> (res: Vec<TocEntry>)
    ensures
        toc_view(res@) == ncx_walk(before_eof(xml_tokens(content@))).toc,
{
    let toks = read_tokens(content);
    let ghost tv = tokens_view(toks@);
    let mut toc: Vec<TocEntry> = Vec::new();
    let mut in_navpoint = false;
    let mut in_navlabel = false;
    let mut depth: usize = 0;
    let mut title = String::new();
    let mut href = String::new();
    let mut i: usize = 0;
    assert(toc_view(toc@) =~= Seq::<(Seq<char>, Seq<char>, usize)>::empty());
    while i < toks.len()
        invariant
            i <= toks@.len(),
            tv == tokens_view(toks@),
            tv == before_eof(xml_tokens(content@)),
            ncx_walk(tv.take(i as int)) == (NcxState {
                toc: toc_view(toc@),
                in_navpoint,
                in_navlabel,
                depth,
                title: title@,
                href: href@,
            }),
        decreases toks@.len() - i,
    {
        assert(tv.take(i + 1).drop_last() =~= tv.take(i as int));
        assert(tv.take(i + 1).last() == token_of(toks@[i as int]));
        match &toks[i] {
            XmlEvent::Start { name, .. } => {
                if str_eq(name.as_str(), "navPoint") {
                    in_navpoint = true;
                    depth = depth.saturating_add(1);
                    title = String::new();
                    href = String::new();
                } else if str_eq(name.as_str(), "navLabel") && in_navpoint {
                    in_navlabel = true;
                }
            },
            XmlEvent::Empty { name, attrs } => {
                if str_eq(name.as_str(), "content") && in_navpoint {
                    let src = chars_of(attr_str(attrs, "src").as_str());
                    let hash = vec!['#'];
                    assert(hash@ =~= seq!['#']);
                    href = crate::text::string_from_chars(&crate::search::before_sub_exec(&src, &hash));
                }
            },
            XmlEvent::Text(t) => {
                if in_navlabel && !crate::text::is_blank(t.as_str()) && chars_of(title.as_str()).len() == 0 {
                    title = crate::text::trim_string(t.as_str());
                }
            },
            XmlEvent::End { name } => {
                if str_eq(name.as_str(), "navPoint") {
                    if chars_of(title.as_str()).len() > 0 {
                        let ghost before = toc_view(toc@);
                        toc.push(TocEntry { title: owned(title.as_str()), href: owned(href.as_str()), level: depth });
                        assert(toc_view(toc@) =~= before.push((title@, href@, depth)));
                    }
                    depth = depth.saturating_sub(1);
                    in_navpoint = depth > 0;
                } else if str_eq(name.as_str(), "navLabel") {
                    in_navlabel = false;
                }
            },
            _ => {},
        }
        i = i + 1;
    }
    assert(tv.take(i as int) =~= tv);
    toc
}

/// Where the NCX table of contents lives: the href of the manifest entry that the reference
/// names, or the reference itself taken as an href; resolved against the package directory.
pub open spec fn ncx_path_spec(opf_dir: Seq<char>, ncx: Option<Seq<char>>, manifest: Seq<(Seq<char>, Seq<char>, Seq<char>)>) -> Option<
    Seq<char>,
> {
    match ncx {
        Some(r) => Some(
            resolve_href_spec(
                opf_dir,
                match manifest_index(manifest, r) {
                    Some(k) => manifest[k as int].1,
                    None => r,
                },
            ),
        ),
        None => None,
    }
}

/// The archive path of the NCX table of contents, if the package names one.
pub fn ncx_path(opf_dir: &str, ncx: &Option<String>, manifest: &Vec<ManifestItem>) -> (res: Option<String>)
    ensures
        crate::app::opt_view(res) == ncx_path_spec(opf_dir@, crate::app::opt_view(*ncx), manifest_view(manifest@)),
{
    match ncx {
        Some(r) => {
            let href = match manifest_index_exec(manifest, r.as_str()) {
                Some(k) => owned(manifest[k].href.as_str()),
                None => owned(r.as_str()),
            };
            Some(resolve_href(opf_dir, href.as_str()))
        },
        None => None,
    }
}


// ───────────────────────────── the archive ─────────────────────────────

/// Whether the `zip` crate reads `bytes` as a ZIP archive.
pub uninterp spec fn zip_archive_ok(bytes: Seq<u8>) -> bool;

/// The contents of the entry called `name` in the ZIP archive `bytes`, as the `zip` crate
/// reads them; `None` when it cannot (not an archive, no such entry, or an entry it cannot
/// read).
pub uninterp spec fn zip_entry_bytes(bytes: Seq<u8>, name: Seq<char>) -> Option<Seq<u8>>;

/// `zip::ZipArchive::new` on the bytes of an archive held in memory: whether it reads them.
/// The result depends on the bytes alone, and is named.
#[verifier::external_body]
fn zip_opens(bytes: &[u8]) -> (res: bool)
    ensures
        res == zip_archive_ok(bytes@),
{
    zip::ZipArchive::new(std::io::Cursor::new(bytes)).is_ok()
}

/// One entry of an archive held in memory, read with the `zip` crate (`ZipArchive::new`, then
/// `by_name` and `read_to_end` on the entry). The result depends on the bytes and the name
/// alone, and is named.
#[verifier::external_body]
fn zip_read(bytes: &[u8], name: &str) -> (res: Option<Vec<u8>>)
    ensures
        match res {
            Some(b) => zip_entry_bytes(bytes@, name@) == Some(b@),
            None => zip_entry_bytes(bytes@, name@) is None,
        },
{
    let mut archive = zip::ZipArchive::new(std::io::Cursor::new(bytes)).ok()?;
    let mut entry = archive.by_name(name).ok()?;
    let mut buf = Vec::new();
    std::io::Read::read_to_end(&mut entry, &mut buf).ok()?;
    Some(buf)
}

/// `String::from_utf8`: the text the bytes encode, or `None` when they are not valid UTF-8.
#[verifier::external_body]
fn utf8_text(bytes: Vec<u8>) -> (res: Option<String>)
    ensures
        res is Some <==> vstd::utf8::valid_utf8(bytes@),
        res matches Some(t) ==> t@ == vstd::utf8::decode_utf8(bytes@),
{
    match String::from_utf8(bytes) {
        Ok(t) => Some(t),
        Err(_) => None,
    }
}

/// The message for an entry that the archive does not give.
pub open spec fn missing_entry_message(name: Seq<char>) -> Seq<char> {
    "ZIP 中未找到文件: "@ + name
}

/// The message for an entry that is not text.
pub open spec fn not_utf8_message(name: Seq<char>) -> Seq<char> {
    "文件不是有效 UTF-8: "@ + name
}

/// The message for bytes that are not a ZIP archive.
pub open spec fn bad_archive_message() -> Seq<char> {
    "无法解析 EPUB ZIP 结构"@
}

/// The text of an archive entry, or the message that refuses it.
pub open spec fn entry_text_spec(bytes: Seq<u8>, name: Seq<char>) -> Result<Seq<char>, Seq<char>> {
    match zip_entry_bytes(bytes, name) {
        None => Err(missing_entry_message(name)),
        Some(b) => if vstd::utf8::valid_utf8(b) {
            Ok(vstd::utf8::decode_utf8(b))
        } else {
            Err(not_utf8_message(name))
        },
    }
}

/// Reads an entry of the archive as UTF-8 text.
pub fn read_entry_text(bytes: &[u8], name: &str) -> (res: Result<String, String>)
    ensures
        match res {
            Ok(t) => entry_text_spec(bytes@, name@) == Ok::<Seq<char>, Seq<char>>(t@),
            Err(m) => entry_text_spec(bytes@, name@) == Err::<Seq<char>, Seq<char>>(m@),
        },
{
    match zip_read(bytes, name) {
        None => {
            let mut m = owned("ZIP 中未找到文件: ");
            push_str(&mut m, name);
            Err(m)
        },
        Some(b) => match utf8_text(b) {
            Some(t) => Ok(t),
            None => {
                let mut m = owned("文件不是有效 UTF-8: ");
                push_str(&mut m, name);
                Err(m)
            },
        },
    }
}

/// Reads an entry of the archive as bytes.
pub fn read_entry_bytes(bytes: &[u8], name: &str) -> (res: Result<Vec<u8>, String>)
    ensures
        match res {
            Ok(b) => zip_entry_bytes(bytes@, name@) == Some(b@),
            Err(m) => zip_entry_bytes(bytes@, name@) is None && m@ == missing_entry_message(name@),
        },
{
    match zip_read(bytes, name) {
        Some(b) => Ok(b),
        None => {
            let mut m = owned("ZIP 中未找到文件: ");
            push_str(&mut m, name);
            Err(m)
        },
    }
}

/// The path of the container document inside an EPUB.
pub open spec fn container_entry() -> Seq<char> {
    "META-INF/container.xml"@
}

/// What opening an EPUB held in memory gives: the package document's path and text, or the
/// message that refuses the archive.
pub open spec fn package_spec(bytes: Seq<u8>) -> Result<(Seq<char>, Seq<char>), Seq<char>> {
    if !zip_archive_ok(bytes) {
        Err(bad_archive_message())
    } else {
        match entry_text_spec(bytes, container_entry()) {
            Err(m) => Err(m),
            Ok(c) => match container_path(before_eof(xml_tokens(c))) {
                None => Err(no_rootfile_message()),
                Some(p) => match entry_text_spec(bytes, p) {
                    Err(m) => Err(m),
                    Ok(t) => Ok((p, t)),
                },
            },
        }
    }
}

/// The text of the table of contents for a package: empty when the package names none or
/// the archive does not give it as text.
pub open spec fn toc_text_spec(bytes: Seq<u8>, opf_path: Seq<char>, opf_text: Seq<char>) -> Option<Seq<char>> {
    let st = opf_walk(before_eof(xml_tokens(opf_text)));
    match ncx_path_spec(parent_dir_spec(opf_path), st.ncx, st.manifest) {
        None => None,
        Some(n) => match entry_text_spec(bytes, n) {
            Ok(t) => Some(t),
            Err(_) => Some(Seq::empty()),
        },
    }
}

impl EpubBook {
    /// Opens an EPUB whose file `path` holds `bytes`: the container names the package
    /// document, which gives the metadata, the manifest and the reading order, and names the
    /// NCX table of contents (read as empty when the archive does not give it).
    pub fn open_archive(path: &str, bytes: &[u8]) -> (res: Result<EpubBook, String>)
        ensures
            match package_spec(bytes@) {
                Err(m) => res matches Err(e) && e@ == m,
                Ok((opf_path, opf_text)) => res matches Ok(book) && {
                    let st = opf_walk(before_eof(xml_tokens(opf_text)));
                    &&& book.file_path@ == path@
                    &&& book.opf_dir@ == parent_dir_spec(opf_path)
                    &&& book.metadata.title@ == st.title
                    &&& book.metadata.author@ == st.author
                    &&& book.metadata.language@ == st.language
                    &&& manifest_view(book.manifest@) == st.manifest
                    &&& spine_view(book.spine@) == st.spine
                    &&& toc_view(book.toc@) == match toc_text_spec(bytes@, opf_path, opf_text) {
                        None => Seq::empty(),
                        Some(t) => ncx_walk(before_eof(xml_tokens(t))).toc,
                    }
                },
            },
    {
        if !zip_opens(bytes) {
            return Err(owned("无法解析 EPUB ZIP 结构"));
        }
        let container = match read_entry_text(bytes, "META-INF/container.xml") {
            Ok(c) => c,
            Err(m) => {
                return Err(m);
            },
        };
        let opf_path = match parse_container(container.as_str()) {
            Ok(p) => p,
            Err(m) => {
                return Err(m);
            },
        };
        let opf_dir = parent_dir(opf_path.as_str());
        let opf_content = match read_entry_text(bytes, opf_path.as_str()) {
            Ok(t) => t,
            Err(m) => {
                return Err(m);
            },
        };
        let opf = parse_opf(opf_content.as_str());
        let toc = match ncx_path(opf_dir.as_str(), &opf.ncx, &opf.manifest) {
            Some(n) => {
                let text = match read_entry_text(bytes, n.as_str()) {
                    Ok(t) => t,
                    Err(_) => String::new(),
                };
                parse_ncx(text.as_str())
            },
            None => {
                let t: Vec<TocEntry> = Vec::new();
                assert(toc_view(t@) =~= Seq::<(Seq<char>, Seq<char>, usize)>::empty());
                t
            },
        };
        Ok(
            EpubBook {
                metadata: opf.metadata,
                manifest: opf.manifest,
                spine: opf.spine,
                toc,
                opf_dir,
                file_path: owned(path),
            },
        )
    }

    /// The text of a chapter, read from the book's archive `bytes`; the out-of-range message
    /// for an index past the reading order.
    pub fn read_chapter(&self, bytes: &[u8], chapter_index: usize) -> (res: Result<String, String>)
        ensures
            chapter_index >= self.spine@.len() ==> (res matches Err(m) && m@ == "章节索引超出范围: "@
                + crate::text::decimal(chapter_index as nat) + " >= "@ + crate::text::decimal(
                self.spine@.len() as nat,
            )),
            chapter_index < self.spine@.len() ==> ({
                let p = resolve_href_spec(self.opf_dir@, self.spine@[chapter_index as int].href@);
                match res {
                    Ok(t) => entry_text_spec(bytes@, p) == Ok::<Seq<char>, Seq<char>>(t@),
                    Err(m) => entry_text_spec(bytes@, p) == Err::<Seq<char>, Seq<char>>(m@),
                }
            }),
    {
        let p = match self.chapter_path(chapter_index) {
            Ok(p) => p,
            Err(m) => {
                return Err(m);
            },
        };
        read_entry_text(bytes, p.as_str())
    }

    /// The bytes of an image of the book (its `href` resolved against the package
    /// directory), read from the book's archive `bytes`, with the archive path they belong at.
    pub fn image_data(&self, bytes: &[u8], href: &str) -> (res: Result<(String, Vec<u8>), String>)
        ensures
            ({
                let p = resolve_href_spec(self.opf_dir@, href@);
                match res {
                    Ok((q, b)) => q@ == p && zip_entry_bytes(bytes@, p) == Some(b@),
                    Err(m) => zip_entry_bytes(bytes@, p) is None && m@ == missing_entry_message(p),
                }
            }),
    {
        let p = resolve_href(self.opf_dir.as_str(), href);
        match read_entry_bytes(bytes, p.as_str()) {
            Ok(b) => Ok((p, b)),
            Err(m) => Err(m),
        }
    }
}


// ───────────────────────────── chapters as lines ─────────────────────────────

/// The lines of a chapter's XHTML `text`, with the given image files and table widths, and
/// its paragraphs merged.
pub open spec fn chapter_lines_spec(text: Seq<char>, image_paths: Seq<Option<Seq<char>>>, table_widths: Seq<Seq<usize>>) -> Seq<LineView> {
    merge_paragraphs_spec(crate::xhtml::xhtml_lines_spec(xml_tokens(text), image_paths, table_widths))
}

/// The lines of a chapter's XHTML: its images shown with the given local files (in the order
/// of `xhtml_image_sources`), its tables with the given column widths, and its paragraphs
/// merged.
pub fn chapter_lines(text: &str, image_paths: &Vec<Option<String>>, table_widths: &Vec<Vec<usize>>) -> (res: Vec<LineContent>)
    ensures
        lines_view(res@) == chapter_lines_spec(
            text@,
            crate::xhtml::paths_view(image_paths@),
            crate::xhtml::widths_view(table_widths@),
        ),
{
    merge_paragraphs(crate::xhtml::xhtml_to_lines(text, image_paths, table_widths))
}

impl EpubBook {
    /// The title a reader shows for the book: its own, or `filename` when it has none.
    pub fn display_title(&self, filename: &str) -> (res: String)
        ensures
            res@ == if self.metadata.title@.len() == 0 { filename@ } else { self.metadata.title@ },
    {
        if chars_of(self.metadata.title.as_str()).len() == 0 {
            owned(filename)
        } else {
            owned(self.metadata.title.as_str())
        }
    }
}

} // verus!
