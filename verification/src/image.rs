//! Content lines: styled text, image placeholders and links; image URLs and cache names.
use vstd::prelude::*;
use crate::style::Style;
use crate::dashboard::is_http_url;
use crate::search::{before_sub, before_sub_exec};
use crate::text::{chars_of, owned, push_char, push_str, string_from_chars, trim, trim_string, str_eq};

verus! {

/// An image node extracted from a document.
#[derive(Debug, Clone)]
pub struct ImageNode {
    /// Alt text (may be empty).
    pub alt: String,
    /// Original URL or path from the source.
    pub url: String,
    /// Resolved local path, when the image was found or cached.
    pub local_path: Option<String>,
    /// Unique index for focus navigation.
    pub id: usize,
    /// Whether a remote download was attempted and failed.
    pub download_failed: bool,
}

/// A hyperlink occupying a line of its own.
#[derive(Debug, Clone)]
pub struct LinkNode {
    /// Display text of the link.
    pub text: String,
    /// The URL / href value.
    pub url: String,
    /// Whether this is an external (http/https) link.
    pub is_external: bool,
}

/// The target of an inline link.
#[derive(Debug, Clone)]
pub struct LinkInfo {
    pub url: String,
    pub is_external: bool,
}

/// A piece of text with one style, possibly part of a link.
#[derive(Debug, Clone)]
pub struct StyledSpan {
    pub text: String,
    pub style: Style,
    pub link: Option<LinkInfo>,
}

impl StyledSpan {
    /// A span outside any link.
    pub fn new(text: String, style: Style) -> (res: StyledSpan)
        ensures
            res.text == text,
            res.style == style,
            res.link is None,
    {
        StyledSpan { text, style, link: None }
    }

    /// A span that belongs to a link.
    pub fn with_link(text: String, style: Style, link: LinkInfo) -> (res: StyledSpan)
        ensures
            res.text == text,
            res.style == style,
            res.link == Some(link),
    {
        StyledSpan { text, style, link: Some(link) }
    }
}

/// A content line: styled text, an image placeholder, or a link.
#[derive(Debug, Clone)]
pub enum LineContent {
    /// Normal styled text line.
    Styled(Vec<StyledSpan>),
    /// Image placeholder (occupies one visual line).
    Image(ImageNode),
    /// Hyperlink (occupies one visual line).
    Link(LinkNode),
}

/// The plain-value view of a span: its text, its style and its link target.
pub struct SpanView {
    pub text: Seq<char>,
    pub style: Style,
    pub link: Option<(Seq<char>, bool)>,
}

/// The plain-value view of an image node.
pub struct ImageView {
    pub alt: Seq<char>,
    pub url: Seq<char>,
    pub local_path: Option<Seq<char>>,
    pub id: usize,
    pub download_failed: bool,
}

/// The plain-value view of a content line.
pub enum LineView {
    Styled(Seq<SpanView>),
    Image(ImageView),
    Link(Seq<char>, Seq<char>, bool),
}

/// The view of a span.
pub open spec fn span_view(s: StyledSpan) -> SpanView {
    SpanView {
        text: s.text@,
        style: s.style,
        link: match s.link {
            Some(l) => Some((l.url@, l.is_external)),
            None => None,
        },
    }
}

/// The views of a sequence of spans.
pub open spec fn spans_view(s: Seq<StyledSpan>) -> Seq<SpanView> {
    s.map_values(|x: StyledSpan| span_view(x))
}

/// The view of an image node.
pub open spec fn image_view(n: ImageNode) -> ImageView {
    ImageView {
        alt: n.alt@,
        url: n.url@,
        local_path: match n.local_path {
            Some(p) => Some(p@),
            None => None,
        },
        id: n.id,
        download_failed: n.download_failed,
    }
}

/// The view of a content line.
pub open spec fn line_view(l: LineContent) -> LineView {
    match l {
        LineContent::Styled(spans) => LineView::Styled(spans_view(spans@)),
        LineContent::Image(n) => LineView::Image(image_view(n)),
        LineContent::Link(n) => LineView::Link(n.text@, n.url@, n.is_external),
    }
}

/// The views of a sequence of lines.
pub open spec fn lines_view(s: Seq<LineContent>) -> Seq<LineView> {
    s.map_values(|x: LineContent| line_view(x))
}

/// The ids of the image lines, in order.
pub open spec fn image_ids(lines: Seq<LineView>) -> Seq<usize>
    decreases lines.len(),
{
    if lines.len() == 0 {
        Seq::empty()
    } else {
        let rest = image_ids(lines.drop_last());
        match lines.last() {
            LineView::Image(iv) => rest.push(iv.id),
            _ => rest,
        }
    }
}

/// Ids that count up from 0 by the images, held at `usize::MAX` once they reach it.
pub open spec fn counted_ids(n: nat) -> Seq<usize> {
    Seq::new(n, |k: int| if k < usize::MAX { k as usize } else { usize::MAX })
}

/// A copy of a link target.
pub fn copy_link(l: &LinkInfo) -> (res: LinkInfo)
    ensures
        res.url@ == l.url@,
        res.is_external == l.is_external,
{
    LinkInfo { url: owned(l.url.as_str()), is_external: l.is_external }
}

/// A copy of a span.
pub fn copy_span(s: &StyledSpan) -> (res: StyledSpan)
    ensures
        span_view(res) == span_view(*s),
{
    let link = match &s.link {
        Some(l) => Some(copy_link(l)),
        None => None,
    };
    StyledSpan { text: owned(s.text.as_str()), style: s.style, link }
}

/// A copy of a sequence of spans.
pub fn copy_spans(v: &Vec<StyledSpan>) -> (res: Vec<StyledSpan>)
    ensures
        spans_view(res@) == spans_view(v@),
{
    let mut res: Vec<StyledSpan> = Vec::new();
    let mut i: usize = 0;
    while i < v.len()
        invariant
            i <= v@.len(),
            res@.len() == i,
            spans_view(res@) == spans_view(v@.take(i as int)),
        decreases v@.len() - i,
    {
        let ghost old_res = res@;
        let c = copy_span(&v[i]);
        res.push(c);
        assert(res@ == old_res.push(c));
        assert(old_res.len() == i);
        proof {
            assert forall|k: int| 0 <= k < res@.len() implies #[trigger] spans_view(res@)[k] == spans_view(
                v@.take(i + 1),
            )[k] by {
                if k < i {
                    assert(spans_view(old_res)[k] == spans_view(v@.take(i as int))[k]);
                    assert(res@[k] == old_res[k]);
                    assert(v@.take(i + 1)[k] == v@.take(i as int)[k]);
                }
            }
        }
        i = i + 1;
        assert(spans_view(res@) =~= spans_view(v@.take(i as int)));
    }
    assert(v@.take(v@.len() as int) =~= v@);
    res
}

/// A copy of an image node.
pub fn copy_image(n: &ImageNode) -> (res: ImageNode)
    ensures
        image_view(res) == image_view(*n),
{
    let local_path = match &n.local_path {
        Some(p) => Some(owned(p.as_str())),
        None => None,
    };
    ImageNode {
        alt: owned(n.alt.as_str()),
        url: owned(n.url.as_str()),
        local_path,
        id: n.id,
        download_failed: n.download_failed,
    }
}

/// A copy of a link node.
pub fn copy_link_node(n: &LinkNode) -> (res: LinkNode)
    ensures
        res.text@ == n.text@,
        res.url@ == n.url@,
        res.is_external == n.is_external,
{
    LinkNode { text: owned(n.text.as_str()), url: owned(n.url.as_str()), is_external: n.is_external }
}

/// A copy of a content line.
pub fn copy_line(l: &LineContent) -> (res: LineContent)
    ensures
        line_view(res) == line_view(*l),
{
    match l {
        LineContent::Styled(spans) => LineContent::Styled(copy_spans(spans)),
        LineContent::Image(n) => LineContent::Image(copy_image(n)),
        LineContent::Link(n) => LineContent::Link(copy_link_node(n)),
    }
}

/// The text of a sequence of spans, concatenated.
pub open spec fn spans_text(s: Seq<SpanView>) -> Seq<char>
    decreases s.len(),
{
    if s.len() == 0 {
        Seq::empty()
    } else {
        spans_text(s.drop_last()) + s.last().text
    }
}

/// The concatenated text of the spans.
pub fn spans_text_exec(v: &Vec<StyledSpan>) -> (res: String)
    ensures
        res@ == spans_text(spans_view(v@)),
{
    let mut res = String::new();
    let mut i: usize = 0;
    while i < v.len()
        invariant
            i <= v@.len(),
            res@ == spans_text(spans_view(v@.take(i as int))),
        decreases v@.len() - i,
    {
        push_str(&mut res, v[i].text.as_str());
        i = i + 1;
        assert(spans_view(v@.take(i as int)).drop_last() =~= spans_view(v@.take(i - 1)));
    }
    assert(v@.take(v@.len() as int) =~= v@);
    res
}

/// Whether a URL is remote (`http://` or `https://`).
pub fn is_remote_url(url: &str) -> (res: bool)
    ensures
        res == is_http_url(url@),
{
    crate::dashboard::starts_with_http(url)
}

/// The path part of a URL: before any `?` query and then before any `#` fragment.
pub open spec fn url_path_part(url: Seq<char>) -> Seq<char> {
    before_sub(before_sub(url, seq!['?']), seq!['#'])
}

/// Lowercase form of a string, as `str::to_lowercase` computes it (Unicode case mapping).
pub uninterp spec fn unicode_lowercase(s: Seq<char>) -> Seq<char>;

/// `str::to_lowercase`. The contract claims that the result is the Unicode lowercase of `s`,
/// and that an empty string stays empty; the mapping itself is not written out.
#[verifier::external_body]
pub(crate) fn to_lowercase(s: &str) -> (res: String)
    ensures
        res@ == unicode_lowercase(s@),
        s@.len() == 0 <==> res@.len() == 0,
{
    s.to_lowercase()
}

/// The lowercase file extension of the path part of a URL, when it has a non-empty one.
pub open spec fn guess_extension_spec(url: Seq<char>) -> Option<Seq<char>> {
    match crate::cli::file_name_spec(url_path_part(url)) {
        Some(name) => match crate::cli::extension_of(name) {
            Some(ext) => if ext.len() > 0 {
                Some(unicode_lowercase(ext))
            } else {
                None
            },
            None => None,
        },
        None => None,
    }
}

fn one(c: char) -> (res: Vec<char>)
    ensures
        res@ == seq![c],
{
    let v = vec![c];
    assert(v@ =~= seq![c]);
    v
}

/// Guesses a file extension from a URL's path.
pub fn guess_extension(url: &str) -> (res: Option<String>)
    ensures
        match res {
            Some(e) => guess_extension_spec(url@) == Some(e@),
            None => guess_extension_spec(url@) is None,
        },
{
    let v = chars_of(url);
    let p1 = before_sub_exec(&v, &one('?'));
    let p2 = before_sub_exec(&p1, &one('#'));
    let path = string_from_chars(&p2);
    let ext = match crate::cli::extension(path.as_str()) {
        Some(e) => e,
        None => {
            return None;
        },
    };
    let lower = to_lowercase(ext.as_str());
    if chars_of(ext.as_str()).len() == 0 {
        None
    } else {
        Some(lower)
    }
}

/// The file extension that a `Content-Type` (before any `;`, trimmed) names.
pub open spec fn content_type_ext_spec(ct: Seq<char>) -> Option<Seq<char>> {
    let t = trim(before_sub(ct, seq![';']));
    if t == "image/jpeg"@ {
        Some("jpg"@)
    } else if t == "image/png"@ {
        Some("png"@)
    } else if t == "image/gif"@ {
        Some("gif"@)
    } else if t == "image/webp"@ {
        Some("webp"@)
    } else if t == "image/svg+xml"@ {
        Some("svg"@)
    } else if t == "image/bmp"@ {
        Some("bmp"@)
    } else if t == "image/tiff"@ {
        Some("tiff"@)
    } else if t == "image/x-icon"@ || t == "image/vnd.microsoft.icon"@ {
        Some("ico"@)
    } else if t == "image/avif"@ {
        Some("avif"@)
    } else {
        None
    }
}

/// Maps a `Content-Type` value to an image file extension.
pub fn content_type_to_ext(ct: &str) -> (res: Option<&'static str>)
    ensures
        match res {
            Some(e) => content_type_ext_spec(ct@) == Some(e@),
            None => content_type_ext_spec(ct@) is None,
        },
{
    let v = chars_of(ct);
    let head = string_from_chars(&before_sub_exec(&v, &one(';')));
    let t = trim_string(head.as_str());
    let t = t.as_str();
    if str_eq(t, "image/jpeg") {
        Some("jpg")
    } else if str_eq(t, "image/png") {
        Some("png")
    } else if str_eq(t, "image/gif") {
        Some("gif")
    } else if str_eq(t, "image/webp") {
        Some("webp")
    } else if str_eq(t, "image/svg+xml") {
        Some("svg")
    } else if str_eq(t, "image/bmp") {
        Some("bmp")
    } else if str_eq(t, "image/tiff") {
        Some("tiff")
    } else if str_eq(t, "image/x-icon") || str_eq(t, "image/vnd.microsoft.icon") {
        Some("ico")
    } else if str_eq(t, "image/avif") {
        Some("avif")
    } else {
        None
    }
}

/// The extension a URL's path gives an image file: its guessed extension, unless there is
/// none or it is the generic `img`.
pub open spec fn usable_extension_spec(url: Seq<char>) -> Option<Seq<char>> {
    match guess_extension_spec(url) {
        Some(e) => if e == "img"@ {
            None
        } else {
            Some(e)
        },
        None => None,
    }
}

/// The extension of a downloaded image: the one the URL's path gives, else the one its
/// `Content-Type` names, else the generic `img` the path gave, else `png`.
pub open spec fn image_extension_spec(url: Seq<char>, content_type: Seq<char>) -> Seq<char> {
    match usable_extension_spec(url) {
        Some(e) => e,
        None => match content_type_ext_spec(content_type) {
            Some(e) => e,
            None => if guess_extension_spec(url) == Some("img"@) {
                "img"@
            } else {
                "png"@
            },
        },
    }
}

/// The cache file name of an image downloaded from `url` and served with `content_type`: the
/// SHA-256 of the URL in hexadecimal, a `.`, and the image's extension.
pub open spec fn cache_file_name_spec(url: Seq<char>, content_type: Seq<char>) -> Seq<char> {
    crate::hashing::sha256_hex_spec(url) + seq!['.'] + image_extension_spec(url, content_type)
}

/// The extensions that a `Content-Type` can name, in the order `content_type_to_ext` tries them.
pub open spec fn known_image_extensions() -> Seq<Seq<char>> {
    seq!["jpg"@, "png"@, "gif"@, "webp"@, "svg"@, "bmp"@, "tiff"@, "ico"@, "avif"@]
}

/// The names under which an earlier download of `url` may be cached: the one name its path's
/// extension gives, or, when the path gives none, one name for each extension a `Content-Type`
/// can name (`png` among them), then, for a path ending in `.img`, the name with `img`.
pub open spec fn cache_name_candidates_spec(url: Seq<char>) -> Seq<Seq<char>> {
    match usable_extension_spec(url) {
        Some(e) => seq![crate::hashing::sha256_hex_spec(url) + seq!['.'] + e],
        None => Seq::new(
            known_image_extensions().len(),
            |i: int| crate::hashing::sha256_hex_spec(url) + seq!['.'] + known_image_extensions()[i],
        ) + if guess_extension_spec(url) == Some("img"@) {
            seq![crate::hashing::sha256_hex_spec(url) + seq!['.'] + "img"@]
        } else {
            Seq::empty()
        },
    }
}

/// The extension the URL's path gives an image, if any.
fn usable_extension(url: &str) -> (res: Option<String>)
    ensures
        match res {
            Some(e) => usable_extension_spec(url@) == Some(e@),
            None => usable_extension_spec(url@) is None,
        },
{
    match guess_extension(url) {
        Some(e) => {
            proof {
                reveal_strlit("img");
            }
            if str_eq(e.as_str(), "img") {
                None
            } else {
                Some(e)
            }
        },
        None => None,
    }
}

/// The name of the cache file for an image downloaded from `url` with the given
/// `Content-Type`.
pub fn cache_file_name(url: &str, content_type: &str) -> (res: String)
    ensures
        res@ == cache_file_name_spec(url@, content_type@),
{
    let mut name = crate::hashing::sha256_hex(url);
    push_char(&mut name, '.');
    match usable_extension(url) {
        Some(e) => push_str(&mut name, e.as_str()),
        None => match content_type_to_ext(content_type) {
            Some(e) => push_str(&mut name, e),
            None => {
                proof {
                    reveal_strlit("png");
                    reveal_strlit("img");
                }
                if has_img_extension(url) {
                    push_str(&mut name, "img");
                } else {
                    push_str(&mut name, "png");
                }
            },
        },
    }
    name
}

/// Whether the URL's path has the generic extension `img`.
fn has_img_extension(url: &str) -> (res: bool)
    ensures
        res == (guess_extension_spec(url@) == Some("img"@)),
{
    proof {
        reveal_strlit("img");
    }
    match guess_extension(url) {
        Some(e) => str_eq(e.as_str(), "img"),
        None => false,
    }
}

/// The names to look for in the cache before downloading `url`.
pub fn cache_name_candidates(url: &str) -> (res: Vec<String>)
    ensures
        res@.map_values(|n: String| n@) == cache_name_candidates_spec(url@),
{
    let hex = crate::hashing::sha256_hex(url);
    let mut res: Vec<String> = Vec::new();
    match usable_extension(url) {
        Some(e) => {
            let mut name = owned(hex.as_str());
            push_char(&mut name, '.');
            push_str(&mut name, e.as_str());
            assert(name@ =~= hex@ + seq!['.'] + e@);
            res.push(name);
            assert(res@.map_values(|n: String| n@) =~= cache_name_candidates_spec(url@));
        },
        None => {
            let exts: Vec<&str> = vec!["jpg", "png", "gif", "webp", "svg", "bmp", "tiff", "ico", "avif"];
            proof {
                reveal_strlit("jpg");
                reveal_strlit("png");
                reveal_strlit("gif");
                reveal_strlit("webp");
                reveal_strlit("svg");
                reveal_strlit("bmp");
                reveal_strlit("tiff");
                reveal_strlit("ico");
                reveal_strlit("avif");
            }
            assert(exts@.map_values(|x: &str| x@) =~= known_image_extensions());
            let mut i: usize = 0;
            while i < exts.len()
                invariant
                    i <= exts@.len(),
                    exts@.map_values(|x: &str| x@) == known_image_extensions(),
                    hex@ == crate::hashing::sha256_hex_spec(url@),
                    res@.map_values(|n: String| n@) == Seq::new(
                        i as nat,
                        |k: int| crate::hashing::sha256_hex_spec(url@) + seq!['.'] + known_image_extensions()[k],
                    ),
                decreases exts@.len() - i,
            {
                let mut name = owned(hex.as_str());
                push_char(&mut name, '.');
                push_str(&mut name, exts[i]);
                assert(exts@.map_values(|x: &str| x@)[i as int] == exts@[i as int]@);
                assert(exts@[i as int]@ == known_image_extensions()[i as int]);
                assert(name@ =~= hex@ + seq!['.'] + known_image_extensions()[i as int]);
                let ghost before = res@.map_values(|n: String| n@);
                res.push(name);
                assert(res@.map_values(|n: String| n@) =~= before.push(name@));
                assert(res@.map_values(|n: String| n@) =~= Seq::new(
                    (i + 1) as nat,
                    |k: int| crate::hashing::sha256_hex_spec(url@) + seq!['.'] + known_image_extensions()[k],
                ));
                i = i + 1;
            }
            if has_img_extension(url) {
                let mut name = owned(hex.as_str());
                push_char(&mut name, '.');
                push_str(&mut name, "img");
                assert(name@ =~= hex@ + seq!['.'] + "img"@);
                let ghost before = res@.map_values(|n: String| n@);
                res.push(name);
                assert(res@.map_values(|n: String| n@) =~= before.push(name@));
            }
            assert(res@.map_values(|n: String| n@) =~= cache_name_candidates_spec(url@));
        },
    }
    res
}


// ───────────────────────────── resolving image sources ─────────────────────────────

/// The sources of the image lines, in order.
pub open spec fn image_urls_spec(lines: Seq<LineView>) -> Seq<Seq<char>>
    decreases lines.len(),
{
    if lines.len() == 0 {
        Seq::empty()
    } else {
        match lines.last() {
            LineView::Image(n) => image_urls_spec(lines.drop_last()).push(n.url),
            _ => image_urls_spec(lines.drop_last()),
        }
    }
}

/// The `k`-th outcome, or `None` when there is none.
pub open spec fn outcome_at(outcomes: Seq<Option<Seq<char>>>, k: int) -> Option<Seq<char>> {
    if 0 <= k < outcomes.len() {
        outcomes[k]
    } else {
        None
    }
}

/// An image once its source was looked for: the local file found or downloaded; otherwise
/// marked failed (a local source also loses any previous local file).
pub open spec fn resolve_image_spec(n: ImageView, outcome: Option<Seq<char>>) -> ImageView {
    match outcome {
        Some(p) => ImageView { local_path: Some(p), ..n },
        None => if is_http_url(n.url) {
            ImageView { download_failed: true, ..n }
        } else {
            ImageView { local_path: None, download_failed: true, ..n }
        },
    }
}

/// The lines with the `k`-th image resolved by the `k`-th outcome.
pub open spec fn resolved_lines(lines: Seq<LineView>, outcomes: Seq<Option<Seq<char>>>) -> Seq<LineView>
    decreases lines.len(),
{
    if lines.len() == 0 {
        Seq::empty()
    } else {
        let prev = resolved_lines(lines.drop_last(), outcomes);
        match lines.last() {
            LineView::Image(n) => prev.push(
                LineView::Image(
                    resolve_image_spec(n, outcome_at(outcomes, image_urls_spec(lines.drop_last()).len() as int)),
                ),
            ),
            other => prev.push(other),
        }
    }
}

/// The sources of the image lines, in order, for the caller to look up or download.
pub fn image_urls(lines: &Vec<LineContent>) -> (res: Vec<String>)
    ensures
        res@.map_values(|u: String| u@) == image_urls_spec(lines_view(lines@)),
{
    let ghost lv = lines_view(lines@);
    let mut res: Vec<String> = Vec::new();
    let mut i: usize = 0;
    while i < lines.len()
        invariant
            i <= lines@.len(),
            lv == lines_view(lines@),
            res@.map_values(|u: String| u@) == image_urls_spec(lv.take(i as int)),
        decreases lines@.len() - i,
    {
        assert(lv.take(i + 1).drop_last() =~= lv.take(i as int));
        assert(lv.take(i + 1).last() == line_view(lines@[i as int]));
        if let LineContent::Image(n) = &lines[i] {
            let ghost before = res@.map_values(|u: String| u@);
            res.push(owned(n.url.as_str()));
            assert(res@.map_values(|u: String| u@) =~= before.push(n.url@));
        }
        i = i + 1;
    }
    assert(lv.take(i as int) =~= lv);
    res
}

/// Resolves the image lines, the `k`-th by the `k`-th outcome: the local file found for it
/// (or downloaded), or `None` when there is none; an image without an outcome counts as failed.
pub fn resolve_images(lines: &mut Vec<LineContent>, outcomes: &Vec<Option<String>>)
    ensures
        lines_view(final(lines)@) == resolved_lines(lines_view(old(lines)@), crate::xhtml::paths_view(outcomes@)),
{
    let ghost lv = lines_view(lines@);
    let ghost ov = crate::xhtml::paths_view(outcomes@);
    let mut res: Vec<LineContent> = Vec::new();
    let mut k: usize = 0;
    let mut i: usize = 0;
    while i < lines.len()
        invariant
            i <= lines@.len(),
            lv == lines_view(lines@),
            ov == crate::xhtml::paths_view(outcomes@),
            k == image_urls_spec(lv.take(i as int)).len(),
            k <= i,
            lines_view(res@) == resolved_lines(lv.take(i as int), ov),
        decreases lines@.len() - i,
    {
        assert(lv.take(i + 1).drop_last() =~= lv.take(i as int));
        assert(lv.take(i + 1).last() == line_view(lines@[i as int]));
        let ghost before = lines_view(res@);
        let line = match &lines[i] {
            LineContent::Image(n) => {
                let outcome: Option<String> = if k < outcomes.len() {
                    match &outcomes[k] {
                        Some(p) => Some(owned(p.as_str())),
                        None => None,
                    }
                } else {
                    None
                };
                let mut node = copy_image(n);
                match outcome {
                    Some(p) => {
                        node.local_path = Some(p);
                    },
                    None => {
                        if !is_remote_url(n.url.as_str()) {
                            node.local_path = None;
                        }
                        node.download_failed = true;
                    },
                }
                k = k + 1;
                LineContent::Image(node)
            },
            other => copy_line(other),
        };
        res.push(line);
        assert(lines_view(res@) =~= before.push(line_view(line)));
        i = i + 1;
    }
    assert(lv.take(i as int) =~= lv);
    *lines = res;
}

} // verus!
