//! XHTML chapters to styled lines: headings, paragraphs, emphasis, links, code, lists, quotes,
//! images, rules and tables.
use vstd::prelude::*;
use crate::image::{counted_ids, image_ids, ImageView, LineContent, LineView, SpanView, StyledSpan};
use crate::style::{plain_style, Color, Style};
use crate::text::{owned, repeat_char, str_eq, trim, unicode_str_width};
use crate::xml::{attr_value, XmlToken};

verus! {

// ───────────────────────────── tables ─────────────────────────────

/// The widest row length.
pub open spec fn max_row_len(rows: Seq<Seq<Seq<char>>>) -> nat
    decreases rows.len(),
{
    if rows.len() == 0 {
        0
    } else {
        let m = max_row_len(rows.drop_last());
        if rows.last().len() > m {
            rows.last().len()
        } else {
            m
        }
    }
}

/// The widest cell of column `i`.
pub open spec fn column_max(rows: Seq<Seq<Seq<char>>>, i: int) -> usize
    decreases rows.len(),
{
    if rows.len() == 0 {
        0
    } else {
        let m = column_max(rows.drop_last(), i);
        if i < rows.last().len() && unicode_str_width(rows.last()[i]) > m {
            unicode_str_width(rows.last()[i])
        } else {
            m
        }
    }
}

/// The width of each column: its widest cell.
pub open spec fn column_widths_spec(rows: Seq<Seq<Seq<char>>>) -> Seq<usize> {
    Seq::new(max_row_len(rows), |i: int| column_max(rows, i))
}

/// A dark gray style, for borders and markers.
pub open spec fn dim_style() -> Style {
    Style { fg: Some(Color::DarkGray), ..plain_style() }
}

/// A span of plain-value text.
pub open spec fn sv(text: Seq<char>, style: Style) -> SpanView {
    SpanView { text, style, link: None }
}

/// The cells of a border line up to column `n`: each a run of `─`, separated by `mid`.
pub open spec fn border_cells(widths: Seq<usize>, mid: Seq<char>, n: nat) -> Seq<SpanView>
    decreases n,
{
    if n == 0 {
        Seq::empty()
    } else {
        let prev = border_cells(widths, mid, (n - 1) as nat).push(sv(repeat_char('─', widths[n - 1] as nat), dim_style()));
        if n < widths.len() {
            prev.push(sv(mid, dim_style()))
        } else {
            prev
        }
    }
}

/// A border line of a table.
pub open spec fn border_line(left: Seq<char>, mid: Seq<char>, right: Seq<char>, widths: Seq<usize>) -> LineView {
    LineView::Styled(
        seq![sv(left, dim_style())] + border_cells(widths, mid, widths.len()) + seq![sv(right, dim_style())],
    )
}

/// How many leading characters of `s` fit in `budget` columns, each measured as a string.
pub open spec fn cell_prefix_len(s: Seq<char>, budget: int) -> nat
    decreases s.len(),
{
    if s.len() == 0 {
        0
    } else {
        let cw = unicode_str_width(seq![s[0]]) as int;
        if cw > budget {
            0
        } else {
            1 + cell_prefix_len(s.skip(1), budget - cw)
        }
    }
}

/// A cell cut to fit: `.` repeated when the room is under three columns, otherwise the
/// leading characters that fit in three columns less, then `...`.
pub open spec fn truncate_cell(text: Seq<char>, max_width: nat) -> Seq<char> {
    if max_width < 3 {
        repeat_char('.', max_width)
    } else {
        text.take(cell_prefix_len(text, max_width - 3) as int) + seq!['.', '.', '.']
    }
}

/// The text of a cell in a column `width` wide: padded, or cut when wider.
pub open spec fn cell_text(cell: Seq<char>, width: usize) -> Seq<char> {
    let cw = unicode_str_width(cell);
    if cw > width {
        seq![' '] + truncate_cell(cell, if width >= 3 { (width - 3) as nat } else { 0 }) + seq![' ']
    } else {
        seq![' '] + cell + repeat_char(' ', (width - cw) as nat) + seq![' ']
    }
}

/// The cells of a table row up to column `n`.
pub open spec fn row_cells(row: Seq<Seq<char>>, widths: Seq<usize>, style: Style, n: nat) -> Seq<SpanView>
    decreases n,
{
    if n == 0 {
        Seq::empty()
    } else {
        let i = n - 1;
        let cell = if i < row.len() {
            row[i]
        } else {
            Seq::empty()
        };
        let prev = row_cells(row, widths, style, (n - 1) as nat).push(sv(cell_text(cell, widths[i]), style));
        if n < widths.len() {
            prev.push(sv(seq!['│'], dim_style()))
        } else {
            prev
        }
    }
}

/// A row line of a table, bold for the header.
pub open spec fn row_line(row: Seq<Seq<char>>, widths: Seq<usize>, header: bool) -> LineView {
    let style = if header {
        Style { bold: true, ..plain_style() }
    } else {
        plain_style()
    };
    LineView::Styled(
        seq![sv(seq!['│'], dim_style())] + row_cells(row, widths, style, widths.len()) + seq![sv(seq!['│'], dim_style())],
    )
}

/// The data rows from `start` on.
pub open spec fn data_rows(rows: Seq<Seq<Seq<char>>>, widths: Seq<usize>, start: nat, n: nat) -> Seq<LineView>
    decreases n,
{
    if n <= start {
        Seq::empty()
    } else {
        data_rows(rows, widths, start, (n - 1) as nat).push(row_line(rows[n - 1], widths, false))
    }
}

/// A table drawn with box borders: top, the header row and a separator when there is a
/// header, the data rows, bottom; nothing for a table without rows.
pub open spec fn render_table(rows: Seq<Seq<Seq<char>>>, has_header: bool, widths: Seq<usize>) -> Seq<LineView> {
    if rows.len() == 0 {
        Seq::empty()
    } else {
        let top = seq![border_line(seq!['┌'], seq!['┬'], seq!['┐'], widths)];
        let head = if has_header {
            seq![row_line(rows[0], widths, true), border_line(seq!['├'], seq!['┼'], seq!['┤'], widths)]
        } else {
            Seq::empty()
        };
        let start: nat = if has_header {
            1
        } else {
            0
        };
        top + head + data_rows(rows, widths, start, rows.len()) + seq![border_line(seq!['└'], seq!['┴'], seq!['┘'], widths)]
    }
}

// ───────────────────────────── the token walk ─────────────────────────────

/// Where the walk over a chapter's tokens stands.
pub struct XState {
    pub out: Seq<LineView>,
    pub cur: Seq<SpanView>,
    pub bold: bool,
    pub italic: bool,
    pub in_code: bool,
    pub in_pre: bool,
    pub link: bool,
    pub link_url: Seq<char>,
    pub heading: Option<u8>,
    pub list_depth: usize,
    pub in_blockquote: bool,
    pub image_count: usize,
    pub skip_depth: usize,
    pub in_cell: bool,
    pub rows: Seq<Seq<Seq<char>>>,
    pub has_header: bool,
    pub cell: Seq<char>,
    pub tables_done: usize,
    pub image_srcs: Seq<Seq<char>>,
    pub natural_widths: Seq<Seq<usize>>,
}

/// The walk before the first token.
pub open spec fn xstart() -> XState {
    XState {
        out: Seq::empty(),
        cur: Seq::empty(),
        bold: false,
        italic: false,
        in_code: false,
        in_pre: false,
        link: false,
        link_url: Seq::empty(),
        heading: None,
        list_depth: 0,
        in_blockquote: false,
        image_count: 0,
        skip_depth: 0,
        in_cell: false,
        rows: Seq::empty(),
        has_header: false,
        cell: Seq::empty(),
        tables_done: 0,
        image_srcs: Seq::empty(),
        natural_widths: Seq::empty(),
    }
}

/// `n` capped at `usize::MAX`.
pub open spec fn capu(n: int) -> usize {
    if n > usize::MAX {
        usize::MAX
    } else if n < 0 {
        0
    } else {
        n as usize
    }
}

/// The style of text: heading color and emphasis, code colors, link color, bold, italic.
pub open spec fn text_style(st: XState) -> Style {
    let s0 = plain_style();
    let s1 = match st.heading {
        Some(level) => {
            let color = if level == 1 {
                Color::Yellow
            } else if level == 2 {
                Color::Cyan
            } else if level == 3 {
                Color::Green
            } else if level == 4 {
                Color::Magenta
            } else if level == 5 {
                Color::Blue
            } else {
                Color::White
            };
            Style { fg: Some(color), bold: true, underlined: s0.underlined || level == 1, ..s0 }
        },
        None => s0,
    };
    let s2 = if st.in_code {
        Style { fg: Some(Color::Green), bg: Some(Color::Black), ..s1 }
    } else {
        s1
    };
    let s3 = if st.link {
        Style { fg: Some(Color::Blue), underlined: true, ..s2 }
    } else {
        s2
    };
    let s4 = if st.bold {
        Style { bold: true, ..s3 }
    } else {
        s3
    };
    if st.italic {
        Style { italic: true, ..s4 }
    } else {
        s4
    }
}

/// Text added to the current line (nothing for empty text).
pub open spec fn add_text(st: XState, text: Seq<char>, style: Style, link: Option<(Seq<char>, bool)>) -> XState {
    if text.len() == 0 {
        st
    } else {
        XState { cur: st.cur.push(SpanView { text, style, link }), ..st }
    }
}

/// The current line ended, when it holds anything.
pub open spec fn flush(st: XState) -> XState {
    if st.cur.len() > 0 {
        XState { out: st.out.push(LineView::Styled(st.cur)), cur: Seq::empty(), ..st }
    } else {
        st
    }
}

/// An empty line added.
pub open spec fn blank(st: XState) -> XState {
    XState { out: st.out.push(LineView::Styled(Seq::empty())), ..st }
}

/// The indent of a list item at `depth`.
pub open spec fn indent(depth: usize) -> Seq<char> {
    repeat_char(' ', capu(depth * 2 + 2) as nat)
}

/// Eight `─`.
pub open spec fn rule8() -> Seq<char> {
    repeat_char('─', 8)
}

/// The quote marker.
pub open spec fn quote_mark() -> Seq<char> {
    "  ▎ "@
}

/// An image tag with a non-empty `src`: the line ends and an image line follows, with the local
/// path given for this image.
pub open spec fn add_image(st: XState, attrs: Seq<(Seq<char>, Seq<char>)>, paths: Seq<Option<Seq<char>>>) -> XState {
    let src = match attr_value(attrs, "src"@) {
        Some(v) => v,
        None => Seq::empty(),
    };
    let alt = match attr_value(attrs, "alt"@) {
        Some(v) => v,
        None => Seq::empty(),
    };
    if src.len() == 0 {
        st
    } else {
        let st1 = flush(st);
        let lp = if st.image_count < paths.len() {
            paths[st.image_count as int]
        } else {
            None
        };
        XState {
            out: st1.out.push(
                LineView::Image(ImageView { alt, url: src, local_path: lp, id: st.image_count, download_failed: lp is None }),
            ),
            image_count: capu(st.image_count + 1),
            image_srcs: st.image_srcs.push(src),
            ..st1
        }
    }
}

/// The heading level of a tag `h1` to `h6`.
pub open spec fn heading_level(tag: Seq<char>) -> Option<u8> {
    if tag == "h1"@ {
        Some(1u8)
    } else if tag == "h2"@ {
        Some(2u8)
    } else if tag == "h3"@ {
        Some(3u8)
    } else if tag == "h4"@ {
        Some(4u8)
    } else if tag == "h5"@ {
        Some(5u8)
    } else if tag == "h6"@ {
        Some(6u8)
    } else {
        None
    }
}

/// A tag whose content is skipped.
pub open spec fn is_skipped_tag(tag: Seq<char>) -> bool {
    tag == "head"@ || tag == "style"@ || tag == "script"@
}

/// A start tag.
pub open spec fn on_start(st: XState, tag: Seq<char>, attrs: Seq<(Seq<char>, Seq<char>)>, paths: Seq<Option<Seq<char>>>) -> XState {
    if st.skip_depth > 0 && !is_skipped_tag(tag) {
        st
    } else if is_skipped_tag(tag) {
        XState { skip_depth: capu(st.skip_depth + 1), ..st }
    } else if heading_level(tag) is Some {
        let level = heading_level(tag)->0;
        let st1 = XState { heading: Some(level), ..st };
        add_text(st1, repeat_char('#', level as nat) + seq![' '], text_style(st1), None)
    } else {
        start_inline(st, tag, attrs, paths)
    }
}

/// A start tag of paragraphs and inline markup.
pub open spec fn start_inline(st: XState, tag: Seq<char>, attrs: Seq<(Seq<char>, Seq<char>)>, paths: Seq<Option<Seq<char>>>) -> XState {
    if tag == "p"@ {
        let st1 = if st.list_depth > 0 {
            add_text(st, indent(st.list_depth), plain_style(), None)
        } else {
            st
        };
        if st.in_blockquote {
            add_text(st1, quote_mark(), dim_style(), None)
        } else {
            st1
        }
    } else if tag == "strong"@ || tag == "b"@ {
        XState { bold: true, ..st }
    } else if tag == "em"@ || tag == "i"@ {
        XState { italic: true, ..st }
    } else if tag == "a"@ {
        let st1 = XState {
            link: true,
            link_url: match attr_value(attrs, "href"@) {
                Some(v) => v,
                None => st.link_url,
            },
            ..st
        };
        add_text(st1, "🔗"@, text_style(st1), None)
    } else if tag == "code"@ && !st.in_pre {
        XState { in_code: true, ..st }
    } else {
        start_block(st, tag, attrs, paths)
    }
}

/// A start tag of block markup.
pub open spec fn start_block(st: XState, tag: Seq<char>, attrs: Seq<(Seq<char>, Seq<char>)>, paths: Seq<Option<Seq<char>>>) -> XState {
    if tag == "pre"@ {
        flush(add_text(XState { in_pre: true, ..st }, rule8(), dim_style(), None))
    } else if tag == "ul"@ || tag == "ol"@ {
        XState { list_depth: capu(st.list_depth + 1), ..st }
    } else if tag == "li"@ {
        add_text(
            add_text(st, indent(capu(st.list_depth - 1)), plain_style(), None),
            "• "@,
            Style { fg: Some(Color::Magenta), ..plain_style() },
            None,
        )
    } else if tag == "blockquote"@ {
        add_text(XState { in_blockquote: true, ..st }, quote_mark(), dim_style(), None)
    } else if tag == "img"@ {
        add_image(st, attrs, paths)
    } else if tag == "table"@ {
        XState { rows: Seq::empty(), has_header: false, ..flush(st) }
    } else if tag == "thead"@ {
        XState { has_header: true, ..st }
    } else if tag == "tr"@ {
        XState { rows: st.rows.push(Seq::empty()), ..st }
    } else if tag == "th"@ || tag == "td"@ {
        XState { in_cell: true, cell: Seq::empty(), ..st }
    } else {
        st
    }
}

/// An empty-element tag.
pub open spec fn on_empty(st: XState, tag: Seq<char>, attrs: Seq<(Seq<char>, Seq<char>)>, paths: Seq<Option<Seq<char>>>) -> XState {
    if st.skip_depth > 0 {
        st
    } else if tag == "img"@ {
        add_image(st, attrs, paths)
    } else if tag == "br"@ {
        flush(st)
    } else if tag == "hr"@ {
        blank(flush(add_text(st, rule8(), dim_style(), None)))
    } else {
        st
    }
}

/// An end tag.
pub open spec fn on_end(st: XState, tag: Seq<char>, widths: Seq<Seq<usize>>) -> XState {
    if st.skip_depth > 0 && is_skipped_tag(tag) {
        XState { skip_depth: (st.skip_depth - 1) as usize, ..st }
    } else if heading_level(tag) is Some {
        XState { heading: None, ..blank(flush(st)) }
    } else if tag == "p"@ {
        blank(flush(st))
    } else if tag == "strong"@ || tag == "b"@ {
        XState { bold: false, ..st }
    } else if tag == "em"@ || tag == "i"@ {
        XState { italic: false, ..st }
    } else if tag == "a"@ {
        XState { link: false, ..st }
    } else if tag == "code"@ && !st.in_pre {
        XState { in_code: false, ..st }
    } else {
        end_block(st, tag, widths)
    }
}

/// An end tag of block markup.
pub open spec fn end_block(st: XState, tag: Seq<char>, widths: Seq<Seq<usize>>) -> XState {
    if tag == "pre"@ {
        blank(flush(add_text(XState { in_pre: false, ..st }, rule8(), dim_style(), None)))
    } else if tag == "ul"@ || tag == "ol"@ {
        let d = capu(st.list_depth - 1);
        if d == 0 {
            blank(XState { list_depth: d, ..st })
        } else {
            XState { list_depth: d, ..st }
        }
    } else if tag == "li"@ {
        flush(st)
    } else if tag == "blockquote"@ {
        blank(XState { in_blockquote: false, ..flush(st) })
    } else if tag == "table"@ {
        end_table(st, widths)
    } else if tag == "th"@ || tag == "td"@ {
        let st1 = XState { in_cell: false, ..st };
        if st.rows.len() > 0 {
            XState { rows: st.rows.update(st.rows.len() - 1, st.rows.last().push(trim(st.cell))), ..st1 }
        } else {
            st1
        }
    } else {
        st
    }
}

/// The end of a table: it is drawn in the widths given for it (its own column widths when
/// none are given), followed by an empty line.
pub open spec fn end_table(st: XState, widths: Seq<Seq<usize>>) -> XState {
    let natural = column_widths_spec(st.rows);
    let w = if st.tables_done < widths.len() {
        widths[st.tables_done as int]
    } else {
        natural
    };
    XState {
        out: st.out + render_table(st.rows, st.has_header, w) + seq![LineView::Styled(Seq::empty())],
        tables_done: capu(st.tables_done + 1),
        natural_widths: st.natural_widths.push(natural),
        ..st
    }
}

/// The lines of `text` split at `\n`, from piece `k` on, in code: each non-empty piece added,
/// and the line ended after each piece but the last.
pub open spec fn code_pieces(st: XState, pieces: Seq<Seq<char>>, n: nat) -> XState
    decreases n,
{
    if n == 0 {
        st
    } else {
        let prev = code_pieces(st, pieces, (n - 1) as nat);
        let i = n - 1;
        let st1 = add_text(prev, pieces[i], text_style(prev), None);
        if i < pieces.len() - 1 {
            flush(st1)
        } else {
            st1
        }
    }
}

/// `s` split at each `\n`.
pub open spec fn split_lines(s: Seq<char>) -> Seq<Seq<char>>
    decreases s.len(),
{
    match crate::search::find_sub(s, seq!['\n']) {
        Some(k) => {
            proof {
                crate::search::lemma_find_sub_from(s, seq!['\n'], 0);
            }
            seq![s.take(k as int)] + split_lines(s.skip((k + 1) as int))
        },
        None => seq![s],
    }
}

/// Text: skipped inside skipped tags and when blank outside code and cells; gathered in a
/// cell; split at line breaks in code; otherwise added with the link, if inside one.
pub open spec fn on_text(st: XState, text: Seq<char>) -> XState {
    if st.skip_depth > 0 {
        st
    } else if trim(text).len() == 0 && !st.in_pre && !st.in_code && !st.in_cell {
        st
    } else if st.in_cell {
        XState { cell: st.cell + text, ..st }
    } else if st.in_pre || st.in_code {
        code_pieces(st, split_lines(text), split_lines(text).len())
    } else {
        add_text(
            st,
            text,
            text_style(st),
            if st.link {
                Some((st.link_url, crate::dashboard::is_http_url(st.link_url)))
            } else {
                None
            },
        )
    }
}

/// One token of the walk.
pub open spec fn xstep(st: XState, tok: XmlToken, paths: Seq<Option<Seq<char>>>, widths: Seq<Seq<usize>>) -> XState {
    match tok {
        XmlToken::Start(tag, attrs) => on_start(st, tag, attrs, paths),
        XmlToken::Empty(tag, attrs) => on_empty(st, tag, attrs, paths),
        XmlToken::End(tag) => on_end(st, tag, widths),
        XmlToken::Text(t) => on_text(st, t),
        _ => st,
    }
}

/// The walk over tokens, stopping at the first end-of-input token.
pub open spec fn xwalk(toks: Seq<XmlToken>, paths: Seq<Option<Seq<char>>>, widths: Seq<Seq<usize>>) -> XState
    decreases toks.len(),
{
    if toks.len() == 0 {
        xstart()
    } else {
        let prev = xwalk(toks.drop_last(), paths, widths);
        if stopped(toks.drop_last()) || toks.last() is Eof {
            prev
        } else {
            xstep(prev, toks.last(), paths, widths)
        }
    }
}

/// Whether an end-of-input token occurs.
pub open spec fn stopped(toks: Seq<XmlToken>) -> bool {
    exists|k: int| 0 <= k < toks.len() && toks[k] is Eof
}

/// The lines of a chapter: the walk's lines, then the last line when it holds anything.
pub open spec fn xhtml_lines_spec(toks: Seq<XmlToken>, paths: Seq<Option<Seq<char>>>, widths: Seq<Seq<usize>>) -> Seq<LineView> {
    flush(xwalk(toks, paths, widths)).out
}

// ───────────────────────────── image numbering ─────────────────────────────

/// Lines among which there is no image.
pub open spec fn no_images(lines: Seq<LineView>) -> bool {
    forall|k: int| 0 <= k < lines.len() ==> !(#[trigger] lines[k] is Image)
}

/// The images a walk has produced are numbered in order by their count so far.
pub open spec fn xnumbered(st: XState) -> bool {
    let n = image_ids(st.out).len();
    &&& image_ids(st.out) == counted_ids(n)
    &&& st.image_count as int == if n < usize::MAX { n as int } else { usize::MAX as int }
}

/// A step that adds no image: the image ids and the count stay.
pub open spec fn xsame_images(a: XState, b: XState) -> bool {
    image_ids(b.out) == image_ids(a.out) && b.image_count == a.image_count
}

proof fn lemma_append_plain(a: Seq<LineView>, b: Seq<LineView>)
    requires
        no_images(b),
    ensures
        image_ids(a + b) == image_ids(a),
    decreases b.len(),
{
    if b.len() == 0 {
        assert(a + b =~= a);
    } else {
        assert((a + b).drop_last() =~= a + b.drop_last());
        assert((a + b).last() == b[b.len() - 1]);
        lemma_append_plain(a, b.drop_last());
    }
}

proof fn lemma_data_rows_plain(rows: Seq<Seq<Seq<char>>>, widths: Seq<usize>, start: nat, n: nat)
    ensures
        no_images(data_rows(rows, widths, start, n)),
    decreases n,
{
    if n > start {
        lemma_data_rows_plain(rows, widths, start, (n - 1) as nat);
        let prev = data_rows(rows, widths, start, (n - 1) as nat);
        let all = prev.push(row_line(rows[n - 1], widths, false));
        assert forall|k: int| 0 <= k < all.len() implies !(#[trigger] all[k] is Image) by {
            if k < prev.len() {
                assert(all[k] == prev[k]);
            }
        }
    }
}

proof fn lemma_render_table_plain(rows: Seq<Seq<Seq<char>>>, has_header: bool, widths: Seq<usize>)
    ensures
        no_images(render_table(rows, has_header, widths)),
{
    if rows.len() > 0 {
        let start: nat = if has_header { 1 } else { 0 };
        lemma_data_rows_plain(rows, widths, start, rows.len());
    }
}

proof fn lemma_push_plain(out: Seq<LineView>, spans: Seq<SpanView>)
    ensures
        image_ids(out.push(LineView::Styled(spans))) == image_ids(out),
{
    assert(out.push(LineView::Styled(spans)).drop_last() =~= out);
}

proof fn lemma_flush_images(st: XState)
    ensures
        xsame_images(st, flush(st)),
{
    if st.cur.len() > 0 {
        lemma_push_plain(st.out, st.cur);
    }
}

proof fn lemma_blank_images(st: XState)
    ensures
        xsame_images(st, blank(st)),
{
    lemma_push_plain(st.out, Seq::empty());
}

proof fn lemma_code_pieces_images(st: XState, pieces: Seq<Seq<char>>, n: nat)
    ensures
        xsame_images(st, code_pieces(st, pieces, n)),
    decreases n,
{
    if n > 0 {
        let prev = code_pieces(st, pieces, (n - 1) as nat);
        lemma_code_pieces_images(st, pieces, (n - 1) as nat);
        lemma_flush_images(add_text(prev, pieces[n - 1], text_style(prev), None));
    }
}

proof fn lemma_add_image_numbered(st: XState, attrs: Seq<(Seq<char>, Seq<char>)>, paths: Seq<Option<Seq<char>>>)
    requires
        xnumbered(st),
    ensures
        xnumbered(add_image(st, attrs, paths)),
{
    let src = match attr_value(attrs, "src"@) {
        Some(v) => v,
        None => Seq::empty(),
    };
    if src.len() > 0 {
        lemma_flush_images(st);
        let st1 = flush(st);
        let r = add_image(st, attrs, paths);
        assert(r.out.drop_last() =~= st1.out);
        assert(image_ids(r.out) =~= counted_ids(image_ids(st.out).len() + 1));
    }
}

proof fn lemma_end_block_images(st: XState, tag: Seq<char>, widths: Seq<Seq<usize>>)
    ensures
        xsame_images(st, end_block(st, tag, widths)),
{
    if tag == "pre"@ {
        let st1 = add_text(XState { in_pre: false, ..st }, rule8(), dim_style(), None);
        lemma_flush_images(st1);
        lemma_blank_images(flush(st1));
    } else if tag == "ul"@ || tag == "ol"@ {
        let d = capu(st.list_depth - 1);
        lemma_blank_images(XState { list_depth: d, ..st });
    } else if tag == "li"@ {
        lemma_flush_images(st);
    } else if tag == "blockquote"@ {
        lemma_flush_images(st);
        lemma_blank_images(XState { in_blockquote: false, ..flush(st) });
    } else if tag == "table"@ {
        let natural = column_widths_spec(st.rows);
        let w = if st.tables_done < widths.len() { widths[st.tables_done as int] } else { natural };
        let tbl = render_table(st.rows, st.has_header, w);
        lemma_render_table_plain(st.rows, st.has_header, w);
        lemma_append_plain(st.out, tbl);
        lemma_push_plain(st.out + tbl, Seq::empty());
        assert(st.out + tbl + seq![LineView::Styled(Seq::empty())] =~= (st.out + tbl).push(
            LineView::Styled(Seq::empty()),
        ));
    }
}

proof fn lemma_xstep_numbered(st: XState, tok: XmlToken, paths: Seq<Option<Seq<char>>>, widths: Seq<Seq<usize>>)
    requires
        xnumbered(st),
    ensures
        xnumbered(xstep(st, tok, paths, widths)),
{
    match tok {
        XmlToken::Start(tag, attrs) => {
            if !(st.skip_depth > 0 && !is_skipped_tag(tag)) && !is_skipped_tag(tag) && !(heading_level(tag) is Some)
                && tag != "p"@ && tag != "strong"@ && tag != "b"@ && tag != "em"@ && tag != "i"@ && tag != "a"@
                && !(tag == "code"@ && !st.in_pre) {
                if tag == "pre"@ {
                    lemma_flush_images(add_text(XState { in_pre: true, ..st }, rule8(), dim_style(), None));
                } else if tag == "img"@ {
                    lemma_add_image_numbered(st, attrs, paths);
                } else if tag == "table"@ {
                    lemma_flush_images(st);
                }
            }
        },
        XmlToken::Empty(tag, attrs) => {
            if st.skip_depth == 0 {
                if tag == "img"@ {
                    lemma_add_image_numbered(st, attrs, paths);
                } else if tag == "br"@ {
                    lemma_flush_images(st);
                } else if tag == "hr"@ {
                    let st1 = add_text(st, rule8(), dim_style(), None);
                    lemma_flush_images(st1);
                    lemma_blank_images(flush(st1));
                }
            }
        },
        XmlToken::End(tag) => {
            if !(st.skip_depth > 0 && is_skipped_tag(tag)) {
                if heading_level(tag) is Some || tag == "p"@ {
                    lemma_flush_images(st);
                    lemma_blank_images(flush(st));
                } else if !(tag == "strong"@ || tag == "b"@) && !(tag == "em"@ || tag == "i"@) && tag != "a"@
                    && !(tag == "code"@ && !st.in_pre) {
                    lemma_end_block_images(st, tag, widths);
                }
            }
        },
        XmlToken::Text(t) => {
            if st.skip_depth == 0 && !st.in_cell && (st.in_pre || st.in_code) {
                lemma_code_pieces_images(st, split_lines(t), split_lines(t).len());
            }
        },
        _ => {},
    }
}

proof fn lemma_xwalk_numbered(toks: Seq<XmlToken>, paths: Seq<Option<Seq<char>>>, widths: Seq<Seq<usize>>)
    ensures
        xnumbered(xwalk(toks, paths, widths)),
    decreases toks.len(),
{
    if toks.len() == 0 {
        assert(image_ids(Seq::<LineView>::empty()) =~= counted_ids(0));
    } else {
        lemma_xwalk_numbered(toks.drop_last(), paths, widths);
        if !(stopped(toks.drop_last()) || toks.last() is Eof) {
            lemma_xstep_numbered(xwalk(toks.drop_last(), paths, widths), toks.last(), paths, widths);
        }
    }
}

/// The images of a chapter are numbered 0, 1, 2, ... in the order they appear (an id that
/// would pass `usize::MAX` stays there), so no two of them share an id, whatever local files
/// and table widths are given.
pub proof fn lemma_xhtml_image_ids(toks: Seq<XmlToken>, paths: Seq<Option<Seq<char>>>, widths: Seq<Seq<usize>>)
    ensures
        image_ids(xhtml_lines_spec(toks, paths, widths)) == counted_ids(
            image_ids(xhtml_lines_spec(toks, paths, widths)).len(),
        ),
        forall|i: int, j: int|
            0 <= i < j < image_ids(xhtml_lines_spec(toks, paths, widths)).len() && j <= usize::MAX ==> image_ids(
                xhtml_lines_spec(toks, paths, widths),
            )[i] != image_ids(xhtml_lines_spec(toks, paths, widths))[j],
{
    lemma_xwalk_numbered(toks, paths, widths);
    lemma_flush_images(xwalk(toks, paths, widths));
}

// ───────────────────────────── tables, computed ─────────────────────────────

/// The views of optional image paths.
pub open spec fn paths_view(paths: Seq<Option<String>>) -> Seq<Option<Seq<char>>> {
    paths.map_values(|p: Option<String>| crate::app::opt_view(p))
}

/// The views of column widths.
pub open spec fn widths_view(w: Seq<Vec<usize>>) -> Seq<Seq<usize>> {
    w.map_values(|x: Vec<usize>| x@)
}

/// The views of table rows.
pub open spec fn rows_view(rows: Seq<Vec<String>>) -> Seq<Seq<Seq<char>>> {
    rows.map_values(|r: Vec<String>| r@.map_values(|c: String| c@))
}

fn span(text: String, style: Style) -> (res: StyledSpan)
    ensures
        crate::image::span_view(res) == sv(text@, style),
{
    StyledSpan::new(text, style)
}

fn dim() -> (res: Style)
    ensures
        res == dim_style(),
{
    Style::plain().with_fg(Color::DarkGray)
}

fn push_sv(v: &mut Vec<StyledSpan>, s: StyledSpan)
    ensures
        crate::image::spans_view(final(v)@) == crate::image::spans_view(old(v)@).push(crate::image::span_view(s)),
{
    let ghost before = v@;
    v.push(s);
    assert(crate::image::spans_view(v@) =~= crate::image::spans_view(before).push(crate::image::span_view(s)));
}

/// The width of each column of a table: its widest cell.
pub fn column_widths(rows: &Vec<Vec<String>>) -> (res: Vec<usize>)
    ensures
        res@ == column_widths_spec(rows_view(rows@)),
{
    let ghost rv = rows_view(rows@);
    let mut max_cols: usize = 0;
    let mut r: usize = 0;
    while r < rows.len()
        invariant
            r <= rows@.len(),
            rv == rows_view(rows@),
            max_cols == max_row_len(rv.take(r as int)),
        decreases rows@.len() - r,
    {
        assert(rv.take(r + 1).drop_last() =~= rv.take(r as int));
        assert(rv.take(r + 1).last().len() == rows@[r as int]@.len());
        if rows[r].len() > max_cols {
            max_cols = rows[r].len();
        }
        r = r + 1;
    }
    assert(rv.take(rows@.len() as int) =~= rv);
    let mut widths: Vec<usize> = Vec::new();
    let mut c: usize = 0;
    while c < max_cols
        invariant
            c <= max_cols,
            max_cols == max_row_len(rv),
            rv == rows_view(rows@),
            widths@.len() == c,
            forall|i: int| 0 <= i < c ==> widths@[i] == column_max(rv, i),
        decreases max_cols - c,
    {
        let mut m: usize = 0;
        let mut r: usize = 0;
        while r < rows.len()
            invariant
                r <= rows@.len(),
                rv == rows_view(rows@),
                m == column_max(rv.take(r as int), c as int),
            decreases rows@.len() - r,
        {
            assert(rv.take(r + 1).drop_last() =~= rv.take(r as int));
            assert(rv.take(r + 1).last() == rows@[r as int]@.map_values(|x: String| x@));
            if c < rows[r].len() {
                let w = crate::text::display_width(rows[r][c].as_str());
                if w > m {
                    m = w;
                }
            }
            r = r + 1;
        }
        assert(rv.take(rows@.len() as int) =~= rv);
        widths.push(m);
        c = c + 1;
    }
    assert(widths@ =~= column_widths_spec(rv));
    widths
}

fn border_line_exec(left: &str, mid: &str, right: &str, widths: &Vec<usize>) -> (res: LineContent)
    ensures
        crate::image::line_view(res) == border_line(left@, mid@, right@, widths@),
{
    let mut spans: Vec<StyledSpan> = Vec::new();
    push_sv(&mut spans, span(crate::text::owned(left), dim()));
    let ghost base = crate::image::spans_view(spans@);
    assert(base =~= seq![sv(left@, dim_style())]);
    let mut i: usize = 0;
    while i < widths.len()
        invariant
            i <= widths@.len(),
            crate::image::spans_view(spans@) == base + border_cells(widths@, mid@, i as nat),
        decreases widths@.len() - i,
    {
        push_sv(&mut spans, span(crate::text::repeat_string('─', widths[i]), dim()));
        if i + 1 < widths.len() {
            push_sv(&mut spans, span(crate::text::owned(mid), dim()));
        }
        i = i + 1;
    }
    push_sv(&mut spans, span(crate::text::owned(right), dim()));
    assert(crate::image::spans_view(spans@) =~= seq![sv(left@, dim_style())] + border_cells(widths@, mid@, widths@.len())
        + seq![sv(right@, dim_style())]);
    let res = LineContent::Styled(spans);
    res
}

fn truncate_cell_exec(text: &str, max_width: usize) -> (res: String)
    ensures
        res@ == truncate_cell(text@, max_width as nat),
{
    if max_width < 3 {
        return crate::text::repeat_string('.', max_width);
    }
    let v = crate::text::chars_of(text);
    let budget = max_width - 3;
    let mut width: usize = 0;
    let mut i: usize = 0;
    assert(v@.skip(0) =~= v@);
    while i < v.len()
        invariant
            i <= v@.len(),
            width <= budget,
            budget == max_width - 3,
            cell_prefix_len(v@, budget as int) == i + cell_prefix_len(v@.skip(i as int), (budget - width) as int),
        ensures
            i <= v@.len(),
            cell_prefix_len(v@, budget as int) == i,
        decreases v@.len() - i,
    {
        let mut one = String::new();
        crate::text::push_char(&mut one, v[i]);
        let cw = crate::text::display_width(one.as_str());
        let ghost rest = v@.skip(i as int);
        assert(rest[0] == v@[i as int]);
        assert(one@ =~= seq![rest[0]]);
        assert(rest.skip(1) =~= v@.skip(i + 1));
        if cw > budget - width {
            break;
        }
        width = width + cw;
        i = i + 1;
    }
    let mut res = crate::text::string_from_range(&v, 0, i);
    crate::text::push_str(&mut res, "...");
    proof {
        reveal_strlit("...");
    }
    assert(res@ =~= truncate_cell(text@, max_width as nat));
    res
}

fn cell_text_exec(cell: &str, width: usize) -> (res: String)
    ensures
        res@ == cell_text(cell@, width),
{
    let cw = crate::text::display_width(cell);
    let mut s = String::new();
    crate::text::push_char(&mut s, ' ');
    if cw > width {
        let t = truncate_cell_exec(cell, if width >= 3 {
            width - 3
        } else {
            0
        });
        crate::text::push_str(&mut s, t.as_str());
    } else {
        crate::text::push_str(&mut s, cell);
        let pad = crate::text::repeat_string(' ', width - cw);
        crate::text::push_str(&mut s, pad.as_str());
    }
    crate::text::push_char(&mut s, ' ');
    s
}

fn row_line_exec(row: &Vec<String>, widths: &Vec<usize>, header: bool) -> (res: LineContent)
    ensures
        crate::image::line_view(res) == row_line(row@.map_values(|c: String| c@), widths@, header),
{
    let style = if header {
        Style::plain().with_bold()
    } else {
        Style::plain()
    };
    let ghost rv = row@.map_values(|c: String| c@);
    proof {
        reveal_strlit("│");
    }
    assert("│"@ =~= seq!['│']);
    let mut spans: Vec<StyledSpan> = Vec::new();
    push_sv(&mut spans, span(crate::text::owned("│"), dim()));
    let ghost base = crate::image::spans_view(spans@);
    assert(base =~= seq![sv(seq!['│'], dim_style())]);
    let mut i: usize = 0;
    while i < widths.len()
        invariant
            i <= widths@.len(),
            rv == row@.map_values(|c: String| c@),
            "│"@ == seq!['│'],
            crate::image::spans_view(spans@) == base + row_cells(rv, widths@, style, i as nat),
        decreases widths@.len() - i,
    {
        let text = if i < row.len() {
            assert(rv[i as int] == row@[i as int]@);
            cell_text_exec(row[i].as_str(), widths[i])
        } else {
            let e = String::new();
            cell_text_exec(e.as_str(), widths[i])
        };
        assert(rv.len() == row@.len());
        assert(text@ == cell_text(if (i as int) < rv.len() { rv[i as int] } else { Seq::empty() }, widths@[i as int]));
        let ghost b1 = crate::image::spans_view(spans@);
        push_sv(&mut spans, span(text, style));
        if i + 1 < widths.len() {
            push_sv(&mut spans, span(crate::text::owned("│"), dim()));
        }
        i = i + 1;
        assert(crate::image::spans_view(spans@) =~= base + row_cells(rv, widths@, style, i as nat));
    }
    push_sv(&mut spans, span(crate::text::owned("│"), dim()));
    assert(crate::image::spans_view(spans@) =~= seq![sv(seq!['│'], dim_style())] + row_cells(rv, widths@, style, widths@.len())
        + seq![sv(seq!['│'], dim_style())]);
    let res = LineContent::Styled(spans);
    res
}

fn push_line(v: &mut Vec<LineContent>, l: LineContent)
    ensures
        crate::image::lines_view(final(v)@) == crate::image::lines_view(old(v)@).push(crate::image::line_view(l)),
{
    let ghost before = v@;
    v.push(l);
    assert(crate::image::lines_view(v@) =~= crate::image::lines_view(before).push(crate::image::line_view(l)));
}

/// Draws a table with box borders in the given column widths.
pub fn render_table_exec(rows: &Vec<Vec<String>>, has_header: bool, widths: &Vec<usize>, out: &mut Vec<LineContent>)
    ensures
        crate::image::lines_view(final(out)@) == crate::image::lines_view(old(out)@) + render_table(
            rows_view(rows@),
            has_header,
            widths@,
        ),
{
    let ghost rv = rows_view(rows@);
    let ghost base = crate::image::lines_view(out@);
    if rows.len() == 0 {
        assert(crate::image::lines_view(out@) =~= base + render_table(rv, has_header, widths@));
        return;
    }
    proof {
        reveal_strlit("┌");
        reveal_strlit("┬");
        reveal_strlit("┐");
        reveal_strlit("├");
        reveal_strlit("┼");
        reveal_strlit("┤");
        reveal_strlit("└");
        reveal_strlit("┴");
        reveal_strlit("┘");
    }
    push_line(out, border_line_exec("┌", "┬", "┐", widths));
    assert("┌"@ =~= seq!['┌'] && "┬"@ =~= seq!['┬'] && "┐"@ =~= seq!['┐']);
    assert("├"@ =~= seq!['├'] && "┼"@ =~= seq!['┼'] && "┤"@ =~= seq!['┤']);
    assert("└"@ =~= seq!['└'] && "┴"@ =~= seq!['┴'] && "┘"@ =~= seq!['┘']);
    let start: usize = if has_header {
        assert(rv[0] == rows@[0]@.map_values(|c: String| c@));
        push_line(out, row_line_exec(&rows[0], widths, true));
        push_line(out, border_line_exec("├", "┼", "┤", widths));
        1
    } else {
        0
    };
    let ghost mid = crate::image::lines_view(out@);
    let mut r = start;
    assert(data_rows(rv, widths@, start as nat, start as nat) =~= Seq::<LineView>::empty());
    while r < rows.len()
        invariant
            start <= r <= rows@.len(),
            rv == rows_view(rows@),
            crate::image::lines_view(out@) == mid + data_rows(rv, widths@, start as nat, r as nat),
        decreases rows@.len() - r,
    {
        assert(rv[r as int] == rows@[r as int]@.map_values(|c: String| c@));
        push_line(out, row_line_exec(&rows[r], widths, false));
        r = r + 1;
    }
    push_line(out, border_line_exec("└", "┴", "┘", widths));
    assert(crate::image::lines_view(out@) =~= base + render_table(rv, has_header, widths@));
}

// ───────────────────────────── the token walk, computed ─────────────────────────────

/// The walk's state, computed.
pub struct XRun {
    pub out: Vec<LineContent>,
    pub cur: Vec<StyledSpan>,
    pub bold: bool,
    pub italic: bool,
    pub in_code: bool,
    pub in_pre: bool,
    pub link: bool,
    pub link_url: String,
    pub heading: Option<u8>,
    pub list_depth: usize,
    pub in_blockquote: bool,
    pub image_count: usize,
    pub skip_depth: usize,
    pub in_cell: bool,
    pub rows: Vec<Vec<String>>,
    pub has_header: bool,
    pub cell: String,
    pub tables_done: usize,
    pub image_srcs: Vec<String>,
    pub natural_widths: Vec<Vec<usize>>,
}

impl XRun {
    /// The view of the walk's state.
    pub open spec fn xview(&self) -> XState {
        XState {
            out: crate::image::lines_view(self.out@),
            cur: crate::image::spans_view(self.cur@),
            bold: self.bold,
            italic: self.italic,
            in_code: self.in_code,
            in_pre: self.in_pre,
            link: self.link,
            link_url: self.link_url@,
            heading: self.heading,
            list_depth: self.list_depth,
            in_blockquote: self.in_blockquote,
            image_count: self.image_count,
            skip_depth: self.skip_depth,
            in_cell: self.in_cell,
            rows: rows_view(self.rows@),
            has_header: self.has_header,
            cell: self.cell@,
            tables_done: self.tables_done,
            image_srcs: self.image_srcs@.map_values(|x: String| x@),
            natural_widths: widths_view(self.natural_widths@),
        }
    }

    fn start() -> (res: XRun)
        ensures
            res.xview() == xstart(),
    {
        let r = XRun {
            out: Vec::new(),
            cur: Vec::new(),
            bold: false,
            italic: false,
            in_code: false,
            in_pre: false,
            link: false,
            link_url: String::new(),
            heading: None,
            list_depth: 0,
            in_blockquote: false,
            image_count: 0,
            skip_depth: 0,
            in_cell: false,
            rows: Vec::new(),
            has_header: false,
            cell: String::new(),
            tables_done: 0,
            image_srcs: Vec::new(),
            natural_widths: Vec::new(),
        };
        assert(r.xview() =~= xstart()) by {
            assert(crate::image::lines_view(r.out@) =~= Seq::<LineView>::empty());
            assert(crate::image::spans_view(r.cur@) =~= Seq::<SpanView>::empty());
            assert(rows_view(r.rows@) =~= Seq::<Seq<Seq<char>>>::empty());
            assert(r.image_srcs@.map_values(|x: String| x@) =~= Seq::<Seq<char>>::empty());
            assert(widths_view(r.natural_widths@) =~= Seq::<Seq<usize>>::empty());
        }
        r
    }

    fn style_now(&self) -> (res: Style)
        ensures
            res == text_style(self.xview()),
    {
        let mut s = Style::plain();
        if let Some(level) = self.heading {
            let color = if level == 1 {
                Color::Yellow
            } else if level == 2 {
                Color::Cyan
            } else if level == 3 {
                Color::Green
            } else if level == 4 {
                Color::Magenta
            } else if level == 5 {
                Color::Blue
            } else {
                Color::White
            };
            s = s.with_fg(color).with_bold();
            if level == 1 {
                s = s.with_underline();
            }
        }
        if self.in_code {
            s = s.with_fg(Color::Green).with_bg(Color::Black);
        }
        if self.link {
            s = s.with_fg(Color::Blue).with_underline();
        }
        if self.bold {
            s = s.with_bold();
        }
        if self.italic {
            s = s.with_italic();
        }
        s
    }

    fn add_text(&mut self, text: String, style: Style, link: Option<crate::image::LinkInfo>)
        ensures
            final(self).xview() == add_text(
                old(self).xview(),
                text@,
                style,
                match link {
                    Some(l) => Some((l.url@, l.is_external)),
                    None => None,
                },
            ),
    {
        if crate::text::chars_of(text.as_str()).len() > 0 {
            let sp = match link {
                Some(l) => StyledSpan::with_link(text, style, l),
                None => StyledSpan::new(text, style),
            };
            push_sv(&mut self.cur, sp);
        }
    }

    fn flush(&mut self)
        ensures
            final(self).xview() == flush(old(self).xview()),
    {
        if self.cur.len() > 0 {
            let mut line: Vec<StyledSpan> = Vec::new();
            std::mem::swap(&mut line, &mut self.cur);
            push_line(&mut self.out, LineContent::Styled(line));
            assert(crate::image::spans_view(self.cur@) =~= Seq::<SpanView>::empty());
        }
    }

    fn blank(&mut self)
        ensures
            final(self).xview() == blank(old(self).xview()),
    {
        let l = LineContent::Styled(Vec::new());
        assert(crate::image::line_view(l) == LineView::Styled(Seq::<SpanView>::empty())) by {
            assert(crate::image::spans_view(Seq::<StyledSpan>::empty()) =~= Seq::<SpanView>::empty());
        }
        push_line(&mut self.out, l);
    }

    fn add_image(&mut self, attrs: &Vec<(String, String)>, paths: &Vec<Option<String>>)
        ensures
            final(self).xview() == add_image(
                old(self).xview(),
                crate::xml::attrs_view(attrs@),
                paths_view(paths@),
            ),
    {
        let ghost pv = paths_view(paths@);
        let src = match crate::xml::find_attr(attrs, "src") {
            Some(v) => v,
            None => String::new(),
        };
        let alt = match crate::xml::find_attr(attrs, "alt") {
            Some(v) => v,
            None => String::new(),
        };
        if crate::text::chars_of(src.as_str()).len() == 0 {
            return;
        }
        self.flush();
        let lp: Option<String> = if self.image_count < paths.len() {
            assert(pv[self.image_count as int] == crate::app::opt_view(paths@[self.image_count as int]));
            match &paths[self.image_count] {
                Some(p) => Some(crate::text::owned(p.as_str())),
                None => None,
            }
        } else {
            None
        };
        let failed = lp.is_none();
        let ghost src_v = src@;
        let node = crate::image::ImageNode {
            alt,
            url: crate::text::owned(src.as_str()),
            local_path: lp,
            id: self.image_count,
            download_failed: failed,
        };
        push_line(&mut self.out, LineContent::Image(node));
        self.image_count = self.image_count.saturating_add(1);
        let ghost before = self.image_srcs@;
        self.image_srcs.push(src);
        assert(self.image_srcs@.map_values(|x: String| x@) =~= before.map_values(|x: String| x@).push(src_v));
    }
}

fn heading_level_exec(tag: &str) -> (res: Option<u8>)
    ensures
        res == heading_level(tag@),
{
    if str_eq(tag, "h1") {
        Some(1)
    } else if str_eq(tag, "h2") {
        Some(2)
    } else if str_eq(tag, "h3") {
        Some(3)
    } else if str_eq(tag, "h4") {
        Some(4)
    } else if str_eq(tag, "h5") {
        Some(5)
    } else if str_eq(tag, "h6") {
        Some(6)
    } else {
        None
    }
}

fn is_skipped_exec(tag: &str) -> (res: bool)
    ensures
        res == is_skipped_tag(tag@),
{
    crate::text::str_eq(tag, "head") || crate::text::str_eq(tag, "style") || crate::text::str_eq(tag, "script")
}

fn indent_exec(depth: usize) -> (res: String)
    ensures
        res@ == indent(depth),
{
    let n: usize = if depth <= (usize::MAX - 2) / 2 {
        depth * 2 + 2
    } else {
        usize::MAX
    };
    crate::text::repeat_string(' ', n)
}

impl XRun {
    fn on_start(&mut self, tag: &str, attrs: &Vec<(String, String)>, paths: &Vec<Option<String>>)
        ensures
            final(self).xview() == on_start(
                old(self).xview(),
                tag@,
                crate::xml::attrs_view(attrs@),
                paths_view(paths@),
            ),
    {
        let skipped = is_skipped_exec(tag);
        if self.skip_depth > 0 && !skipped {
            return;
        }
        if skipped {
            self.skip_depth = self.skip_depth.saturating_add(1);
            return;
        }
        if let Some(level) = heading_level_exec(tag) {
            self.heading = Some(level);
            let mut prefix = crate::text::repeat_string('#', level as usize);
            crate::text::push_char(&mut prefix, ' ');
            assert(prefix@ =~= repeat_char('#', level as nat) + seq![' ']);
            let st = self.style_now();
            self.add_text(prefix, st, None);
            return;
        }
        self.start_inline(tag, attrs, paths);
    }

    fn start_inline(&mut self, tag: &str, attrs: &Vec<(String, String)>, paths: &Vec<Option<String>>)
        ensures
            final(self).xview() == start_inline(
                old(self).xview(),
                tag@,
                crate::xml::attrs_view(attrs@),
                paths_view(paths@),
            ),
    {
        if str_eq(tag, "p") {
            if self.list_depth > 0 {
                self.add_text(indent_exec(self.list_depth), Style::plain(), None);
            }
            if self.in_blockquote {
                self.add_text(owned("  ▎ "), dim(), None);
            }
        } else if str_eq(tag, "strong") || str_eq(tag, "b") {
            self.bold = true;
        } else if str_eq(tag, "em") || str_eq(tag, "i") {
            self.italic = true;
        } else if str_eq(tag, "a") {
            self.link = true;
            if let Some(h) = crate::xml::find_attr(attrs, "href") {
                self.link_url = h;
            }
            let st = self.style_now();
            self.add_text(owned("🔗"), st, None);
        } else if str_eq(tag, "code") && !self.in_pre {
            self.in_code = true;
        } else {
            self.start_block(tag, attrs, paths);
        }
    }

    fn start_block(&mut self, tag: &str, attrs: &Vec<(String, String)>, paths: &Vec<Option<String>>)
        ensures
            final(self).xview() == start_block(
                old(self).xview(),
                tag@,
                crate::xml::attrs_view(attrs@),
                paths_view(paths@),
            ),
    {
        if str_eq(tag, "pre") {
            self.in_pre = true;
            self.add_text(crate::text::repeat_string('─', 8), dim(), None);
            self.flush();
        } else if str_eq(tag, "ul") || str_eq(tag, "ol") {
            self.list_depth = self.list_depth.saturating_add(1);
        } else if str_eq(tag, "li") {
            self.add_text(indent_exec(self.list_depth.saturating_sub(1)), Style::plain(), None);
            self.add_text(owned("• "), Style::plain().with_fg(Color::Magenta), None);
        } else if str_eq(tag, "blockquote") {
            self.in_blockquote = true;
            self.add_text(owned("  ▎ "), dim(), None);
        } else if str_eq(tag, "img") {
            self.add_image(attrs, paths);
        } else if str_eq(tag, "table") {
            self.flush();
            self.rows = Vec::new();
            self.has_header = false;
            assert(rows_view(self.rows@) =~= Seq::<Seq<Seq<char>>>::empty());
        } else if str_eq(tag, "thead") {
            self.has_header = true;
        } else if str_eq(tag, "tr") {
            let ghost before = self.rows@;
            self.rows.push(Vec::new());
            assert(rows_view(self.rows@) =~= rows_view(before).push(Seq::<Seq<char>>::empty())) by {
                assert(Seq::<String>::empty().map_values(|c: String| c@) =~= Seq::<Seq<char>>::empty());
            }
        } else if str_eq(tag, "th") || str_eq(tag, "td") {
            self.in_cell = true;
            self.cell = String::new();
        }
    }

    fn on_empty(&mut self, tag: &str, attrs: &Vec<(String, String)>, paths: &Vec<Option<String>>)
        ensures
            final(self).xview() == on_empty(
                old(self).xview(),
                tag@,
                crate::xml::attrs_view(attrs@),
                paths_view(paths@),
            ),
    {
            if self.skip_depth > 0 {
            return;
        }
        if str_eq(tag, "img") {
            self.add_image(attrs, paths);
        } else if str_eq(tag, "br") {
            self.flush();
        } else if str_eq(tag, "hr") {
            self.add_text(crate::text::repeat_string('─', 8), dim(), None);
            self.flush();
            self.blank();
        }
    }
}

impl XRun {
    fn on_end(&mut self, tag: &str, widths: &Vec<Vec<usize>>)
        ensures
            final(self).xview() == on_end(old(self).xview(), tag@, widths_view(widths@)),
    {
        if self.skip_depth > 0 && is_skipped_exec(tag) {
            self.skip_depth = self.skip_depth - 1;
            return;
        }
        if heading_level_exec(tag).is_some() {
            self.flush();
            self.blank();
            self.heading = None;
        } else if str_eq(tag, "p") {
            self.flush();
            self.blank();
        } else if str_eq(tag, "strong") || str_eq(tag, "b") {
            self.bold = false;
        } else if str_eq(tag, "em") || str_eq(tag, "i") {
            self.italic = false;
        } else if str_eq(tag, "a") {
            self.link = false;
        } else if str_eq(tag, "code") && !self.in_pre {
            self.in_code = false;
        } else {
            self.end_block(tag, widths);
        }
    }

    #[verifier::rlimit(60)]
    #[verifier::spinoff_prover]
    fn end_block(&mut self, tag: &str, widths: &Vec<Vec<usize>>)
        ensures
            final(self).xview() == end_block(old(self).xview(), tag@, widths_view(widths@)),
    {
        if str_eq(tag, "pre") {
            self.in_pre = false;
            self.add_text(crate::text::repeat_string('─', 8), dim(), None);
            self.flush();
            self.blank();
        } else if str_eq(tag, "ul") || str_eq(tag, "ol") {
            self.list_depth = self.list_depth.saturating_sub(1);
            if self.list_depth == 0 {
                self.blank();
            }
        } else if str_eq(tag, "li") {
            self.flush();
        } else if str_eq(tag, "blockquote") {
            self.flush();
            self.in_blockquote = false;
            self.blank();
        } else if str_eq(tag, "table") {
            self.end_table(widths);
        } else if str_eq(tag, "th") || str_eq(tag, "td") {
            self.in_cell = false;
            let n = self.rows.len();
            if n > 0 {
                let content = crate::text::trim_string(self.cell.as_str());
                let ghost before = rows_view(self.rows@);
                let mut last = self.rows.pop().unwrap();
                let ghost last_before = last@;
                last.push(content);
                self.rows.push(last);
                assert(rows_view(self.rows@) =~= before.update(before.len() - 1, before.last().push(content@))) by {
                    assert(before.last() == last_before.map_values(|c: String| c@));
                    assert(last@.map_values(|c: String| c@) =~= last_before.map_values(|c: String| c@).push(content@));
                }
            }
        }
    }

    fn end_table(&mut self, widths: &Vec<Vec<usize>>)
        ensures
            final(self).xview() == end_table(old(self).xview(), widths_view(widths@)),
    {
        let ghost wv = widths_view(widths@);
        let ghost st0 = self.xview();
        let natural = column_widths(&self.rows);
        let ghost nat_v = natural@;
        if self.tables_done < widths.len() {
            assert(wv[self.tables_done as int] == widths@[self.tables_done as int]@);
            render_table_exec(&self.rows, self.has_header, &widths[self.tables_done], &mut self.out);
        } else {
            render_table_exec(&self.rows, self.has_header, &natural, &mut self.out);
        }
        let ghost mid = crate::image::lines_view(self.out@);
        self.blank();
        let ghost w_used = if st0.tables_done < wv.len() { wv[st0.tables_done as int] } else { nat_v };
        assert(mid == st0.out + render_table(st0.rows, st0.has_header, w_used));
        assert(crate::image::lines_view(self.out@) =~= st0.out + render_table(st0.rows, st0.has_header, w_used)
            + seq![LineView::Styled(Seq::empty())]);
        self.tables_done = self.tables_done.saturating_add(1);
        let ghost before = self.natural_widths@;
        self.natural_widths.push(natural);
        assert(widths_view(self.natural_widths@) =~= widths_view(before).push(nat_v));
    }
}

/// `text` split at each line break.
pub fn split_lines_exec(text: &str) -> (res: Vec<String>)
    ensures
        res@.map_values(|x: String| x@) == split_lines(text@),
{
    let v = crate::text::chars_of(text);
    let mut res: Vec<String> = Vec::new();
    let mut i: usize = 0;
    assert(v@.skip(0) =~= v@);
    loop
        invariant
            i <= v@.len(),
            v@ == text@,
            res@.map_values(|x: String| x@) + split_lines(v@.skip(i as int)) == split_lines(v@),
        decreases v@.len() - i,
    {
        let ghost rest = v@.skip(i as int);
        proof {
            crate::search::lemma_find_sub_from(rest, seq!['\n'], 0);
        }
        let ghost before = res@.map_values(|x: String| x@);
        match crate::text::find_char(&v, i, '\n') {
            Some(j) => {
                proof {
                    assert(rest.subrange(j - i, j - i + 1) =~= seq!['\n']);
                    match crate::search::find_sub(rest, seq!['\n']) {
                        Some(k) => {
                            if (k as int) < j - i {
                                assert(rest.subrange(k as int, (k + 1) as int)[0] == rest[k as int]);
                                assert(rest[k as int] == v@[i + k]);
                            } else if (k as int) > j - i {
                                assert(rest.subrange((j - i) as int, (j - i + 1) as int) == seq!['\n']);
                            }
                        },
                        None => {},
                    }
                }
                proof {
                    assert forall|jj: int| 0 <= jj < (j - i) implies rest[jj] != '\n' by {
                        assert(rest[jj] == v@[i + jj]);
                    }
                    crate::search::lemma_find_char_first(rest, '\n', (j - i) as nat, 0);
                }
                assert(crate::search::find_sub(rest, seq!['\n']) == Some((j - i) as nat));
                assert(split_lines(rest) == seq![rest.take((j - i) as int)] + split_lines(rest.skip((j - i + 1) as int)));
                let piece = crate::text::string_from_range(&v, i, j);
                assert(piece@ =~= rest.take((j - i) as int));
                assert(rest.skip((j - i + 1) as int) =~= v@.skip(j + 1));
                res.push(piece);
                assert(res@.map_values(|x: String| x@) =~= before.push(piece@));
                assert(j < v.len());
                i = j + 1;
            },
            None => {
                proof {
                    match crate::search::find_sub(rest, seq!['\n']) {
                        Some(k) => {
                            assert(rest.subrange(k as int, (k + 1) as int)[0] == rest[k as int]);
                            assert(rest[k as int] == v@[i + k]);
                        },
                        None => {},
                    }
                    assert(split_lines(rest) == seq![rest]);
                }
                let piece = crate::text::string_from_range(&v, i, v.len());
                assert(piece@ =~= rest);
                res.push(piece);
                assert(res@.map_values(|x: String| x@) =~= before.push(piece@));
                assert(v@ == text@);
                return res;
            },
        }
    }
}

impl XRun {
    fn on_text(&mut self, text: String)
        ensures
            final(self).xview() == on_text(old(self).xview(), text@),
    {
        if self.skip_depth > 0 {
            return;
        }
        if crate::text::is_blank(text.as_str()) && !self.in_pre && !self.in_code && !self.in_cell {
            return;
        }
        if self.in_cell {
            crate::text::push_str(&mut self.cell, text.as_str());
            return;
        }
        if self.in_pre || self.in_code {
            let pieces = split_lines_exec(text.as_str());
            let ghost pv = pieces@.map_values(|x: String| x@);
            let ghost st0 = self.xview();
            let mut i: usize = 0;
            while i < pieces.len()
                invariant
                    i <= pieces@.len(),
                    pv == pieces@.map_values(|x: String| x@),
                    pv == split_lines(text@),
                    self.xview() == code_pieces(st0, pv, i as nat),
                decreases pieces@.len() - i,
            {
                let st = self.style_now();
                assert(pv[i as int] == pieces@[i as int]@);
                self.add_text(owned(pieces[i].as_str()), st, None);
                if i + 1 < pieces.len() {
                    self.flush();
                }
                i = i + 1;
            }
            return;
        }
        let st = self.style_now();
        let link = if self.link {
            Some(crate::image::LinkInfo {
                url: owned(self.link_url.as_str()),
                is_external: crate::dashboard::starts_with_http(self.link_url.as_str()),
            })
        } else {
            None
        };
        self.add_text(text, st, link);
    }

    fn step(&mut self, ev: crate::xml::XmlEvent, paths: &Vec<Option<String>>, widths: &Vec<Vec<usize>>)
        ensures
            final(self).xview() == xstep(
                old(self).xview(),
                crate::xml::token_of(ev),
                paths_view(paths@),
                widths_view(widths@),
            ),
    {
        match ev {
            crate::xml::XmlEvent::Start { name, attrs } => self.on_start(name.as_str(), &attrs, paths),
            crate::xml::XmlEvent::Empty { name, attrs } => self.on_empty(name.as_str(), &attrs, paths),
            crate::xml::XmlEvent::End { name } => self.on_end(name.as_str(), widths),
            crate::xml::XmlEvent::Text(t) => self.on_text(t),
            _ => {},
        }
    }
}

/// Once an end-of-input token has occurred, later tokens change nothing.
proof fn lemma_walk_stops(toks: Seq<XmlToken>, m: nat, n: nat, paths: Seq<Option<Seq<char>>>, widths: Seq<Seq<usize>>)
    requires
        m <= n <= toks.len(),
        stopped(toks.take(m as int)),
    ensures
        xwalk(toks.take(n as int), paths, widths) == xwalk(toks.take(m as int), paths, widths),
    decreases n - m,
{
    if n > m {
        lemma_walk_stops(toks, m, (n - 1) as nat, paths, widths);
        assert(toks.take(n as int).drop_last() =~= toks.take(n - 1));
        let k = choose|k: int| 0 <= k < toks.take(m as int).len() && toks.take(m as int)[k] is Eof;
        assert(toks.take(n - 1)[k] == toks.take(m as int)[k]);
        assert(stopped(toks.take(n - 1)));
    }
}

/// Walks the tokens of a chapter.
fn walk(html: &str, paths: &Vec<Option<String>>, widths: &Vec<Vec<usize>>) -> (res: XRun)
    ensures
        res.xview() == xwalk(
            crate::xml::xml_tokens(html@),
            paths_view(paths@),
            widths_view(widths@),
        ),
{
    let ghost pv = paths_view(paths@);
    let ghost wv = widths_view(widths@);
    let ghost toks = crate::xml::xml_tokens(html@);
    let mut reader = crate::xml::xml_reader(html);
    let mut run = XRun::start();
    let ghost mut k: nat = 0;
    assert(toks.skip(0) =~= toks);
    assert(toks.take(0) =~= Seq::<XmlToken>::empty());
    loop
        invariant
            toks == crate::xml::xml_tokens(html@),
            k <= toks.len(),
            crate::xml::pending_tokens(reader) == toks.skip(k as int),
            run.xview() == xwalk(toks.take(k as int), pv, wv),
            !stopped(toks.take(k as int)),
            pv == paths_view(paths@),
            wv == widths_view(widths@),
        decreases crate::xml::pending_tokens(reader).len(),
    {
        let ghost pending = crate::xml::pending_tokens(reader);
        let ev = crate::xml::with_attributes(crate::xml::next_token(&mut reader));
        if let crate::xml::XmlEvent::Eof = ev {
            proof {
                if k < toks.len() {
                    assert(pending.len() > 0);
                    assert(crate::xml::token_of(ev) == pending[0]);
                    assert(pending[0] == toks[k as int]);
                    lemma_walk_eof(toks, k, pv, wv);
                } else {
                    assert(toks.take(k as int) =~= toks);
                }
                assert(run.xview() == xwalk(toks, pv, wv));
            }
            return run;
        }
        proof {
            if k >= toks.len() {
                assert(pending.len() == 0);
            }
            assert(pending[0] == toks[k as int]);
            lemma_walk_step(toks, k, pv, wv);
            assert(toks.skip(k as int).drop_first() =~= toks.skip((k + 1) as int));
        }
        run.step(ev, paths, widths);
        proof {
            k = k + 1;
        }
    }
}

proof fn lemma_walk_eof(toks: Seq<XmlToken>, k: nat, pv: Seq<Option<Seq<char>>>, wv: Seq<Seq<usize>>)
    requires
        k < toks.len(),
        toks[k as int] is Eof,
        !stopped(toks.take(k as int)),
    ensures
        xwalk(toks, pv, wv) == xwalk(toks.take(k as int), pv, wv),
{
    assert(toks.take((k + 1) as int)[k as int] is Eof);
    assert(toks.take((k + 1) as int).drop_last() =~= toks.take(k as int));
    assert(xwalk(toks.take((k + 1) as int), pv, wv) == xwalk(toks.take(k as int), pv, wv));
    lemma_walk_stops(toks, (k + 1) as nat, toks.len(), pv, wv);
    assert(toks.take(toks.len() as int) =~= toks);
}

proof fn lemma_walk_step(toks: Seq<XmlToken>, k: nat, pv: Seq<Option<Seq<char>>>, wv: Seq<Seq<usize>>)
    requires
        k < toks.len(),
        !(toks[k as int] is Eof),
        !stopped(toks.take(k as int)),
    ensures
        xwalk(toks.take((k + 1) as int), pv, wv) == xstep(xwalk(toks.take(k as int), pv, wv), toks[k as int], pv, wv),
        !stopped(toks.take((k + 1) as int)),
{
    assert(toks.take((k + 1) as int).drop_last() =~= toks.take(k as int));
    assert(toks.take((k + 1) as int).last() == toks[k as int]);
    assert forall|j: int| 0 <= j < toks.take((k + 1) as int).len() implies !(#[trigger] toks.take((k + 1) as int)[j] is Eof) by {
        if j < k {
            assert(toks.take((k + 1) as int)[j] == toks.take(k as int)[j]);
        }
    }
}

/// The lines of an XHTML chapter, with the given local path for each image (in order) and
/// the given column widths for each table (in order).
pub fn xhtml_to_lines(html: &str, image_paths: &Vec<Option<String>>, table_widths: &Vec<Vec<usize>>) -> (res: Vec<LineContent>)
    ensures
        crate::image::lines_view(res@) == xhtml_lines_spec(
            crate::xml::xml_tokens(html@),
            paths_view(image_paths@),
            widths_view(table_widths@),
        ),
{
    let mut run = walk(html, image_paths, table_widths);
    run.flush();
    run.out
}

/// The sources of the images of an XHTML chapter, in order.
pub fn xhtml_image_sources(html: &str) -> (res: Vec<String>)
    ensures
        res@.map_values(|x: String| x@) == xwalk(crate::xml::xml_tokens(html@), Seq::empty(), Seq::empty()).image_srcs,
{
    let none: Vec<Option<String>> = Vec::new();
    let no_widths: Vec<Vec<usize>> = Vec::new();
    assert(paths_view(none@) =~= Seq::<Option<Seq<char>>>::empty());
    assert(widths_view(no_widths@) =~= Seq::<Seq<usize>>::empty());
    let run = walk(html, &none, &no_widths);
    run.image_srcs
}

/// The column widths of the tables of an XHTML chapter, in order.
pub fn xhtml_table_widths(html: &str) -> (res: Vec<Vec<usize>>)
    ensures
        widths_view(res@) == xwalk(crate::xml::xml_tokens(html@), Seq::empty(), Seq::empty()).natural_widths,
{
    let none: Vec<Option<String>> = Vec::new();
    let no_widths: Vec<Vec<usize>> = Vec::new();
    assert(paths_view(none@) =~= Seq::<Option<Seq<char>>>::empty());
    assert(widths_view(no_widths@) =~= Seq::<Seq<usize>>::empty());
    let run = walk(html, &none, &no_widths);
    run.natural_widths
}

} // verus!
