//! What the reader's screen shows: the visible lines with the focused item highlighted, the
//! status bar, the table of contents and the help, as styled text.
use vstd::prelude::*;
use crate::app::{App, FocusView, ReaderView, focus_view};
use crate::image::{ImageView, LineContent, LineView, SpanView, StyledSpan, spans_view};
use crate::style::{plain_style, Color, Style};
use crate::text::{decimal, owned, push_str, repeat_char, unicode_str_width};
use crate::dashboard::is_http_url;

verus! {

/// Views of screen lines.
pub open spec fn screen_view(lines: Seq<Vec<StyledSpan>>) -> Seq<Seq<SpanView>> {
    lines.map_values(|l: Vec<StyledSpan>| spans_view(l@))
}

/// A plain span of text in a style.
pub open spec fn text_span(text: Seq<char>, style: Style) -> SpanView {
    SpanView { text, style, link: None }
}

fn span(text: String, style: Style) -> (res: StyledSpan)
    ensures
        crate::image::span_view(res) == text_span(text@, style),
{
    StyledSpan::new(text, style)
}

/// `a + b`, capped at `usize::MAX`.
pub open spec fn sat_add(a: usize, b: usize) -> usize {
    if a + b > usize::MAX {
        usize::MAX
    } else {
        (a + b) as usize
    }
}

// ───────────────────────────── the document lines ─────────────────────────────

/// A style as it shows when its link has the focus.
pub open spec fn focused_link_style(s: Style) -> Style {
    Style { fg: Some(Color::White), bg: Some(Color::DarkGray), bold: true, underlined: true, ..s }
}

/// The spans of a styled line as shown, and the column after the last: a span that carries a
/// link and overlaps the focused column range is highlighted.
pub open spec fn render_spans(spans: Seq<SpanView>, range: Option<(usize, usize)>) -> (Seq<SpanView>, usize)
    decreases spans.len(),
{
    if spans.len() == 0 {
        (Seq::empty(), 0)
    } else {
        let (prev, offset) = render_spans(spans.drop_last(), range);
        let s = spans.last();
        let end = sat_add(offset, unicode_str_width(s.text));
        let focused = s.link is Some && match range {
            Some((a, b)) => end > a && offset < b,
            None => false,
        };
        (prev.push(text_span(s.text, if focused { focused_link_style(s.style) } else { s.style })), end)
    }
}

/// The text shown for an image.
pub open spec fn image_text(n: ImageView) -> Seq<char> {
    let alt = if n.alt.len() == 0 { "image"@ } else { n.alt };
    if image_failed(n) {
        "[📷 "@ + alt + " ⚠ 下载失败]"@
    } else {
        "[📷 "@ + alt + "]"@
    }
}

/// A remote image whose download failed.
pub open spec fn image_failed(n: ImageView) -> bool {
    n.local_path is None && is_http_url(n.url) && n.download_failed
}

/// The style of a focused block item.
pub open spec fn focused_block_style() -> Style {
    Style { fg: Some(Color::White), bg: Some(Color::DarkGray), bold: true, ..plain_style() }
}

/// How an image line shows.
pub open spec fn image_span(n: ImageView, focused: bool) -> SpanView {
    text_span(
        image_text(n),
        if focused {
            focused_block_style()
        } else if image_failed(n) {
            Style { fg: Some(Color::Red), ..plain_style() }
        } else {
            Style { fg: Some(Color::Cyan), ..plain_style() }
        },
    )
}

/// How a block link line shows: its text after a link sign, or its URL when it has no text.
pub open spec fn link_span(text: Seq<char>, url: Seq<char>, focused: bool) -> SpanView {
    text_span(
        if text.len() == 0 { url } else { "🔗 "@ + text },
        if focused {
            Style { underlined: true, ..focused_block_style() }
        } else {
            Style { fg: Some(Color::Blue), underlined: true, ..plain_style() }
        },
    )
}

/// The focused item, if the focus is on one.
pub open spec fn focused_item(v: ReaderView) -> Option<FocusView> {
    match v.focus_index {
        Some(f) => if f < v.focusable.len() { Some(v.focusable[f as int]) } else { None },
        None => None,
    }
}

/// The focused column range on visual line `idx`.
pub open spec fn focused_range(v: ReaderView, idx: int) -> Option<(usize, usize)> {
    match focused_item(v) {
        Some(FocusView::InlineLink { line_idx, start_offset, end_offset, .. }) => if line_idx == idx {
            Some((start_offset, end_offset))
        } else {
            None
        },
        _ => None,
    }
}

/// Whether the focused item takes the whole of visual line `idx`.
pub open spec fn whole_line_focused(v: ReaderView, idx: int) -> bool {
    match focused_item(v) {
        Some(FocusView::Image { line_idx }) => line_idx == idx,
        Some(FocusView::BlockLink { line_idx, .. }) => line_idx == idx,
        _ => false,
    }
}

/// How visual line `idx` shows.
pub open spec fn shown_line(v: ReaderView, idx: int, l: LineView) -> Seq<SpanView> {
    match l {
        LineView::Styled(spans) => render_spans(spans, focused_range(v, idx)).0,
        LineView::Image(n) => seq![image_span(n, whole_line_focused(v, idx))],
        LineView::Link(text, url, _) => seq![link_span(text, url, whole_line_focused(v, idx))],
    }
}

/// The rows of the content area: the wrapped lines from the scroll position on, as many as
/// the height holds.
pub open spec fn screen_lines_spec(v: ReaderView) -> Seq<Seq<SpanView>> {
    let h: int = match v.height {
        Some(h) => h as int,
        None => 0,
    };
    let first: int = v.scroll as int;
    let n: int = if first >= v.wrapped.len() {
        0
    } else if v.wrapped.len() - first < h {
        v.wrapped.len() - first
    } else {
        h
    };
    Seq::new(n as nat, |k: int| shown_line(v, first + k, v.wrapped[first + k]))
}

fn styled_row(spans: &Vec<StyledSpan>, range: Option<(usize, usize)>) -> (res: Vec<StyledSpan>)
    ensures
        spans_view(res@) == render_spans(spans_view(spans@), range).0,
{
    let ghost sv = spans_view(spans@);
    let mut res: Vec<StyledSpan> = Vec::new();
    let mut offset: usize = 0;
    let mut i: usize = 0;
    while i < spans.len()
        invariant
            i <= spans@.len(),
            sv == spans_view(spans@),
            (spans_view(res@), offset) == render_spans(sv.take(i as int), range),
        decreases spans@.len() - i,
    {
        assert(sv.take(i + 1).drop_last() =~= sv.take(i as int));
        assert(sv.take(i + 1).last() == crate::image::span_view(spans@[i as int]));
        let s = &spans[i];
        let w = crate::text::display_width(s.text.as_str());
        let end = offset.saturating_add(w);
        let focused = s.link.is_some() && match range {
            Some((a, b)) => end > a && offset < b,
            None => false,
        };
        let style = if focused {
            let mut f = s.style;
            f.fg = Some(Color::White);
            f.bg = Some(Color::DarkGray);
            f.bold = true;
            f.underlined = true;
            f
        } else {
            s.style
        };
        let ghost before = spans_view(res@);
        res.push(span(owned(s.text.as_str()), style));
        assert(spans_view(res@) =~= before.push(text_span(s.text@, style)));
        offset = end;
        i = i + 1;
    }
    assert(sv.take(i as int) =~= sv);
    res
}

fn image_row(n: &crate::image::ImageNode, focused: bool) -> (res: Vec<StyledSpan>)
    ensures
        spans_view(res@) == seq![image_span(crate::image::image_view(*n), focused)],
{
    let alt = if crate::text::chars_of(n.alt.as_str()).len() == 0 {
        owned("image")
    } else {
        owned(n.alt.as_str())
    };
    let failed = n.local_path.is_none() && crate::image::is_remote_url(n.url.as_str()) && n.download_failed;
    let mut text = owned("[📷 ");
    push_str(&mut text, alt.as_str());
    if failed {
        push_str(&mut text, " ⚠ 下载失败]");
    } else {
        push_str(&mut text, "]");
    }
    let style = if focused {
        Style { fg: Some(Color::White), bg: Some(Color::DarkGray), bold: true, ..Style::plain() }
    } else if failed {
        Style { fg: Some(Color::Red), ..Style::plain() }
    } else {
        Style { fg: Some(Color::Cyan), ..Style::plain() }
    };
    let res = vec![span(text, style)];
    assert(spans_view(res@) =~= seq![image_span(crate::image::image_view(*n), focused)]);
    res
}

fn link_row(text: &str, url: &str, focused: bool) -> (res: Vec<StyledSpan>)
    ensures
        spans_view(res@) == seq![link_span(text@, url@, focused)],
{
    let shown = if crate::text::chars_of(text).len() == 0 {
        owned(url)
    } else {
        let mut t = owned("🔗 ");
        push_str(&mut t, text);
        t
    };
    let style = if focused {
        Style { fg: Some(Color::White), bg: Some(Color::DarkGray), bold: true, underlined: true, ..Style::plain() }
    } else {
        Style { fg: Some(Color::Blue), underlined: true, ..Style::plain() }
    };
    let res = vec![span(shown, style)];
    assert(spans_view(res@) =~= seq![link_span(text@, url@, focused)]);
    res
}

/// The rows of the reader's content area.
pub fn screen_lines(app: &App) -> (res: Vec<Vec<StyledSpan>>)
    ensures
        screen_view(res@) == screen_lines_spec(app.view_of()),
{
    let ghost v = app.view_of();
    let h: usize = match app.height {
        Some(h) => h as usize,
        None => 0,
    };
    let first = app.scroll;
    let len = app.wrapped_lines.len();
    let n: usize = if first >= len {
        0
    } else if len - first < h {
        len - first
    } else {
        h
    };
    let focused: Option<&crate::app::FocusableItem> = match app.focus_index {
        Some(f) => if f < app.focusable_positions.len() {
            Some(&app.focusable_positions[f])
        } else {
            None
        },
        None => None,
    };
    assert(match focused {
        Some(it) => focused_item(v) == Some(focus_view(*it)),
        None => focused_item(v) is None,
    });
    let mut res: Vec<Vec<StyledSpan>> = Vec::new();
    let mut k: usize = 0;
    while k < n
        invariant
            k <= n,
            n as int == (if first >= v.wrapped.len() {
                0
            } else if v.wrapped.len() - first < h {
                v.wrapped.len() - first
            } else {
                h as int
            }),
            first == v.scroll,
            h as int == (match v.height {
                Some(h) => h as int,
                None => 0,
            }),
            v == app.view_of(),
            len == v.wrapped.len(),
            match focused {
                Some(it) => focused_item(v) == Some(focus_view(*it)),
                None => focused_item(v) is None,
            },
            screen_view(res@) == Seq::new(k as nat, |j: int| shown_line(v, first + j, v.wrapped[first + j])),
        decreases n - k,
    {
        let idx = first + k;
        let row = match &app.wrapped_lines[idx] {
            LineContent::Styled(spans) => {
                let range = match focused {
                    Some(it) => it.inline_range_on_line(idx),
                    None => None,
                };
                styled_row(spans, range)
            },
            LineContent::Image(node) => {
                let whole = match focused {
                    Some(it) => it.is_entire_line_on_line(idx),
                    None => false,
                };
                image_row(node, whole)
            },
            LineContent::Link(node) => {
                let whole = match focused {
                    Some(it) => it.is_entire_line_on_line(idx),
                    None => false,
                };
                link_row(node.text.as_str(), node.url.as_str(), whole)
            },
        };
        assert(v.wrapped[idx as int] == crate::image::line_view(app.wrapped_lines@[idx as int]));
        let ghost before = screen_view(res@);
        res.push(row);
        assert(screen_view(res@) =~= before.push(spans_view(row@)));
        assert(screen_view(res@) =~= Seq::new((k + 1) as nat, |j: int| shown_line(v, first + j, v.wrapped[first + j])));
        k = k + 1;
    }
    res
}

// ───────────────────────────── the status bar ─────────────────────────────

/// The reading progress the status bar shows, in percent of the wrapped lines.
pub open spec fn status_percent(v: ReaderView) -> nat {
    let total = v.wrapped.len();
    let h: nat = match v.height {
        Some(h) => h as nat,
        None => 0,
    };
    if total > 0 {
        let p = ((v.scroll + h) * 100) / (total as int);
        if p > 100 { 100 } else { p as nat }
    } else {
        100
    }
}

/// The bar's background.
pub open spec fn bar_style() -> Style {
    Style { fg: Some(Color::White), bg: Some(Color::DarkGray), ..plain_style() }
}

/// The right part of the status bar: the status message, the help hint, or the progress and
/// the key hints.
pub open spec fn status_right(v: ReaderView) -> SpanView {
    match v.status {
        Some(m) => text_span(" ⚠ "@ + m + " "@, Style { fg: Some(Color::Yellow), ..bar_style() }),
        None => text_span(
            if v.help_visible {
                " 按任意键关闭帮助 "@
            } else {
                " "@ + decimal(status_percent(v)) + "% [?]帮助 [D]书架 [q]退出 "@
            },
            bar_style(),
        ),
    }
}

/// The status bar for a terminal `width` columns wide: the file name, the line position, the
/// right part, and blank filler up to the full width.
pub open spec fn status_bar_spec(v: ReaderView, width: nat) -> Seq<SpanView> {
    let left = text_span(" "@ + v.filename + " "@, Style { bold: true, ..bar_style() });
    let middle = text_span(" "@ + decimal((v.scroll + 1) as nat) + "/"@ + decimal(v.wrapped.len()) + " "@, bar_style());
    let right = status_right(v);
    let used = unicode_str_width(left.text) + unicode_str_width(middle.text) + unicode_str_width(right.text);
    let fill: nat = if used >= width { 0 } else { (width - used) as nat };
    seq![left, middle, right, text_span(repeat_char(' ', fill), Style { bg: Some(Color::DarkGray), ..plain_style() })]
}

/// The reader's status bar, `width` columns wide.
pub fn status_bar_line(app: &App, width: u16) -> (res: Vec<StyledSpan>)
    requires
        app.scroll < usize::MAX,
    ensures
        spans_view(res@) == status_bar_spec(app.view_of(), width as nat),
{
    let ghost v = app.view_of();
    let total = app.wrapped_lines.len();
    let h: usize = match app.height {
        Some(h) => h as usize,
        None => 0,
    };
    let bar = Style { fg: Some(Color::White), bg: Some(Color::DarkGray), ..Style::plain() };
    let mut left = owned(" ");
    push_str(&mut left, app.filename.as_str());
    push_str(&mut left, " ");
    let mut middle = owned(" ");
    crate::text::push_decimal(&mut middle, (app.scroll + 1) as u64);
    push_str(&mut middle, "/");
    crate::text::push_decimal(&mut middle, total as u64);
    push_str(&mut middle, " ");
    let (right, right_style) = match &app.status_message {
        Some(m) => {
            let mut t = owned(" ⚠ ");
            push_str(&mut t, m.as_str());
            push_str(&mut t, " ");
            (t, Style { fg: Some(Color::Yellow), ..bar })
        },
        None => {
            if app.help_visible {
                (owned(" 按任意键关闭帮助 "), bar)
            } else {
                let percent: u128 = if total > 0 {
                    let p = ((app.scroll as u128) + (h as u128)) * 100 / (total as u128);
                    if p > 100 { 100 } else { p }
                } else {
                    100
                };
                assert(percent == status_percent(v));
                let mut t = owned(" ");
                crate::text::push_decimal(&mut t, percent as u64);
                push_str(&mut t, "% [?]帮助 [D]书架 [q]退出 ");
                (t, bar)
            }
        },
    };
    let used: u128 = crate::text::display_width(left.as_str()) as u128 + crate::text::display_width(middle.as_str()) as u128
        + crate::text::display_width(right.as_str()) as u128;
    let fill: usize = if used >= width as u128 {
        0
    } else {
        (width as u128 - used) as usize
    };
    let filler = crate::text::repeat_string(' ', fill);
    let res = vec![
        span(left, Style { bold: true, ..bar }),
        span(middle, bar),
        span(right, right_style),
        span(filler, Style { bg: Some(Color::DarkGray), ..Style::plain() }),
    ];
    assert(spans_view(res@) =~= status_bar_spec(v, width as nat));
    res
}

// ───────────────────────────── the table of contents and the help ─────────────────────────────

/// How entry `i` of the table of contents shows: a marker for the selection, then its title
/// indented by its level.
pub open spec fn toc_line(entry: (Seq<char>, Seq<char>, usize), i: int, selection: usize) -> Seq<SpanView> {
    let selected = i == selection;
    let style = if selected {
        Style { fg: Some(Color::Yellow), bold: true, ..plain_style() }
    } else {
        Style { fg: Some(Color::White), ..plain_style() }
    };
    let depth: nat = if entry.2 >= 1 { (entry.2 - 1) as nat } else { 0 };
    seq![
        text_span(if selected { "▶ "@ } else { "  "@ }, style),
        text_span(Seq::new(2 * depth, |k: int| ' ') + entry.0, style)
    ]
}

/// Two spaces per level.
fn indent(depth: usize) -> (res: String)
    ensures
        res@ == Seq::new(2 * depth as nat, |k: int| ' '),
{
    let mut res = String::new();
    let mut i: usize = 0;
    while i < depth
        invariant
            i <= depth,
            res@ == Seq::new(2 * i as nat, |k: int| ' '),
        decreases depth - i,
    {
        let two = "  ";
        proof {
            reveal_strlit("  ");
        }
        assert(two@ =~= seq![' ', ' ']);
        push_str(&mut res, two);
        assert(res@ =~= Seq::new(2 * (i + 1) as nat, |k: int| ' '));
        i = i + 1;
    }
    res
}

/// The lines of the table of contents.
pub fn toc_lines(app: &App) -> (res: Vec<Vec<StyledSpan>>)
    ensures
        screen_view(res@) == Seq::new(
            app.toc@.len(),
            |i: int| toc_line(crate::epub::toc_view(app.toc@)[i], i, app.toc_selection),
        ),
{
    let ghost tv = crate::epub::toc_view(app.toc@);
    let mut res: Vec<Vec<StyledSpan>> = Vec::new();
    let mut i: usize = 0;
    while i < app.toc.len()
        invariant
            i <= app.toc@.len(),
            tv == crate::epub::toc_view(app.toc@),
            screen_view(res@) == Seq::new(i as nat, |j: int| toc_line(tv[j], j, app.toc_selection)),
        decreases app.toc@.len() - i,
    {
        let e = &app.toc[i];
        let selected = i == app.toc_selection;
        let style = if selected {
            Style { fg: Some(Color::Yellow), bold: true, ..Style::plain() }
        } else {
            Style { fg: Some(Color::White), ..Style::plain() }
        };
        let depth = e.level.saturating_sub(1);
        let mut title = indent(depth);
        push_str(&mut title, e.title.as_str());
        let marker = if selected { owned("▶ ") } else { owned("  ") };
        let row = vec![span(marker, style), span(title, style)];
        assert(tv[i as int] == (e.title@, e.href@, e.level));
        let ghost before = screen_view(res@);
        res.push(row);
        assert(screen_view(res@) =~= before.push(spans_view(row@)));
        assert(spans_view(row@) =~= toc_line(tv[i as int], i as int, app.toc_selection));
        assert(screen_view(res@) =~= Seq::new((i + 1) as nat, |j: int| toc_line(tv[j], j, app.toc_selection)));
        i = i + 1;
    }
    res
}


/// The keys and what they do, as the help lists them.
pub open spec fn help_rows() -> Seq<(Seq<char>, Seq<char>)> {
    seq![
        ("j / ↓"@, "下一行（底部自动下一章）"@),
        ("k / ↑"@, "上一行（顶部自动上一章）"@),
        ("Ctrl+d"@, "向下翻半页"@),
        ("Ctrl+u"@, "向上翻半页"@),
        ("Ctrl+f"@, "向下翻一页"@),
        ("Ctrl+b"@, "向上翻一页"@),
        ("PgDn/PgUp"@, "翻半页"@),
        ("g / Home"@, "回到顶部"@),
        ("G / End"@, "跳转底部"@),
        ("Tab"@, "下一个可交互元素"@),
        ("Shift+Tab"@, "上一个可交互元素"@),
        ("Enter"@, "打开图片/链接"@),
        ("Ctrl+n/p"@, "下/上一章 (EPUB)"@),
        ("t"@, "目录 (EPUB)"@),
        ("f"@, "切换状态栏"@),
        ("?"@, "显示/关闭帮助"@),
        ("D"@, "返回 dashboard"@),
        ("q / Esc"@, "退出"@)
    ]
}

/// One help line: the key, padded to twelve characters, then what it does.
pub open spec fn help_line(key: Seq<char>, desc: Seq<char>) -> Seq<SpanView> {
    seq![
        text_span("  "@, plain_style()),
        text_span(crate::text::pad_right(key, 12), Style { fg: Some(Color::Yellow), bold: true, ..plain_style() }),
        text_span(desc, Style { fg: Some(Color::White), ..plain_style() })
    ]
}

/// The help: an empty line, then one line per key.
pub open spec fn help_lines_spec() -> Seq<Seq<SpanView>> {
    seq![seq![text_span(""@, plain_style())]] + Seq::new(help_rows().len(), |i: int| help_line(help_rows()[i].0, help_rows()[i].1))
}

fn padded(key: &str, w: usize) -> (res: String)
    ensures
        res@ == crate::text::pad_right(key@, w as nat),
{
    let n = crate::text::chars_of(key).len();
    let mut res = owned(key);
    if n < w {
        push_str(&mut res, crate::text::repeat_string(' ', w - n).as_str());
    }
    res
}

/// The lines of the help.
pub fn help_lines() -> (res: Vec<Vec<StyledSpan>>)
    ensures
        screen_view(res@) == help_lines_spec(),
{
    let rows: Vec<(&str, &str)> = vec![
        ("j / ↓", "下一行（底部自动下一章）"),
        ("k / ↑", "上一行（顶部自动上一章）"),
        ("Ctrl+d", "向下翻半页"),
        ("Ctrl+u", "向上翻半页"),
        ("Ctrl+f", "向下翻一页"),
        ("Ctrl+b", "向上翻一页"),
        ("PgDn/PgUp", "翻半页"),
        ("g / Home", "回到顶部"),
        ("G / End", "跳转底部"),
        ("Tab", "下一个可交互元素"),
        ("Shift+Tab", "上一个可交互元素"),
        ("Enter", "打开图片/链接"),
        ("Ctrl+n/p", "下/上一章 (EPUB)"),
        ("t", "目录 (EPUB)"),
        ("f", "切换状态栏"),
        ("?", "显示/关闭帮助"),
        ("D", "返回 dashboard"),
        ("q / Esc", "退出"),
    ];
    let ghost hv = rows@.map_values(|r: (&str, &str)| (r.0@, r.1@));
    assert(hv =~= help_rows());
    let first = vec![span(owned(""), Style::plain())];
    assert(spans_view(first@) =~= seq![text_span(""@, plain_style())]);
    let mut res: Vec<Vec<StyledSpan>> = Vec::new();
    res.push(first);
    assert(screen_view(res@) =~= seq![seq![text_span(""@, plain_style())]] + Seq::new(
        0,
        |j: int| help_line(hv[j].0, hv[j].1),
    ));
    let mut i: usize = 0;
    while i < rows.len()
        invariant
            i <= rows@.len(),
            hv == rows@.map_values(|r: (&str, &str)| (r.0@, r.1@)),
            hv == help_rows(),
            screen_view(res@) == seq![seq![text_span(""@, plain_style())]] + Seq::new(
                i as nat,
                |j: int| help_line(hv[j].0, hv[j].1),
            ),
        decreases rows@.len() - i,
    {
        let (key, desc) = rows[i];
        assert(hv[i as int] == (key@, desc@));
        let row = vec![
            span(owned("  "), Style::plain()),
            span(padded(key, 12), Style { fg: Some(Color::Yellow), bold: true, ..Style::plain() }),
            span(owned(desc), Style { fg: Some(Color::White), ..Style::plain() }),
        ];
        let ghost before = screen_view(res@);
        res.push(row);
        assert(screen_view(res@) =~= before.push(spans_view(row@)));
        assert(spans_view(row@) =~= help_line(hv[i as int].0, hv[i as int].1));
        assert(screen_view(res@) =~= seq![seq![text_span(""@, plain_style())]] + Seq::new(
            (i + 1) as nat,
            |j: int| help_line(hv[j].0, hv[j].1),
        ));
        i = i + 1;
    }
    res
}

} // verus!
