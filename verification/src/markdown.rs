//! Markdown documents to styled lines, from the events of the `pulldown-cmark` parser.
use vstd::prelude::*;
use pulldown_cmark::CodeBlockKind::Fenced;
use pulldown_cmark::{Event, Options, Parser, Tag};
use crate::image::{counted_ids, image_ids, ImageView, LineContent, LineView, SpanView, StyledSpan};
use crate::style::{plain_style, Color, Style};
use crate::text::{has_prefix, owned, repeat_char, str_eq, trim};
use crate::xhtml::{capu, dim_style};

verus! {

#[verifier::external_type_specification]
#[verifier::external_body]
#[verifier::reject_recursive_types(F)]
pub struct ExMdParser<'a, F>(pulldown_cmark::Parser<'a, F>);

#[verifier::external_type_specification]
#[verifier::external_body]
pub struct ExBrokenLinkDefault(pulldown_cmark::DefaultBrokenLinkCallback);

/// One parser event: the start of an element (by the name of its end tag, and its URL or code
/// block language), the end of an element (by name), text, inline code, HTML, a line break, a
/// rule, or anything else.
#[derive(Debug)]
pub enum MdEvent {
    Start(String, String),
    End(String),
    Text(String),
    Code(String),
    Html(String),
    Break,
    Rule,
    Other,
}

/// The plain-value view of an event.
pub enum MdToken {
    Start(Seq<char>, Seq<char>),
    End(Seq<char>),
    Text(Seq<char>),
    Code(Seq<char>),
    Html(Seq<char>),
    Break,
    Rule,
    Other,
}

/// The view of an event.
pub open spec fn md_token(e: MdEvent) -> MdToken {
    match e {
        MdEvent::Start(n, p) => MdToken::Start(n@, p@),
        MdEvent::End(n) => MdToken::End(n@),
        MdEvent::Text(t) => MdToken::Text(t@),
        MdEvent::Code(t) => MdToken::Code(t@),
        MdEvent::Html(t) => MdToken::Html(t@),
        MdEvent::Break => MdToken::Break,
        MdEvent::Rule => MdToken::Rule,
        MdEvent::Other => MdToken::Other,
    }
}

/// The events that `pulldown-cmark`, with strikethrough and tables enabled, gives for `source`.
pub uninterp spec fn md_events(source: Seq<char>) -> Seq<MdToken>;

/// The events a parser has still to give.
pub uninterp spec fn pending_md(p: Parser) -> Seq<MdToken>;

/// `Parser::new_ext` with strikethrough and tables. The contract claims that the parser will
/// give the events of `source`.
#[verifier::external_body]
pub(crate) fn markdown_parser(source: &str) -> (res: Parser)
    ensures
        pending_md(res) == md_events(source@),
{
    Parser::new_ext(source, Options::ENABLE_STRIKETHROUGH | Options::ENABLE_TABLES)
}

/// `Parser::next`, converted to an event. The contract claims that the parser gives its pending
/// events in order, each once, and then nothing (the parser is a fused iterator over a finite
/// tree). A start event carries the `Debug` name of its end tag, and the link or image URL or
/// the fenced code block's language.
#[verifier::external_body]
pub(crate) fn next_md_event(parser: &mut Parser) -> (res: Option<MdEvent>)
    ensures
        pending_md(*old(parser)).len() > 0 ==> (res matches Some(e) && md_token(e) == pending_md(*old(parser))[0]
            && pending_md(*final(parser)) == pending_md(*old(parser)).drop_first()),
        pending_md(*old(parser)).len() == 0 ==> res is None,
{
    Some(match parser.next()? {
        Event::Start(t) => MdEvent::Start(format!("{:?}", t.to_end()), match t {
            Tag::Link { dest_url: u, .. } | Tag::Image { dest_url: u, .. } | Tag::CodeBlock(Fenced(u)) => u.into_string(),
            _ => String::new(),
        }),
        Event::End(t) => MdEvent::End(format!("{t:?}")),
        Event::Text(t) => MdEvent::Text(t.into_string()),
        Event::Code(t) => MdEvent::Code(t.into_string()),
        Event::Html(t) | Event::InlineHtml(t) => MdEvent::Html(t.into_string()),
        Event::SoftBreak | Event::HardBreak => MdEvent::Break,
        Event::Rule => MdEvent::Rule,
        _ => MdEvent::Other,
    })
}

// ───────────────────────────── the event walk ─────────────────────────────

/// Where the walk over a document's events stands.
pub struct MState {
    pub out: Seq<LineView>,
    pub cur: Seq<SpanView>,
    pub bold: bool,
    pub italic: bool,
    pub strike: bool,
    pub link: bool,
    pub link_url: Seq<char>,
    pub in_code_block: bool,
    pub item_stack: Seq<usize>,
    pub in_blockquote: bool,
    pub heading: Option<u8>,
    pub in_image: bool,
    pub image_url: Seq<char>,
    pub image_alt: Seq<char>,
    pub image_count: usize,
}

/// The walk before the first event.
pub open spec fn mstart() -> MState {
    MState {
        out: Seq::empty(),
        cur: Seq::empty(),
        bold: false,
        italic: false,
        strike: false,
        link: false,
        link_url: Seq::empty(),
        in_code_block: false,
        item_stack: Seq::empty(),
        in_blockquote: false,
        heading: None,
        in_image: false,
        image_url: Seq::empty(),
        image_alt: Seq::empty(),
        image_count: 0,
    }
}

/// The style of text: heading color and emphasis, link color, bold, italic, strikethrough.
pub open spec fn md_style(bold: bool, italic: bool, strike: bool, link: bool, heading: Option<u8>) -> Style {
    let s0 = plain_style();
    let s1 = match heading {
        Some(level) => {
            let color = if level == 1 {
                Color::Yellow
            } else if level == 2 {
                Color::Cyan
            } else if level == 3 {
                Color::Green
            } else if level == 4 {
                Color::Magenta
            } else if level == 5 {
                Color::Blue
            } else {
                Color::White
            };
            Style { fg: Some(color), bold: true, underlined: level == 1, ..s0 }
        },
        None => s0,
    };
    let s2 = if link {
        Style { fg: Some(Color::Blue), underlined: true, ..s1 }
    } else {
        s1
    };
    let s3 = if bold {
        Style { bold: true, ..s2 }
    } else {
        s2
    };
    let s4 = if italic {
        Style { italic: true, ..s3 }
    } else {
        s3
    };
    if strike {
        Style { crossed_out: true, ..s4 }
    } else {
        s4
    }
}

/// The style of the current text.
pub open spec fn mstyle(st: MState) -> Style {
    md_style(st.bold, st.italic, st.strike, st.link, st.heading)
}

/// The style of code.
pub open spec fn code_style() -> Style {
    Style { fg: Some(Color::Green), bg: Some(Color::Black), ..plain_style() }
}

/// Text added to the current line (nothing for empty text).
pub open spec fn madd(st: MState, text: Seq<char>, style: Style, link: Option<(Seq<char>, bool)>) -> MState {
    if text.len() == 0 {
        st
    } else {
        MState { cur: st.cur.push(SpanView { text, style, link }), ..st }
    }
}

/// The current line ended, when it holds anything.
pub open spec fn mflush(st: MState) -> MState {
    if st.cur.len() > 0 {
        MState { out: st.out.push(LineView::Styled(st.cur)), cur: Seq::empty(), ..st }
    } else {
        st
    }
}

/// An empty line added.
pub open spec fn mblank(st: MState) -> MState {
    MState { out: st.out.push(LineView::Styled(Seq::empty())), ..st }
}

/// The indent of the innermost list item (none outside lists) added as a span of spaces.
pub open spec fn mindent(st: MState) -> MState {
    let indent = if st.item_stack.len() > 0 {
        st.item_stack.last()
    } else {
        0
    };
    if indent == 0 {
        st
    } else {
        MState { cur: st.cur.push(SpanView { text: repeat_char(' ', indent as nat), style: plain_style(), link: None }), ..st }
    }
}

/// The quote marker, inside a block quote, then the indent.
pub open spec fn mline_start(st: MState) -> MState {
    let st1 = if st.in_blockquote {
        madd(st, "  ▎ "@, dim_style(), None)
    } else {
        st
    };
    mindent(st1)
}

/// The current link target, with whether it is external.
pub open spec fn mlink(st: MState) -> Option<(Seq<char>, bool)> {
    if st.link {
        Some((st.link_url, crate::dashboard::is_http_url(st.link_url)))
    } else {
        None
    }
}

/// The rule of eight `─`, then the line ends.
pub open spec fn mrule(st: MState) -> MState {
    mflush(madd(st, repeat_char('─', 8), dim_style(), None))
}

/// The heading level in the name of a heading end tag.
pub open spec fn md_heading(name: Seq<char>) -> Option<u8> {
    if name == "Heading(H1)"@ {
        Some(1u8)
    } else if name == "Heading(H2)"@ {
        Some(2u8)
    } else if name == "Heading(H3)"@ {
        Some(3u8)
    } else if name == "Heading(H4)"@ {
        Some(4u8)
    } else if name == "Heading(H5)"@ {
        Some(5u8)
    } else if name == "Heading(H6)"@ {
        Some(6u8)
    } else {
        None
    }
}

/// The start of an element.
pub open spec fn mstart_tag(st: MState, name: Seq<char>, payload: Seq<char>) -> MState {
    if name == "Image"@ {
        MState { in_image: true, image_url: payload, image_alt: Seq::empty(), ..st }
    } else if name == "Paragraph"@ {
        mline_start(st)
    } else if md_heading(name) is Some {
        let level = md_heading(name)->0;
        let st1 = MState { heading: Some(level), ..st };
        madd(st1, repeat_char('#', level as nat) + seq![' '], md_style(true, false, false, false, Some(level)), None)
    } else if name == "Emphasis"@ {
        MState { italic: true, ..st }
    } else if name == "Strong"@ {
        MState { bold: true, ..st }
    } else if name == "Strikethrough"@ {
        MState { strike: true, ..st }
    } else if name == "Link"@ {
        let st1 = MState { link: true, link_url: payload, ..st };
        madd(st1, "🔗"@, mstyle(st1), None)
    } else {
        mstart_block(st, name, payload)
    }
}

/// The start of a block element.
pub open spec fn mstart_block(st: MState, name: Seq<char>, payload: Seq<char>) -> MState {
    if name == "CodeBlock"@ {
        let st1 = MState { in_code_block: true, ..st };
        let st2 = if payload.len() > 0 {
            mflush(madd(st1, "  ── "@ + payload + seq![' '], Style { fg: Some(Color::DarkGray), italic: true, ..plain_style() }, None))
        } else {
            st1
        };
        mrule(st2)
    } else if has_prefix(name, "List("@) {
        mflush(st)
    } else if name == "Item"@ {
        let indent = capu((st.item_stack.len() * 2 + 2) as int);
        let st1 = madd(
            madd(st, repeat_char(' ', indent as nat), plain_style(), None),
            "• "@,
            Style { fg: Some(Color::Magenta), ..plain_style() },
            None,
        );
        MState { item_stack: st1.item_stack.push(indent), ..st1 }
    } else if has_prefix(name, "BlockQuote"@) {
        MState { in_blockquote: true, ..st }
    } else if name == "Table"@ {
        mrule(st)
    } else if name == "TableCell"@ {
        madd(st, " │ "@, Style { fg: Some(Color::White), ..plain_style() }, None)
    } else {
        st
    }
}

/// The end of an element.
pub open spec fn mend_tag(st: MState, name: Seq<char>) -> MState {
    if name == "Image"@ {
        let st1 = mflush(MState { in_image: false, ..st });
        mblank(
            MState {
                out: st1.out.push(
                    LineView::Image(
                        ImageView { alt: st.image_alt, url: st.image_url, local_path: None, id: st.image_count, download_failed: false },
                    ),
                ),
                image_count: capu(st.image_count + 1),
                ..st1
            },
        )
    } else if name == "Paragraph"@ {
        mblank(mflush(st))
    } else if md_heading(name) is Some {
        MState { heading: None, ..mblank(mflush(st)) }
    } else if name == "Emphasis"@ {
        MState { italic: false, ..st }
    } else if name == "Strong"@ {
        MState { bold: false, ..st }
    } else if name == "Strikethrough"@ {
        MState { strike: false, ..st }
    } else if name == "Link"@ {
        MState { link: false, ..st }
    } else {
        mend_block(st, name)
    }
}

/// The end of a block element.
pub open spec fn mend_block(st: MState, name: Seq<char>) -> MState {
    if name == "CodeBlock"@ {
        mblank(mrule(MState { in_code_block: false, ..st }))
    } else if has_prefix(name, "List("@) {
        if st.item_stack.len() == 0 {
            mblank(st)
        } else {
            st
        }
    } else if name == "Item"@ {
        let st1 = mflush(st);
        MState {
            item_stack: if st1.item_stack.len() > 0 {
                st1.item_stack.drop_last()
            } else {
                st1.item_stack
            },
            ..st1
        }
    } else if has_prefix(name, "BlockQuote"@) {
        mblank(MState { in_blockquote: false, ..mflush(st) })
    } else if name == "Table"@ {
        mblank(mrule(st))
    } else {
        st
    }
}

/// The pieces of code text, each added and the line ended, from the first `n`: every piece when
/// the text ends with a line break, else the non-empty ones.
pub open spec fn code_lines(st: MState, pieces: Seq<Seq<char>>, all: bool, n: nat) -> MState
    decreases n,
{
    if n == 0 {
        st
    } else {
        let prev = code_lines(st, pieces, all, (n - 1) as nat);
        let p = pieces[n - 1];
        if p.len() > 0 || all {
            mflush(madd(prev, p, code_style(), None))
        } else {
            prev
        }
    }
}

/// Text: the alt text of an image; link text; code lines; or plain text.
pub open spec fn mtext(st: MState, t: Seq<char>) -> MState {
    if st.in_image {
        MState { image_alt: st.image_alt + t, ..st }
    } else if st.link {
        madd(st, t, mstyle(st), mlink(st))
    } else if st.in_code_block {
        let pieces = crate::xhtml::split_lines(t);
        code_lines(st, pieces, t.len() > 0 && t.last() == '\n', pieces.len())
    } else {
        madd(st, t, mstyle(st), None)
    }
}

/// One event of the walk.
pub open spec fn mstep(st: MState, tok: MdToken) -> MState {
    match tok {
        MdToken::Start(name, payload) => mstart_tag(st, name, payload),
        MdToken::End(name) => mend_tag(st, name),
        MdToken::Text(t) => mtext(st, t),
        MdToken::Code(t) => madd(st, seq![' '] + t + seq![' '], code_style(), None),
        MdToken::Html(t) => madd(st, t, mstyle(st), mlink(st)),
        MdToken::Break => mline_start(mflush(st)),
        MdToken::Rule => mblank(mrule(st)),
        MdToken::Other => st,
    }
}

/// The walk over events.
pub open spec fn mwalk(toks: Seq<MdToken>) -> MState
    decreases toks.len(),
{
    if toks.len() == 0 {
        mstart()
    } else {
        mstep(mwalk(toks.drop_last()), toks.last())
    }
}

/// The lines of a Markdown document: none for a blank document, else the walk's lines and the
/// last line when it holds anything.
pub open spec fn markdown_lines_spec(source: Seq<char>) -> Seq<LineView> {
    if trim(source).len() == 0 {
        Seq::empty()
    } else {
        mflush(mwalk(md_events(source))).out
    }
}

// ───────────────────────────── strikethrough ─────────────────────────────

proof fn lemma_walk_push(toks: Seq<MdToken>, tok: MdToken)
    ensures
        mwalk(toks.push(tok)) == mstep(mwalk(toks), tok),
{
    assert(toks.push(tok).drop_last() =~= toks);
}

proof fn lemma_code_lines_strike(st: MState, pieces: Seq<Seq<char>>, all: bool, n: nat)
    ensures
        code_lines(st, pieces, all, n).strike == st.strike,
        code_lines(st, pieces, all, n).in_code_block == st.in_code_block,
    decreases n,
{
    if n > 0 {
        lemma_code_lines_strike(st, pieces, all, (n - 1) as nat);
    }
}

/// Whether an event starts or ends a strikethrough.
pub open spec fn is_strike_tag(tok: MdToken) -> bool {
    match tok {
        MdToken::Start(name, _) => name == "Strikethrough"@,
        MdToken::End(name) => name == "Strikethrough"@,
        _ => false,
    }
}

proof fn lemma_strike_tags(st: MState, payload: Seq<char>)
    ensures
        mstep(st, MdToken::Start("Strikethrough"@, payload)).strike,
        !mstep(st, MdToken::End("Strikethrough"@)).strike,
{
    reveal_strlit("Strikethrough");
    reveal_strlit("Image");
    reveal_strlit("Paragraph");
    reveal_strlit("Emphasis");
    reveal_strlit("Strong");
    reveal_strlit("Heading(H1)");
    reveal_strlit("Heading(H2)");
    reveal_strlit("Heading(H3)");
    reveal_strlit("Heading(H4)");
    reveal_strlit("Heading(H5)");
    reveal_strlit("Heading(H6)");
    assert(md_heading("Strikethrough"@) is None);
}

proof fn lemma_step_keeps_strike(st: MState, tok: MdToken)
    requires
        !is_strike_tag(tok),
    ensures
        mstep(st, tok).strike == st.strike,
{
    match tok {
        MdToken::Text(x) => {
            if !st.in_image && !st.link && st.in_code_block {
                let pieces = crate::xhtml::split_lines(x);
                lemma_code_lines_strike(st, pieces, x.len() > 0 && x.last() == '\n', pieces.len());
            }
        },
        _ => {},
    }
}

proof fn lemma_text_crossed_out(st: MState, t: Seq<char>)
    requires
        t.len() > 0,
        !st.in_image,
        !st.in_code_block,
    ensures
        mstep(st, MdToken::Text(t)).cur.last().style.crossed_out == st.strike,
{
}

/// Strikethrough lasts from its start to its end. Starting one turns it on and ending one
/// turns it off, whatever came before; no other event changes it. Plain text is crossed out
/// exactly while it is on, so text after `~~b~~` in `a ~~b~~ c` is not crossed out.
pub proof fn lemma_strikethrough_scope(toks: Seq<MdToken>, tok: MdToken, payload: Seq<char>, t: Seq<char>)
    ensures
        mwalk(toks.push(MdToken::Start("Strikethrough"@, payload))).strike,
        !mwalk(toks.push(MdToken::End("Strikethrough"@))).strike,
        !is_strike_tag(tok) ==> mwalk(toks.push(tok)).strike == mwalk(toks).strike,
        ({
            let st = mwalk(toks);
            t.len() > 0 && !st.in_image && !st.in_code_block ==> mwalk(toks.push(MdToken::Text(t))).cur.last().style.crossed_out
                == st.strike
        }),
        ({
            let closed = toks.push(MdToken::End("Strikethrough"@));
            let st = mwalk(closed);
            t.len() > 0 && !st.in_image && !st.in_code_block ==> !mwalk(closed.push(MdToken::Text(t))).cur.last().style.crossed_out
        }),
{
    let st = mwalk(toks);
    lemma_walk_push(toks, MdToken::Start("Strikethrough"@, payload));
    lemma_walk_push(toks, MdToken::End("Strikethrough"@));
    lemma_walk_push(toks, tok);
    lemma_walk_push(toks, MdToken::Text(t));
    let closed = toks.push(MdToken::End("Strikethrough"@));
    lemma_walk_push(closed, MdToken::Text(t));
    lemma_strike_tags(st, payload);
    if !is_strike_tag(tok) {
        lemma_step_keeps_strike(st, tok);
    }
    if t.len() > 0 && !st.in_image && !st.in_code_block {
        lemma_text_crossed_out(st, t);
    }
    let sc = mwalk(closed);
    if t.len() > 0 && !sc.in_image && !sc.in_code_block {
        lemma_text_crossed_out(sc, t);
    }
}

// ───────────────────────────── image numbering ─────────────────────────────

/// The images a walk has produced are numbered in order by their count so far.
pub open spec fn numbered(st: MState) -> bool {
    let n = image_ids(st.out).len();
    &&& image_ids(st.out) == counted_ids(n)
    &&& st.image_count as int == if n < usize::MAX { n as int } else { usize::MAX as int }
}

/// A step that adds no image: the image ids and the count stay.
pub open spec fn same_images(a: MState, b: MState) -> bool {
    image_ids(b.out) == image_ids(a.out) && b.image_count == a.image_count
}

proof fn lemma_push_styled(out: Seq<LineView>, spans: Seq<SpanView>)
    ensures
        image_ids(out.push(LineView::Styled(spans))) == image_ids(out),
{
    assert(out.push(LineView::Styled(spans)).drop_last() =~= out);
}

proof fn lemma_mflush_images(st: MState)
    ensures
        same_images(st, mflush(st)),
{
    if st.cur.len() > 0 {
        lemma_push_styled(st.out, st.cur);
    }
}

proof fn lemma_mblank_images(st: MState)
    ensures
        same_images(st, mblank(st)),
{
    lemma_push_styled(st.out, Seq::empty());
}

proof fn lemma_mrule_images(st: MState)
    ensures
        same_images(st, mrule(st)),
{
    lemma_mflush_images(madd(st, repeat_char('─', 8), dim_style(), None));
}

proof fn lemma_code_lines_images(st: MState, pieces: Seq<Seq<char>>, all: bool, n: nat)
    ensures
        same_images(st, code_lines(st, pieces, all, n)),
    decreases n,
{
    if n > 0 {
        let prev = code_lines(st, pieces, all, (n - 1) as nat);
        lemma_code_lines_images(st, pieces, all, (n - 1) as nat);
        lemma_mflush_images(madd(prev, pieces[n - 1], code_style(), None));
    }
}

proof fn lemma_mstart_images(st: MState, name: Seq<char>, payload: Seq<char>)
    ensures
        same_images(st, mstart_tag(st, name, payload)),
{
    if name == "CodeBlock"@ {
        let st1 = MState { in_code_block: true, ..st };
        if payload.len() > 0 {
            let st2 = madd(st1, "  ── "@ + payload + seq![' '], Style { fg: Some(Color::DarkGray), italic: true, ..plain_style() }, None);
            lemma_mflush_images(st2);
            lemma_mrule_images(mflush(st2));
        } else {
            lemma_mrule_images(st1);
        }
    } else if has_prefix(name, "List("@) {
        lemma_mflush_images(st);
    } else if name == "Table"@ {
        lemma_mrule_images(st);
    }
}

proof fn lemma_mend_block_images(st: MState, name: Seq<char>)
    ensures
        same_images(st, mend_block(st, name)),
{
    if name == "CodeBlock"@ {
        let st1 = MState { in_code_block: false, ..st };
        lemma_mrule_images(st1);
        lemma_mblank_images(mrule(st1));
    } else if has_prefix(name, "List("@) {
        lemma_mblank_images(st);
    } else if name == "Item"@ {
        lemma_mflush_images(st);
    } else if has_prefix(name, "BlockQuote"@) {
        lemma_mflush_images(st);
        lemma_mblank_images(MState { in_blockquote: false, ..mflush(st) });
    } else if name == "Table"@ {
        lemma_mrule_images(st);
        lemma_mblank_images(mrule(st));
    }
}

proof fn lemma_mstep_numbered(st: MState, tok: MdToken)
    requires
        numbered(st),
    ensures
        numbered(mstep(st, tok)),
{
    match tok {
        MdToken::Start(name, payload) => {
            lemma_mstart_images(st, name, payload);
        },
        MdToken::End(name) => {
            if name == "Image"@ {
                let st0 = MState { in_image: false, ..st };
                lemma_mflush_images(st0);
                let st1 = mflush(st0);
                let n = image_ids(st.out).len();
                let img = LineView::Image(
                    ImageView { alt: st.image_alt, url: st.image_url, local_path: None, id: st.image_count, download_failed: false },
                );
                let out2 = st1.out.push(img);
                assert(out2.drop_last() =~= st1.out);
                assert(image_ids(out2) =~= counted_ids(n + 1));
                let st2 = MState { out: out2, image_count: capu(st.image_count + 1), ..st1 };
                lemma_mblank_images(st2);
            } else if name == "Paragraph"@ {
                lemma_mflush_images(st);
                lemma_mblank_images(mflush(st));
            } else if md_heading(name) is Some {
                lemma_mflush_images(st);
                lemma_mblank_images(mflush(st));
            } else if name != "Emphasis"@ && name != "Strong"@ && name != "Strikethrough"@ && name != "Link"@ {
                lemma_mend_block_images(st, name);
            }
        },
        MdToken::Text(t) => {
            if !st.in_image && !st.link && st.in_code_block {
                let pieces = crate::xhtml::split_lines(t);
                lemma_code_lines_images(st, pieces, t.len() > 0 && t.last() == '\n', pieces.len());
            }
        },
        MdToken::Break => {
            lemma_mflush_images(st);
        },
        MdToken::Rule => {
            lemma_mrule_images(st);
            lemma_mblank_images(mrule(st));
        },
        _ => {},
    }
}

proof fn lemma_mwalk_numbered(toks: Seq<MdToken>)
    ensures
        numbered(mwalk(toks)),
    decreases toks.len(),
{
    if toks.len() == 0 {
        assert(image_ids(Seq::<LineView>::empty()) =~= counted_ids(0));
    } else {
        lemma_mwalk_numbered(toks.drop_last());
        lemma_mstep_numbered(mwalk(toks.drop_last()), toks.last());
    }
}

/// The images of a parsed Markdown document are numbered 0, 1, 2, ... in the order they
/// appear (an id that would pass `usize::MAX` stays there), so no two of them share an id.
pub proof fn lemma_markdown_image_ids(source: Seq<char>)
    ensures
        image_ids(markdown_lines_spec(source)) == counted_ids(image_ids(markdown_lines_spec(source)).len()),
        forall|i: int, j: int|
            0 <= i < j < image_ids(markdown_lines_spec(source)).len() && j <= usize::MAX ==> image_ids(
                markdown_lines_spec(source),
            )[i] != image_ids(markdown_lines_spec(source))[j],
{
    if trim(source).len() == 0 {
        assert(image_ids(Seq::<LineView>::empty()) =~= counted_ids(0));
    } else {
        lemma_mwalk_numbered(md_events(source));
        lemma_mflush_images(mwalk(md_events(source)));
    }
}

// ───────────────────────────── the event walk, computed ─────────────────────────────

struct MRun {
    out: Vec<LineContent>,
    cur: Vec<StyledSpan>,
    bold: bool,
    italic: bool,
    strike: bool,
    link: bool,
    link_url: String,
    in_code_block: bool,
    item_stack: Vec<usize>,
    in_blockquote: bool,
    heading: Option<u8>,
    in_image: bool,
    image_url: String,
    image_alt: String,
    image_count: usize,
}

fn push_span(v: &mut Vec<StyledSpan>, s: StyledSpan)
    ensures
        crate::image::spans_view(final(v)@) == crate::image::spans_view(old(v)@).push(crate::image::span_view(s)),
{
    let ghost before = v@;
    v.push(s);
    assert(crate::image::spans_view(v@) =~= crate::image::spans_view(before).push(crate::image::span_view(s)));
}

fn push_line(v: &mut Vec<LineContent>, l: LineContent)
    ensures
        crate::image::lines_view(final(v)@) == crate::image::lines_view(old(v)@).push(crate::image::line_view(l)),
{
    let ghost before = v@;
    v.push(l);
    assert(crate::image::lines_view(v@) =~= crate::image::lines_view(before).push(crate::image::line_view(l)));
}

fn md_style_exec(bold: bool, italic: bool, strike: bool, link: bool, heading: Option<u8>) -> (res: Style)
    ensures
        res == md_style(bold, italic, strike, link, heading),
{
    let mut s = Style::plain();
    if let Some(level) = heading {
        let color = if level == 1 {
            Color::Yellow
        } else if level == 2 {
            Color::Cyan
        } else if level == 3 {
            Color::Green
        } else if level == 4 {
            Color::Magenta
        } else if level == 5 {
            Color::Blue
        } else {
            Color::White
        };
        s = s.with_fg(color).with_bold();
        if level == 1 {
            s = s.with_underline();
        }
    }
    if link {
        s = s.with_fg(Color::Blue).with_underline();
    }
    if bold {
        s = s.with_bold();
    }
    if italic {
        s = s.with_italic();
    }
    if strike {
        s = s.with_crossed_out();
    }
    s
}

fn md_heading_exec(name: &str) -> (res: Option<u8>)
    ensures
        res == md_heading(name@),
{
    if str_eq(name, "Heading(H1)") {
        Some(1)
    } else if str_eq(name, "Heading(H2)") {
        Some(2)
    } else if str_eq(name, "Heading(H3)") {
        Some(3)
    } else if str_eq(name, "Heading(H4)") {
        Some(4)
    } else if str_eq(name, "Heading(H5)") {
        Some(5)
    } else if str_eq(name, "Heading(H6)") {
        Some(6)
    } else {
        None
    }
}

impl MRun {
    spec fn mview(&self) -> MState {
        MState {
            out: crate::image::lines_view(self.out@),
            cur: crate::image::spans_view(self.cur@),
            bold: self.bold,
            italic: self.italic,
            strike: self.strike,
            link: self.link,
            link_url: self.link_url@,
            in_code_block: self.in_code_block,
            item_stack: self.item_stack@,
            in_blockquote: self.in_blockquote,
            heading: self.heading,
            in_image: self.in_image,
            image_url: self.image_url@,
            image_alt: self.image_alt@,
            image_count: self.image_count,
        }
    }

    fn style(&self) -> (res: Style)
        ensures
            res == mstyle(self.mview()),
    {
        md_style_exec(self.bold, self.italic, self.strike, self.link, self.heading)
    }

    fn add(&mut self, text: String, style: Style, link: Option<crate::image::LinkInfo>)
        ensures
            final(self).mview() == madd(
                old(self).mview(),
                text@,
                style,
                match link {
                    Some(l) => Some((l.url@, l.is_external)),
                    None => None,
                },
            ),
    {
        if crate::text::chars_of(text.as_str()).len() > 0 {
            let sp = match link {
                Some(l) => StyledSpan::with_link(text, style, l),
                None => StyledSpan::new(text, style),
            };
            push_span(&mut self.cur, sp);
        }
    }

    fn flush(&mut self)
        ensures
            final(self).mview() == mflush(old(self).mview()),
    {
        if self.cur.len() > 0 {
            let mut line: Vec<StyledSpan> = Vec::new();
            std::mem::swap(&mut line, &mut self.cur);
            push_line(&mut self.out, LineContent::Styled(line));
            assert(crate::image::spans_view(self.cur@) =~= Seq::<SpanView>::empty());
        }
    }

    fn blank(&mut self)
        ensures
            final(self).mview() == mblank(old(self).mview()),
    {
        let l = LineContent::Styled(Vec::new());
        assert(crate::image::spans_view(Seq::<StyledSpan>::empty()) =~= Seq::<SpanView>::empty());
        push_line(&mut self.out, l);
    }

    fn rule(&mut self)
        ensures
            final(self).mview() == mrule(old(self).mview()),
    {
        self.add(crate::text::repeat_string('─', 8), crate::style::Style::plain().with_fg(Color::DarkGray), None);
        self.flush();
    }

    fn line_start(&mut self)
        ensures
            final(self).mview() == mline_start(old(self).mview()),
    {
        if self.in_blockquote {
            self.add(owned("  ▎ "), Style::plain().with_fg(Color::DarkGray), None);
        }
        let indent: usize = if self.item_stack.len() > 0 {
            self.item_stack[self.item_stack.len() - 1]
        } else {
            0
        };
        if indent != 0 {
            push_span(&mut self.cur, StyledSpan::new(crate::text::repeat_string(' ', indent), Style::plain()));
        }
    }

    fn link_info(&self) -> (res: Option<crate::image::LinkInfo>)
        ensures
            match res {
                Some(l) => mlink(self.mview()) == Some((l.url@, l.is_external)),
                None => mlink(self.mview()) is None,
            },
    {
        if self.link {
            Some(crate::image::LinkInfo {
                url: owned(self.link_url.as_str()),
                is_external: crate::dashboard::starts_with_http(self.link_url.as_str()),
            })
        } else {
            None
        }
    }

    fn start_tag(&mut self, name: &str, payload: &str)
        ensures
            final(self).mview() == mstart_tag(old(self).mview(), name@, payload@),
    {
        if str_eq(name, "Image") {
            self.in_image = true;
            self.image_url = owned(payload);
            self.image_alt = String::new();
        } else if str_eq(name, "Paragraph") {
            self.line_start();
        } else if let Some(level) = md_heading_exec(name) {
            self.heading = Some(level);
            let mut prefix = crate::text::repeat_string('#', level as usize);
            crate::text::push_char(&mut prefix, ' ');
            assert(prefix@ =~= repeat_char('#', level as nat) + seq![' ']);
            self.add(prefix, md_style_exec(true, false, false, false, Some(level)), None);
        } else if str_eq(name, "Emphasis") {
            self.italic = true;
        } else if str_eq(name, "Strong") {
            self.bold = true;
        } else if str_eq(name, "Strikethrough") {
            self.strike = true;
        } else if str_eq(name, "Link") {
            self.link = true;
            self.link_url = owned(payload);
            let st = self.style();
            self.add(owned("🔗"), st, None);
        } else {
            self.start_block(name, payload);
        }
    }

    fn start_block(&mut self, name: &str, payload: &str)
        ensures
            final(self).mview() == mstart_block(old(self).mview(), name@, payload@),
    {
        if str_eq(name, "CodeBlock") {
            self.in_code_block = true;
            if crate::text::chars_of(payload).len() > 0 {
                let mut t = owned("  ── ");
                crate::text::push_str(&mut t, payload);
                crate::text::push_char(&mut t, ' ');
                assert(t@ =~= "  ── "@ + payload@ + seq![' ']);
                self.add(t, Style::plain().with_fg(Color::DarkGray).with_italic(), None);
                self.flush();
            }
            self.rule();
        } else if crate::text::starts_with(name, "List(") {
            self.flush();
        } else if str_eq(name, "Item") {
            let n = self.item_stack.len();
            let indent: usize = if n <= (usize::MAX - 2) / 2 {
                n * 2 + 2
            } else {
                usize::MAX
            };
            self.add(crate::text::repeat_string(' ', indent), Style::plain(), None);
            self.add(owned("• "), Style::plain().with_fg(Color::Magenta), None);
            self.item_stack.push(indent);
        } else if crate::text::starts_with(name, "BlockQuote") {
            self.in_blockquote = true;
        } else if str_eq(name, "Table") {
            self.rule();
        } else if str_eq(name, "TableCell") {
            self.add(owned(" │ "), Style::plain().with_fg(Color::White), None);
        }
    }

    fn end_tag(&mut self, name: &str)
        ensures
            final(self).mview() == mend_tag(old(self).mview(), name@),
    {
        if str_eq(name, "Image") {
            self.in_image = false;
            self.flush();
            let node = crate::image::ImageNode {
                alt: owned(self.image_alt.as_str()),
                url: owned(self.image_url.as_str()),
                local_path: None,
                id: self.image_count,
                download_failed: false,
            };
            push_line(&mut self.out, LineContent::Image(node));
            self.image_count = self.image_count.saturating_add(1);
            self.blank();
        } else if str_eq(name, "Paragraph") {
            self.flush();
            self.blank();
        } else if md_heading_exec(name).is_some() {
            self.flush();
            self.blank();
            self.heading = None;
        } else if str_eq(name, "Emphasis") {
            self.italic = false;
        } else if str_eq(name, "Strong") {
            self.bold = false;
        } else if str_eq(name, "Strikethrough") {
            self.strike = false;
        } else if str_eq(name, "Link") {
            self.link = false;
        } else {
            self.end_block(name);
        }
    }

    fn end_block(&mut self, name: &str)
        ensures
            final(self).mview() == mend_block(old(self).mview(), name@),
    {
        if str_eq(name, "CodeBlock") {
            self.in_code_block = false;
            self.rule();
            self.blank();
        } else if crate::text::starts_with(name, "List(") {
            if self.item_stack.len() == 0 {
                self.blank();
            }
        } else if str_eq(name, "Item") {
            self.flush();
            if self.item_stack.len() > 0 {
                let ghost before = self.item_stack@;
                self.item_stack.pop();
                assert(self.item_stack@ =~= before.drop_last());
            }
        } else if crate::text::starts_with(name, "BlockQuote") {
            self.flush();
            self.in_blockquote = false;
            self.blank();
        } else if str_eq(name, "Table") {
            self.rule();
            self.blank();
        }
    }

    fn text(&mut self, t: String)
        ensures
            final(self).mview() == mtext(old(self).mview(), t@),
    {
        if self.in_image {
            crate::text::push_str(&mut self.image_alt, t.as_str());
        } else if self.link {
            let st = self.style();
            let li = self.link_info();
            self.add(t, st, li);
        } else if self.in_code_block {
            let tv = crate::text::chars_of(t.as_str());
            let all = tv.len() > 0 && tv[tv.len() - 1] == '\n';
            let pieces = crate::xhtml::split_lines_exec(t.as_str());
            let ghost pv = pieces@.map_values(|x: String| x@);
            let ghost st0 = self.mview();
            let mut i: usize = 0;
            while i < pieces.len()
                invariant
                    i <= pieces@.len(),
                    pv == pieces@.map_values(|x: String| x@),
                    self.mview() == code_lines(st0, pv, all, i as nat),
                decreases pieces@.len() - i,
            {
                assert(pv[i as int] == pieces@[i as int]@);
                if crate::text::chars_of(pieces[i].as_str()).len() > 0 || all {
                    self.add(owned(pieces[i].as_str()), Style::plain().with_fg(Color::Green).with_bg(Color::Black), None);
                    self.flush();
                }
                i = i + 1;
            }
        } else {
            let st = self.style();
            self.add(t, st, None);
        }
    }

    fn step(&mut self, ev: MdEvent)
        ensures
            final(self).mview() == mstep(old(self).mview(), md_token(ev)),
    {
        match ev {
            MdEvent::Start(name, payload) => self.start_tag(name.as_str(), payload.as_str()),
            MdEvent::End(name) => self.end_tag(name.as_str()),
            MdEvent::Text(t) => self.text(t),
            MdEvent::Code(t) => {
                let mut s = owned(" ");
                crate::text::push_str(&mut s, t.as_str());
                crate::text::push_char(&mut s, ' ');
                proof {
                    reveal_strlit(" ");
                }
                assert(s@ =~= seq![' '] + t@ + seq![' ']);
                self.add(s, Style::plain().with_fg(Color::Green).with_bg(Color::Black), None);
            },
            MdEvent::Html(t) => {
                let st = self.style();
                let li = self.link_info();
                self.add(t, st, li);
            },
            MdEvent::Break => {
                self.flush();
                self.line_start();
            },
            MdEvent::Rule => {
                self.rule();
                self.blank();
            },
            MdEvent::Other => {},
        }
    }
}

/// Parses Markdown into content lines: styled text and image placeholders.
pub fn parse_markdown(source: &str) -> (res: Vec<LineContent>)
    ensures
        crate::image::lines_view(res@) == markdown_lines_spec(source@),
{
    if crate::text::is_blank(source) {
        return Vec::new();
    }
    let ghost toks = md_events(source@);
    let mut parser = markdown_parser(source);
    let mut run = MRun {
        out: Vec::new(),
        cur: Vec::new(),
        bold: false,
        italic: false,
        strike: false,
        link: false,
        link_url: String::new(),
        in_code_block: false,
        item_stack: Vec::new(),
        in_blockquote: false,
        heading: None,
        in_image: false,
        image_url: String::new(),
        image_alt: String::new(),
        image_count: 0,
    };
    assert(run.mview() =~= mstart()) by {
        assert(crate::image::lines_view(run.out@) =~= Seq::<LineView>::empty());
        assert(crate::image::spans_view(run.cur@) =~= Seq::<SpanView>::empty());
    }
    let ghost mut k: nat = 0;
    assert(toks.take(0) =~= Seq::<MdToken>::empty());
    assert(toks.skip(0) =~= toks);
    loop
        invariant_except_break
            pending_md(parser) == toks.skip(k as int),
            run.mview() == mwalk(toks.take(k as int)),
        invariant
            toks == md_events(source@),
            k <= toks.len(),
        ensures
            run.mview() == mwalk(toks),
        decreases pending_md(parser).len(),
    {
        let ghost pending = pending_md(parser);
        match next_md_event(&mut parser) {
            None => {
                proof {
                    assert(pending.len() == 0);
                    assert(toks.take(k as int) =~= toks);
                }
                break;
            },
            Some(ev) => {
                proof {
                    assert(pending[0] == toks[k as int]);
                    assert(toks.take((k + 1) as int).drop_last() =~= toks.take(k as int));
                    assert(toks.take((k + 1) as int).last() == toks[k as int]);
                    assert(toks.skip(k as int).drop_first() =~= toks.skip((k + 1) as int));
                }
                run.step(ev);
                proof {
                    k = k + 1;
                }
            },
        }
    }
    run.flush();
    run.out
}

} // verus!
