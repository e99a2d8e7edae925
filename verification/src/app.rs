//! The reader: wrapping content lines to the terminal width, the focusable links and images,
//! and the key handling of the reading view.
use vstd::prelude::*;
use crate::image::{
    copy_image, copy_link, copy_link_node, copy_span, image_view, line_view, lines_view, span_view, spans_view,
    ImageNode, LineContent, LineView, LinkInfo, SpanView, StyledSpan,
};
use crate::keys::{KeyCode, KeyEvent};
use crate::text::{char_cols, char_width, chars_of, display_width, owned, push_char, trim, unicode_str_width};

verus! {

// ───────────────────────────── words ─────────────────────────────

/// A space or a tab.
pub open spec fn is_gap(c: char) -> bool {
    c == ' ' || c == '\t'
}

/// A character two or more columns wide.
pub open spec fn is_wide(c: char) -> bool {
    char_cols(c) >= 2
}

/// The length of the run of spaces and tabs at the start of `s`.
pub open spec fn gap_run(s: Seq<char>) -> nat
    decreases s.len(),
{
    if s.len() > 0 && is_gap(s[0]) {
        1 + gap_run(s.skip(1))
    } else {
        0
    }
}

/// The length of the run of narrow non-gap characters at the start of `s`.
pub open spec fn word_run(s: Seq<char>) -> nat
    decreases s.len(),
{
    if s.len() > 0 && !is_gap(s[0]) && !is_wide(s[0]) {
        1 + word_run(s.skip(1))
    } else {
        0
    }
}

pub proof fn lemma_runs(s: Seq<char>)
    ensures
        gap_run(s) <= s.len(),
        word_run(s) <= s.len(),
        s.len() > 0 && is_gap(s[0]) ==> gap_run(s) >= 1,
        s.len() > 0 && !is_gap(s[0]) && !is_wide(s[0]) ==> word_run(s) >= 1,
    decreases s.len(),
{
    if s.len() > 0 {
        lemma_runs(s.skip(1));
    }
}

/// `s` cut into tokens: runs of spaces and tabs, single wide characters, and runs of other
/// characters.
pub open spec fn split_words(s: Seq<char>) -> Seq<Seq<char>>
    decreases s.len(),
{
    if s.len() == 0 {
        Seq::empty()
    } else {
        proof {
            lemma_runs(s);
        }
        if is_gap(s[0]) {
            seq![s.take(gap_run(s) as int)] + split_words(s.skip(gap_run(s) as int))
        } else if is_wide(s[0]) {
            seq![s.take(1)] + split_words(s.skip(1))
        } else {
            seq![s.take(word_run(s) as int)] + split_words(s.skip(word_run(s) as int))
        }
    }
}

fn run_end(v: &Vec<char>, from: usize, gaps: bool) -> (res: usize)
    requires
        from <= v@.len(),
    ensures
        gaps ==> res == from + gap_run(v@.skip(from as int)),
        !gaps ==> res == from + word_run(v@.skip(from as int)),
        res <= v@.len(),
{
    let mut i = from;
    while i < v.len()
        invariant
            from <= i <= v@.len(),
            gaps ==> gap_run(v@.skip(from as int)) == (i - from) + gap_run(v@.skip(i as int)),
            !gaps ==> word_run(v@.skip(from as int)) == (i - from) + word_run(v@.skip(i as int)),
        decreases v@.len() - i,
    {
        let c = v[i];
        let wide = match char_width(c) {
            Some(w) => w >= 2,
            None => false,
        };
        assert(wide == is_wide(c));
        let ghost rest = v@.skip(i as int);
        assert(rest[0] == c);
        assert(rest.skip(1) =~= v@.skip(i + 1));
        let gap = c == ' ' || c == '\t';
        if gaps {
            if !gap {
                return i;
            }
        } else {
            if gap || wide {
                return i;
            }
        }
        i = i + 1;
    }
    assert(v@.skip(i as int).len() == 0);
    i
}

/// Splits text into word tokens, keeping the spaces and tabs as tokens of their own.
pub fn split_words_preserve(s: &str) -> (res: Vec<String>)
    ensures
        res@.map_values(|t: String| t@) == split_words(s@),
{
    let v = chars_of(s);
    let mut res: Vec<String> = Vec::new();
    let mut i: usize = 0;
    assert(v@.skip(0) =~= v@);
    while i < v.len()
        invariant
            i <= v@.len(),
            res@.map_values(|t: String| t@) + split_words(v@.skip(i as int)) == split_words(v@),
        decreases v@.len() - i,
    {
        let ghost rest = v@.skip(i as int);
        proof {
            lemma_runs(rest);
        }
        let c = v[i];
        assert(rest[0] == c);
        let wide = match char_width(c) {
            Some(w) => w >= 2,
            None => false,
        };
        let end = if c == ' ' || c == '\t' {
            run_end(&v, i, true)
        } else if wide {
            i + 1
        } else {
            run_end(&v, i, false)
        };
        let tok = crate::text::string_from_range(&v, i, end);
        assert(tok@ =~= rest.take((end - i) as int));
        assert(rest.skip((end - i) as int) =~= v@.skip(end as int));
        let ghost before = res@;
        res.push(tok);
        assert(res@.map_values(|t: String| t@) =~= before.map_values(|t: String| t@).push(tok@));
        i = end;
    }
    assert(v@.skip(i as int) =~= Seq::<char>::empty());
    assert(res@.map_values(|t: String| t@) + split_words(v@.skip(i as int)) =~= res@.map_values(|t: String| t@));
    res
}

// ───────────────────────────── wrapping ─────────────────────────────

/// The word tokens of a line's spans, each keeping its span's style and link.
pub open spec fn line_tokens(spans: Seq<SpanView>) -> Seq<SpanView>
    decreases spans.len(),
{
    if spans.len() == 0 {
        Seq::empty()
    } else {
        let last = spans.last();
        line_tokens(spans.drop_last()) + split_words(last.text).map_values(
            |w: Seq<char>| SpanView { text: w, style: last.style, link: last.link },
        )
    }
}

/// Wrapping in progress: the finished lines, the line being filled and its width.
pub struct WrapState {
    pub done: Seq<Seq<SpanView>>,
    pub cur: Seq<SpanView>,
    pub cur_w: nat,
}

/// A long word broken into pieces of at most `max` columns (a piece holds at least one
/// character): the full pieces, and the last piece with its width.
pub open spec fn break_word(w: Seq<char>, max: nat) -> (Seq<Seq<char>>, Seq<char>, nat)
    decreases w.len(),
{
    if w.len() == 0 {
        (Seq::empty(), Seq::empty(), 0)
    } else {
        let (full, buf, bw) = break_word(w.drop_last(), max);
        let c = w.last();
        let cw = char_cols(c);
        if bw + cw > max && buf.len() > 0 {
            (full.push(buf), seq![c], cw)
        } else {
            (full, buf.push(c), bw + cw)
        }
    }
}

/// One token added to the wrapping: blank tokens only when they fit; other tokens on the
/// current line when they fit, otherwise on a new line, broken into pieces when wider than
/// the line.
pub open spec fn wrap_step(st: WrapState, tok: SpanView, max: nat) -> WrapState {
    let ww = unicode_str_width(tok.text) as nat;
    if trim(tok.text).len() == 0 {
        if st.cur_w + ww <= max {
            WrapState { done: st.done, cur: st.cur.push(tok), cur_w: st.cur_w + ww }
        } else {
            st
        }
    } else if st.cur_w + ww <= max {
        WrapState { done: st.done, cur: st.cur.push(tok), cur_w: st.cur_w + ww }
    } else {
        let st1 = if st.cur.len() > 0 {
            WrapState { done: st.done.push(st.cur), cur: Seq::empty(), cur_w: 0 }
        } else {
            st
        };
        if ww <= max {
            WrapState { done: st1.done, cur: st1.cur.push(tok), cur_w: ww }
        } else {
            let (full, buf, bw) = break_word(tok.text, max);
            let done = st1.done + full.map_values(
                |p: Seq<char>| seq![SpanView { text: p, style: tok.style, link: tok.link }],
            );
            if buf.len() > 0 {
                WrapState {
                    done,
                    cur: st1.cur.push(SpanView { text: buf, style: tok.style, link: tok.link }),
                    cur_w: bw,
                }
            } else {
                WrapState { done, cur: st1.cur, cur_w: st1.cur_w }
            }
        }
    }
}

/// Wrapping after the first `n` tokens.
pub open spec fn wrap_tokens(toks: Seq<SpanView>, max: nat) -> WrapState
    decreases toks.len(),
{
    if toks.len() == 0 {
        WrapState { done: Seq::empty(), cur: Seq::empty(), cur_w: 0 }
    } else {
        wrap_step(wrap_tokens(toks.drop_last(), max), toks.last(), max)
    }
}

/// The visual lines of one styled line wrapped to `max` columns (widths as `wrap_step` measures
/// them: whole words by their string width, pieces of broken words by their characters).
pub open spec fn wrap_styled_spec(spans: Seq<SpanView>, max: nat) -> Seq<Seq<SpanView>> {
    let toks = line_tokens(spans);
    if toks.len() == 0 {
        seq![Seq::empty()]
    } else {
        let st = wrap_tokens(toks, max);
        st.done.push(st.cur)
    }
}

/// The views of a sequence of visual lines.
pub open spec fn rows_view(s: Seq<Vec<StyledSpan>>) -> Seq<Seq<SpanView>> {
    s.map_values(|r: Vec<StyledSpan>| spans_view(r@))
}

fn span_with(text: String, like: &StyledSpan) -> (res: StyledSpan)
    ensures
        span_view(res) == (SpanView { text: text@, style: like.style, link: span_view(*like).link }),
{
    match &like.link {
        Some(l) => StyledSpan::with_link(text, like.style, copy_link(l)),
        None => StyledSpan::new(text, like.style),
    }
}

fn push_span(v: &mut Vec<StyledSpan>, s: StyledSpan)
    ensures
        spans_view(final(v)@) == spans_view(old(v)@).push(span_view(s)),
        final(v)@.len() == old(v)@.len() + 1,
{
    let ghost before = v@;
    v.push(s);
    assert(spans_view(v@) =~= spans_view(before).push(span_view(s)));
}

fn push_row(v: &mut Vec<Vec<StyledSpan>>, r: Vec<StyledSpan>)
    ensures
        rows_view(final(v)@) == rows_view(old(v)@).push(spans_view(r@)),
{
    let ghost before = v@;
    v.push(r);
    assert(rows_view(v@) =~= rows_view(before).push(spans_view(r@)));
}

fn line_tokens_exec(spans: &Vec<StyledSpan>) -> (res: Vec<StyledSpan>)
    ensures
        spans_view(res@) == line_tokens(spans_view(spans@)),
{
    let mut toks: Vec<StyledSpan> = Vec::new();
    let mut i: usize = 0;
    while i < spans.len()
        invariant
            i <= spans@.len(),
            spans_view(toks@) == line_tokens(spans_view(spans@.take(i as int))),
        decreases spans@.len() - i,
    {
        let words = split_words_preserve(spans[i].text.as_str());
        let ghost sv = span_view(spans@[i as int]);
        let ghost base = spans_view(toks@);
        let mut k: usize = 0;
        while k < words.len()
            invariant
                k <= words@.len(),
                i < spans@.len(),
                sv == span_view(spans@[i as int]),
                words@.map_values(|t: String| t@) == split_words(sv.text),
                spans_view(toks@) == base + split_words(sv.text).take(k as int).map_values(
                    |w: Seq<char>| SpanView { text: w, style: sv.style, link: sv.link },
                ),
            decreases words@.len() - k,
        {
            let t = owned(words[k].as_str());
            assert(t@ == split_words(sv.text)[k as int]);
            let ghost b2 = spans_view(toks@);
            push_span(&mut toks, span_with(t, &spans[i]));
            k = k + 1;
            assert(split_words(sv.text).take(k as int).map_values(
                |w: Seq<char>| SpanView { text: w, style: sv.style, link: sv.link },
            ) =~= split_words(sv.text).take(k - 1).map_values(
                |w: Seq<char>| SpanView { text: w, style: sv.style, link: sv.link },
            ).push(SpanView { text: split_words(sv.text)[k - 1], style: sv.style, link: sv.link }));
        }
        assert(split_words(sv.text).take(words@.len() as int) =~= split_words(sv.text));
        assert(spans_view(spans@.take(i + 1)).drop_last() =~= spans_view(spans@.take(i as int)));
        assert(spans_view(spans@.take(i + 1)).last() == sv);
        i = i + 1;
    }
    assert(spans@.take(spans@.len() as int) =~= spans@);
    toks
}

/// Wraps one styled line into visual lines of `max_width` columns.
pub fn wrap_styled_line(spans: &Vec<StyledSpan>, max_width: usize) -> (res: Vec<Vec<StyledSpan>>)
    requires
        max_width >= 4,
    ensures
        rows_view(res@) == wrap_styled_spec(spans_view(spans@), max_width as nat),
{
    let toks = line_tokens_exec(spans);
    let ghost tv = spans_view(toks@);
    if toks.len() == 0 {
        let mut res: Vec<Vec<StyledSpan>> = Vec::new();
        push_row(&mut res, Vec::new());
        assert(spans_view(Seq::<StyledSpan>::empty()) =~= Seq::<SpanView>::empty());
        assert(rows_view(res@) =~= seq![Seq::<SpanView>::empty()]);
        return res;
    }
    let max = max_width;
    let mut done: Vec<Vec<StyledSpan>> = Vec::new();
    let mut cur: Vec<StyledSpan> = Vec::new();
    let mut cur_w: usize = 0;
    let mut t: usize = 0;
    assert(tv.take(0) =~= Seq::<SpanView>::empty());
    assert(rows_view(done@) =~= Seq::<Seq<SpanView>>::empty());
    assert(spans_view(cur@) =~= Seq::<SpanView>::empty());
    while t < toks.len()
        invariant
            t <= toks@.len(),
            max == max_width,
            max >= 4,
            tv == spans_view(toks@),
            cur_w <= max,
            wrap_tokens(tv.take(t as int), max as nat) == (WrapState {
                done: rows_view(done@),
                cur: spans_view(cur@),
                cur_w: cur_w as nat,
            }),
        decreases toks@.len() - t,
    {
        let tok = &toks[t];
        assert(tv.take(t + 1).drop_last() =~= tv.take(t as int));
        assert(tv.take(t + 1).last() == span_view(*tok));
        let ww = display_width(tok.text.as_str());
        let blank = crate::text::is_blank(tok.text.as_str());
        let fits = (cur_w as u128) + (ww as u128) <= (max as u128);
        if blank {
            if fits {
                push_span(&mut cur, copy_span(tok));
                cur_w = cur_w + ww;
            }
        } else if fits {
            push_span(&mut cur, copy_span(tok));
            cur_w = cur_w + ww;
        } else {
            if cur.len() > 0 {
                let mut full: Vec<StyledSpan> = Vec::new();
                std::mem::swap(&mut full, &mut cur);
                push_row(&mut done, full);
                cur_w = 0;
                assert(spans_view(cur@) =~= Seq::<SpanView>::empty());
            }
            if ww <= max {
                push_span(&mut cur, copy_span(tok));
                cur_w = ww;
            } else {
                let w = chars_of(tok.text.as_str());
                let ghost base = rows_view(done@);
                let mut buf: Vec<char> = Vec::new();
                let mut bw: usize = 0;
                let mut k: usize = 0;
                while k < w.len()
                    invariant
                        k <= w@.len(),
                        max >= 4,
                        bw <= max,
                        buf@.len() == 0 ==> bw == 0,
                        ({
                            let (full, b, n) = break_word(w@.take(k as int), max as nat);
                            &&& rows_view(done@) == base + full.map_values(
                                |p: Seq<char>| seq![SpanView { text: p, style: tok.style, link: span_view(*tok).link }],
                            )
                            &&& buf@ == b
                            &&& bw as nat == n
                        }),
                    decreases w@.len() - k,
                {
                    let c = w[k];
                    assert(w@.take(k + 1).drop_last() =~= w@.take(k as int));
                    assert(w@.take(k + 1).last() == c);
                    let cw = match char_width(c) {
                        Some(x) => x,
                        None => 0,
                    };
                    assert(cw as nat == char_cols(c));
                    let ghost (f0, b0, n0) = break_word(w@.take(k as int), max as nat);
                    if cw > max - bw && buf.len() > 0 {
                        let piece = crate::text::string_from_chars(&buf);
                        let mut row: Vec<StyledSpan> = Vec::new();
                        push_span(&mut row, span_with(piece, tok));
                        let ghost before = rows_view(done@);
                        push_row(&mut done, row);
                        assert(spans_view(row@) =~= seq![SpanView { text: b0, style: tok.style, link: span_view(*tok).link }]);
                        assert(f0.push(b0).map_values(
                            |p: Seq<char>| seq![SpanView { text: p, style: tok.style, link: span_view(*tok).link }],
                        ) =~= f0.map_values(
                            |p: Seq<char>| seq![SpanView { text: p, style: tok.style, link: span_view(*tok).link }],
                        ).push(seq![SpanView { text: b0, style: tok.style, link: span_view(*tok).link }]));
                        buf = Vec::new();
                        buf.push(c);
                        bw = cw;
                        assert(buf@ =~= seq![c]);
                    } else {
                        buf.push(c);
                        bw = bw + cw;
                    }
                    k = k + 1;
                }
                assert(w@.take(w@.len() as int) =~= w@);
                if buf.len() > 0 {
                    let piece = crate::text::string_from_chars(&buf);
                    push_span(&mut cur, span_with(piece, tok));
                    cur_w = bw;
                }
            }
        }
        t = t + 1;
    }
    assert(tv.take(toks@.len() as int) =~= tv);
    push_row(&mut done, cur);
    done
}

/// Content lines wrapped to `max_width` columns (at least 4): styled lines become their visual
/// lines, images and links stay as they are.
pub open spec fn wrap_lines_spec(lines: Seq<LineView>, max_width: nat) -> Seq<LineView>
    decreases lines.len(),
{
    if lines.len() == 0 {
        Seq::empty()
    } else {
        let prev = wrap_lines_spec(lines.drop_last(), max_width);
        let w = if max_width < 4 {
            4
        } else {
            max_width
        };
        match lines.last() {
            LineView::Styled(spans) => prev + wrap_styled_spec(spans, w).map_values(
                |r: Seq<SpanView>| LineView::Styled(r),
            ),
            other => prev.push(other),
        }
    }
}

// ───────────────────────────── what wrapping keeps ─────────────────────────────

/// The characters that are not whitespace.
pub open spec fn kept_char() -> spec_fn(char) -> bool {
    |c: char| !crate::text::is_ws(c)
}

/// `s` without its whitespace.
pub open spec fn strip_ws(s: Seq<char>) -> Seq<char> {
    s.filter(kept_char())
}

/// Pieces of text, one after another.
pub open spec fn texts(ws: Seq<Seq<char>>) -> Seq<char>
    decreases ws.len(),
{
    if ws.len() == 0 {
        Seq::empty()
    } else {
        texts(ws.drop_last()) + ws.last()
    }
}

/// The text of visual lines, one after another.
pub open spec fn rows_text(rows: Seq<Seq<SpanView>>) -> Seq<char>
    decreases rows.len(),
{
    if rows.len() == 0 {
        Seq::empty()
    } else {
        rows_text(rows.drop_last()) + crate::image::spans_text(rows.last())
    }
}

proof fn lemma_texts_add(a: Seq<Seq<char>>, b: Seq<Seq<char>>)
    ensures
        texts(a + b) == texts(a) + texts(b),
    decreases b.len(),
{
    if b.len() == 0 {
        assert(a + b =~= a);
        assert(texts(a) + texts(b) =~= texts(a));
    } else {
        assert((a + b).drop_last() =~= a + b.drop_last());
        lemma_texts_add(a, b.drop_last());
        assert(texts(a + b) =~= texts(a) + texts(b));
    }
}

proof fn lemma_split_words_texts(s: Seq<char>)
    ensures
        texts(split_words(s)) == s,
    decreases s.len(),
{
    if s.len() > 0 {
        lemma_runs(s);
        let r: int = if is_gap(s[0]) {
            gap_run(s) as int
        } else if is_wide(s[0]) {
            1
        } else {
            word_run(s) as int
        };
        lemma_split_words_texts(s.skip(r));
        let first = seq![s.take(r)];
        assert(split_words(s) == first + split_words(s.skip(r)));
        lemma_texts_add(first, split_words(s.skip(r)));
        assert(first.drop_last() =~= Seq::<Seq<char>>::empty());
        assert(texts(first.drop_last()) =~= Seq::<char>::empty());
        assert(texts(first) =~= s.take(r));
        assert(s.take(r) + s.skip(r) =~= s);
    }
}

proof fn lemma_spans_text_add(a: Seq<SpanView>, b: Seq<SpanView>)
    ensures
        crate::image::spans_text(a + b) == crate::image::spans_text(a) + crate::image::spans_text(b),
    decreases b.len(),
{
    if b.len() == 0 {
        assert(a + b =~= a);
        assert(crate::image::spans_text(a) + crate::image::spans_text(b) =~= crate::image::spans_text(a));
    } else {
        assert((a + b).drop_last() =~= a + b.drop_last());
        lemma_spans_text_add(a, b.drop_last());
        assert(crate::image::spans_text(a + b) =~= crate::image::spans_text(a) + crate::image::spans_text(b));
    }
}

proof fn lemma_word_spans_text(ws: Seq<Seq<char>>, style: crate::style::Style, link: Option<(Seq<char>, bool)>)
    ensures
        crate::image::spans_text(ws.map_values(|w: Seq<char>| SpanView { text: w, style: style, link: link })) == texts(
            ws,
        ),
    decreases ws.len(),
{
    if ws.len() > 0 {
        let f = |w: Seq<char>| SpanView { text: w, style: style, link: link };
        assert(ws.map_values(f).drop_last() =~= ws.drop_last().map_values(f));
        lemma_word_spans_text(ws.drop_last(), style, link);
    }
}

proof fn lemma_line_tokens_text(spans: Seq<SpanView>)
    ensures
        crate::image::spans_text(line_tokens(spans)) == crate::image::spans_text(spans),
    decreases spans.len(),
{
    if spans.len() > 0 {
        let last = spans.last();
        let words = split_words(last.text).map_values(
            |w: Seq<char>| SpanView { text: w, style: last.style, link: last.link },
        );
        lemma_line_tokens_text(spans.drop_last());
        lemma_spans_text_add(line_tokens(spans.drop_last()), words);
        lemma_word_spans_text(split_words(last.text), last.style, last.link);
        lemma_split_words_texts(last.text);
    }
}

proof fn lemma_break_word_texts(w: Seq<char>, max: nat)
    ensures
        texts(break_word(w, max).0) + break_word(w, max).1 == w,
    decreases w.len(),
{
    if w.len() > 0 {
        lemma_break_word_texts(w.drop_last(), max);
        let (full, buf, bw) = break_word(w.drop_last(), max);
        assert(full.push(buf).drop_last() =~= full);
        assert(w.drop_last().push(w.last()) =~= w);
        assert(texts(break_word(w, max).0) + break_word(w, max).1 =~= w);
    }
}

proof fn lemma_rows_text_add(a: Seq<Seq<SpanView>>, b: Seq<Seq<SpanView>>)
    ensures
        rows_text(a + b) == rows_text(a) + rows_text(b),
    decreases b.len(),
{
    if b.len() == 0 {
        assert(a + b =~= a);
        assert(rows_text(a) + rows_text(b) =~= rows_text(a));
    } else {
        assert((a + b).drop_last() =~= a + b.drop_last());
        lemma_rows_text_add(a, b.drop_last());
        assert(rows_text(a + b) =~= rows_text(a) + rows_text(b));
    }
}

proof fn lemma_piece_rows_text(full: Seq<Seq<char>>, style: crate::style::Style, link: Option<(Seq<char>, bool)>)
    ensures
        rows_text(full.map_values(|p: Seq<char>| seq![SpanView { text: p, style: style, link: link }])) == texts(
            full,
        ),
    decreases full.len(),
{
    if full.len() > 0 {
        let f = |p: Seq<char>| seq![SpanView { text: p, style: style, link: link }];
        assert(full.map_values(f).drop_last() =~= full.drop_last().map_values(f));
        lemma_piece_rows_text(full.drop_last(), style, link);
        let row = f(full.last());
        assert(row.drop_last() =~= Seq::<SpanView>::empty());
        assert(crate::image::spans_text(row.drop_last()) =~= Seq::<char>::empty());
        assert(crate::image::spans_text(row) =~= full.last());
    }
}

proof fn lemma_trail_ws_lt(s: Seq<char>)
    requires
        s.len() > 0,
        !crate::text::is_ws(s[0]),
    ensures
        crate::text::trail_ws(s) < s.len(),
    decreases s.len(),
{
    if crate::text::is_ws(s.last()) {
        lemma_trail_ws_lt(s.drop_last());
    }
}

proof fn lemma_blank_strips_empty(t: Seq<char>)
    requires
        trim(t).len() == 0,
    ensures
        strip_ws(t) == Seq::<char>::empty(),
{
    crate::text::lemma_lead_ws_bound(t);
    let lead = crate::text::lead_ws(t);
    if lead < t.len() {
        let rest = t.subrange(lead as int, t.len() as int);
        lemma_trail_ws_lt(rest);
        assert(false);
    }
    lemma_all_ws_strip(t);
}

proof fn lemma_all_ws_strip(t: Seq<char>)
    requires
        forall|k: int| 0 <= k < t.len() ==> crate::text::is_ws(t[k]),
    ensures
        strip_ws(t) == Seq::<char>::empty(),
    decreases t.len(),
{
    reveal(Seq::filter);
    if t.len() > 0 {
        assert forall|k: int| 0 <= k < t.drop_last().len() implies crate::text::is_ws(t.drop_last()[k]) by {
            assert(t.drop_last()[k] == t[k]);
        }
        lemma_all_ws_strip(t.drop_last());
        assert(crate::text::is_ws(t[t.len() - 1]));
        assert(!kept_char()(t.last()));
    }
}

/// Wrapping after some tokens holds their text, less blank tokens that did not fit.
proof fn lemma_wrap_tokens_text(toks: Seq<SpanView>, max: nat)
    ensures
        strip_ws(rows_text(wrap_tokens(toks, max).done) + crate::image::spans_text(wrap_tokens(toks, max).cur))
            == strip_ws(crate::image::spans_text(toks)),
    decreases toks.len(),
{
    let e = Seq::<SpanView>::empty();
    if toks.len() == 0 {
        assert(rows_text(Seq::<Seq<SpanView>>::empty()) + crate::image::spans_text(e) =~= Seq::<char>::empty());
    } else {
        let prev = toks.drop_last();
        let tok = toks.last();
        lemma_wrap_tokens_text(prev, max);
        let st = wrap_tokens(prev, max);
        let v = rows_text(st.done) + crate::image::spans_text(st.cur);
        let r = wrap_tokens(toks, max);
        let rv = rows_text(r.done) + crate::image::spans_text(r.cur);
        Seq::filter_distributes_over_add(crate::image::spans_text(prev), tok.text, kept_char());
        Seq::filter_distributes_over_add(v, tok.text, kept_char());
        assert(crate::image::spans_text(toks) == crate::image::spans_text(prev) + tok.text);
        let ww = unicode_str_width(tok.text) as nat;
        if trim(tok.text).len() == 0 {
            lemma_blank_strips_empty(tok.text);
            assert(strip_ws(v) + strip_ws(tok.text) =~= strip_ws(v));
            if st.cur_w + ww <= max {
                assert(st.cur.push(tok).drop_last() =~= st.cur);
                assert(crate::image::spans_text(st.cur.push(tok)) == crate::image::spans_text(st.cur) + tok.text);
                assert(rv =~= v + tok.text);
            } else {
                assert(rv == v);
            }
        } else if st.cur_w + ww <= max {
            assert(st.cur.push(tok).drop_last() =~= st.cur);
            assert(crate::image::spans_text(st.cur.push(tok)) == crate::image::spans_text(st.cur) + tok.text);
            assert(rv =~= v + tok.text);
        } else {
            let st1 = if st.cur.len() > 0 {
                WrapState { done: st.done.push(st.cur), cur: Seq::empty(), cur_w: 0 }
            } else {
                st
            };
            assert(st1.cur =~= e);
            assert(st.done.push(st.cur).drop_last() =~= st.done);
            assert(rows_text(st.done.push(st.cur)) == rows_text(st.done) + crate::image::spans_text(st.cur));
            assert(rows_text(st1.done) + crate::image::spans_text(st1.cur) =~= v);
            if ww <= max {
                let one = e.push(tok);
                assert(one.drop_last() =~= e);
                assert(crate::image::spans_text(e) =~= Seq::<char>::empty());
                assert(crate::image::spans_text(one) =~= tok.text);
                assert(rv =~= v + tok.text);
            } else {
                let (full, buf, bw) = break_word(tok.text, max);
                lemma_break_word_texts(tok.text, max);
                let pieces = full.map_values(
                    |p: Seq<char>| seq![SpanView { text: p, style: tok.style, link: tok.link }],
                );
                lemma_rows_text_add(st1.done, pieces);
                lemma_piece_rows_text(full, tok.style, tok.link);
                if buf.len() > 0 {
                    let one = e.push(SpanView { text: buf, style: tok.style, link: tok.link });
                    assert(one.drop_last() =~= e);
                    assert(crate::image::spans_text(e) =~= Seq::<char>::empty());
                    assert(crate::image::spans_text(one) =~= buf);
                    assert(rv =~= v + (texts(full) + buf));
                } else {
                    assert(buf =~= Seq::<char>::empty());
                    assert(rv =~= v + (texts(full) + buf));
                }
            }
        }
    }
}

/// Wrapping loses nothing but whitespace: the text of the visual lines of a line, without
/// whitespace, is the line's text without whitespace (only blank runs that do not fit at the
/// end of a visual line are left out).
pub proof fn lemma_wrap_keeps_text(spans: Seq<SpanView>, max: nat)
    ensures
        strip_ws(rows_text(wrap_styled_spec(spans, max))) == strip_ws(crate::image::spans_text(spans)),
{
    let toks = line_tokens(spans);
    lemma_line_tokens_text(spans);
    if toks.len() == 0 {
        let rows = seq![Seq::<SpanView>::empty()];
        assert(rows.drop_last() =~= Seq::<Seq<SpanView>>::empty());
        assert(rows_text(rows.drop_last()) =~= Seq::<char>::empty());
        assert(crate::image::spans_text(rows.last()) =~= Seq::<char>::empty());
        assert(rows_text(rows) =~= Seq::<char>::empty());
    } else {
        let st = wrap_tokens(toks, max);
        lemma_wrap_tokens_text(toks, max);
        assert(st.done.push(st.cur).drop_last() =~= st.done);
    }
}

// ───────────────────────────── how wide wrapped lines are ─────────────────────────────

/// Columns of text, each character by its width (control characters take none).
pub open spec fn text_cols(s: Seq<char>) -> nat
    decreases s.len(),
{
    if s.len() == 0 {
        0
    } else {
        text_cols(s.drop_last()) + char_cols(s.last())
    }
}

/// Columns of a visual line.
pub open spec fn row_cols(r: Seq<SpanView>) -> nat
    decreases r.len(),
{
    if r.len() == 0 {
        0
    } else {
        row_cols(r.drop_last()) + text_cols(r.last().text)
    }
}

/// Tokens whose characters are each at most `max` columns wide, and none of which takes
/// more columns character by character than its string width (text without emoji sequences
/// and the like, which `unicode-width` measures as wholes).
pub open spec fn tokens_measured(toks: Seq<SpanView>, max: nat) -> bool {
    forall|k: int|
        0 <= k < toks.len() ==> text_cols(#[trigger] toks[k].text) <= unicode_str_width(toks[k].text) && forall|
            i: int,
        |
            0 <= i < toks[k].text.len() ==> char_cols(#[trigger] toks[k].text[i]) <= max
}

proof fn lemma_break_word_fits(w: Seq<char>, max: nat)
    requires
        forall|i: int| 0 <= i < w.len() ==> char_cols(#[trigger] w[i]) <= max,
    ensures
        text_cols(break_word(w, max).1) == break_word(w, max).2,
        break_word(w, max).2 <= max,
        forall|k: int| 0 <= k < break_word(w, max).0.len() ==> text_cols(#[trigger] break_word(w, max).0[k]) <= max,
    decreases w.len(),
{
    if w.len() > 0 {
        assert forall|i: int| 0 <= i < w.drop_last().len() implies char_cols(#[trigger] w.drop_last()[i]) <= max by {
            assert(w.drop_last()[i] == w[i]);
        }
        lemma_break_word_fits(w.drop_last(), max);
        let (full, buf, bw) = break_word(w.drop_last(), max);
        let c = w.last();
        assert(char_cols(w[w.len() - 1]) <= max);
        let cw = char_cols(c);
        if bw + cw > max && buf.len() > 0 {
            let one = seq![c];
            assert(one.drop_last() =~= Seq::<char>::empty());
            assert(text_cols(one.drop_last()) == 0);
            assert(one.last() == c);
            assert(text_cols(one) == cw);
            assert forall|k: int| 0 <= k < full.push(buf).len() implies text_cols(#[trigger] full.push(buf)[k]) <= max by {
                if k < full.len() {
                    assert(full.push(buf)[k] == full[k]);
                }
            }
        } else {
            assert(buf.push(c).drop_last() =~= buf);
            if buf.len() == 0 {
                assert(bw == 0);
            }
        }
    }
}

proof fn lemma_row_cols_push(r: Seq<SpanView>, s: SpanView)
    ensures
        row_cols(r.push(s)) == row_cols(r) + text_cols(s.text),
{
    assert(r.push(s).drop_last() =~= r);
}

/// The wrapping after some tokens: finished lines within `max` columns, and the line being
/// filled within the width the wrapping counts for it, itself within `max`.
pub open spec fn wrap_fits(st: WrapState, max: nat) -> bool {
    &&& forall|r: int| 0 <= r < st.done.len() ==> row_cols(#[trigger] st.done[r]) <= max
    &&& row_cols(st.cur) <= st.cur_w
    &&& st.cur_w <= max
}

proof fn lemma_wrap_tokens_fit(toks: Seq<SpanView>, max: nat)
    requires
        tokens_measured(toks, max),
    ensures
        wrap_fits(wrap_tokens(toks, max), max),
    decreases toks.len(),
{
    if toks.len() > 0 {
        let prev = toks.drop_last();
        let tok = toks.last();
        assert forall|k: int| 0 <= k < prev.len() implies text_cols(#[trigger] prev[k].text) <= unicode_str_width(
            prev[k].text,
        ) && forall|i: int| 0 <= i < prev[k].text.len() ==> char_cols(#[trigger] prev[k].text[i]) <= max by {
            assert(prev[k] == toks[k]);
        }
        lemma_wrap_tokens_fit(prev, max);
        let st = wrap_tokens(prev, max);
        assert(toks[toks.len() - 1] == tok);
        let ww = unicode_str_width(tok.text) as nat;
        lemma_row_cols_push(st.cur, tok);
        if trim(tok.text).len() == 0 || st.cur_w + ww <= max {
        } else {
            let st1 = if st.cur.len() > 0 {
                WrapState { done: st.done.push(st.cur), cur: Seq::empty(), cur_w: 0 }
            } else {
                st
            };
            let e = Seq::<SpanView>::empty();
            assert(st1.cur =~= e);
            assert(row_cols(e) == 0);
            assert forall|r: int| 0 <= r < st1.done.len() implies row_cols(#[trigger] st1.done[r]) <= max by {
                if r < st.done.len() {
                    assert(st1.done[r] == st.done[r]);
                }
            }
            lemma_row_cols_push(e, tok);
            if ww > max {
                let (full, buf, bw) = break_word(tok.text, max);
                assert forall|i: int| 0 <= i < tok.text.len() implies char_cols(#[trigger] tok.text[i]) <= max by {
                    assert(toks[toks.len() - 1].text[i] == tok.text[i]);
                }
                lemma_break_word_fits(tok.text, max);
                let pieces = full.map_values(
                    |p: Seq<char>| seq![SpanView { text: p, style: tok.style, link: tok.link }],
                );
                let done = st1.done + pieces;
                assert forall|r: int| 0 <= r < done.len() implies row_cols(#[trigger] done[r]) <= max by {
                    if r < st1.done.len() {
                        assert(done[r] == st1.done[r]);
                    } else {
                        let k = r - st1.done.len();
                        assert(done[r] == pieces[k]);
                        lemma_row_cols_push(e, SpanView { text: full[k], style: tok.style, link: tok.link });
                        assert(pieces[k] =~= e.push(SpanView { text: full[k], style: tok.style, link: tok.link }));
                    }
                }
                lemma_row_cols_push(e, SpanView { text: buf, style: tok.style, link: tok.link });
            }
        }
    }
}

/// A wrapped line is no wider than the wrapping width, measured character by character, when
/// no character is wider than the line and no word takes more columns character by character
/// than its string width.
pub proof fn lemma_wrapped_lines_fit(spans: Seq<SpanView>, max: nat)
    requires
        tokens_measured(line_tokens(spans), max),
    ensures
        forall|r: int|
            0 <= r < wrap_styled_spec(spans, max).len() ==> row_cols(#[trigger] wrap_styled_spec(spans, max)[r])
                <= max,
{
    let toks = line_tokens(spans);
    if toks.len() == 0 {
        let rows = seq![Seq::<SpanView>::empty()];
        assert(row_cols(rows[0]) == 0);
    } else {
        lemma_wrap_tokens_fit(toks, max);
        let st = wrap_tokens(toks, max);
        let rows = st.done.push(st.cur);
        assert forall|r: int| 0 <= r < rows.len() implies row_cols(#[trigger] rows[r]) <= max by {
            if r < st.done.len() {
                assert(rows[r] == st.done[r]);
            }
        }
    }
}

/// Wraps content lines to `max_width` columns.
pub fn wrap_lines(lines: &Vec<LineContent>, max_width: usize) -> (res: Vec<LineContent>)
    ensures
        lines_view(res@) == wrap_lines_spec(lines_view(lines@), max_width as nat),
{
    let mw = if max_width < 4 {
        4
    } else {
        max_width
    };
    let ghost lv = lines_view(lines@);
    let mut result: Vec<LineContent> = Vec::new();
    let mut i: usize = 0;
    while i < lines.len()
        invariant
            i <= lines@.len(),
            mw == (if max_width < 4 { 4 } else { max_width }),
            lv == lines_view(lines@),
            lines_view(result@) == wrap_lines_spec(lv.take(i as int), max_width as nat),
        decreases lines@.len() - i,
    {
        assert(lv.take(i + 1).drop_last() =~= lv.take(i as int));
        assert(lv.take(i + 1).last() == line_view(lines@[i as int]));
        let ghost before = lines_view(result@);
        match &lines[i] {
            LineContent::Image(node) => {
                let l = LineContent::Image(copy_image(node));
                result.push(l);
                assert(lines_view(result@) =~= before.push(line_view(l)));
            },
            LineContent::Link(node) => {
                let l = LineContent::Link(copy_link_node(node));
                result.push(l);
                assert(lines_view(result@) =~= before.push(line_view(l)));
            },
            LineContent::Styled(spans) => {
                let wrapped = wrap_styled_line(spans, mw);
                let ghost wv = rows_view(wrapped@);
                let mut k: usize = 0;
                while k < wrapped.len()
                    invariant
                        k <= wrapped@.len(),
                        wv == rows_view(wrapped@),
                        lines_view(result@) == before + wv.take(k as int).map_values(
                            |r: Seq<SpanView>| LineView::Styled(r),
                        ),
                    decreases wrapped@.len() - k,
                {
                    let ghost b2 = lines_view(result@);
                    let l = LineContent::Styled(crate::image::copy_spans(&wrapped[k]));
                    result.push(l);
                    assert(lines_view(result@) =~= b2.push(line_view(l)));
                    assert(wv[k as int] == spans_view(wrapped@[k as int]@));
                    k = k + 1;
                    assert(wv.take(k as int).map_values(|r: Seq<SpanView>| LineView::Styled(r)) =~= wv.take(
                        k - 1,
                    ).map_values(|r: Seq<SpanView>| LineView::Styled(r)).push(LineView::Styled(wv[k - 1])));
                }
                assert(wv.take(wrapped@.len() as int) =~= wv);
                assert(lines_view(result@) =~= before + wv.map_values(|r: Seq<SpanView>| LineView::Styled(r)));
            },
        }
        i = i + 1;
    }
    assert(lv.take(lines@.len() as int) =~= lv);
    result
}

// ───────────────────────────── focusable items ─────────────────────────────

/// Whether two link targets are the same link.
pub fn same_link(a: &LinkInfo, b: &LinkInfo) -> (res: bool)
    ensures
        res == (a.url@ == b.url@ && a.is_external == b.is_external),
{
    crate::text::str_eq(a.url.as_str(), b.url.as_str()) && a.is_external == b.is_external
}

/// A focusable item in the rendered document.
#[derive(Debug, Clone, PartialEq, Eq)]
pub enum FocusableItem {
    /// A block image placeholder; the entire visual line is focusable.
    Image { line_idx: usize },
    /// A block link; the entire visual line is focusable.
    BlockLink { line_idx: usize, url: String, is_external: bool },
    /// An inline link range within a styled visual line.
    InlineLink { line_idx: usize, start_offset: usize, end_offset: usize, url: String, is_external: bool },
}

/// The plain-value view of a focusable item.
pub enum FocusView {
    Image { line_idx: usize },
    BlockLink { line_idx: usize, url: Seq<char>, is_external: bool },
    InlineLink { line_idx: usize, start_offset: usize, end_offset: usize, url: Seq<char>, is_external: bool },
}

/// The view of a focusable item.
pub open spec fn focus_view(f: FocusableItem) -> FocusView {
    match f {
        FocusableItem::Image { line_idx } => FocusView::Image { line_idx },
        FocusableItem::BlockLink { line_idx, url, is_external } => FocusView::BlockLink {
            line_idx,
            url: url@,
            is_external,
        },
        FocusableItem::InlineLink { line_idx, start_offset, end_offset, url, is_external } => FocusView::InlineLink {
            line_idx,
            start_offset,
            end_offset,
            url: url@,
            is_external,
        },
    }
}

/// The views of focusable items.
pub open spec fn focus_views(s: Seq<FocusableItem>) -> Seq<FocusView> {
    s.map_values(|f: FocusableItem| focus_view(f))
}

/// The visual line of a focusable item.
pub open spec fn focus_line(f: FocusView) -> usize {
    match f {
        FocusView::Image { line_idx } => line_idx,
        FocusView::BlockLink { line_idx, .. } => line_idx,
        FocusView::InlineLink { line_idx, .. } => line_idx,
    }
}

/// The link of a focusable item, if it is one.
pub open spec fn focus_link(f: FocusView) -> Option<(Seq<char>, bool)> {
    match f {
        FocusView::Image { .. } => None,
        FocusView::BlockLink { url, is_external, .. } => Some((url, is_external)),
        FocusView::InlineLink { url, is_external, .. } => Some((url, is_external)),
    }
}

impl FocusableItem {
    /// The visual line the item is on.
    pub fn line_idx(&self) -> (res: usize)
        ensures
            res == focus_line(focus_view(*self)),
    {
        match self {
            FocusableItem::Image { line_idx } => *line_idx,
            FocusableItem::BlockLink { line_idx, .. } => *line_idx,
            FocusableItem::InlineLink { line_idx, .. } => *line_idx,
        }
    }

    /// The column range of an inline link on the given line.
    pub fn inline_range_on_line(&self, line_idx: usize) -> (res: Option<(usize, usize)>)
        ensures
            res == (match focus_view(*self) {
                FocusView::InlineLink { line_idx: l, start_offset, end_offset, .. } => if l == line_idx {
                    Some((start_offset, end_offset))
                } else {
                    None
                },
                _ => None,
            }),
    {
        match self {
            FocusableItem::InlineLink { line_idx: item_line, start_offset, end_offset, .. } => {
                if *item_line == line_idx {
                    Some((*start_offset, *end_offset))
                } else {
                    None
                }
            },
            _ => None,
        }
    }

    /// Whether the item takes the whole of the given line (an image or a block link there).
    pub fn is_entire_line_on_line(&self, line_idx: usize) -> (res: bool)
        ensures
            res == (match focus_view(*self) {
                FocusView::Image { line_idx: l } => l == line_idx,
                FocusView::BlockLink { line_idx: l, .. } => l == line_idx,
                FocusView::InlineLink { .. } => false,
            }),
    {
        match self {
            FocusableItem::Image { line_idx: item_line } => *item_line == line_idx,
            FocusableItem::BlockLink { line_idx: item_line, .. } => *item_line == line_idx,
            FocusableItem::InlineLink { .. } => false,
        }
    }

    /// The URL and externality of a link item.
    pub fn link(&self) -> (res: Option<(String, bool)>)
        ensures
            match focus_link(focus_view(*self)) {
                Some((u, e)) => res matches Some((u2, e2)) && u2@ == u && e2 == e,
                None => res is None,
            },
    {
        match self {
            FocusableItem::BlockLink { url, is_external, .. } => Some((owned(url.as_str()), *is_external)),
            FocusableItem::InlineLink { url, is_external, .. } => Some((owned(url.as_str()), *is_external)),
            FocusableItem::Image { .. } => None,
        }
    }
}

/// `n` capped at `usize::MAX`.
pub open spec fn cap(n: int) -> usize {
    if n > usize::MAX {
        usize::MAX
    } else {
        n as usize
    }
}

/// Scanning a line's spans for inline links: the column reached, the link being collected
/// (start, end, url, external) and the links found.
pub struct LinkScan {
    pub offset: usize,
    pub pending: Option<(usize, usize, Seq<char>, bool)>,
    pub found: Seq<FocusView>,
}

/// The inline link item of a collected link.
pub open spec fn inline_item(line: usize, p: (usize, usize, Seq<char>, bool)) -> FocusView {
    FocusView::InlineLink { line_idx: line, start_offset: p.0, end_offset: p.1, url: p.2, is_external: p.3 }
}

/// One span scanned: a span of the same link extends it; a span of another link or of no link
/// ends it; a link span starts a new one.
pub open spec fn scan_step(st: LinkScan, span: SpanView, line: usize) -> LinkScan {
    let end = cap(st.offset + unicode_str_width(span.text));
    match (st.pending, span.link) {
        (Some(p), Some(l)) => if p.2 == l.0 && p.3 == l.1 {
            LinkScan { offset: end, pending: Some((p.0, end, p.2, p.3)), found: st.found }
        } else {
            LinkScan { offset: end, pending: Some((st.offset, end, l.0, l.1)), found: st.found.push(inline_item(line, p)) }
        },
        (None, Some(l)) => LinkScan { offset: end, pending: Some((st.offset, end, l.0, l.1)), found: st.found },
        (Some(p), None) => LinkScan { offset: end, pending: None, found: st.found.push(inline_item(line, p)) },
        (None, None) => LinkScan { offset: end, pending: None, found: st.found },
    }
}

/// The scan after the given spans.
pub open spec fn scan_spans(spans: Seq<SpanView>, line: usize) -> LinkScan
    decreases spans.len(),
{
    if spans.len() == 0 {
        LinkScan { offset: 0, pending: None, found: Seq::empty() }
    } else {
        scan_step(scan_spans(spans.drop_last(), line), spans.last(), line)
    }
}

/// The inline links of a styled line, adjacent spans of one link counted once.
pub open spec fn inline_links(spans: Seq<SpanView>, line: usize) -> Seq<FocusView> {
    let st = scan_spans(spans, line);
    match st.pending {
        Some(p) => st.found.push(inline_item(line, p)),
        None => st.found,
    }
}

/// The focusable items of the first lines: each image, each block link and each inline link,
/// in document order.
pub open spec fn focus_items(lines: Seq<LineView>) -> Seq<FocusView>
    decreases lines.len(),
{
    if lines.len() == 0 {
        Seq::empty()
    } else {
        let prev = focus_items(lines.drop_last());
        let li = cap(lines.len() - 1);
        match lines.last() {
            LineView::Image(_) => prev.push(FocusView::Image { line_idx: li }),
            LineView::Link(_, url, ext) => prev.push(FocusView::BlockLink { line_idx: li, url, is_external: ext }),
            LineView::Styled(spans) => prev + inline_links(spans, li),
        }
    }
}

fn push_focus(v: &mut Vec<FocusableItem>, f: FocusableItem)
    ensures
        focus_views(final(v)@) == focus_views(old(v)@).push(focus_view(f)),
        final(v)@.len() == old(v)@.len() + 1,
{
    let ghost before = v@;
    v.push(f);
    assert(focus_views(v@) =~= focus_views(before).push(focus_view(f)));
}

fn inline_links_exec(spans: &Vec<StyledSpan>, line: usize, out: &mut Vec<FocusableItem>)
    ensures
        focus_views(final(out)@) == focus_views(old(out)@) + inline_links(spans_view(spans@), line),
{
    let ghost base = focus_views(out@);
    let ghost sv = spans_view(spans@);
    let mut offset: usize = 0;
    let mut pending: Option<(usize, usize, String, bool)> = None;
    let mut i: usize = 0;
    while i < spans.len()
        invariant
            i <= spans@.len(),
            sv == spans_view(spans@),
            ({
                let st = scan_spans(sv.take(i as int), line);
                &&& st.offset == offset
                &&& focus_views(out@) == base + st.found
                &&& match st.pending {
                    Some(p) => pending matches Some(q) && q.0 == p.0 && q.1 == p.1 && q.2@ == p.2 && q.3 == p.3,
                    None => pending is None,
                }
            }),
        decreases spans@.len() - i,
    {
        let span = &spans[i];
        assert(sv.take(i + 1).drop_last() =~= sv.take(i as int));
        assert(sv.take(i + 1).last() == span_view(*span));
        let w = display_width(span.text.as_str());
        let end = offset.saturating_add(w);
        assert(end == cap(offset + unicode_str_width(span.text@)));
        match (&pending, &span.link) {
            (Some(p), Some(l)) => {
                if crate::text::str_eq(p.2.as_str(), l.url.as_str()) && p.3 == l.is_external {
                    pending = Some((p.0, end, owned(p.2.as_str()), p.3));
                } else {
                    push_focus(
                        out,
                        FocusableItem::InlineLink {
                            line_idx: line,
                            start_offset: p.0,
                            end_offset: p.1,
                            url: owned(p.2.as_str()),
                            is_external: p.3,
                        },
                    );
                    pending = Some((offset, end, owned(l.url.as_str()), l.is_external));
                }
            },
            (None, Some(l)) => {
                pending = Some((offset, end, owned(l.url.as_str()), l.is_external));
            },
            (Some(p), None) => {
                push_focus(
                    out,
                    FocusableItem::InlineLink {
                        line_idx: line,
                        start_offset: p.0,
                        end_offset: p.1,
                        url: owned(p.2.as_str()),
                        is_external: p.3,
                    },
                );
                pending = None;
            },
            (None, None) => {},
        }
        offset = end;
        i = i + 1;
    }
    assert(sv.take(spans@.len() as int) =~= sv);
    match pending {
        Some(p) => {
            push_focus(
                out,
                FocusableItem::InlineLink {
                    line_idx: line,
                    start_offset: p.0,
                    end_offset: p.1,
                    url: p.2,
                    is_external: p.3,
                },
            );
        },
        None => {},
    }
}

/// The focusable items of wrapped lines.
pub fn focus_positions(lines: &Vec<LineContent>) -> (res: Vec<FocusableItem>)
    ensures
        focus_views(res@) == focus_items(lines_view(lines@)),
{
    let ghost lv = lines_view(lines@);
    let mut out: Vec<FocusableItem> = Vec::new();
    let mut i: usize = 0;
    while i < lines.len()
        invariant
            i <= lines@.len(),
            lv == lines_view(lines@),
            focus_views(out@) == focus_items(lv.take(i as int)),
        decreases lines@.len() - i,
    {
        assert(lv.take(i + 1).drop_last() =~= lv.take(i as int));
        assert(lv.take(i + 1).last() == line_view(lines@[i as int]));
        assert(cap(i as int) == i);
        match &lines[i] {
            LineContent::Image(_) => push_focus(&mut out, FocusableItem::Image { line_idx: i }),
            LineContent::Link(node) => push_focus(
                &mut out,
                FocusableItem::BlockLink { line_idx: i, url: owned(node.url.as_str()), is_external: node.is_external },
            ),
            LineContent::Styled(spans) => inline_links_exec(spans, i, &mut out),
        }
        i = i + 1;
    }
    assert(lv.take(lines@.len() as int) =~= lv);
    out
}

// ───────────────────────────── the reader state ─────────────────────────────

/// Reader application state.
pub struct App {
    pub lines: Vec<LineContent>,
    pub wrapped_lines: Vec<LineContent>,
    pub scroll: usize,
    pub height: Option<u16>,
    pub help_visible: bool,
    pub filename: String,
    /// Focusable items in document order.
    pub focusable_positions: Vec<FocusableItem>,
    /// Focused item index in `focusable_positions` (None = no focus).
    pub focus_index: Option<usize>,
    /// Temporary status message.
    pub status_message: Option<String>,
    /// EPUB book hash (None for Markdown files).
    pub epub_hash: Option<String>,
    /// Total chapters in EPUB.
    pub chapter_count: usize,
    /// Current chapter index (0-based).
    pub current_chapter: usize,
    /// Table of contents entries.
    pub toc: Vec<crate::epub::TocEntry>,
    /// Spine hrefs (one per chapter).
    pub spine_hrefs: Vec<String>,
    /// Whether the table of contents is shown.
    pub toc_visible: bool,
    /// Selected index in the table of contents.
    pub toc_selection: usize,
    /// Whether the status bar is visible.
    pub status_bar_visible: bool,
}

/// What the reader asks of the loop that runs it.
#[derive(Debug)]
pub enum Action {
    Continue,
    Quit,
    Dashboard,
    /// Load another chapter; the flag asks to start at its bottom.
    LoadChapter(usize, bool),
    /// Open this URL in the browser, then report the outcome.
    OpenUrl(String),
    /// Open this image file in the viewer, then report the outcome.
    OpenImage(String),
}

/// The plain-value view of an action.
pub enum ActionView {
    Continue,
    Quit,
    Dashboard,
    LoadChapter(usize, bool),
    OpenUrl(Seq<char>),
    OpenImage(Seq<char>),
}

/// The view of an action.
pub open spec fn action_view(a: Action) -> ActionView {
    match a {
        Action::Continue => ActionView::Continue,
        Action::Quit => ActionView::Quit,
        Action::Dashboard => ActionView::Dashboard,
        Action::LoadChapter(c, b) => ActionView::LoadChapter(c, b),
        Action::OpenUrl(u) => ActionView::OpenUrl(u@),
        Action::OpenImage(p) => ActionView::OpenImage(p@),
    }
}

/// The plain-value view of the reader state.
pub struct ReaderView {
    pub lines: Seq<LineView>,
    pub wrapped: Seq<LineView>,
    pub scroll: usize,
    pub height: Option<u16>,
    pub help_visible: bool,
    pub filename: Seq<char>,
    pub focusable: Seq<FocusView>,
    pub focus_index: Option<usize>,
    pub status: Option<Seq<char>>,
    pub epub_hash: Option<Seq<char>>,
    pub chapter_count: usize,
    pub current_chapter: usize,
    pub toc_hrefs: Seq<Seq<char>>,
    pub spine: Seq<Seq<char>>,
    pub toc_visible: bool,
    pub toc_selection: usize,
    pub status_bar_visible: bool,
}

/// Views of optional strings.
pub open spec fn opt_view(o: Option<String>) -> Option<Seq<char>> {
    match o {
        Some(s) => Some(s@),
        None => None,
    }
}

impl App {
    /// The view of the reader state.
    pub open spec fn view_of(&self) -> ReaderView {
        ReaderView {
            lines: lines_view(self.lines@),
            wrapped: lines_view(self.wrapped_lines@),
            scroll: self.scroll,
            height: self.height,
            help_visible: self.help_visible,
            filename: self.filename@,
            focusable: focus_views(self.focusable_positions@),
            focus_index: self.focus_index,
            status: opt_view(self.status_message),
            epub_hash: opt_view(self.epub_hash),
            chapter_count: self.chapter_count,
            current_chapter: self.current_chapter,
            toc_hrefs: self.toc@.map_values(|t: crate::epub::TocEntry| t.href@),
            spine: self.spine_hrefs@.map_values(|h: String| h@),
            toc_visible: self.toc_visible,
            toc_selection: self.toc_selection,
            status_bar_visible: self.status_bar_visible,
        }
    }

    /// The focus, when set, names an item, and every item lies on a wrapped line.
    pub open spec fn wf(&self) -> bool {
        &&& self.focus_index matches Some(f) ==> f < self.focusable_positions@.len()
        &&& forall|k: int| 0 <= k < self.focusable_positions@.len() ==> focus_line(
            #[trigger] focus_views(self.focusable_positions@)[k],
        ) < self.wrapped_lines@.len()
    }

    /// A reader over `lines`, not yet laid out.
    pub fn new(lines: Vec<LineContent>, filename: String) -> (res: Self)
        ensures
            res.view_of() == (ReaderView {
                lines: lines_view(lines@),
                wrapped: Seq::empty(),
                scroll: 0,
                height: None,
                help_visible: false,
                filename: filename@,
                focusable: Seq::empty(),
                focus_index: None,
                status: None,
                epub_hash: None,
                chapter_count: 0,
                current_chapter: 0,
                toc_hrefs: Seq::empty(),
                spine: Seq::empty(),
                toc_visible: false,
                toc_selection: 0,
                status_bar_visible: true,
            }),
            res.wf(),
    {
        let res = App {
            lines,
            wrapped_lines: Vec::new(),
            scroll: 0,
            height: None,
            help_visible: false,
            filename,
            focusable_positions: Vec::new(),
            focus_index: None,
            status_message: None,
            epub_hash: None,
            chapter_count: 0,
            current_chapter: 0,
            toc: Vec::new(),
            spine_hrefs: Vec::new(),
            toc_visible: false,
            toc_selection: 0,
            status_bar_visible: true,
        };
        assert(res.view_of().wrapped =~= Seq::<LineView>::empty());
        assert(res.view_of().focusable =~= Seq::<FocusView>::empty());
        assert(res.view_of().toc_hrefs =~= Seq::<Seq<char>>::empty());
        assert(res.view_of().spine =~= Seq::<Seq<char>>::empty());
        res
    }

    /// Turns on EPUB mode with chapter navigation.
    pub fn set_epub_mode(
        &mut self,
        book_hash: Option<String>,
        chapter_count: usize,
        initial_chapter: usize,
        toc: Vec<crate::epub::TocEntry>,
        spine_hrefs: Vec<String>,
    )
        ensures
            final(self).view_of() == (ReaderView {
                epub_hash: opt_view(book_hash),
                chapter_count,
                current_chapter: initial_chapter,
                toc_hrefs: toc@.map_values(|t: crate::epub::TocEntry| t.href@),
                spine: spine_hrefs@.map_values(|h: String| h@),
                ..old(self).view_of()
            }),
            final(self).toc@ == toc@,
            old(self).wf() ==> final(self).wf(),
    {
        self.epub_hash = book_hash;
        self.chapter_count = chapter_count;
        self.current_chapter = initial_chapter;
        self.toc = toc;
        self.spine_hrefs = spine_hrefs;
    }
}

/// The largest scroll: the number of wrapped lines less the height.
pub open spec fn max_scroll_of(v: ReaderView) -> usize {
    let h = match v.height {
        Some(h) => h as int,
        None => 0,
    };
    if v.wrapped.len() > h {
        (v.wrapped.len() - h) as usize
    } else {
        0
    }
}

/// The chapter of an href (its part before any `#`): the first spine entry equal to it,
/// otherwise the first that ends with it or that it ends with.
pub open spec fn chapter_for_spec(spine: Seq<Seq<char>>, href: Seq<char>) -> Option<usize> {
    let base = crate::search::before_sub(href, seq!['#']);
    match first_equal(spine, base) {
        Some(i) => Some(i as usize),
        None => match first_related(spine, base) {
            Some(i) => Some(i as usize),
            None => None,
        },
    }
}

/// The first index of an entry equal to `x`.
pub open spec fn first_equal(s: Seq<Seq<char>>, x: Seq<char>) -> Option<nat>
    decreases s.len(),
{
    if s.len() == 0 {
        None
    } else {
        match first_equal(s.drop_last(), x) {
            Some(i) => Some(i),
            None => if s.last() == x {
                Some((s.len() - 1) as nat)
            } else {
                None
            },
        }
    }
}

/// Whether a spine entry and a base href match loosely.
pub open spec fn related(h: Seq<char>, base: Seq<char>) -> bool {
    h == base || crate::text::has_suffix(h, base) || crate::text::has_suffix(base, h)
}

/// The first index of an entry related to `x`.
pub open spec fn first_related(s: Seq<Seq<char>>, x: Seq<char>) -> Option<nat>
    decreases s.len(),
{
    if s.len() == 0 {
        None
    } else {
        match first_related(s.drop_last(), x) {
            Some(i) => Some(i),
            None => if related(s.last(), x) {
                Some((s.len() - 1) as nat)
            } else {
                None
            },
        }
    }
}

impl App {
    /// The chapter that an href points to.
    pub fn chapter_for_href(&self, href: &str) -> (res: Option<usize>)
        ensures
            res == chapter_for_spec(self.view_of().spine, href@),
    {
        let hv = chars_of(href);
        let hash = vec!['#'];
        assert(hash@ =~= seq!['#']);
        let base_v = crate::search::before_sub_exec(&hv, &hash);
        let base = crate::text::string_from_chars(&base_v);
        let ghost sp = self.view_of().spine;
        let mut i: usize = 0;
        while i < self.spine_hrefs.len()
            invariant
                i <= self.spine_hrefs@.len(),
                sp == self.spine_hrefs@.map_values(|h: String| h@),
                base@ == crate::search::before_sub(href@, seq!['#']),
                first_equal(sp.take(i as int), base@) is None,
            decreases self.spine_hrefs@.len() - i,
        {
            assert(sp.take(i + 1).drop_last() =~= sp.take(i as int));
            if crate::text::str_eq(self.spine_hrefs[i].as_str(), base.as_str()) {
                proof {
                    lemma_first_equal_prefix(sp, base@, i + 1);
                }
                return Some(i);
            }
            i = i + 1;
        }
        assert(sp.take(self.spine_hrefs@.len() as int) =~= sp);
        let mut j: usize = 0;
        while j < self.spine_hrefs.len()
            invariant
                j <= self.spine_hrefs@.len(),
                sp == self.spine_hrefs@.map_values(|h: String| h@),
                base@ == crate::search::before_sub(href@, seq!['#']),
                first_equal(sp, base@) is None,
                first_related(sp.take(j as int), base@) is None,
            decreases self.spine_hrefs@.len() - j,
        {
            assert(sp.take(j + 1).drop_last() =~= sp.take(j as int));
            let h = self.spine_hrefs[j].as_str();
            if crate::text::str_eq(h, base.as_str()) || crate::text::ends_with(h, base.as_str())
                || crate::text::ends_with(base.as_str(), h) {
                proof {
                    lemma_first_related_prefix(sp, base@, j + 1);
                }
                return Some(j);
            }
            j = j + 1;
        }
        assert(sp.take(self.spine_hrefs@.len() as int) =~= sp);
        None
    }
}

proof fn lemma_first_equal_prefix(s: Seq<Seq<char>>, x: Seq<char>, n: int)
    requires
        1 <= n <= s.len(),
        first_equal(s.take(n - 1), x) is None,
        s[n - 1] == x,
    ensures
        first_equal(s, x) == Some((n - 1) as nat),
    decreases s.len(),
{
    assert(s.take(n).drop_last() =~= s.take(n - 1));
    assert(first_equal(s.take(n), x) == Some((n - 1) as nat));
    if n < s.len() {
        assert(s.drop_last().take(n) =~= s.take(n));
        assert(s.drop_last().take(n - 1) =~= s.take(n - 1));
        lemma_first_equal_prefix(s.drop_last(), x, n);
    } else {
        assert(s.take(n) =~= s);
    }
}

proof fn lemma_first_related_prefix(s: Seq<Seq<char>>, x: Seq<char>, n: int)
    requires
        1 <= n <= s.len(),
        first_related(s.take(n - 1), x) is None,
        related(s[n - 1], x),
    ensures
        first_related(s, x) == Some((n - 1) as nat),
    decreases s.len(),
{
    assert(s.take(n).drop_last() =~= s.take(n - 1));
    assert(first_related(s.take(n), x) == Some((n - 1) as nat));
    if n < s.len() {
        assert(s.drop_last().take(n) =~= s.take(n));
        assert(s.drop_last().take(n - 1) =~= s.take(n - 1));
        lemma_first_related_prefix(s.drop_last(), x, n);
    } else {
        assert(s.take(n) =~= s);
    }
}

/// Every focusable item of `lines` lies on one of them.
pub proof fn lemma_focus_lines(lines: Seq<LineView>)
    ensures
        forall|k: int| 0 <= k < focus_items(lines).len() ==> focus_line(#[trigger] focus_items(lines)[k]) < lines.len(),
    decreases lines.len(),
{
    if lines.len() > 0 {
        lemma_focus_lines(lines.drop_last());
        let li = cap(lines.len() - 1);
        assert(li <= lines.len() - 1);
        match lines.last() {
            LineView::Styled(spans) => {
                lemma_inline_lines(spans, li);
                let prev = focus_items(lines.drop_last());
                assert forall|k: int| 0 <= k < focus_items(lines).len() implies focus_line(
                    #[trigger] focus_items(lines)[k],
                ) < lines.len() by {
                    if k < prev.len() {
                        assert(focus_items(lines)[k] == prev[k]);
                    } else {
                        assert(focus_items(lines)[k] == inline_links(spans, li)[k - prev.len()]);
                    }
                }
            },
            _ => {
                let prev = focus_items(lines.drop_last());
                assert forall|k: int| 0 <= k < focus_items(lines).len() implies focus_line(
                    #[trigger] focus_items(lines)[k],
                ) < lines.len() by {
                    if k < prev.len() {
                        assert(focus_items(lines)[k] == prev[k]);
                    }
                }
            },
        }
    }
}

proof fn lemma_scan_lines(spans: Seq<SpanView>, line: usize)
    ensures
        forall|k: int| 0 <= k < scan_spans(spans, line).found.len() ==> focus_line(
            #[trigger] scan_spans(spans, line).found[k],
        ) == line,
    decreases spans.len(),
{
    if spans.len() > 0 {
        lemma_scan_lines(spans.drop_last(), line);
        let prev = scan_spans(spans.drop_last(), line);
        assert forall|k: int| 0 <= k < scan_spans(spans, line).found.len() implies focus_line(
            #[trigger] scan_spans(spans, line).found[k],
        ) == line by {
            if k < prev.found.len() {
                assert(scan_spans(spans, line).found[k] == prev.found[k]);
            }
        }
    }
}

proof fn lemma_inline_lines(spans: Seq<SpanView>, line: usize)
    ensures
        forall|k: int| 0 <= k < inline_links(spans, line).len() ==> focus_line(#[trigger] inline_links(spans, line)[k])
            == line,
{
    lemma_scan_lines(spans, line);
    let st = scan_spans(spans, line);
    assert forall|k: int| 0 <= k < inline_links(spans, line).len() implies focus_line(
        #[trigger] inline_links(spans, line)[k],
    ) == line by {
        if k < st.found.len() {
            assert(inline_links(spans, line)[k] == st.found[k]);
        }
    }
}

/// The reader after a layout for a terminal `height` rows high and `term_width` columns wide:
/// when the height changed, the lines are wrapped again, the focusable items found again, the
/// focus kept within them and the scroll kept within the content.
pub open spec fn relayout(v: ReaderView, height: u16, term_width: nat) -> ReaderView {
    if v.height == Some(height) {
        v
    } else {
        let wrapped = wrap_lines_spec(v.lines, term_width);
        let foc = focus_items(wrapped);
        let fi = match v.focus_index {
            Some(f) => if f >= foc.len() {
                if foc.len() == 0 {
                    None
                } else {
                    Some((foc.len() - 1) as usize)
                }
            } else {
                Some(f)
            },
            None => None,
        };
        clamp_view(ReaderView { height: Some(height), wrapped, focusable: foc, focus_index: fi, ..v })
    }
}

/// The reader with its scroll kept within the content.
pub open spec fn clamp_view(v: ReaderView) -> ReaderView {
    ReaderView {
        scroll: if v.scroll > max_scroll_of(v) {
            max_scroll_of(v)
        } else {
            v.scroll
        },
        ..v
    }
}

/// The reader with new content, at the top with no focus and no status message, laid out
/// again at its height (if it had one).
pub open spec fn replaced_view(v: ReaderView, lines: Seq<LineView>, term_width: nat) -> ReaderView {
    let fresh = ReaderView { lines, scroll: 0, focus_index: None, status: None, height: None, ..v };
    match v.height {
        Some(h) => relayout(fresh, h, term_width),
        None => fresh,
    }
}

impl App {
    /// The largest scroll position.
    pub fn max_scroll(&self) -> (res: usize)
        ensures
            res == max_scroll_of(self.view_of()),
    {
        let h: usize = match self.height {
            Some(h) => h as usize,
            None => 0,
        };
        self.wrapped_lines.len().saturating_sub(h)
    }

    /// Keeps the scroll within the content.
    pub fn clamp_scroll(&mut self)
        ensures
            final(self).toc@ == old(self).toc@,
            final(self).view_of() == clamp_view(old(self).view_of()),
            old(self).wf() ==> final(self).wf(),
    {
        let max = self.max_scroll();
        if self.scroll > max {
            self.scroll = max;
        }
    }

    /// Number of wrapped lines.
    pub fn total_lines(&self) -> (res: usize)
        ensures
            res == self.view_of().wrapped.len(),
    {
        self.wrapped_lines.len()
    }

    /// Scrolls to a line, kept within the content.
    pub fn scroll_to_line(&mut self, line: usize)
        ensures
            final(self).toc@ == old(self).toc@,
            final(self).view_of() == clamp_view(ReaderView { scroll: line, ..old(self).view_of() }),
            old(self).wf() ==> final(self).wf(),
    {
        self.scroll = line;
        self.clamp_scroll();
    }

    fn rebuild_focusable_positions(&mut self)
        ensures
            final(self).toc@ == old(self).toc@,
            final(self).lines == old(self).lines,
            final(self).wrapped_lines == old(self).wrapped_lines,
            final(self).view_of() == (ReaderView {
                focusable: focus_items(lines_view(old(self).wrapped_lines@)),
                focus_index: match old(self).focus_index {
                    Some(f) => if f >= focus_items(lines_view(old(self).wrapped_lines@)).len() {
                        if focus_items(lines_view(old(self).wrapped_lines@)).len() == 0 {
                            None
                        } else {
                            Some((focus_items(lines_view(old(self).wrapped_lines@)).len() - 1) as usize)
                        }
                    } else {
                        Some(f)
                    },
                    None => None,
                },
                ..old(self).view_of()
            }),
            final(self).wf(),
    {
        let positions = focus_positions(&self.wrapped_lines);
        proof {
            lemma_focus_lines(lines_view(self.wrapped_lines@));
        }
        self.focusable_positions = positions;
        if let Some(focus) = self.focus_index {
            if focus >= self.focusable_positions.len() {
                self.focus_index = if self.focusable_positions.len() == 0 {
                    None
                } else {
                    Some(self.focusable_positions.len() - 1)
                };
            }
        }
    }

    /// Lays the content out for a terminal `height` rows high and `term_width` columns wide.
    pub fn set_height(&mut self, height: u16, term_width: usize)
        ensures
            final(self).toc@ == old(self).toc@,
            final(self).view_of() == relayout(old(self).view_of(), height, term_width as nat),
            final(self).wf() || (old(self).height == Some(height) && !old(self).wf()),
            old(self).wf() ==> final(self).wf(),
    {
        let old_height = self.height;
        self.height = Some(height);
        if old_height != Some(height) {
            self.wrapped_lines = wrap_lines(&self.lines, term_width);
            self.rebuild_focusable_positions();
            self.clamp_scroll();
        }
    }

    /// Replaces the content (when the chapter changes) and lays it out again at the same height.
    pub fn replace_content(&mut self, new_lines: Vec<LineContent>, term_width: usize)
        ensures
            final(self).toc@ == old(self).toc@,
            final(self).view_of() == replaced_view(old(self).view_of(), lines_view(new_lines@), term_width as nat),
            old(self).wf() ==> final(self).wf(),
    {
        self.lines = new_lines;
        self.scroll = 0;
        self.focus_index = None;
        self.status_message = None;
        let h = self.height;
        self.height = None;
        if let Some(h) = h {
            self.set_height(h, term_width);
        }
    }
}

// ───────────────────────────── keys ─────────────────────────────

/// `a - b`, or 0 when `b` is larger.
pub open spec fn sub0(a: int, b: int) -> usize {
    if a > b {
        (a - b) as usize
    } else {
        0
    }
}

/// `a + b`, capped at `usize::MAX`.
pub open spec fn add_cap(a: int, b: int) -> usize {
    cap(a + b)
}

/// The first focusable item on or after the top of the view, else the last item.
pub open spec fn first_from_view(items: Seq<FocusView>, scroll: usize) -> usize
    decreases items.len(),
{
    match first_at_or_below(items, scroll) {
        Some(k) => k as usize,
        None => sub0(items.len() as int, 1),
    }
}

/// The first index whose item lies on or after line `scroll`.
pub open spec fn first_at_or_below(items: Seq<FocusView>, scroll: usize) -> Option<nat>
    decreases items.len(),
{
    if items.len() == 0 {
        None
    } else {
        match first_at_or_below(items.drop_last(), scroll) {
            Some(k) => Some(k),
            None => if focus_line(items.last()) >= scroll {
                Some((items.len() - 1) as nat)
            } else {
                None
            },
        }
    }
}

/// The last index whose item lies before line `end`.
pub open spec fn last_above(items: Seq<FocusView>, end: usize) -> Option<nat>
    decreases items.len(),
{
    if items.len() == 0 {
        None
    } else if focus_line(items.last()) < end {
        Some((items.len() - 1) as nat)
    } else {
        last_above(items.drop_last(), end)
    }
}

/// The scroll after focusing an item: unchanged when the item's line is in view, otherwise
/// that line less half the height.
pub open spec fn reveal_scroll(scroll: usize, line: usize, h: usize) -> usize {
    if line < scroll || line >= scroll + h {
        sub0(line as int, (h / 2) as int)
    } else {
        scroll
    }
}

/// The link of the focused item.
pub open spec fn focused_link_spec(v: ReaderView) -> Option<(Seq<char>, bool)> {
    match v.focus_index {
        Some(f) => if f < v.focusable.len() {
            focus_link(v.focusable[f as int])
        } else {
            None
        },
        None => None,
    }
}

/// The wrapped line of the focused item.
pub open spec fn focused_line_spec(v: ReaderView) -> Option<LineView> {
    match v.focus_index {
        Some(f) => if f < v.focusable.len() {
            Some(v.wrapped[focus_line(v.focusable[f as int]) as int])
        } else {
            None
        },
        None => None,
    }
}

/// A status message.
pub open spec fn msg(s: Seq<char>) -> Option<Seq<char>> {
    Some(s)
}

/// The reader's answer to a key outside the table of contents and the help, before the scroll
/// is kept within the content: the new state, the action, and whether the answer is final
/// (the scroll is not clamped then).
pub open spec fn key_body(v: ReaderView, key: KeyEvent, h: usize, half: usize) -> (ReaderView, ActionView, bool) {
    let ctrl = key.modifiers.control;
    let chapters = v.chapter_count > 0;
    match key.code {
        KeyCode::Char('D') => (v, ActionView::Dashboard, true),
        KeyCode::Char('q') | KeyCode::Char('Q') => (v, ActionView::Quit, true),
        KeyCode::Esc => (v, ActionView::Quit, true),
        KeyCode::Char('c') if ctrl => (v, ActionView::Quit, true),
        KeyCode::Char('n') if ctrl && chapters => if v.current_chapter + 1 < v.chapter_count {
            (v, ActionView::LoadChapter((v.current_chapter + 1) as usize, false), true)
        } else {
            (ReaderView { status: msg("已是最后一章"@), ..v }, ActionView::Continue, false)
        },
        KeyCode::Char('p') if ctrl && chapters => if v.current_chapter > 0 {
            (v, ActionView::LoadChapter((v.current_chapter - 1) as usize, true), true)
        } else {
            (ReaderView { status: msg("已是第一章"@), ..v }, ActionView::Continue, false)
        },
        KeyCode::Char('t') if chapters => (
            ReaderView { toc_visible: !v.toc_visible, toc_selection: 0, ..v },
            ActionView::Continue,
            false,
        ),
        KeyCode::Tab => if v.focusable.len() > 0 {
            let f = match v.focus_index {
                None => first_from_view(v.focusable, v.scroll),
                Some(f) => ((f + 1) % (v.focusable.len() as int)) as usize,
            };
            (
                ReaderView {
                    focus_index: Some(f),
                    scroll: reveal_scroll(v.scroll, focus_line(v.focusable[f as int]), h),
                    ..v
                },
                ActionView::Continue,
                false,
            )
        } else {
            (v, ActionView::Continue, false)
        },
        KeyCode::BackTab => if v.focusable.len() > 0 {
            let f = match v.focus_index {
                None => match last_above(v.focusable, add_cap(v.scroll as int, h as int)) {
                    Some(k) => k as usize,
                    None => 0,
                },
                Some(f) => if f == 0 {
                    (v.focusable.len() - 1) as usize
                } else {
                    (f - 1) as usize
                },
            };
            (
                ReaderView {
                    focus_index: Some(f),
                    scroll: reveal_scroll(v.scroll, focus_line(v.focusable[f as int]), h),
                    ..v
                },
                ActionView::Continue,
                false,
            )
        } else {
            (v, ActionView::Continue, false)
        },
        KeyCode::Enter => match focused_link_spec(v) {
            Some((url, ext)) => if ext {
                (v, ActionView::OpenUrl(url), false)
            } else if chapters {
                match chapter_for_spec(v.spine, url) {
                    Some(c) => (v, ActionView::LoadChapter(c, false), true),
                    None => (ReaderView { status: msg("链接目标未找到: "@ + url), ..v }, ActionView::Continue, false),
                }
            } else {
                (
                    ReaderView { status: msg("链接: "@ + url + " (非 EPUB 模式)"@), ..v },
                    ActionView::Continue,
                    false,
                )
            },
            None => match focused_line_spec(v) {
                Some(LineView::Image(img)) => match img.local_path {
                    Some(p) => (v, ActionView::OpenImage(p), false),
                    None => (
                        ReaderView { status: msg("图片未缓存或下载失败，无法打开"@), ..v },
                        ActionView::Continue,
                        false,
                    ),
                },
                _ => (ReaderView { status: None, ..v }, ActionView::Continue, false),
            },
        },
        KeyCode::Char('j') | KeyCode::Down => if v.scroll >= max_scroll_of(v) {
            if chapters && v.current_chapter + 1 < v.chapter_count {
                (v, ActionView::LoadChapter((v.current_chapter + 1) as usize, false), true)
            } else {
                (v, ActionView::Continue, false)
            }
        } else {
            (ReaderView { scroll: add_cap(v.scroll as int, 1), ..v }, ActionView::Continue, false)
        },
        KeyCode::Char('k') | KeyCode::Up => if v.scroll == 0 {
            if chapters && v.current_chapter > 0 {
                (v, ActionView::LoadChapter((v.current_chapter - 1) as usize, true), true)
            } else {
                (v, ActionView::Continue, false)
            }
        } else {
            (ReaderView { scroll: sub0(v.scroll as int, 1), ..v }, ActionView::Continue, false)
        },
        KeyCode::Char('d') if ctrl => (ReaderView { scroll: add_cap(v.scroll as int, half as int), ..v }, ActionView::Continue, false),
        KeyCode::Char('u') if ctrl => (ReaderView { scroll: sub0(v.scroll as int, half as int), ..v }, ActionView::Continue, false),
        KeyCode::Char('f') if ctrl => (ReaderView { scroll: add_cap(v.scroll as int, h as int), ..v }, ActionView::Continue, false),
        KeyCode::Char('b') if ctrl => (ReaderView { scroll: sub0(v.scroll as int, h as int), ..v }, ActionView::Continue, false),
        KeyCode::PageDown => (ReaderView { scroll: add_cap(v.scroll as int, half as int), ..v }, ActionView::Continue, false),
        KeyCode::PageUp => (ReaderView { scroll: sub0(v.scroll as int, half as int), ..v }, ActionView::Continue, false),
        KeyCode::Home | KeyCode::Char('g') => (ReaderView { scroll: 0, ..v }, ActionView::Continue, false),
        KeyCode::End | KeyCode::Char('G') => (ReaderView { scroll: max_scroll_of(v), ..v }, ActionView::Continue, false),
        KeyCode::Char('?') => (ReaderView { help_visible: true, ..v }, ActionView::Continue, false),
        KeyCode::Char('f') => (
            ReaderView { status_bar_visible: !v.status_bar_visible, height: None, ..v },
            ActionView::Continue,
            false,
        ),
        _ => (v, ActionView::Continue, false),
    }
}

/// The reader's answer to a key: in the table of contents, keys move and pick an entry;
/// with help shown, any key hides it; otherwise see `key_body`, with the scroll then kept
/// within the content unless the answer was final.
pub open spec fn key_spec(v: ReaderView, key: KeyEvent) -> (ReaderView, ActionView) {
    if v.toc_visible {
        match key.code {
            KeyCode::Esc | KeyCode::Char('t') => (ReaderView { toc_visible: false, ..v }, ActionView::Continue),
            KeyCode::Up | KeyCode::Char('k') => (
                ReaderView { toc_selection: sub0(v.toc_selection as int, 1), ..v },
                ActionView::Continue,
            ),
            KeyCode::Down | KeyCode::Char('j') => (
                ReaderView {
                    toc_selection: if v.toc_selection + 1 < v.toc_hrefs.len() {
                        (v.toc_selection + 1) as usize
                    } else {
                        v.toc_selection
                    },
                    ..v
                },
                ActionView::Continue,
            ),
            KeyCode::Enter => if v.toc_selection < v.toc_hrefs.len() {
                let href = v.toc_hrefs[v.toc_selection as int];
                match chapter_for_spec(v.spine, href) {
                    Some(c) => (ReaderView { toc_visible: false, ..v }, ActionView::LoadChapter(c, false)),
                    None => (
                        ReaderView { status: msg("未找到: "@ + href), toc_visible: false, ..v },
                        ActionView::Continue,
                    ),
                }
            } else {
                (ReaderView { toc_visible: false, ..v }, ActionView::Continue)
            },
            _ => (v, ActionView::Continue),
        }
    } else if v.help_visible {
        (ReaderView { help_visible: false, ..v }, ActionView::Continue)
    } else {
        let v1 = if key.code != KeyCode::Enter {
            ReaderView { status: None, ..v }
        } else {
            v
        };
        let h: usize = match v.height {
            Some(h) => h as usize,
            None => 0,
        };
        let half: usize = if h / 2 < 1 {
            1
        } else {
            h / 2
        };
        let (v2, act, early) = key_body(v1, key, h, half);
        if early {
            (v2, act)
        } else {
            (clamp_view(v2), act)
        }
    }
}

/// Whatever key the reader gets, its scroll stays within the content (past the last screen of
/// lines it never goes).
pub proof fn lemma_key_keeps_scroll_in_content(v: ReaderView, key: KeyEvent)
    requires
        v.scroll <= max_scroll_of(v),
    ensures
        key_spec(v, key).0.scroll <= max_scroll_of(key_spec(v, key).0),
{
}

/// Away from the ends of the content, `j` then `k` brings the reader back to the line it was
/// on.
pub proof fn lemma_down_then_up(v: ReaderView)
    requires
        !v.toc_visible,
        !v.help_visible,
        v.scroll < max_scroll_of(v),
    ensures
        ({
            let down = KeyEvent { code: KeyCode::Char('j'), modifiers: crate::keys::KeyModifiers { control: false, shift: false } };
            let up = KeyEvent { code: KeyCode::Char('k'), modifiers: crate::keys::KeyModifiers { control: false, shift: false } };
            let w = key_spec(v, down).0;
            &&& w.scroll == v.scroll + 1
            &&& key_spec(w, up).0.scroll == v.scroll
        }),
{
}

/// The arrow keys are `j` and `k`: whatever the state and modifiers, `Up` does what `k` does
/// and `Down` what `j` does. In the text, with the scroll inside the content, `Up` scrolls
/// one line up unless at the top and `Down` one line down unless at the bottom.
pub proof fn lemma_arrows_scroll_like_j_k(v: ReaderView, m: crate::keys::KeyModifiers)
    ensures
        key_spec(v, KeyEvent { code: KeyCode::Up, modifiers: m }) == key_spec(
            v,
            KeyEvent { code: KeyCode::Char('k'), modifiers: m },
        ),
        key_spec(v, KeyEvent { code: KeyCode::Down, modifiers: m }) == key_spec(
            v,
            KeyEvent { code: KeyCode::Char('j'), modifiers: m },
        ),
        !v.toc_visible && !v.help_visible && 0 < v.scroll <= max_scroll_of(v) ==> {
            let r = key_spec(v, KeyEvent { code: KeyCode::Up, modifiers: m });
            r.0.scroll == v.scroll - 1 && r.1 == ActionView::Continue
        },
        !v.toc_visible && !v.help_visible && v.scroll < max_scroll_of(v) ==> {
            let r = key_spec(v, KeyEvent { code: KeyCode::Down, modifiers: m });
            r.0.scroll == v.scroll + 1 && r.1 == ActionView::Continue
        },
{
}

/// The rows that half a page scrolls by: half the height, at least one.
pub open spec fn half_page(v: ReaderView) -> int {
    let h: int = match v.height {
        Some(h) => h as int,
        None => 0,
    };
    if h / 2 < 1 {
        1
    } else {
        h / 2
    }
}

/// When half a page down stays within the content, `Ctrl+d` then `Ctrl+u` brings the reader
/// back to the line it was on; likewise `Ctrl+f` then `Ctrl+b` with a whole page.
pub proof fn lemma_page_down_then_up(v: ReaderView)
    requires
        !v.toc_visible,
        !v.help_visible,
    ensures
        ({
            let ctrl = crate::keys::KeyModifiers { control: true, shift: false };
            let d = KeyEvent { code: KeyCode::Char('d'), modifiers: ctrl };
            let u = KeyEvent { code: KeyCode::Char('u'), modifiers: ctrl };
            let w = key_spec(v, d).0;
            v.scroll + half_page(v) <= max_scroll_of(v) ==> w.scroll == v.scroll + half_page(v) && key_spec(
                w,
                u,
            ).0.scroll == v.scroll
        }),
        ({
            let ctrl = crate::keys::KeyModifiers { control: true, shift: false };
            let f = KeyEvent { code: KeyCode::Char('f'), modifiers: ctrl };
            let b = KeyEvent { code: KeyCode::Char('b'), modifiers: ctrl };
            let h: int = match v.height {
                Some(h) => h as int,
                None => 0,
            };
            let w = key_spec(v, f).0;
            v.scroll + h <= max_scroll_of(v) ==> w.scroll == v.scroll + h && key_spec(w, b).0.scroll == v.scroll
        }),
{
}

/// With an item focused, `Tab` then `Shift+Tab` brings the focus back to that item, and so
/// does `Shift+Tab` then `Tab`.
pub proof fn lemma_tab_then_back_tab(v: ReaderView, f: usize)
    requires
        !v.toc_visible,
        !v.help_visible,
        v.focus_index == Some(f),
        f < v.focusable.len(),
        v.focusable.len() <= usize::MAX,
    ensures
        ({
            let none = crate::keys::KeyModifiers { control: false, shift: false };
            let tab = KeyEvent { code: KeyCode::Tab, modifiers: none };
            let back = KeyEvent { code: KeyCode::BackTab, modifiers: none };
            &&& key_spec(key_spec(v, tab).0, back).0.focus_index == Some(f)
            &&& key_spec(key_spec(v, back).0, tab).0.focus_index == Some(f)
        }),
{
    let n = v.focusable.len() as int;
    let fi = f as int;
    let none = crate::keys::KeyModifiers { control: false, shift: false };
    let tab = KeyEvent { code: KeyCode::Tab, modifiers: none };
    let back = KeyEvent { code: KeyCode::BackTab, modifiers: none };
    vstd::arithmetic::div_mod::lemma_mod_self_0(n);
    if fi + 1 < n {
        vstd::arithmetic::div_mod::lemma_small_mod((fi + 1) as nat, n as nat);
    }
    vstd::arithmetic::div_mod::lemma_small_mod(fi as nat, n as nat);
    let t = key_spec(v, tab).0;
    assert(t.focus_index == Some(((fi + 1) % n) as usize));
    assert(t.focusable == v.focusable && !t.toc_visible && !t.help_visible);
    let b = key_spec(v, back).0;
    assert(b.focus_index == Some(if fi == 0 { (n - 1) as usize } else { (fi - 1) as usize }));
    assert(b.focusable == v.focusable && !b.toc_visible && !b.help_visible);
    if fi >= 1 {
        assert(((fi - 1) + 1) % n == fi);
    }
    let tf = ((fi + 1) % n) as usize;
    if fi + 1 < n {
        assert(tf == fi + 1);
    } else {
        assert(tf == 0);
    }
    assert(key_spec(t, back).0.focus_index == Some(if tf == 0 { (n - 1) as usize } else { (tf - 1) as usize }));
    let bf = if fi == 0 { (n - 1) as usize } else { (fi - 1) as usize };
    assert(key_spec(b, tab).0.focus_index == Some(((bf + 1) % n) as usize));
    if fi == 0 {
        assert(bf + 1 == n);
        assert(((bf + 1) % n) as usize == 0);
    } else {
        assert(bf + 1 == fi);
        assert(((bf + 1) % n) as usize == f);
    }
}

impl App {
    fn find_first_focusable_from_viewport(&self) -> (res: usize)
        ensures
            res == first_from_view(self.view_of().focusable, self.scroll),
    {
        let ghost items = self.view_of().focusable;
        let mut i: usize = 0;
        while i < self.focusable_positions.len()
            invariant
                i <= self.focusable_positions@.len(),
                items == focus_views(self.focusable_positions@),
                first_at_or_below(items.take(i as int), self.scroll) is None,
            decreases self.focusable_positions@.len() - i,
        {
            assert(items.take(i + 1).drop_last() =~= items.take(i as int));
            if self.focusable_positions[i].line_idx() >= self.scroll {
                proof {
                    lemma_first_at_prefix(items, self.scroll, i + 1);
                }
                return i;
            }
            i = i + 1;
        }
        assert(items.take(i as int) =~= items);
        self.focusable_positions.len().saturating_sub(1)
    }

    fn find_last_focusable_before_viewport(&self, height: usize) -> (res: usize)
        ensures
            res == (match last_above(self.view_of().focusable, add_cap(self.scroll as int, height as int)) {
                Some(k) => k as usize,
                None => 0,
            }),
    {
        let ghost items = self.view_of().focusable;
        let end = self.scroll.saturating_add(height);
        let mut i = self.focusable_positions.len();
        assert(items.take(i as int) =~= items);
        while i > 0
            invariant
                i <= self.focusable_positions@.len(),
                items == focus_views(self.focusable_positions@),
                end == add_cap(self.scroll as int, height as int),
                last_above(items, end) == last_above(items.take(i as int), end),
            decreases i,
        {
            assert(items.take(i as int).drop_last() =~= items.take(i - 1));
            if self.focusable_positions[i - 1].line_idx() < end {
                return i - 1;
            }
            i = i - 1;
        }
        0
    }

    /// The URL and externality of the focused link, if the focus is on a link.
    pub fn focused_link(&self) -> (res: Option<(String, bool)>)
        ensures
            match focused_link_spec(self.view_of()) {
                Some((u, e)) => res matches Some((u2, e2)) && u2@ == u && e2 == e,
                None => res is None,
            },
    {
        match self.focus_index {
            Some(f) => if f < self.focusable_positions.len() {
                self.focusable_positions[f].link()
            } else {
                None
            },
            None => None,
        }
    }

    /// The wrapped line of the focused item.
    pub fn focused_item(&self) -> (res: Option<&LineContent>)
        requires
            self.wf(),
        ensures
            match focused_line_spec(self.view_of()) {
                Some(l) => res matches Some(x) && line_view(*x) == l,
                None => res is None,
            },
    {
        match self.focus_index {
            Some(f) => if f < self.focusable_positions.len() {
                let line_idx = self.focusable_positions[f].line_idx();
                assert(focus_line(focus_views(self.focusable_positions@)[f as int]) < self.wrapped_lines@.len());
                Some(&self.wrapped_lines[line_idx])
            } else {
                None
            },
            None => None,
        }
    }

    /// Shows another chapter: its lines replace the content, at the top, or at the bottom
    /// when the reader moved back past the start of the next chapter.
    pub fn show_chapter(&mut self, chapter: usize, lines: Vec<LineContent>, to_bottom: bool, term_width: usize)
        ensures
            final(self).toc@ == old(self).toc@,
            ({
                let r = replaced_view(
                    ReaderView { current_chapter: chapter, ..old(self).view_of() },
                    lines_view(lines@),
                    term_width as nat,
                );
                final(self).view_of() == if to_bottom {
                    clamp_view(ReaderView { scroll: max_scroll_of(r), ..r })
                } else {
                    r
                }
            }),
            old(self).wf() ==> final(self).wf(),
    {
        self.current_chapter = chapter;
        self.replace_content(lines, term_width);
        if to_bottom {
            let max = self.max_scroll();
            self.scroll_to_line(max);
        }
    }

    /// Records the outcome of opening a URL that `handle_key` asked for.
    pub fn report_open_url(&mut self, url: &str, outcome: Result<(), String>)
        ensures
            final(self).toc@ == old(self).toc@,
            final(self).view_of() == (ReaderView {
                status: match outcome {
                    Ok(()) => msg("已打开: "@ + url@),
                    Err(e) => msg("打开失败: "@ + e@),
                },
                ..old(self).view_of()
            }),
            old(self).wf() ==> final(self).wf(),
    {
        let m = match outcome {
            Ok(()) => {
                let mut m = owned("已打开: ");
                crate::text::push_str(&mut m, url);
                m
            },
            Err(e) => {
                let mut m = owned("打开失败: ");
                crate::text::push_str(&mut m, e.as_str());
                m
            },
        };
        self.status_message = Some(m);
    }

    /// Records the outcome of opening an image that `handle_key` asked for.
    pub fn report_open_image(&mut self, outcome: Result<(), String>)
        ensures
            final(self).toc@ == old(self).toc@,
            final(self).view_of() == (ReaderView {
                status: match outcome {
                    Ok(()) => None,
                    Err(e) => msg("打开失败: "@ + e@),
                },
                ..old(self).view_of()
            }),
            old(self).wf() ==> final(self).wf(),
    {
        match outcome {
            Ok(()) => {
                self.status_message = None;
            },
            Err(e) => {
                let mut m = owned("打开失败: ");
                crate::text::push_str(&mut m, e.as_str());
                self.status_message = Some(m);
            },
        }
    }
}

proof fn lemma_first_at_prefix(s: Seq<FocusView>, scroll: usize, n: int)
    requires
        1 <= n <= s.len(),
        first_at_or_below(s.take(n - 1), scroll) is None,
        focus_line(s[n - 1]) >= scroll,
    ensures
        first_at_or_below(s, scroll) == Some((n - 1) as nat),
    decreases s.len(),
{
    assert(s.take(n).drop_last() =~= s.take(n - 1));
    assert(first_at_or_below(s.take(n), scroll) == Some((n - 1) as nat));
    if n < s.len() {
        assert(s.drop_last().take(n) =~= s.take(n));
        assert(s.drop_last().take(n - 1) =~= s.take(n - 1));
        lemma_first_at_prefix(s.drop_last(), scroll, n);
    } else {
        assert(s.take(n) =~= s);
    }
}

impl App {
    fn toc_key(&mut self, key: KeyEvent) -> (res: Action)
        requires
            old(self).toc_visible,
        ensures
            final(self).toc@ == old(self).toc@,
            (final(self).view_of(), action_view(res)) == key_spec(old(self).view_of(), key),
            old(self).wf() ==> final(self).wf(),
    {
        assert(self.view_of().toc_hrefs.len() == self.toc@.len());
        match key.code {
            KeyCode::Esc | KeyCode::Char('t') => {
                let ghost v = self.view_of();
                self.toc_visible = false;
                assert(key_spec(v, key).1 == ActionView::Continue);
                assert(key_spec(v, key).0 == ReaderView { toc_visible: false, ..v });
                assert(self.view_of() == ReaderView { toc_visible: false, ..v });
                Action::Continue
            },
            KeyCode::Up | KeyCode::Char('k') => {
                let ghost v = self.view_of();
                self.toc_selection = self.toc_selection.saturating_sub(1);
                assert(self.view_of() == key_spec(v, key).0);
                Action::Continue
            },
            KeyCode::Down | KeyCode::Char('j') => {
                let ghost v = self.view_of();
                let n = self.toc.len();
                if (self.toc_selection as u128) + 1 < n as u128 {
                    self.toc_selection = self.toc_selection + 1;
                }
                assert(self.view_of() == key_spec(v, key).0);
                Action::Continue
            },
            KeyCode::Enter => {
                if self.toc_selection < self.toc.len() {
                    let href = owned(self.toc[self.toc_selection].href.as_str());
                    assert(href@ == self.view_of().toc_hrefs[self.toc_selection as int]);
                    match self.chapter_for_href(href.as_str()) {
                        Some(chapter) => {
                            self.toc_visible = false;
                            return Action::LoadChapter(chapter, false);
                        },
                        None => {
                            let mut m = owned("未找到: ");
                            crate::text::push_str(&mut m, href.as_str());
                            self.status_message = Some(m);
                        },
                    }
                }
                self.toc_visible = false;
                Action::Continue
            },
            _ => {
                assert(self.view_of() == key_spec(self.view_of(), key).0);
                Action::Continue
            },
        }
    }

    fn reveal_focus(&mut self, focus: usize, h: usize)
        requires
            focus < old(self).focusable_positions@.len(),
        ensures
            final(self).toc@ == old(self).toc@,
            final(self).view_of() == (ReaderView {
                focus_index: Some(focus),
                scroll: reveal_scroll(
                    old(self).scroll,
                    focus_line(focus_views(old(self).focusable_positions@)[focus as int]),
                    h,
                ),
                ..old(self).view_of()
            }),
            old(self).wf() ==> final(self).wf(),
    {
        self.focus_index = Some(focus);
        let line_idx = self.focusable_positions[focus].line_idx();
        if line_idx < self.scroll || (line_idx as u128) >= (self.scroll as u128) + (h as u128) {
            self.scroll = line_idx.saturating_sub(h / 2);
        }
    }

    fn body_key(&mut self, key: KeyEvent, h: usize, half: usize) -> (res: (Action, bool))
        requires
            old(self).wf(),
        ensures
            final(self).toc@ == old(self).toc@,
            (final(self).view_of(), action_view(res.0), res.1) == key_body(old(self).view_of(), key, h, half),
            final(self).wf(),
    {
        let ctrl = key.modifiers.control;
        let chapters = self.chapter_count > 0;
        match key.code {
            KeyCode::Char('D') => {
                return (Action::Dashboard, true);
            },
            KeyCode::Char('q') | KeyCode::Char('Q') => {
                return (Action::Quit, true);
            },
            KeyCode::Esc => {
                return (Action::Quit, true);
            },
            KeyCode::Char('c') if ctrl => {
                return (Action::Quit, true);
            },
            KeyCode::Char('n') if ctrl && chapters => {
                if (self.current_chapter as u128) + 1 < self.chapter_count as u128 {
                    return (Action::LoadChapter(self.current_chapter + 1, false), true);
                } else {
                    self.status_message = Some(owned("已是最后一章"));
                }
            },
            KeyCode::Char('p') if ctrl && chapters => {
                if self.current_chapter > 0 {
                    return (Action::LoadChapter(self.current_chapter - 1, true), true);
                } else {
                    self.status_message = Some(owned("已是第一章"));
                }
            },
            KeyCode::Char('t') if chapters => {
                self.toc_visible = !self.toc_visible;
                self.toc_selection = 0;
            },
            KeyCode::Tab => {
                if self.focusable_positions.len() > 0 {
                    let f = match self.focus_index {
                        None => self.find_first_focusable_from_viewport(),
                        Some(f) => (f + 1) % self.focusable_positions.len(),
                    };
                    proof {
                        lemma_first_from_view_bound(focus_views(self.focusable_positions@), self.scroll);
                    }
                    self.reveal_focus(f, h);
                }
            },
            KeyCode::BackTab => {
                if self.focusable_positions.len() > 0 {
                    let f = match self.focus_index {
                        None => self.find_last_focusable_before_viewport(h),
                        Some(f) => if f == 0 {
                            self.focusable_positions.len() - 1
                        } else {
                            f - 1
                        },
                    };
                    proof {
                        lemma_last_above_bound(
                            focus_views(self.focusable_positions@),
                            add_cap(self.scroll as int, h as int),
                        );
                    }
                    self.reveal_focus(f, h);
                }
            },
            KeyCode::Enter => {
                match self.focused_link() {
                    Some((url, is_external)) => {
                        if is_external {
                            return (Action::OpenUrl(url), false);
                        } else if chapters {
                            match self.chapter_for_href(url.as_str()) {
                                Some(chapter) => {
                                    return (Action::LoadChapter(chapter, false), true);
                                },
                                None => {
                                    let mut m = owned("链接目标未找到: ");
                                    crate::text::push_str(&mut m, url.as_str());
                                    self.status_message = Some(m);
                                },
                            }
                        } else {
                            let mut m = owned("链接: ");
                            crate::text::push_str(&mut m, url.as_str());
                            crate::text::push_str(&mut m, " (非 EPUB 模式)");
                            self.status_message = Some(m);
                        }
                    },
                    None => {
                        let opened: Option<Option<String>> = match self.focused_item() {
                            Some(LineContent::Image(img)) => match &img.local_path {
                                Some(p) => Some(Some(owned(p.as_str()))),
                                None => Some(None),
                            },
                            _ => None,
                        };
                        match opened {
                            Some(Some(p)) => {
                                return (Action::OpenImage(p), false);
                            },
                            Some(None) => {
                                self.status_message = Some(owned("图片未缓存或下载失败，无法打开"));
                            },
                            None => {
                                self.status_message = None;
                            },
                        }
                    },
                }
            },
            KeyCode::Char('j') | KeyCode::Down => {
                if self.scroll >= self.max_scroll() {
                    if chapters && (self.current_chapter as u128) + 1 < self.chapter_count as u128 {
                        return (Action::LoadChapter(self.current_chapter + 1, false), true);
                    }
                } else {
                    self.scroll = self.scroll.saturating_add(1);
                }
            },
            KeyCode::Char('k') | KeyCode::Up => {
                if self.scroll == 0 {
                    if chapters && self.current_chapter > 0 {
                        return (Action::LoadChapter(self.current_chapter - 1, true), true);
                    }
                } else {
                    self.scroll = self.scroll.saturating_sub(1);
                }
            },
            KeyCode::Char('d') if ctrl => {
                self.scroll = self.scroll.saturating_add(half);
            },
            KeyCode::Char('u') if ctrl => {
                self.scroll = self.scroll.saturating_sub(half);
            },
            KeyCode::Char('f') if ctrl => {
                self.scroll = self.scroll.saturating_add(h);
            },
            KeyCode::Char('b') if ctrl => {
                self.scroll = self.scroll.saturating_sub(h);
            },
            KeyCode::PageDown => {
                self.scroll = self.scroll.saturating_add(half);
            },
            KeyCode::PageUp => {
                self.scroll = self.scroll.saturating_sub(half);
            },
            KeyCode::Home | KeyCode::Char('g') => {
                self.scroll = 0;
            },
            KeyCode::End | KeyCode::Char('G') => {
                self.scroll = self.max_scroll();
            },
            KeyCode::Char('?') => {
                self.help_visible = true;
            },
            KeyCode::Char('f') => {
                self.status_bar_visible = !self.status_bar_visible;
                self.height = None;
            },
            _ => {},
        }
        (Action::Continue, false)
    }

    /// Handles a key in the reading view.
    pub fn handle_key(&mut self, key: KeyEvent) -> (res: Action)
        requires
            old(self).wf(),
        ensures
            (final(self).view_of(), action_view(res)) == key_spec(old(self).view_of(), key),
            final(self).wf(),
            final(self).toc@ == old(self).toc@,
    {
        if self.toc_visible {
            return self.toc_key(key);
        }
        if self.help_visible {
            self.help_visible = false;
            return Action::Continue;
        }
        if key.code != KeyCode::Enter {
            self.status_message = None;
        }
        let h: usize = match self.height {
            Some(h) => h as usize,
            None => 0,
        };
        let half: usize = if h / 2 < 1 {
            1
        } else {
            h / 2
        };
        let (action, early) = self.body_key(key, h, half);
        if early {
            return action;
        }
        self.clamp_scroll();
        action
    }
}

proof fn lemma_first_from_view_bound(items: Seq<FocusView>, scroll: usize)
    requires
        items.len() > 0,
    ensures
        first_from_view(items, scroll) < items.len(),
{
    lemma_first_at_bound(items, scroll);
}

proof fn lemma_first_at_bound(items: Seq<FocusView>, scroll: usize)
    ensures
        first_at_or_below(items, scroll) matches Some(k) ==> k < items.len(),
    decreases items.len(),
{
    if items.len() > 0 {
        lemma_first_at_bound(items.drop_last(), scroll);
    }
}

proof fn lemma_last_above_bound(items: Seq<FocusView>, end: usize)
    ensures
        last_above(items, end) matches Some(k) ==> k < items.len(),
    decreases items.len(),
{
    if items.len() > 0 {
        lemma_last_above_bound(items.drop_last(), end);
    }
}

} // verus!
