//! The dashboard screen as lines of text: the full shelf layout, the compact layout for short
//! terminals, and the prompt, suggestions and error lines below them.
use vstd::prelude::*;
use crate::dashboard::{
    first_entry_index, lemma_row_has_entry, visible_ids, DEntry, DashboardEntry, DashboardState,
    PathSuggestion, TargetKind,
};
use crate::text::{
    align_between, align_between_spec, decimal, display_width, fit_width, fit_width_spec, owned, pad_left,
    pad_right, pad_to_width, pad_to_width_spec, push_char, push_str, repeat_char, repeat_string,
    signed_decimal, unicode_str_width, zero_pad,
};

verus! {

/// One line of the dashboard screen.
pub struct DashboardVisualLine {
    pub text: String,
    pub selected: bool,
    pub dim: bool,
}

/// What the dashboard screen shows, and where the prompt's cursor stands.
pub struct DashboardRenderPlan {
    pub lines: Vec<DashboardVisualLine>,
    pub prompt_cursor: Option<(u16, u16)>,
}

/// The plain-value view of a screen line.
pub struct VLine {
    pub text: Seq<char>,
    pub selected: bool,
    pub dim: bool,
}

/// The view of a screen line.
pub open spec fn vline(l: DashboardVisualLine) -> VLine {
    VLine { text: l.text@, selected: l.selected, dim: l.dim }
}

/// The views of screen lines.
pub open spec fn vlines(s: Seq<DashboardVisualLine>) -> Seq<VLine> {
    s.map_values(|l: DashboardVisualLine| vline(l))
}

/// A screen line with the given text and flags.
pub open spec fn mk(text: Seq<char>, selected: bool, dim: bool) -> VLine {
    VLine { text, selected, dim }
}

fn line(text: String, selected: bool, dim: bool) -> (res: DashboardVisualLine)
    ensures
        vline(res) == mk(text@, selected, dim),
{
    DashboardVisualLine { text, selected, dim }
}

fn push_line(lines: &mut Vec<DashboardVisualLine>, l: DashboardVisualLine)
    ensures
        vlines(final(lines)@) == vlines(old(lines)@).push(vline(l)),
        final(lines)@.len() == old(lines)@.len() + 1,
{
    let ghost before = lines@;
    lines.push(l);
    assert(vlines(lines@) =~= vlines(before).push(vline(l)));
}

fn append_lines(lines: &mut Vec<DashboardVisualLine>, other: Vec<DashboardVisualLine>)
    ensures
        vlines(final(lines)@) == vlines(old(lines)@) + vlines(other@),
{
    let ghost before = lines@;
    let mut other = other;
    let ghost o = other@;
    lines.append(&mut other);
    assert(vlines(lines@) =~= vlines(before) + vlines(o));
}

/// The label of a kind of document.
pub open spec fn kind_label(kind: TargetKind) -> Seq<char> {
    match kind {
        TargetKind::Web => "WEB"@,
        TargetKind::Epub => "EPUB"@,
        TargetKind::Markdown => "MD"@,
    }
}

/// The label of a kind of document.
pub fn dashboard_kind_label(kind: TargetKind) -> (res: &'static str)
    ensures
        res@ == kind_label(kind),
{
    match kind {
        TargetKind::Web => "WEB",
        TargetKind::Epub => "EPUB",
        TargetKind::Markdown => "MD",
    }
}

/// `1 item` or `<n> items`.
pub open spec fn count_label(count: nat) -> Seq<char> {
    if count == 1 {
        "1 item"@
    } else {
        decimal(count) + " items"@
    }
}

/// The number of entries, as shown in the section line.
pub fn entry_count_label(count: usize) -> (res: String)
    ensures
        res@ == count_label(count as nat),
{
    if count == 1 {
        owned("1 item")
    } else {
        let mut s = crate::text::u64_to_string(count as u64);
        push_str(&mut s, " items");
        s
    }
}

/// The part of an entry's first line before its title.
pub open spec fn entry_prefix(e: DEntry, index: nat) -> Seq<char> {
    seq![' ', ' '] + (if e.starred {
        "★"@
    } else {
        seq![' ']
    }) + zero_pad(decimal(index + 1), 2) + seq![' ', ' '] + pad_right(kind_label(e.kind), 4) + seq![' ', ' ']
}

/// The part of an entry's first line after its title: the progress, right-aligned in three
/// columns, and `%`.
pub open spec fn entry_suffix(e: DEntry) -> Seq<char> {
    seq![' ', ' '] + pad_left(signed_decimal(e.progress_percent as int), 3) + seq!['%']
}

/// The two lines of an entry: its title line, padded to the width and cut to fit between the
/// prefix and suffix, and its target line, indented and cut to fit.
pub open spec fn entry_lines_spec(e: DEntry, index: nat, is_selected: bool, width: nat) -> Seq<VLine> {
    let prefix = entry_prefix(e, index);
    let suffix = entry_suffix(e);
    let used = unicode_str_width(prefix) + unicode_str_width(suffix);
    let title_width = if used >= width {
        0
    } else {
        (width - used) as nat
    };
    let title = fit_width_spec(e.title, title_width);
    seq![
        mk(pad_to_width_spec(prefix + title + suffix, width), is_selected, false),
        mk(repeat_char(' ', 8) + fit_width_spec(e.target, if width >= 8 { (width - 8) as nat } else { 0 }), false, true),
    ]
}

fn push_padded_decimal(s: &mut String, n: i16)
    ensures
        final(s)@ == old(s)@ + pad_left(signed_decimal(n as int), 3),
{
    let mut d = String::new();
    if n < 0 {
        push_char(&mut d, '-');
        let m: u64 = (0 - (n as i32)) as u64;
        crate::text::push_decimal(&mut d, m);
    } else {
        crate::text::push_decimal(&mut d, n as u64);
    }
    assert(d@ == signed_decimal(n as int));
    let len = crate::text::chars_of(d.as_str()).len();
    let ghost before = s@;
    if len < 3 {
        let pad = repeat_string(' ', 3 - len);
        push_str(s, pad.as_str());
    }
    push_str(s, d.as_str());
    assert(s@ =~= before + pad_left(signed_decimal(n as int), 3));
}

/// The two screen lines of a dashboard entry.
pub fn dashboard_entry_lines(entry: &DashboardEntry, index: usize, is_selected: bool, width: usize) -> (res: (
    DashboardVisualLine,
    DashboardVisualLine,
))
    requires
        index < usize::MAX,
    ensures
        seq![vline(res.0), vline(res.1)] == entry_lines_spec(entry@, index as nat, is_selected, width as nat),
{
    let mut prefix = owned("  ");
    if entry.starred {
        push_str(&mut prefix, "★");
    } else {
        push_char(&mut prefix, ' ');
    }
    crate::text::push_zero_padded(&mut prefix, (index + 1) as u64, 2);
    push_str(&mut prefix, "  ");
    let kind = dashboard_kind_label(entry.kind);
    let kind_len = crate::text::chars_of(kind).len();
    push_str(&mut prefix, kind);
    if kind_len < 4 {
        let pad = repeat_string(' ', 4 - kind_len);
        push_str(&mut prefix, pad.as_str());
    }
    push_str(&mut prefix, "  ");
    proof {
        reveal_strlit("  ");
    }
    assert(prefix@ =~= entry_prefix(entry@, index as nat));
    let mut suffix = owned("  ");
    push_padded_decimal(&mut suffix, entry.progress_percent);
    push_char(&mut suffix, '%');
    assert(suffix@ =~= entry_suffix(entry@));
    let used = display_width(prefix.as_str()) as u128 + display_width(suffix.as_str()) as u128;
    let title_width: usize = if used >= width as u128 {
        0
    } else {
        (width as u128 - used) as usize
    };
    let title = fit_width(entry.title.as_str(), title_width);
    let mut first = prefix;
    push_str(&mut first, title.as_str());
    push_str(&mut first, suffix.as_str());
    let first = pad_to_width(first.as_str(), width);
    let mut second = repeat_string(' ', 8);
    let target = fit_width(entry.target.as_str(), if width >= 8 {
        width - 8
    } else {
        0
    });
    push_str(&mut second, target.as_str());
    let a = line(first, is_selected, false);
    let b = line(second, false, true);
    assert(seq![vline(a), vline(b)] =~= entry_lines_spec(entry@, index as nat, is_selected, width as nat));
    (a, b)
}

/// The identifier of the selected row, if the selection is on a row.
pub open spec fn selected_id(entries: Seq<DEntry>, selected: nat) -> Option<Seq<char>> {
    if selected < visible_ids(entries).len() {
        Some(visible_ids(entries)[selected as int])
    } else {
        None
    }
}

/// The lines of the rows `ids`, two per row whose entry exists, numbered by row position.
pub open spec fn row_lines(entries: Seq<DEntry>, ids: Seq<Seq<char>>, sel: Option<Seq<char>>, width: nat) -> Seq<
    VLine,
>
    decreases ids.len(),
{
    if ids.len() == 0 {
        Seq::empty()
    } else {
        let prev = row_lines(entries, ids.drop_last(), sel, width);
        match first_entry_index(entries, ids.last()) {
            Some(k) => prev + entry_lines_spec(
                entries[k],
                (ids.len() - 1) as nat,
                sel == Some(ids.last()),
                width,
            ),
            None => prev,
        }
    }
}

/// The horizontal rule across the screen.
pub open spec fn rule(width: nat) -> Seq<char> {
    repeat_char('─', width)
}

/// The full shelf layout: title, rule, section line with the count, a blank line, the rows
/// (or a hint when there is none), a blank line, a rule and the key help.
pub open spec fn visual_lines_spec(entries: Seq<DEntry>, selected: nat, width: nat) -> Seq<VLine> {
    let w = if width < 40 {
        40
    } else {
        width
    };
    let ids = visible_ids(entries);
    let header = seq![
        mk("tread"@, false, false),
        mk(rule(w), false, true),
        mk(align_between_spec("最近阅读"@, count_label(ids.len()), w), false, false),
        mk(Seq::empty(), false, false),
    ];
    let body = if ids.len() == 0 {
        seq![mk(fit_width_spec("按 o 打开 Markdown、EPUB 或 URL。阅读后会出现在这里。"@, w), false, true)]
    } else {
        row_lines(entries, ids, selected_id(entries, selected), w)
    };
    header + body + seq![
        mk(Seq::empty(), false, false),
        mk(rule(w), false, true),
        mk(fit_width_spec("Enter open   j/k move   o new URL -i   s star   r remove   q quit"@, w), false, true),
    ]
}

fn opt_str_eq(a: Option<&str>, b: &str) -> (res: bool)
    ensures
        res == (a matches Some(x) && x@ == b@),
{
    match a {
        Some(x) => crate::text::str_eq(x, b),
        None => false,
    }
}

/// The full dashboard layout.
pub fn dashboard_visual_lines(state: &DashboardState, width: usize) -> (res: Vec<DashboardVisualLine>)
    ensures
        vlines(res@) == visual_lines_spec(state.entries_view(), state.selected_index(), width as nat),
{
    let width = if width < 40 {
        40
    } else {
        width
    };
    let rows = state.visible_rows();
    let selected = state.selected_entry_id();
    let ghost entries = state.entries_view();
    let ghost ids = visible_ids(entries);
    let ghost sel = selected_id(entries, state.selected_index());
    assert(sel == (match selected {
        Some(x) => Some(x@),
        None => None,
    }));
    let mut lines: Vec<DashboardVisualLine> = Vec::new();
    push_line(&mut lines, line(owned("tread"), false, false));
    push_line(&mut lines, line(repeat_string('─', width), false, true));
    push_line(
        &mut lines,
        line(align_between("最近阅读", entry_count_label(rows.len()).as_str(), width), false, false),
    );
    push_line(&mut lines, line(String::new(), false, false));
    let ghost header = vlines(lines@);
    if rows.len() == 0 {
        push_line(
            &mut lines,
            line(fit_width("按 o 打开 Markdown、EPUB 或 URL。阅读后会出现在这里。", width), false, true),
        );
    } else {
        let mut idx: usize = 0;
        while idx < rows.len()
            invariant
                idx <= rows@.len(),
                crate::dashboard::row_ids(rows@) == ids,
                entries == state.entries_view(),
                ids == visible_ids(entries),
                sel == (match selected {
                    Some(x) => Some(x@),
                    None => None,
                }),
                vlines(lines@) == header + row_lines(entries, ids.take(idx as int), sel, width as nat),
            decreases rows@.len() - idx,
        {
            let row_id = rows[idx].entry_id.as_str();
            assert(row_id@ == ids[idx as int]);
            assert(ids.take(idx + 1).drop_last() =~= ids.take(idx as int));
            assert(ids.take(idx + 1).last() == ids[idx as int]);
            match state.entry(row_id) {
                Some(entry) => {
                    let is_selected = opt_str_eq(selected, entry.id.as_str());
                    proof {
                        let k = first_entry_index(entries, row_id@)->0;
                        crate::dashboard::lemma_first_entry_index_spec(entries, row_id@);
                    }
                    let (a, b) = dashboard_entry_lines(entry, idx, is_selected, width);
                    let ghost before = vlines(lines@);
                    push_line(&mut lines, a);
                    push_line(&mut lines, b);
                    assert(vlines(lines@) =~= before + seq![vline(a), vline(b)]);
                },
                None => {},
            }
            idx = idx + 1;
        }
        assert(ids.take(rows@.len() as int) =~= ids);
    }
    push_line(&mut lines, line(String::new(), false, false));
    push_line(&mut lines, line(repeat_string('─', width), false, true));
    push_line(
        &mut lines,
        line(fit_width("Enter open   j/k move   o new URL -i   s star   r remove   q quit", width), false, true),
    );
    assert(vlines(lines@) =~= visual_lines_spec(state.entries_view(), state.selected_index(), width as nat));
    lines
}

/// The first position of `x` in `ids`.
pub open spec fn position_of(ids: Seq<Seq<char>>, x: Seq<char>) -> Option<nat>
    decreases ids.len(),
{
    if ids.len() == 0 {
        None
    } else {
        match position_of(ids.drop_last(), x) {
            Some(k) => Some(k),
            None => if ids.last() == x {
                Some((ids.len() - 1) as nat)
            } else {
                None
            },
        }
    }
}

proof fn lemma_position_of(ids: Seq<Seq<char>>, x: Seq<char>)
    ensures
        match position_of(ids, x) {
            Some(k) => k < ids.len() && ids[k as int] == x && forall|j: int| 0 <= j < k ==> ids[j] != x,
            None => forall|j: int| 0 <= j < ids.len() ==> ids[j] != x,
        },
    decreases ids.len(),
{
    if ids.len() > 0 {
        lemma_position_of(ids.drop_last(), x);
        assert forall|j: int| 0 <= j < ids.len() - 1 implies ids.drop_last()[j] == ids[j] by {}
    }
}

/// The compact layout for short terminals: the section line, then the selected row's two
/// lines (the first row's when no row is selected), or two hints when there is no row.
pub open spec fn compact_lines_spec(entries: Seq<DEntry>, selected: nat, width: nat) -> Seq<VLine> {
    let w = if width < 40 {
        40
    } else {
        width
    };
    let ids = visible_ids(entries);
    let section = mk(align_between_spec("最近阅读"@, count_label(ids.len()), w), false, false);
    if ids.len() == 0 {
        seq![
            section,
            mk(fit_width_spec("按 o 打开 Markdown、EPUB 或 URL。"@, w), false, true),
            mk(fit_width_spec("也可以直接运行 tread <file.md|file.epub|url>。"@, w), false, true),
        ]
    } else {
        let si = match selected_id(entries, selected) {
            Some(x) => match position_of(ids, x) {
                Some(k) => k,
                None => 0,
            },
            None => 0,
        };
        let e = entries[first_entry_index(entries, ids[si as int])->0];
        seq![section] + entry_lines_spec(e, si, true, w)
    }
}

/// The compact dashboard layout.
pub fn dashboard_compact_recent_lines(state: &DashboardState, width: usize) -> (res: Vec<DashboardVisualLine>)
    ensures
        vlines(res@) == compact_lines_spec(state.entries_view(), state.selected_index(), width as nat),
{
    let width = if width < 40 {
        40
    } else {
        width
    };
    let rows = state.visible_rows();
    let selected = state.selected_entry_id();
    let ghost entries = state.entries_view();
    let ghost ids = visible_ids(entries);
    let section = line(align_between("最近阅读", entry_count_label(rows.len()).as_str(), width), false, false);
    let mut lines: Vec<DashboardVisualLine> = Vec::new();
    push_line(&mut lines, section);
    if rows.len() == 0 {
        push_line(&mut lines, line(fit_width("按 o 打开 Markdown、EPUB 或 URL。", width), false, true));
        push_line(&mut lines, line(fit_width("也可以直接运行 tread <file.md|file.epub|url>。", width), false, true));
        assert(vlines(lines@) =~= compact_lines_spec(entries, state.selected_index(), width as nat));
        return lines;
    }
    let mut selected_idx: usize = 0;
    let mut found = false;
    let mut i: usize = 0;
    while i < rows.len()
        invariant
            i <= rows@.len(),
            rows@.len() > 0,
            selected_idx < rows@.len(),
            crate::dashboard::row_ids(rows@) == ids,
            !found ==> selected_idx == 0,
            match selected {
                Some(x) => if found {
                    position_of(ids, x@) == Some(selected_idx as nat)
                } else {
                    forall|j: int| 0 <= j < i ==> ids[j] != x@
                },
                None => !found,
            },
        decreases rows@.len() - i,
    {
        if !found {
            if opt_str_eq(selected, rows[i].entry_id.as_str()) {
                proof {
                    let x = selected->0;
                    lemma_position_of(ids, x@);
                    match position_of(ids, x@) {
                        Some(k) => {
                            if (k as int) < (i as int) {
                                assert(ids[k as int] == x@);
                            } else if (k as int) > (i as int) {
                                assert(ids[i as int] == x@);
                            }
                        },
                        None => {
                            assert(ids[i as int] == x@);
                        },
                    }
                }
                selected_idx = i;
                found = true;
            }
        }
        i = i + 1;
    }
    proof {
        match selected {
            Some(x) => {
                if !found {
                    lemma_position_of(ids, x@);
                    assert(position_of(ids, x@) is None) by {
                        match position_of(ids, x@) {
                            Some(k) => {
                                assert(ids[k as int] == x@);
                            },
                            None => {},
                        }
                    }
                }
            },
            None => {},
        }
        lemma_row_has_entry(entries, selected_idx as int);
        crate::dashboard::lemma_first_entry_index_spec(entries, ids[selected_idx as int]);
    }
    let row_id = rows[selected_idx].entry_id.as_str();
    assert(row_id@ == ids[selected_idx as int]);
    match state.entry(row_id) {
        Some(entry) => {
            let (a, b) = dashboard_entry_lines(entry, selected_idx, true, width);
            push_line(&mut lines, a);
            push_line(&mut lines, b);
            assert(vlines(lines@) =~= compact_lines_spec(entries, state.selected_index(), width as nat));
        },
        None => {},
    }
    lines
}

/// The number of suggestion lines shown: at most eight, and none past `max_lines` counting the
/// prompt line.
pub open spec fn shown_suggestions(count: nat, max_lines: nat) -> nat {
    let n = if count < 8 {
        count
    } else {
        8
    };
    if max_lines <= 1 {
        0
    } else if n < (max_lines - 1) as nat {
        n
    } else {
        (max_lines - 1) as nat
    }
}

/// The suggestion lines, marking the selected one with `›`.
pub open spec fn suggestion_lines(sugg: Seq<PathSuggestion>, selected: nat, width: nat, n: nat) -> Seq<VLine>
    decreases n,
{
    if n == 0 {
        Seq::empty()
    } else {
        suggestion_lines(sugg, selected, width, (n - 1) as nat).push(
            mk(
                fit_width_spec(
                    seq![' ', ' '] + (if (n - 1) as nat == selected {
                        "›"@
                    } else {
                        seq![' ']
                    }) + seq![' '] + sugg[n - 1].display@,
                    width,
                ),
                false,
                true,
            ),
        )
    }
}

/// The lines below the shelf: the prompt with its suggestions, then the error, cut to
/// `max_lines`; and the prompt cursor (after the prompt text, on the first of these lines).
pub open spec fn aux_lines_spec(
    width: nat,
    prompt: Option<Seq<char>>,
    sugg: Option<Seq<PathSuggestion>>,
    selected: nat,
    error: Option<Seq<char>>,
    max_lines: nat,
) -> (Seq<VLine>, Option<(u16, u16)>) {
    if max_lines == 0 {
        (Seq::empty(), None)
    } else {
        let (l1, cursor) = match prompt {
            Some(p) => {
                let pt = fit_width_spec("打开: "@ + p, width);
                let sl = match sugg {
                    Some(s) => suggestion_lines(s, selected, width, shown_suggestions(s.len(), max_lines)),
                    None => Seq::empty(),
                };
                (seq![mk(pt, false, false)] + sl, Some((unicode_str_width(pt) as u16, 0u16)))
            },
            None => (Seq::<VLine>::empty(), None),
        };
        let l2 = match error {
            Some(e) => if l1.len() < max_lines {
                l1.push(mk(fit_width_spec("错误: "@ + e, width), false, false))
            } else {
                l1
            },
            None => l1,
        };
        (if l2.len() <= max_lines {
            l2
        } else {
            l2.take(max_lines as int)
        }, cursor)
    }
}

/// The prompt, suggestion and error lines, within `max_lines`.
pub fn dashboard_aux_lines(
    width: usize,
    prompt: Option<&str>,
    suggestions: Option<&[PathSuggestion]>,
    selected_suggestion: usize,
    error: Option<&str>,
    max_lines: usize,
) -> (res: (Vec<DashboardVisualLine>, Option<(u16, u16)>))
    ensures
        (vlines(res.0@), res.1) == aux_lines_spec(
            width as nat,
            match prompt {
                Some(p) => Some(p@),
                None => None,
            },
            match suggestions {
                Some(s) => Some(s@),
                None => None,
            },
            selected_suggestion as nat,
            match error {
                Some(e) => Some(e@),
                None => None,
            },
            max_lines as nat,
        ),
{
    if max_lines == 0 {
        return (Vec::new(), None);
    }
    let mut lines: Vec<DashboardVisualLine> = Vec::new();
    let mut prompt_cursor: Option<(u16, u16)> = None;
    let ghost p_view = match prompt {
        Some(p) => Some(p@),
        None => None,
    };
    if let Some(p) = prompt {
        let mut t = owned("打开: ");
        push_str(&mut t, p);
        let prompt_text = fit_width(t.as_str(), width);
        let col = display_width(prompt_text.as_str()) as u16;
        push_line(&mut lines, line(prompt_text, false, false));
        prompt_cursor = Some((col, 0));
        if let Some(sugg) = suggestions {
            let ghost base = vlines(lines@);
            let limit: usize = if sugg.len() < 8 {
                sugg.len()
            } else {
                8
            };
            let mut idx: usize = 0;
            while idx < limit
                invariant
                    idx <= limit,
                    limit <= sugg@.len(),
                    limit == (if sugg@.len() < 8 { sugg@.len() } else { 8 }),
                    max_lines > 0,
                    lines@.len() == 1 + idx,
                    idx < max_lines,
                    vlines(lines@) == base + suggestion_lines(sugg@, selected_suggestion as nat, width as nat, idx as nat),
                    base.len() == 1,
                ensures
                    vlines(lines@) == base + suggestion_lines(
                        sugg@,
                        selected_suggestion as nat,
                        width as nat,
                        shown_suggestions(sugg@.len(), max_lines as nat),
                    ),
                    lines@.len() == 1 + shown_suggestions(sugg@.len(), max_lines as nat),
                decreases limit - idx,
            {
                if lines.len() >= max_lines {
                    break;
                }
                let mut t = owned("  ");
                if idx == selected_suggestion {
                    push_str(&mut t, "›");
                } else {
                    push_char(&mut t, ' ');
                }
                push_char(&mut t, ' ');
                push_str(&mut t, sugg[idx].display.as_str());
                proof {
                    reveal_strlit("  ");
                }
                assert(t@ =~= seq![' ', ' '] + (if idx as nat == selected_suggestion as nat {
                    "›"@
                } else {
                    seq![' ']
                }) + seq![' '] + sugg@[idx as int].display@);
                let ghost before = vlines(lines@);
                push_line(&mut lines, line(fit_width(t.as_str(), width), false, true));
                idx = idx + 1;
                assert(vlines(lines@) =~= base + suggestion_lines(
                    sugg@,
                    selected_suggestion as nat,
                    width as nat,
                    idx as nat,
                ));
                if idx >= max_lines {
                    break;
                }
            }
        }
    }
    if let Some(e) = error {
        if lines.len() < max_lines {
            let mut t = owned("错误: ");
            push_str(&mut t, e);
            push_line(&mut lines, line(fit_width(t.as_str(), width), false, false));
        }
    }
    let ghost full = vlines(lines@);
    if lines.len() > max_lines {
        lines.truncate(max_lines);
        assert(vlines(lines@) =~= full.take(max_lines as int));
    }
    (lines, prompt_cursor)
}

/// The message shown when the terminal is too short for the dashboard.
pub open spec fn too_small_message() -> Seq<char> {
    "终端高度太小，请调高后再查看 Dashboard。"@
}

/// The dashboard screen for a terminal of `width` by `height`: below three rows a single
/// message; the full layout and everything below it when they fit; otherwise title and rule
/// (when there is no prompt or error and at least five rows), then the compact layout, cut to
/// the height, and the prompt, suggestions and error in the rows left.
pub open spec fn render_plan_spec(
    entries: Seq<DEntry>,
    selected: nat,
    width: nat,
    height: nat,
    prompt: Option<Seq<char>>,
    sugg: Option<Seq<PathSuggestion>>,
    selected_suggestion: nat,
    error: Option<Seq<char>>,
) -> (Seq<VLine>, Option<(u16, u16)>) {
    let w = if width < 40 {
        40
    } else {
        width
    };
    if height < 3 {
        (seq![mk(fit_width_spec(too_small_message(), w), false, true)], None)
    } else {
        let full = visual_lines_spec(entries, selected, w);
        let aux = aux_lines_spec(w, prompt, sugg, selected_suggestion, error, usize::MAX as nat);
        if full.len() + aux.0.len() <= height {
            (full + aux.0, match aux.1 {
                Some((c, r)) => Some((c, (r + (full.len() as u16)) as u16)),
                None => None,
            })
        } else {
            compact_plan_spec(entries, selected, w, height, prompt, sugg, selected_suggestion, error)
        }
    }
}

/// The screen when the full layout does not fit: title and rule (when there is no prompt or
/// error and at least five rows), then the compact layout, cut to the height, and the prompt,
/// suggestions and error in the rows left.
pub open spec fn compact_plan_spec(
    entries: Seq<DEntry>,
    selected: nat,
    w: nat,
    height: nat,
    prompt: Option<Seq<char>>,
    sugg: Option<Seq<PathSuggestion>>,
    selected_suggestion: nat,
    error: Option<Seq<char>>,
) -> (Seq<VLine>, Option<(u16, u16)>) {
    let head = if prompt is None && error is None && height >= 5 {
        seq![mk("tread"@, false, false), mk(rule(w), false, true)]
    } else {
        Seq::empty()
    };
    let all = head + compact_lines_spec(entries, selected, w);
    let top = if all.len() <= height {
        all
    } else {
        all.take(height as int)
    };
    let rest = aux_lines_spec(w, prompt, sugg, selected_suggestion, error, (height - top.len()) as nat);
    (top + rest.0, match rest.1 {
        Some((c, r)) => Some((c, (r + (top.len() as u16)) as u16)),
        None => None,
    })
}

/// The compact screen, for a terminal too short for the full layout.
#[verifier::rlimit(50)]
#[verifier::spinoff_prover]
fn compact_plan(
    state: &DashboardState,
    width: usize,
    h: usize,
    prompt: Option<&str>,
    suggestions: Option<&[PathSuggestion]>,
    selected_suggestion: usize,
    error: Option<&str>,
) -> (res: DashboardRenderPlan)
    requires
        width >= 40,
        h >= 3,
    ensures
        (vlines(res.lines@), res.prompt_cursor) == compact_plan_spec(
            state.entries_view(),
            state.selected_index(),
            width as nat,
            h as nat,
            match prompt {
                Some(p) => Some(p@),
                None => None,
            },
            match suggestions {
                Some(s) => Some(s@),
                None => None,
            },
            selected_suggestion as nat,
            match error {
                Some(e) => Some(e@),
                None => None,
            },
        ),
{
    let mut lines: Vec<DashboardVisualLine> = Vec::new();
    if prompt.is_none() && error.is_none() && h >= 5 {
        push_line(&mut lines, line(owned("tread"), false, false));
        push_line(&mut lines, line(repeat_string('─', width), false, true));
    }
    append_lines(&mut lines, dashboard_compact_recent_lines(state, width));
    let ghost all = vlines(lines@);
    if lines.len() > h {
        lines.truncate(h);
        assert(vlines(lines@) =~= all.take(h as int));
    }
    let remaining = h - lines.len();
    let (aux, cursor) = dashboard_aux_lines(width, prompt, suggestions, selected_suggestion, error, remaining);
    let n = lines.len() as u16;
    let cursor = match cursor {
        Some((c, r)) => Some((c, r.wrapping_add(n))),
        None => None,
    };
    append_lines(&mut lines, aux);
    DashboardRenderPlan { lines, prompt_cursor: cursor }
}

/// Lays out the dashboard screen.
#[verifier::rlimit(50)]
#[verifier::spinoff_prover]
pub fn dashboard_render_plan(
    state: &DashboardState,
    width: usize,
    height: u16,
    prompt: Option<&str>,
    suggestions: Option<&[PathSuggestion]>,
    selected_suggestion: usize,
    error: Option<&str>,
) -> (res: DashboardRenderPlan)
    ensures
        (vlines(res.lines@), res.prompt_cursor) == render_plan_spec(
            state.entries_view(),
            state.selected_index(),
            width as nat,
            height as nat,
            match prompt {
                Some(p) => Some(p@),
                None => None,
            },
            match suggestions {
                Some(s) => Some(s@),
                None => None,
            },
            selected_suggestion as nat,
            match error {
                Some(e) => Some(e@),
                None => None,
            },
        ),
{
    let width = if width < 40 {
        40
    } else {
        width
    };
    let h = height as usize;
    if h < 3 {
        let mut lines: Vec<DashboardVisualLine> = Vec::new();
        push_line(&mut lines, line(fit_width("终端高度太小，请调高后再查看 Dashboard。", width), false, true));
        return DashboardRenderPlan { lines, prompt_cursor: None };
    }
    let full_lines = dashboard_visual_lines(state, width);
    let (full_aux, full_cursor) = dashboard_aux_lines(
        width,
        prompt,
        suggestions,
        selected_suggestion,
        error,
        usize::MAX,
    );
    if full_lines.len() as u128 + full_aux.len() as u128 <= h as u128 {
        let n = full_lines.len() as u16;
        let cursor = match full_cursor {
            Some((c, r)) => Some((c, r.wrapping_add(n))),
            None => None,
        };
        let mut lines = full_lines;
        append_lines(&mut lines, full_aux);
        return DashboardRenderPlan { lines, prompt_cursor: cursor };
    }
    compact_plan(state, width, h, prompt, suggestions, selected_suggestion, error)
}

proof fn lemma_aux_lines_within(
    width: nat,
    prompt: Option<Seq<char>>,
    sugg: Option<Seq<PathSuggestion>>,
    selected: nat,
    error: Option<Seq<char>>,
    max_lines: nat,
)
    ensures
        aux_lines_spec(width, prompt, sugg, selected, error, max_lines).0.len() <= max_lines,
{
}

/// The dashboard screen never has more lines than the terminal has rows; below three rows
/// it is the one message line.
pub proof fn lemma_render_plan_fits_height(
    entries: Seq<DEntry>,
    selected: nat,
    width: nat,
    height: nat,
    prompt: Option<Seq<char>>,
    sugg: Option<Seq<PathSuggestion>>,
    selected_suggestion: nat,
    error: Option<Seq<char>>,
)
    ensures
        render_plan_spec(entries, selected, width, height, prompt, sugg, selected_suggestion, error).0.len()
            <= if height < 3 {
            1
        } else {
            height
        },
{
    let w = if width < 40 {
        40
    } else {
        width
    };
    if height >= 3 {
        let full = visual_lines_spec(entries, selected, w);
        let aux = aux_lines_spec(w, prompt, sugg, selected_suggestion, error, usize::MAX as nat);
        if full.len() + aux.0.len() > height {
            let head = if prompt is None && error is None && height >= 5 {
                seq![mk("tread"@, false, false), mk(rule(w), false, true)]
            } else {
                Seq::empty()
            };
            let all = head + compact_lines_spec(entries, selected, w);
            let top = if all.len() <= height {
                all
            } else {
                all.take(height as int)
            };
            lemma_aux_lines_within(w, prompt, sugg, selected_suggestion, error, (height - top.len()) as nat);
        }
    }
}

/// On a terminal of at least three rows too short for the full layout, the recent-reading
/// area (its section line and the selected row, or the two hints) is shown whole, right after
/// the title and rule when those are shown; what gives way is the prompt, suggestions and error.
pub proof fn lemma_compact_keeps_recent_area(
    entries: Seq<DEntry>,
    selected: nat,
    width: nat,
    height: nat,
    prompt: Option<Seq<char>>,
    sugg: Option<Seq<PathSuggestion>>,
    selected_suggestion: nat,
    error: Option<Seq<char>>,
)
    requires
        height >= 3,
        ({
            let w = if width < 40 {
                40
            } else {
                width
            };
            visual_lines_spec(entries, selected, w).len() + aux_lines_spec(
                w,
                prompt,
                sugg,
                selected_suggestion,
                error,
                usize::MAX as nat,
            ).0.len() > height
        }),
    ensures
        ({
            let w = if width < 40 {
                40
            } else {
                width
            };
            let k: int = if prompt is None && error is None && height >= 5 {
                2
            } else {
                0
            };
            let area = compact_lines_spec(entries, selected, w);
            let plan = render_plan_spec(entries, selected, width, height, prompt, sugg, selected_suggestion, error).0;
            &&& area.len() == 3
            &&& k + 3 <= plan.len()
            &&& plan.subrange(k, k + 3) == area
        }),
{
    let w = if width < 40 {
        40
    } else {
        width
    };
    let head = if prompt is None && error is None && height >= 5 {
        seq![mk("tread"@, false, false), mk(rule(w), false, true)]
    } else {
        Seq::empty()
    };
    let area = compact_lines_spec(entries, selected, w);
    assert(area.len() == 3);
    let all = head + area;
    assert(all.len() <= height);
    let rest = aux_lines_spec(w, prompt, sugg, selected_suggestion, error, (height - all.len()) as nat);
    let plan = render_plan_spec(entries, selected, width, height, prompt, sugg, selected_suggestion, error).0;
    assert(plan == all + rest.0);
    assert(plan.subrange(head.len() as int, head.len() as int + 3) =~= area);
}

} // verus!
