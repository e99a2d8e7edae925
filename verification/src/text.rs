//! Character-level text utilities: building strings, whitespace, trimming,
//! prefix tests, decimal formatting and terminal display widths.
use vstd::prelude::*;

verus! {

// ───────────────────────────── strings and characters ─────────────────────────────

/// The characters of `s`, in order.
pub fn chars_of(s: &str) -> (res: Vec<char>)
    ensures
        res@ == s@,
{
    let mut res: Vec<char> = Vec::new();
    for c in it: s.chars()
        invariant
            res@ == it.seq().take(it.index()),
            it.seq() == s@,
    {
        res.push(c);
    }
    res
}

/// Appends one character (`String::push`).
#[verifier::external_body]
pub(crate) fn push_char(s: &mut String, c: char)
    ensures
        final(s)@ == old(s)@.push(c),
{
    s.push(c);
}

/// Appends a string slice.
pub fn push_str(s: &mut String, t: &str)
    ensures
        final(s)@ == old(s)@ + t@,
{
    s.append(t);
}

/// A fresh `String` holding the characters `v[from..to]`.
pub fn string_from_range(v: &Vec<char>, from: usize, to: usize) -> (res: String)
    requires
        from <= to <= v@.len(),
    ensures
        res@ == v@.subrange(from as int, to as int),
{
    let mut res = String::new();
    let mut i = from;
    while i < to
        invariant
            from <= i <= to <= v@.len(),
            res@ == v@.subrange(from as int, i as int),
        decreases to - i,
    {
        push_char(&mut res, v[i]);
        i = i + 1;
    }
    res
}

/// A fresh `String` holding all characters of `v`.
pub fn string_from_chars(v: &Vec<char>) -> (res: String)
    ensures
        res@ == v@,
{
    let r = string_from_range(v, 0, v.len());
    assert(v@.subrange(0, v@.len() as int) =~= v@);
    r
}

/// A copy of `s` as an owned `String`.
pub fn owned(s: &str) -> (res: String)
    ensures
        res@ == s@,
{
    s.to_owned()
}

/// Whether two string slices hold the same characters (`str == str`).
#[verifier::external_body]
pub(crate) fn str_eq(a: &str, b: &str) -> (res: bool)
    ensures
        res == (a@ == b@),
{
    a == b
}

/// `n` copies of the character `c`.
pub open spec fn repeat_char(c: char, n: nat) -> Seq<char> {
    Seq::new(n, |i: int| c)
}

/// A string of `n` copies of `c`.
pub fn repeat_string(c: char, n: usize) -> (res: String)
    ensures
        res@ == repeat_char(c, n as nat),
{
    let mut res = String::new();
    let mut i: usize = 0;
    while i < n
        invariant
            i <= n,
            res@ == repeat_char(c, i as nat),
        decreases n - i,
    {
        push_char(&mut res, c);
        i = i + 1;
        assert(res@ =~= repeat_char(c, i as nat));
    }
    res
}

// ───────────────────────────── prefixes and suffixes ─────────────────────────────

/// `p` is a prefix of `s`.
pub open spec fn has_prefix(s: Seq<char>, p: Seq<char>) -> bool {
    p.len() <= s.len() && s.subrange(0, p.len() as int) == p
}

/// `p` is a suffix of `s`.
pub open spec fn has_suffix(s: Seq<char>, p: Seq<char>) -> bool {
    p.len() <= s.len() && s.subrange(s.len() - p.len(), s.len() as int) == p
}

/// Whether `s` starts with `p` (`str::starts_with`).
pub fn starts_with(s: &str, p: &str) -> (res: bool)
    ensures
        res == has_prefix(s@, p@),
{
    let sv = chars_of(s);
    let pv = chars_of(p);
    assert(sv@.subrange(0, sv@.len() as int) =~= sv@);
    seq_starts_with(&sv, 0, &pv)
}

/// Whether `v[at..]` starts with `p`.
pub fn seq_starts_with(v: &Vec<char>, at: usize, p: &Vec<char>) -> (res: bool)
    requires
        at <= v@.len(),
    ensures
        res == has_prefix(v@.subrange(at as int, v@.len() as int), p@),
{
    let ghost rest = v@.subrange(at as int, v@.len() as int);
    if p.len() > v.len() - at {
        return false;
    }
    let mut i: usize = 0;
    while i < p.len()
        invariant
            i <= p@.len(),
            p@.len() <= v@.len() - at,
            at + p@.len() <= v@.len(),
            at <= v@.len(),
            rest == v@.subrange(at as int, v@.len() as int),
            forall|k: int| 0 <= k < i ==> v@[at + k] == p@[k],
        decreases p@.len() - i,
    {
        assert(at + i < v.len());
        let k: usize = at + i;
        if v[k] != p[i] {
            assert(rest.subrange(0, p@.len() as int)[i as int] != p@[i as int]);
            return false;
        }
        i = i + 1;
    }
    assert(rest.subrange(0, p@.len() as int) =~= p@);
    true
}

/// Whether `s` ends with `p` (`str::ends_with`).
pub fn ends_with(s: &str, p: &str) -> (res: bool)
    ensures
        res == has_suffix(s@, p@),
{
    let sv = chars_of(s);
    let pv = chars_of(p);
    if pv.len() > sv.len() {
        return false;
    }
    let r = seq_starts_with(&sv, sv.len() - pv.len(), &pv);
    assert(sv@.subrange(sv@.len() - pv@.len(), sv@.len() as int).subrange(0, pv@.len() as int)
        =~= sv@.subrange(sv@.len() - pv@.len(), sv@.len() as int));
    r
}

/// Index of the first `c` in `v[from..]`, searching from `from`.
pub fn find_char(v: &Vec<char>, from: usize, c: char) -> (res: Option<usize>)
    requires
        from <= v@.len(),
    ensures
        match res {
            Some(i) => from <= i < v@.len() && v@[i as int] == c && forall|j: int|
                from <= j < i ==> v@[j] != c,
            None => forall|j: int| from <= j < v@.len() ==> v@[j] != c,
        },
{
    let mut i = from;
    while i < v.len()
        invariant
            from <= i <= v@.len(),
            forall|j: int| from <= j < i ==> v@[j] != c,
        decreases v@.len() - i,
    {
        if v[i] == c {
            return Some(i);
        }
        i = i + 1;
    }
    None
}

/// Index of the last `c` in `v[..to]`.
pub fn rfind_char(v: &Vec<char>, to: usize, c: char) -> (res: Option<usize>)
    requires
        to <= v@.len(),
    ensures
        match res {
            Some(i) => i < to && v@[i as int] == c && forall|j: int| i < j < to ==> v@[j] != c,
            None => forall|j: int| 0 <= j < to ==> v@[j] != c,
        },
{
    let mut i = to;
    while i > 0
        invariant
            i <= to <= v@.len(),
            forall|j: int| i <= j < to ==> v@[j] != c,
        decreases i,
    {
        if v[i - 1] == c {
            return Some(i - 1);
        }
        i = i - 1;
    }
    None
}

// ───────────────────────────── whitespace and trimming ─────────────────────────────

/// Unicode `White_Space`, as `char::is_whitespace` documents it.
pub open spec fn is_ws(c: char) -> bool {
    ||| ('\u{9}' <= c && c <= '\u{d}')
    ||| c == ' '
    ||| c == '\u{85}'
    ||| c == '\u{a0}'
    ||| c == '\u{1680}'
    ||| ('\u{2000}' <= c && c <= '\u{200a}')
    ||| c == '\u{2028}'
    ||| c == '\u{2029}'
    ||| c == '\u{202f}'
    ||| c == '\u{205f}'
    ||| c == '\u{3000}'
}

/// `char::is_whitespace`.
pub fn is_whitespace(c: char) -> (res: bool)
    ensures
        res == is_ws(c),
{
    ('\u{9}' <= c && c <= '\u{d}') || c == ' ' || c == '\u{85}' || c == '\u{a0}' || c == '\u{1680}'
        || ('\u{2000}' <= c && c <= '\u{200a}') || c == '\u{2028}' || c == '\u{2029}' || c
        == '\u{202f}' || c == '\u{205f}' || c == '\u{3000}'
}

/// Number of leading whitespace characters of `s`.
pub open spec fn lead_ws(s: Seq<char>) -> nat
    decreases s.len(),
{
    if s.len() > 0 && is_ws(s[0]) {
        1 + lead_ws(s.drop_first())
    } else {
        0
    }
}

/// Number of trailing whitespace characters of `s`.
pub open spec fn trail_ws(s: Seq<char>) -> nat
    decreases s.len(),
{
    if s.len() > 0 && is_ws(s.last()) {
        1 + trail_ws(s.drop_last())
    } else {
        0
    }
}

/// `s` without leading whitespace.
pub open spec fn trim_start(s: Seq<char>) -> Seq<char> {
    s.subrange(lead_ws(s) as int, s.len() as int)
}

/// `s` without trailing whitespace.
pub open spec fn trim_end(s: Seq<char>) -> Seq<char> {
    s.subrange(0, s.len() - trail_ws(s))
}

/// `s` without leading and trailing whitespace (`str::trim`).
pub open spec fn trim(s: Seq<char>) -> Seq<char> {
    trim_end(trim_start(s))
}

pub proof fn lemma_lead_ws_bound(s: Seq<char>)
    ensures
        lead_ws(s) <= s.len(),
        forall|k: int| 0 <= k < lead_ws(s) ==> is_ws(s[k]),
        lead_ws(s) < s.len() ==> !is_ws(s[lead_ws(s) as int]),
    decreases s.len(),
{
    if s.len() > 0 && is_ws(s[0]) {
        lemma_lead_ws_bound(s.drop_first());
        assert forall|k: int| 0 <= k < lead_ws(s) implies is_ws(s[k]) by {
            if k > 0 {
                assert(s[k] == s.drop_first()[k - 1]);
            }
        }
    }
}

/// `lead_ws` is determined by the first non-whitespace position.
pub proof fn lemma_lead_ws_is(s: Seq<char>, i: int)
    requires
        0 <= i <= s.len(),
        forall|k: int| 0 <= k < i ==> is_ws(s[k]),
        i == s.len() || !is_ws(s[i]),
    ensures
        lead_ws(s) == i,
    decreases i,
{
    if i > 0 {
        lemma_lead_ws_is(s.drop_first(), i - 1);
    }
}

/// `trail_ws` is determined by the last non-whitespace position.
pub proof fn lemma_trail_ws_is(s: Seq<char>, j: int)
    requires
        0 <= j <= s.len(),
        forall|k: int| j <= k < s.len() ==> is_ws(s[k]),
        j == 0 || !is_ws(s[j - 1]),
    ensures
        trail_ws(s) == s.len() - j,
    decreases s.len() - j,
{
    if j < s.len() {
        lemma_trail_ws_is(s.drop_last(), j);
    }
}

/// Bounds `[a, b)` of `trim(v[from..to])` inside `v`.
pub fn trim_bounds(v: &Vec<char>, from: usize, to: usize) -> (res: (usize, usize))
    requires
        from <= to <= v@.len(),
    ensures
        from <= res.0 <= res.1 <= to,
        v@.subrange(res.0 as int, res.1 as int) == trim(v@.subrange(from as int, to as int)),
{
    let ghost s = v@.subrange(from as int, to as int);
    let mut a = from;
    while a < to && is_whitespace(v[a])
        invariant
            from <= a <= to <= v@.len(),
            forall|k: int| from <= k < a ==> is_ws(v@[k]),
        decreases to - a,
    {
        a = a + 1;
    }
    proof {
        lemma_lead_ws_is(s, a - from);
    }
    let ghost t = s.subrange(lead_ws(s) as int, s.len() as int);
    let mut b = to;
    while b > a && is_whitespace(v[b - 1])
        invariant
            a <= b <= to <= v@.len(),
            forall|k: int| b <= k < to ==> is_ws(v@[k]),
        decreases b - a,
    {
        b = b - 1;
    }
    proof {
        assert(t =~= v@.subrange(a as int, to as int));
        lemma_trail_ws_is(t, b - a);
        assert(v@.subrange(a as int, b as int) =~= trim(s));
    }
    (a, b)
}

/// `str::trim`, as an owned string.
pub fn trim_string(s: &str) -> (res: String)
    ensures
        res@ == trim(s@),
{
    let v = chars_of(s);
    let (a, b) = trim_bounds(&v, 0, v.len());
    assert(v@.subrange(0, v@.len() as int) =~= v@);
    string_from_range(&v, a, b)
}

/// Whether `s` consists of whitespace only (`s.trim().is_empty()`).
pub fn is_blank(s: &str) -> (res: bool)
    ensures
        res == (trim(s@).len() == 0),
{
    let v = chars_of(s);
    let (a, b) = trim_bounds(&v, 0, v.len());
    assert(v@.subrange(0, v@.len() as int) =~= v@);
    a == b
}

// ───────────────────────────── decimal numbers ─────────────────────────────

/// The ASCII digit for `d < 10`.
pub open spec fn digit_char(d: nat) -> char {
    if d == 0 {
        '0'
    } else if d == 1 {
        '1'
    } else if d == 2 {
        '2'
    } else if d == 3 {
        '3'
    } else if d == 4 {
        '4'
    } else if d == 5 {
        '5'
    } else if d == 6 {
        '6'
    } else if d == 7 {
        '7'
    } else if d == 8 {
        '8'
    } else {
        '9'
    }
}

/// Decimal representation of `n`, without leading zeros.
pub open spec fn decimal(n: nat) -> Seq<char>
    decreases n,
{
    if n < 10 {
        seq![digit_char(n)]
    } else {
        decimal(n / 10).push(digit_char(n % 10))
    }
}

/// The digit character for `d < 10`.
pub fn digit(d: u64) -> (c: char)
    requires
        d < 10,
    ensures
        c == digit_char(d as nat),
{
    if d == 0 {
        '0'
    } else if d == 1 {
        '1'
    } else if d == 2 {
        '2'
    } else if d == 3 {
        '3'
    } else if d == 4 {
        '4'
    } else if d == 5 {
        '5'
    } else if d == 6 {
        '6'
    } else if d == 7 {
        '7'
    } else if d == 8 {
        '8'
    } else {
        '9'
    }
}

/// Appends the decimal representation of `n`.
pub fn push_decimal(s: &mut String, n: u64)
    ensures
        final(s)@ == old(s)@ + decimal(n as nat),
    decreases n,
{
    if n < 10 {
        push_char(s, digit(n));
        assert(decimal(n as nat) =~= seq![digit_char(n as nat)]);
    } else {
        push_decimal(s, n / 10);
        push_char(s, digit(n % 10));
        assert(decimal(n as nat) == decimal((n / 10) as nat).push(digit_char((n % 10) as nat)));
    }
}

/// Appends the decimal representation of a `u128`.
pub fn push_decimal_wide(s: &mut String, n: u128)
    ensures
        final(s)@ == old(s)@ + decimal(n as nat),
    decreases n,
{
    if n < 10 {
        push_char(s, digit(n as u64));
        assert(decimal(n as nat) =~= seq![digit_char(n as nat)]);
    } else {
        push_decimal_wide(s, n / 10);
        push_char(s, digit((n % 10) as u64));
        assert(decimal(n as nat) == decimal((n / 10) as nat).push(digit_char((n % 10) as nat)));
    }
}

/// Decimal formatting of a `u64` (`n.to_string()`).
pub fn u64_to_string(n: u64) -> (res: String)
    ensures
        res@ == decimal(n as nat),
{
    let mut s = String::new();
    push_decimal(&mut s, n);
    assert(s@ =~= decimal(n as nat));
    s
}

/// Decimal formatting of a signed integer, with a leading `-` when negative.
pub open spec fn signed_decimal(n: int) -> Seq<char> {
    if n < 0 {
        seq!['-'] + decimal((-n) as nat)
    } else {
        decimal(n as nat)
    }
}

/// `s` padded on the left with spaces to at least `w` characters (`{:>w}`).
pub open spec fn pad_left(s: Seq<char>, w: nat) -> Seq<char> {
    if s.len() >= w {
        s
    } else {
        repeat_char(' ', (w - s.len()) as nat) + s
    }
}

/// `s` padded on the right with spaces to at least `w` characters (`{:<w}`).
pub open spec fn pad_right(s: Seq<char>, w: nat) -> Seq<char> {
    if s.len() >= w {
        s
    } else {
        s + repeat_char(' ', (w - s.len()) as nat)
    }
}

/// `s` padded on the left with zeros to at least `w` characters (`{:0w}` of a non-negative number).
pub open spec fn zero_pad(s: Seq<char>, w: nat) -> Seq<char> {
    if s.len() >= w {
        s
    } else {
        repeat_char('0', (w - s.len()) as nat) + s
    }
}

/// Appends `n` in decimal, padded on the left with zeros to at least `w` digits.
pub fn push_zero_padded(s: &mut String, n: u64, w: usize)
    ensures
        final(s)@ == old(s)@ + zero_pad(decimal(n as nat), w as nat),
{
    let digits = u64_to_string(n);
    let len = chars_of(digits.as_str()).len();
    let ghost before = s@;
    if len < w {
        let zeros = repeat_string('0', w - len);
        push_str(s, zeros.as_str());
    }
    push_str(s, digits.as_str());
    assert(s@ =~= before + zero_pad(decimal(n as nat), w as nat));
}

pub proof fn lemma_decimal_len(n: nat)
    ensures
        decimal(n).len() >= 1,
        n < 10 ==> decimal(n).len() == 1,
        10 <= n < 100 ==> decimal(n).len() == 2,
        n >= 100 ==> decimal(n).len() >= 3,
    decreases n,
{
    if n >= 10 {
        lemma_decimal_len(n / 10);
    }
}

// ───────────────────────────── display widths ─────────────────────────────

/// The width the `unicode-width` tables give a character from U+00A0 on.
pub uninterp spec fn unicode_table_width(c: char) -> usize;

/// Display width of a character in terminal columns, as the `unicode-width` crate computes it:
/// `None` for the control characters below U+0020 and from U+007F to U+009F, one column for
/// the rest of ASCII, and the width its tables give from U+00A0 on.
#[verifier::opaque]
pub open spec fn unicode_char_width(c: char) -> Option<usize> {
    if (c as u32) < 0x20 {
        None
    } else if (c as u32) < 0x7f {
        Some(1)
    } else if (c as u32) < 0xa0 {
        None
    } else {
        Some(unicode_table_width(c))
    }
}

/// Display width of a string in terminal columns, as the `unicode-width` crate computes it.
pub uninterp spec fn unicode_str_width(s: Seq<char>) -> usize;

/// Printable ASCII characters take one column each, control characters none.
pub proof fn lemma_ascii_width(c: char)
    ensures
        0x20 <= (c as u32) < 0x7f ==> unicode_char_width(c) == Some(1usize),
        (c as u32) < 0x20 || (0x7f <= (c as u32) < 0xa0) ==> unicode_char_width(c) is None,
{
    reveal(unicode_char_width);
}

/// Width of one character (`UnicodeWidthChar::width`, which is `single_char_width` in the
/// crate's source). The contract claims that the result is the crate's width of `c`: `None`
/// for control characters, one column for printable ASCII, the table's width from U+00A0 on,
/// and at most 3 columns (its tables hold no wider character).
#[verifier::external_body]
pub(crate) fn char_width(c: char) -> (res: Option<usize>)
    ensures
        res == unicode_char_width(c),
        (c as u32) >= 0xa0 ==> res == Some(unicode_table_width(c)),
        res matches Some(w) ==> w <= 3,
{
    unicode_width::UnicodeWidthChar::width(c)
}

/// Width of a string (`UnicodeWidthStr::width`). The contract claims only that the result is
/// the crate's width of `text`; how that width relates to the widths of the characters is not
/// stated (the crate treats emoji sequences and some ligatures as wholes).
#[verifier::external_body]
pub(crate) fn display_width(text: &str) -> (res: usize)
    ensures
        res == unicode_str_width(text@),
{
    unicode_width::UnicodeWidthStr::width(text)
}

/// Width of a character with control characters counted as zero columns.
pub open spec fn char_cols(c: char) -> nat {
    match unicode_char_width(c) {
        Some(w) => w as nat,
        None => 0,
    }
}

/// Number of leading characters of `s` kept when filling at most `budget` columns,
/// stopping at the first character that no longer fits.
pub open spec fn fitting_prefix_len(s: Seq<char>, budget: nat) -> nat
    decreases s.len(),
{
    if s.len() == 0 || char_cols(s[0]) > budget {
        0
    } else {
        1 + fitting_prefix_len(s.drop_first(), (budget - char_cols(s[0])) as nat)
    }
}

/// The ellipsis character used when text is cut.
pub open spec fn ellipsis() -> Seq<char> {
    seq!['…']
}

/// `text` cut to at most `width` columns, ending with `…` when cut.
pub open spec fn fit_width_spec(text: Seq<char>, width: nat) -> Seq<char> {
    let ew = unicode_str_width(ellipsis());
    if unicode_str_width(text) <= width {
        text
    } else if width == 0 {
        Seq::empty()
    } else if width <= ew {
        ellipsis()
    } else {
        text.subrange(0, fitting_prefix_len(text, (width - ew) as nat) as int) + ellipsis()
    }
}

proof fn lemma_fitting_step(s: Seq<char>, i: int, used: nat, budget: nat)
    requires
        0 <= i < s.len(),
        used + char_cols(s[i]) <= budget,
        fitting_prefix_len(s.subrange(i, s.len() as int), (budget - used) as nat) + i
            == fitting_prefix_len(s, budget),
    ensures
        fitting_prefix_len(s.subrange(i + 1, s.len() as int), (budget - used - char_cols(s[i])) as nat)
            + i + 1 == fitting_prefix_len(s, budget),
{
    let t = s.subrange(i, s.len() as int);
    assert(t[0] == s[i]);
    assert(t.drop_first() =~= s.subrange(i + 1, s.len() as int));
}

/// `text` cut to `width` display columns with a trailing `…` when it does not fit.
pub fn fit_width(text: &str, width: usize) -> (res: String)
    ensures
        res@ == fit_width_spec(text@, width as nat),
{
    if display_width(text) <= width {
        return owned(text);
    }
    if width == 0 {
        return String::new();
    }
    let ell = "…";
    proof {
        reveal_strlit("…");
    }
    assert(ell@ =~= ellipsis());
    let ellipsis_width = display_width(ell);
    if width <= ellipsis_width {
        return owned(ell);
    }
    let v = chars_of(text);
    let budget = width - ellipsis_width;
    let mut used: usize = 0;
    let mut i: usize = 0;
    assert(v@.subrange(0, v@.len() as int) =~= v@);
    while i < v.len()
        invariant
            i <= v@.len(),
            v@ == text@,
            used <= budget,
            fitting_prefix_len(v@.subrange(i as int, v@.len() as int), (budget - used) as nat) + i
                == fitting_prefix_len(v@, budget as nat),
        ensures
            i <= v@.len(),
            i == fitting_prefix_len(v@, budget as nat),
        decreases v@.len() - i,
    {
        let cw = match char_width(v[i]) {
            Some(w) => w,
            None => 0,
        };
        assert(cw == char_cols(v@[i as int]));
        if cw > budget - used {
            let ghost t = v@.subrange(i as int, v@.len() as int);
            assert(t[0] == v@[i as int]);
            assert(fitting_prefix_len(t, (budget - used) as nat) == 0);
            break;
        }
        proof {
            lemma_fitting_step(v@, i as int, used as nat, budget as nat);
        }
        used = used + cw;
        i = i + 1;
    }
    proof {
        if i == v.len() {
            assert(v@.subrange(i as int, v@.len() as int).len() == 0);
        }
    }
    assert(i == fitting_prefix_len(v@, budget as nat));
    let mut res = string_from_range(&v, 0, i);
    push_str(&mut res, ell);
    res
}

/// `text` padded with spaces on the right to `width` display columns.
pub open spec fn pad_to_width_spec(text: Seq<char>, width: nat) -> Seq<char> {
    let used = unicode_str_width(text);
    if used >= width {
        text
    } else {
        text + repeat_char(' ', (width - used) as nat)
    }
}

/// Pads `text` with spaces up to `width` display columns.
pub fn pad_to_width(text: &str, width: usize) -> (res: String)
    ensures
        res@ == pad_to_width_spec(text@, width as nat),
{
    let used = display_width(text);
    if used >= width {
        owned(text)
    } else {
        let mut res = owned(text);
        let pad = repeat_string(' ', width - used);
        push_str(&mut res, pad.as_str());
        res
    }
}

/// `left` and `right` on one line of `width` columns, `right` aligned to the end; just `left`
/// when both do not fit with a space between them.
pub open spec fn align_between_spec(left: Seq<char>, right: Seq<char>, width: nat) -> Seq<char> {
    let lw = unicode_str_width(left);
    let rw = unicode_str_width(right);
    if lw + 1 + rw >= width {
        left
    } else {
        left + repeat_char(' ', (width - lw - rw) as nat) + right
    }
}

/// Places `left` at the start and `right` at the end of a line `width` columns wide.
pub fn align_between(left: &str, right: &str, width: usize) -> (res: String)
    ensures
        res@ == align_between_spec(left@, right@, width as nat),
{
    let left_width = display_width(left);
    let right_width = display_width(right);
    if left_width as u128 + 1 + right_width as u128 >= width as u128 {
        return owned(left);
    }
    let mut res = owned(left);
    let gap = repeat_string(' ', width - left_width - right_width);
    push_str(&mut res, gap.as_str());
    push_str(&mut res, right);
    res
}

} // verus!

verus! {

// ───────────────────────────── lexicographic order ─────────────────────────────

/// `a` sorts strictly before `b` in the lexicographic order of code points, which is the
/// order of `str` (byte-wise order of the UTF-8 encodings).
pub open spec fn lex_lt(a: Seq<char>, b: Seq<char>) -> bool
    decreases a.len(),
{
    if b.len() == 0 {
        false
    } else if a.len() == 0 {
        true
    } else if a[0] < b[0] {
        true
    } else if a[0] > b[0] {
        false
    } else {
        lex_lt(a.drop_first(), b.drop_first())
    }
}

proof fn lemma_lex_lt_suffix(a: Seq<char>, b: Seq<char>, i: int)
    requires
        0 <= i <= a.len(),
        i <= b.len(),
        forall|k: int| 0 <= k < i ==> a[k] == b[k],
    ensures
        lex_lt(a, b) == lex_lt(a.subrange(i, a.len() as int), b.subrange(i, b.len() as int)),
    decreases i,
{
    if i == 0 {
        assert(a.subrange(0, a.len() as int) =~= a);
        assert(b.subrange(0, b.len() as int) =~= b);
    } else {
        assert(a[0] == b[0]);
        lemma_lex_lt_suffix(a.drop_first(), b.drop_first(), i - 1);
        assert(a.drop_first().subrange(i - 1, a.len() - 1) =~= a.subrange(i, a.len() as int));
        assert(b.drop_first().subrange(i - 1, b.len() - 1) =~= b.subrange(i, b.len() as int));
    }
}

/// The string order is irreflexive and asymmetric.
pub proof fn lemma_lex_asymmetric(a: Seq<char>, b: Seq<char>)
    ensures
        !lex_lt(a, a),
        lex_lt(a, b) ==> !lex_lt(b, a),
    decreases a.len(),
{
    if a.len() > 0 {
        lemma_lex_asymmetric(a.drop_first(), a.drop_first());
        if b.len() > 0 {
            lemma_lex_asymmetric(a.drop_first(), b.drop_first());
        }
    }
}

/// The string order is transitive.
pub proof fn lemma_lex_transitive(a: Seq<char>, b: Seq<char>, c: Seq<char>)
    requires
        lex_lt(a, b),
        lex_lt(b, c),
    ensures
        lex_lt(a, c),
    decreases a.len(),
{
    if a.len() > 0 && b.len() > 0 && c.len() > 0 && a[0] == b[0] && b[0] == c[0] {
        lemma_lex_transitive(a.drop_first(), b.drop_first(), c.drop_first());
    }
}

/// Of two different strings, one comes before the other.
pub proof fn lemma_lex_total(a: Seq<char>, b: Seq<char>)
    ensures
        a == b || lex_lt(a, b) || lex_lt(b, a),
    decreases a.len(),
{
    if a.len() > 0 && b.len() > 0 && a[0] == b[0] {
        lemma_lex_total(a.drop_first(), b.drop_first());
        if a.drop_first() == b.drop_first() {
            assert(a =~= seq![a[0]] + a.drop_first());
            assert(b =~= seq![b[0]] + b.drop_first());
        }
    } else if a.len() == 0 && b.len() == 0 {
        assert(a =~= b);
    }
}

/// "Not before" is transitive.
pub proof fn lemma_lex_not_before_transitive(a: Seq<char>, b: Seq<char>, c: Seq<char>)
    requires
        !lex_lt(a, b),
        !lex_lt(b, c),
    ensures
        !lex_lt(a, c),
{
    lemma_lex_total(a, b);
    if lex_lt(a, c) {
        if a != b {
            lemma_lex_transitive(b, a, c);
        }
    }
}

/// Whether `a < b` in the order of strings.
pub fn lex_less(a: &Vec<char>, b: &Vec<char>) -> (res: bool)
    ensures
        res == lex_lt(a@, b@),
{
    let mut i: usize = 0;
    while i < a.len() && i < b.len()
        invariant
            i <= a@.len(),
            i <= b@.len(),
            forall|k: int| 0 <= k < i ==> a@[k] == b@[k],
        decreases a@.len() - i,
    {
        if a[i] != b[i] {
            proof {
                lemma_lex_lt_suffix(a@, b@, i as int);
                let sa = a@.subrange(i as int, a@.len() as int);
                let sb = b@.subrange(i as int, b@.len() as int);
                assert(sa[0] == a@[i as int]);
                assert(sb[0] == b@[i as int]);
            }
            return a[i] < b[i];
        }
        i = i + 1;
    }
    proof {
        lemma_lex_lt_suffix(a@, b@, i as int);
    }
    i == a.len() && i < b.len()
}

} // verus!
