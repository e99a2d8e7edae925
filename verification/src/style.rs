//! Text styles: terminal colors and modifiers, and their serializable form.
use vstd::prelude::*;
use crate::text::{chars_of, decimal, has_prefix, owned, push_decimal, push_str, str_eq};

verus! {

/// A terminal color.
#[derive(Debug, Clone, Copy, PartialEq, Eq, Structural)]
pub enum Color {
    Reset,
    Black,
    Red,
    Green,
    Yellow,
    Blue,
    Magenta,
    Cyan,
    Gray,
    DarkGray,
    LightRed,
    LightGreen,
    LightYellow,
    LightBlue,
    LightMagenta,
    LightCyan,
    White,
    Rgb(u8, u8, u8),
    Indexed(u8),
}

/// The style of a piece of text: colors and modifiers.
#[derive(Debug, Clone, Copy, PartialEq, Eq, Structural)]
pub struct Style {
    pub fg: Option<Color>,
    pub bg: Option<Color>,
    pub bold: bool,
    pub italic: bool,
    pub underlined: bool,
    pub crossed_out: bool,
}

/// The style with no color and no modifier.
pub open spec fn plain_style() -> Style {
    Style { fg: None, bg: None, bold: false, italic: false, underlined: false, crossed_out: false }
}

impl Style {
    /// The style with no color and no modifier.
    pub fn plain() -> (res: Style)
        ensures
            res == plain_style(),
    {
        Style { fg: None, bg: None, bold: false, italic: false, underlined: false, crossed_out: false }
    }

    /// This style with foreground `c`.
    pub fn with_fg(self, c: Color) -> (res: Style)
        ensures
            res == (Style { fg: Some(c), ..self }),
    {
        Style { fg: Some(c), ..self }
    }

    /// This style with background `c`.
    pub fn with_bg(self, c: Color) -> (res: Style)
        ensures
            res == (Style { bg: Some(c), ..self }),
    {
        Style { bg: Some(c), ..self }
    }

    /// This style made bold.
    pub fn with_bold(self) -> (res: Style)
        ensures
            res == (Style { bold: true, ..self }),
    {
        Style { bold: true, ..self }
    }

    /// This style made italic.
    pub fn with_italic(self) -> (res: Style)
        ensures
            res == (Style { italic: true, ..self }),
    {
        Style { italic: true, ..self }
    }

    /// This style underlined.
    pub fn with_underline(self) -> (res: Style)
        ensures
            res == (Style { underlined: true, ..self }),
    {
        Style { underlined: true, ..self }
    }

    /// This style crossed out.
    pub fn with_crossed_out(self) -> (res: Style)
        ensures
            res == (Style { crossed_out: true, ..self }),
    {
        Style { crossed_out: true, ..self }
    }
}

/// Serializable color representation: a color name, or red, green and blue.
#[derive(Debug, Clone)]
pub enum ColorData {
    Named(String),
    Rgb { r: u8, g: u8, b: u8 },
}

/// Serializable representation of a style.
#[derive(Debug, Clone)]
pub struct StyleData {
    pub fg: Option<ColorData>,
    pub bg: Option<ColorData>,
    pub bold: bool,
    pub italic: bool,
    pub underline: bool,
    pub strikethrough: bool,
}

impl Default for StyleData {
    fn default() -> (res: StyleData)
        ensures
            res.fg is None,
            res.bg is None,
            !res.bold,
            !res.italic,
            !res.underline,
            !res.strikethrough,
    {
        StyleData { fg: None, bg: None, bold: false, italic: false, underline: false, strikethrough: false }
    }
}

/// A flag that is left out of the serialized form when it is false.
pub fn is_false(v: &bool) -> (res: bool)
    ensures
        res == !*v,
{
    !*v
}

/// The name under which a color is stored (for colors other than `Rgb`).
pub open spec fn color_name(c: Color) -> Seq<char> {
    match c {
        Color::Black => "black"@,
        Color::Red => "red"@,
        Color::Green => "green"@,
        Color::Yellow => "yellow"@,
        Color::Blue => "blue"@,
        Color::Magenta => "magenta"@,
        Color::Cyan => "cyan"@,
        Color::White => "white"@,
        Color::DarkGray => "dark_gray"@,
        Color::Gray => "gray"@,
        Color::LightRed => "light_red"@,
        Color::LightGreen => "light_green"@,
        Color::LightYellow => "light_yellow"@,
        Color::LightBlue => "light_blue"@,
        Color::LightMagenta => "light_magenta"@,
        Color::LightCyan => "light_cyan"@,
        Color::Reset => "reset"@,
        Color::Indexed(i) => "indexed("@ + decimal(i as nat) + ")"@,
        Color::Rgb(_, _, _) => Seq::empty(),
    }
}

/// The stored form of a color: its components for `Rgb`, otherwise its name.
pub open spec fn color_data_ok(c: Color, d: ColorData) -> bool {
    &&& c matches Color::Rgb(r, g, b) ==> (d matches ColorData::Rgb { r: r2, g: g2, b: b2 } && r2 == r && g2 == g
        && b2 == b)
    &&& !(c is Rgb) ==> (d matches ColorData::Named(n) && n@ == color_name(c))
}

/// The serializable form of a color.
pub fn color_to_data(c: Color) -> (res: ColorData)
    ensures
        color_data_ok(c, res),
{
    match c {
        Color::Black => ColorData::Named(owned("black")),
        Color::Red => ColorData::Named(owned("red")),
        Color::Green => ColorData::Named(owned("green")),
        Color::Yellow => ColorData::Named(owned("yellow")),
        Color::Blue => ColorData::Named(owned("blue")),
        Color::Magenta => ColorData::Named(owned("magenta")),
        Color::Cyan => ColorData::Named(owned("cyan")),
        Color::White => ColorData::Named(owned("white")),
        Color::DarkGray => ColorData::Named(owned("dark_gray")),
        Color::Gray => ColorData::Named(owned("gray")),
        Color::LightRed => ColorData::Named(owned("light_red")),
        Color::LightGreen => ColorData::Named(owned("light_green")),
        Color::LightYellow => ColorData::Named(owned("light_yellow")),
        Color::LightBlue => ColorData::Named(owned("light_blue")),
        Color::LightMagenta => ColorData::Named(owned("light_magenta")),
        Color::LightCyan => ColorData::Named(owned("light_cyan")),
        Color::Reset => ColorData::Named(owned("reset")),
        Color::Rgb(r, g, b) => ColorData::Rgb { r, g, b },
        Color::Indexed(i) => {
            let mut s = owned("indexed(");
            push_decimal(&mut s, i as u64);
            push_str(&mut s, ")");
            ColorData::Named(s)
        },
    }
}

/// `s` with every leading copy of `p` removed (`str::trim_start_matches`), for a non-empty `p`.
pub open spec fn trim_start_all(s: Seq<char>, p: Seq<char>) -> Seq<char>
    decreases s.len(),
{
    if p.len() > 0 && has_prefix(s, p) {
        trim_start_all(s.skip(p.len() as int), p)
    } else {
        s
    }
}

/// `s` with every trailing `c` removed (`str::trim_end_matches`).
pub open spec fn trim_end_all(s: Seq<char>, c: char) -> Seq<char>
    decreases s.len(),
{
    if s.len() > 0 && s.last() == c {
        trim_end_all(s.drop_last(), c)
    } else {
        s
    }
}

/// The index stored in an `indexed(N)` color name: `N` as a `u8`, or 0 when it does not parse.
pub open spec fn indexed_value(name: Seq<char>) -> u8 {
    match crate::cli::parse_usize_spec(trim_end_all(trim_start_all(name, "indexed("@), ')')) {
        Some(n) => if n <= 255 {
            n as u8
        } else {
            0
        },
        None => 0,
    }
}

/// The color a stored name stands for; unknown names are `Reset`.
pub open spec fn color_of_name(name: Seq<char>) -> Color {
    if name == "black"@ {
        Color::Black
    } else if name == "red"@ {
        Color::Red
    } else if name == "green"@ {
        Color::Green
    } else if name == "yellow"@ {
        Color::Yellow
    } else if name == "blue"@ {
        Color::Blue
    } else if name == "magenta"@ {
        Color::Magenta
    } else if name == "cyan"@ {
        Color::Cyan
    } else if name == "white"@ {
        Color::White
    } else if name == "dark_gray"@ {
        Color::DarkGray
    } else if name == "gray"@ {
        Color::Gray
    } else if name == "light_red"@ {
        Color::LightRed
    } else if name == "light_green"@ {
        Color::LightGreen
    } else if name == "light_yellow"@ {
        Color::LightYellow
    } else if name == "light_blue"@ {
        Color::LightBlue
    } else if name == "light_magenta"@ {
        Color::LightMagenta
    } else if name == "light_cyan"@ {
        Color::LightCyan
    } else if name == "reset"@ {
        Color::Reset
    } else if has_prefix(name, "indexed("@) {
        Color::Indexed(indexed_value(name))
    } else {
        Color::Reset
    }
}

/// The color of a serializable color.
pub open spec fn color_of_data(c: ColorData) -> Color {
    match c {
        ColorData::Named(n) => color_of_name(n@),
        ColorData::Rgb { r, g, b } => Color::Rgb(r, g, b),
    }
}

fn trim_start_all_exec(v: &Vec<char>, p: &Vec<char>) -> (res: usize)
    requires
        p@.len() > 0,
    ensures
        res <= v@.len(),
        v@.skip(res as int) == trim_start_all(v@, p@),
{
    let mut i: usize = 0;
    assert(v@.skip(0) =~= v@);
    loop
        invariant
            i <= v@.len(),
            p@.len() > 0,
            trim_start_all(v@.skip(i as int), p@) == trim_start_all(v@, p@),
        decreases v@.len() - i,
    {
        let found = crate::text::seq_starts_with(v, i, p);
        assert(v@.subrange(i as int, v@.len() as int) =~= v@.skip(i as int));
        if !found {
            return i;
        }
        let step = p.len();
        assert(step <= v.len() - i);
        assert(v@.skip(i as int).skip(p@.len() as int) =~= v@.skip(i + p@.len()));
        i = i + step;
    }
}

fn trim_end_all_exec(v: &Vec<char>, from: usize, c: char) -> (res: usize)
    requires
        from <= v@.len(),
    ensures
        from <= res <= v@.len(),
        v@.subrange(from as int, res as int) == trim_end_all(v@.subrange(from as int, v@.len() as int), c),
{
    let mut j = v.len();
    while j > from && v[j - 1] == c
        invariant
            from <= j <= v@.len(),
            trim_end_all(v@.subrange(from as int, j as int), c) == trim_end_all(
                v@.subrange(from as int, v@.len() as int),
                c,
            ),
        decreases j,
    {
        assert(v@.subrange(from as int, j as int).drop_last() =~= v@.subrange(from as int, j - 1));
        j = j - 1;
    }
    j
}

fn indexed_value_exec(name: &str) -> (res: u8)
    ensures
        res == indexed_value(name@),
{
    let v = chars_of(name);
    let p = chars_of("indexed(");
    proof {
        reveal_strlit("indexed(");
    }
    let start = trim_start_all_exec(&v, &p);
    let end = trim_end_all_exec(&v, start, ')');
    assert(v@.subrange(start as int, v@.len() as int) =~= v@.skip(start as int));
    let digits = crate::text::string_from_range(&v, start, end);
    match crate::cli::parse_usize(digits.as_str()) {
        Some(n) => if n <= 255 {
            n as u8
        } else {
            0
        },
        None => 0,
    }
}

/// The color of a serializable color (unknown names give `Reset`).
pub fn color_from_data(c: &ColorData) -> (res: Color)
    ensures
        res == color_of_data(*c),
{
    match c {
        ColorData::Rgb { r, g, b } => Color::Rgb(*r, *g, *b),
        ColorData::Named(name) => {
            let n = name.as_str();
            if str_eq(n, "black") {
                Color::Black
            } else if str_eq(n, "red") {
                Color::Red
            } else if str_eq(n, "green") {
                Color::Green
            } else if str_eq(n, "yellow") {
                Color::Yellow
            } else if str_eq(n, "blue") {
                Color::Blue
            } else if str_eq(n, "magenta") {
                Color::Magenta
            } else if str_eq(n, "cyan") {
                Color::Cyan
            } else if str_eq(n, "white") {
                Color::White
            } else if str_eq(n, "dark_gray") {
                Color::DarkGray
            } else if str_eq(n, "gray") {
                Color::Gray
            } else if str_eq(n, "light_red") {
                Color::LightRed
            } else if str_eq(n, "light_green") {
                Color::LightGreen
            } else if str_eq(n, "light_yellow") {
                Color::LightYellow
            } else if str_eq(n, "light_blue") {
                Color::LightBlue
            } else if str_eq(n, "light_magenta") {
                Color::LightMagenta
            } else if str_eq(n, "light_cyan") {
                Color::LightCyan
            } else if str_eq(n, "reset") {
                Color::Reset
            } else if crate::text::starts_with(n, "indexed(") {
                Color::Indexed(indexed_value_exec(n))
            } else {
                Color::Reset
            }
        },
    }
}

/// The serializable form of a style.
pub fn style_to_data(s: Style) -> (res: StyleData)
    ensures
        res.fg is Some <==> s.fg is Some,
        res.bg is Some <==> s.bg is Some,
        s.fg matches Some(c) ==> color_data_ok(c, res.fg->0),
        s.bg matches Some(c) ==> color_data_ok(c, res.bg->0),
        res.bold == s.bold,
        res.italic == s.italic,
        res.underline == s.underlined,
        res.strikethrough == s.crossed_out,
        style_of_data(res) == s,
{
    let fg = match s.fg {
        Some(c) => {
            let d = color_to_data(c);
            proof {
                lemma_color_round_trip(c, d);
            }
            Some(d)
        },
        None => None,
    };
    let bg = match s.bg {
        Some(c) => {
            let d = color_to_data(c);
            proof {
                lemma_color_round_trip(c, d);
            }
            Some(d)
        },
        None => None,
    };
    StyleData {
        fg,
        bg,
        bold: s.bold,
        italic: s.italic,
        underline: s.underlined,
        strikethrough: s.crossed_out,
    }
}

/// The style that a serializable style stands for.
pub open spec fn style_of_data(s: StyleData) -> Style {
    Style {
        fg: match s.fg {
            Some(c) => Some(color_of_data(c)),
            None => None,
        },
        bg: match s.bg {
            Some(c) => Some(color_of_data(c)),
            None => None,
        },
        bold: s.bold,
        italic: s.italic,
        underlined: s.underline,
        crossed_out: s.strikethrough,
    }
}

/// The style of a serializable style.
pub fn style_from_data(s: &StyleData) -> (res: Style)
    ensures
        res == style_of_data(*s),
{
    let fg = match &s.fg {
        Some(c) => Some(color_from_data(c)),
        None => None,
    };
    let bg = match &s.bg {
        Some(c) => Some(color_from_data(c)),
        None => None,
    };
    Style {
        fg,
        bg,
        bold: s.bold,
        italic: s.italic,
        underlined: s.underline,
        crossed_out: s.strikethrough,
    }
}

/// Storing a color and reading it back gives the same color.
pub proof fn lemma_color_round_trip(c: Color, d: ColorData)
    requires
        color_data_ok(c, d),
    ensures
        color_of_data(d) == c,
{
    reveal_strlit("black");
    reveal_strlit("red");
    reveal_strlit("green");
    reveal_strlit("yellow");
    reveal_strlit("blue");
    reveal_strlit("magenta");
    reveal_strlit("cyan");
    reveal_strlit("white");
    reveal_strlit("dark_gray");
    reveal_strlit("gray");
    reveal_strlit("light_red");
    reveal_strlit("light_green");
    reveal_strlit("light_yellow");
    reveal_strlit("light_blue");
    reveal_strlit("light_magenta");
    reveal_strlit("light_cyan");
    reveal_strlit("reset");
    reveal_strlit("indexed(");
    reveal_strlit(")");
    match c {
        Color::Black => {
        },
        Color::Red => {
            assert("red"@.len() != "black"@.len());
        },
        Color::Green => {
            assert("green"@[0] != "black"@[0]);
            assert("green"@.len() != "red"@.len());
        },
        Color::Yellow => {
            assert("yellow"@.len() != "black"@.len());
            assert("yellow"@.len() != "red"@.len());
            assert("yellow"@.len() != "green"@.len());
        },
        Color::Blue => {
            assert("blue"@.len() != "black"@.len());
            assert("blue"@.len() != "red"@.len());
            assert("blue"@.len() != "green"@.len());
            assert("blue"@.len() != "yellow"@.len());
        },
        Color::Magenta => {
            assert("magenta"@.len() != "black"@.len());
            assert("magenta"@.len() != "red"@.len());
            assert("magenta"@.len() != "green"@.len());
            assert("magenta"@.len() != "yellow"@.len());
            assert("magenta"@.len() != "blue"@.len());
        },
        Color::Cyan => {
            assert("cyan"@.len() != "black"@.len());
            assert("cyan"@.len() != "red"@.len());
            assert("cyan"@.len() != "green"@.len());
            assert("cyan"@.len() != "yellow"@.len());
            assert("cyan"@[0] != "blue"@[0]);
            assert("cyan"@.len() != "magenta"@.len());
        },
        Color::White => {
            assert("white"@[0] != "black"@[0]);
            assert("white"@.len() != "red"@.len());
            assert("white"@[0] != "green"@[0]);
            assert("white"@.len() != "yellow"@.len());
            assert("white"@.len() != "blue"@.len());
            assert("white"@.len() != "magenta"@.len());
            assert("white"@.len() != "cyan"@.len());
        },
        Color::DarkGray => {
            assert("dark_gray"@.len() != "black"@.len());
            assert("dark_gray"@.len() != "red"@.len());
            assert("dark_gray"@.len() != "green"@.len());
            assert("dark_gray"@.len() != "yellow"@.len());
            assert("dark_gray"@.len() != "blue"@.len());
            assert("dark_gray"@.len() != "magenta"@.len());
            assert("dark_gray"@.len() != "cyan"@.len());
            assert("dark_gray"@.len() != "white"@.len());
        },
        Color::Gray => {
            assert("gray"@.len() != "black"@.len());
            assert("gray"@.len() != "red"@.len());
            assert("gray"@.len() != "green"@.len());
            assert("gray"@.len() != "yellow"@.len());
            assert("gray"@[0] != "blue"@[0]);
            assert("gray"@.len() != "magenta"@.len());
            assert("gray"@[0] != "cyan"@[0]);
            assert("gray"@.len() != "white"@.len());
            assert("gray"@.len() != "dark_gray"@.len());
        },
        Color::LightRed => {
            assert("light_red"@.len() != "black"@.len());
            assert("light_red"@.len() != "red"@.len());
            assert("light_red"@.len() != "green"@.len());
            assert("light_red"@.len() != "yellow"@.len());
            assert("light_red"@.len() != "blue"@.len());
            assert("light_red"@.len() != "magenta"@.len());
            assert("light_red"@.len() != "cyan"@.len());
            assert("light_red"@.len() != "white"@.len());
            assert("light_red"@[0] != "dark_gray"@[0]);
            assert("light_red"@.len() != "gray"@.len());
        },
        Color::LightGreen => {
            assert("light_green"@.len() != "black"@.len());
            assert("light_green"@.len() != "red"@.len());
            assert("light_green"@.len() != "green"@.len());
            assert("light_green"@.len() != "yellow"@.len());
            assert("light_green"@.len() != "blue"@.len());
            assert("light_green"@.len() != "magenta"@.len());
            assert("light_green"@.len() != "cyan"@.len());
            assert("light_green"@.len() != "white"@.len());
            assert("light_green"@.len() != "dark_gray"@.len());
            assert("light_green"@.len() != "gray"@.len());
            assert("light_green"@.len() != "light_red"@.len());
        },
        Color::LightYellow => {
            assert("light_yellow"@.len() != "black"@.len());
            assert("light_yellow"@.len() != "red"@.len());
            assert("light_yellow"@.len() != "green"@.len());
            assert("light_yellow"@.len() != "yellow"@.len());
            assert("light_yellow"@.len() != "blue"@.len());
            assert("light_yellow"@.len() != "magenta"@.len());
            assert("light_yellow"@.len() != "cyan"@.len());
            assert("light_yellow"@.len() != "white"@.len());
            assert("light_yellow"@.len() != "dark_gray"@.len());
            assert("light_yellow"@.len() != "gray"@.len());
            assert("light_yellow"@.len() != "light_red"@.len());
            assert("light_yellow"@.len() != "light_green"@.len());
        },
        Color::LightBlue => {
            assert("light_blue"@.len() != "black"@.len());
            assert("light_blue"@.len() != "red"@.len());
            assert("light_blue"@.len() != "green"@.len());
            assert("light_blue"@.len() != "yellow"@.len());
            assert("light_blue"@.len() != "blue"@.len());
            assert("light_blue"@.len() != "magenta"@.len());
            assert("light_blue"@.len() != "cyan"@.len());
            assert("light_blue"@.len() != "white"@.len());
            assert("light_blue"@.len() != "dark_gray"@.len());
            assert("light_blue"@.len() != "gray"@.len());
            assert("light_blue"@.len() != "light_red"@.len());
            assert("light_blue"@.len() != "light_green"@.len());
            assert("light_blue"@.len() != "light_yellow"@.len());
        },
        Color::LightMagenta => {
            assert("light_magenta"@.len() != "black"@.len());
            assert("light_magenta"@.len() != "red"@.len());
            assert("light_magenta"@.len() != "green"@.len());
            assert("light_magenta"@.len() != "yellow"@.len());
            assert("light_magenta"@.len() != "blue"@.len());
            assert("light_magenta"@.len() != "magenta"@.len());
            assert("light_magenta"@.len() != "cyan"@.len());
            assert("light_magenta"@.len() != "white"@.len());
            assert("light_magenta"@.len() != "dark_gray"@.len());
            assert("light_magenta"@.len() != "gray"@.len());
            assert("light_magenta"@.len() != "light_red"@.len());
            assert("light_magenta"@.len() != "light_green"@.len());
            assert("light_magenta"@.len() != "light_yellow"@.len());
            assert("light_magenta"@.len() != "light_blue"@.len());
        },
        Color::LightCyan => {
            assert("light_cyan"@.len() != "black"@.len());
            assert("light_cyan"@.len() != "red"@.len());
            assert("light_cyan"@.len() != "green"@.len());
            assert("light_cyan"@.len() != "yellow"@.len());
            assert("light_cyan"@.len() != "blue"@.len());
            assert("light_cyan"@.len() != "magenta"@.len());
            assert("light_cyan"@.len() != "cyan"@.len());
            assert("light_cyan"@.len() != "white"@.len());
            assert("light_cyan"@.len() != "dark_gray"@.len());
            assert("light_cyan"@.len() != "gray"@.len());
            assert("light_cyan"@.len() != "light_red"@.len());
            assert("light_cyan"@.len() != "light_green"@.len());
            assert("light_cyan"@.len() != "light_yellow"@.len());
            assert("light_cyan"@[9] != "light_blue"@[9]);
            assert("light_cyan"@.len() != "light_magenta"@.len());
        },
        Color::Reset => {
            assert("reset"@[0] != "black"@[0]);
            assert("reset"@.len() != "red"@.len());
            assert("reset"@[0] != "green"@[0]);
            assert("reset"@.len() != "yellow"@.len());
            assert("reset"@.len() != "blue"@.len());
            assert("reset"@.len() != "magenta"@.len());
            assert("reset"@.len() != "cyan"@.len());
            assert("reset"@[0] != "white"@[0]);
            assert("reset"@.len() != "dark_gray"@.len());
            assert("reset"@.len() != "gray"@.len());
            assert("reset"@.len() != "light_red"@.len());
            assert("reset"@.len() != "light_green"@.len());
            assert("reset"@.len() != "light_yellow"@.len());
            assert("reset"@.len() != "light_blue"@.len());
            assert("reset"@.len() != "light_magenta"@.len());
            assert("reset"@.len() != "light_cyan"@.len());
        },
        Color::Indexed(i) => {
            lemma_indexed_name(i);
        },
        Color::Rgb(_, _, _) => {},
    }
}

proof fn lemma_digit_char(d: nat)
    requires
        d < 10,
    ensures
        '0' <= crate::text::digit_char(d) <= '9',
        crate::cli::digit_value(crate::text::digit_char(d)) == d,
{
}

proof fn lemma_decimal_digits(n: nat)
    ensures
        decimal(n).len() >= 1,
        crate::cli::all_digits(decimal(n)),
        crate::cli::digits_value(decimal(n)) == n,
    decreases n,
{
    if n < 10 {
        lemma_digit_char(n);
        let d = decimal(n);
        assert(d =~= seq![crate::text::digit_char(n)]);
        assert(d.drop_last() =~= Seq::<char>::empty());
        assert(d.last() == crate::text::digit_char(n));
        assert(crate::cli::digits_value(d.drop_last()) == 0);
    } else {
        lemma_decimal_digits(n / 10);
        lemma_digit_char(n % 10);
        let d = decimal(n);
        assert(d.drop_last() =~= decimal(n / 10));
        assert(d.last() == crate::text::digit_char(n % 10));
        assert(crate::cli::all_digits(d)) by {
            assert forall|k: int| 0 <= k < d.len() implies '0' <= #[trigger] d[k] && d[k] <= '9' by {
                if k < d.len() - 1 {
                    assert(d[k] == decimal(n / 10)[k]);
                }
            }
        }
    }
}

proof fn lemma_indexed_name(i: u8)
    ensures
        color_of_name("indexed("@ + decimal(i as nat) + ")"@) == Color::Indexed(i),
{
    reveal_strlit("indexed(");
    reveal_strlit(")");
    reveal_strlit("black");
    reveal_strlit("red");
    reveal_strlit("green");
    reveal_strlit("yellow");
    reveal_strlit("blue");
    reveal_strlit("magenta");
    reveal_strlit("cyan");
    reveal_strlit("white");
    reveal_strlit("dark_gray");
    reveal_strlit("gray");
    reveal_strlit("light_red");
    reveal_strlit("light_green");
    reveal_strlit("light_yellow");
    reveal_strlit("light_blue");
    reveal_strlit("light_magenta");
    reveal_strlit("light_cyan");
    reveal_strlit("reset");
    let dec = decimal(i as nat);
    let p = "indexed("@;
    let name = p + dec + ")"@;
    lemma_decimal_digits(i as nat);
    assert(name[0] == 'i');
    assert(name != "black"@) by {
        assert("black"@[0] != 'i');
    }
    assert(name != "red"@) by {
        assert("red"@[0] != 'i');
    }
    assert(name != "green"@) by {
        assert("green"@[0] != 'i');
    }
    assert(name != "yellow"@) by {
        assert("yellow"@[0] != 'i');
    }
    assert(name != "blue"@) by {
        assert("blue"@[0] != 'i');
    }
    assert(name != "magenta"@) by {
        assert("magenta"@[0] != 'i');
    }
    assert(name != "cyan"@) by {
        assert("cyan"@[0] != 'i');
    }
    assert(name != "white"@) by {
        assert("white"@[0] != 'i');
    }
    assert(name != "dark_gray"@) by {
        assert("dark_gray"@[0] != 'i');
    }
    assert(name != "gray"@) by {
        assert("gray"@[0] != 'i');
    }
    assert(name != "light_red"@) by {
        assert("light_red"@[0] != 'i');
    }
    assert(name != "light_green"@) by {
        assert("light_green"@[0] != 'i');
    }
    assert(name != "light_yellow"@) by {
        assert("light_yellow"@[0] != 'i');
    }
    assert(name != "light_blue"@) by {
        assert("light_blue"@[0] != 'i');
    }
    assert(name != "light_magenta"@) by {
        assert("light_magenta"@[0] != 'i');
    }
    assert(name != "light_cyan"@) by {
        assert("light_cyan"@[0] != 'i');
    }
    assert(name != "reset"@) by {
        assert("reset"@[0] != 'i');
    }
    assert(name.subrange(0, 8) =~= p);
    assert(has_prefix(name, p));
    assert(name.skip(8) =~= dec + ")"@);
    assert(!has_prefix(dec + ")"@, p)) by {
        if (dec + ")"@).len() >= 8 {
            assert((dec + ")"@).subrange(0, 8)[0] == dec[0]);
            assert(p[0] == 'i');
        }
    }
    assert(trim_start_all(dec + ")"@, p) == dec + ")"@);
    assert(trim_start_all(name, p) == dec + ")"@);
    assert((dec + ")"@).drop_last() =~= dec);
    assert(dec.last() != ')');
    assert(trim_end_all(dec, ')') == dec);
    assert(trim_end_all(dec + ")"@, ')') == dec);
    assert(dec[0] != '+');
    assert(crate::cli::parse_usize_spec(dec) == Some(i as usize));
}

} // verus!
