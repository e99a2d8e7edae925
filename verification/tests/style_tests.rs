use tread::style::{color_from_data, color_to_data, style_from_data, style_to_data, Color, ColorData, Style, StyleData};

#[test]
fn default_style_serializes_to_empty() {
    let data = style_to_data(Style::plain());
    assert!(data.fg.is_none());
    assert!(data.bg.is_none());
    assert!(!data.bold && !data.italic && !data.underline && !data.strikethrough);
    let d = StyleData::default();
    assert!(d.fg.is_none() && d.bg.is_none() && !d.bold);
}

#[test]
fn style_with_fg_serializes() {
    let data = style_to_data(Style::plain().with_fg(Color::Red));
    match data.fg {
        Some(ColorData::Named(name)) => assert_eq!(name, "red"),
        other => panic!("expected a named color, got {other:?}"),
    }
}

#[test]
fn style_with_bold_serializes() {
    let data = style_to_data(Style::plain().with_bold());
    assert!(data.bold);
}

#[test]
fn roundtrip_named_color() {
    let style = Style::plain().with_fg(Color::Cyan).with_bg(Color::DarkGray);
    let restored = style_from_data(&style_to_data(style));
    assert_eq!(restored.fg, Some(Color::Cyan));
    assert_eq!(restored.bg, Some(Color::DarkGray));
}

#[test]
fn roundtrip_rgb_color() {
    let style = Style::plain().with_fg(Color::Rgb(255, 128, 0));
    let restored = style_from_data(&style_to_data(style));
    assert_eq!(restored.fg, Some(Color::Rgb(255, 128, 0)));
}

#[test]
fn roundtrip_modifiers() {
    let style = Style::plain().with_bold().with_italic().with_underline().with_crossed_out();
    let restored = style_from_data(&style_to_data(style));
    assert!(restored.bold);
    assert!(restored.italic);
    assert!(restored.underlined);
    assert!(restored.crossed_out);
}

#[test]
fn roundtrip_complex_style() {
    let style = Style::plain().with_fg(Color::Yellow).with_bg(Color::Black).with_bold().with_underline();
    let restored = style_from_data(&style_to_data(style));
    assert_eq!(restored.fg, Some(Color::Yellow));
    assert_eq!(restored.bg, Some(Color::Black));
    assert!(restored.bold);
    assert!(restored.underlined);
    assert_eq!(restored, style);
}

#[test]
fn every_color_round_trips() {
    let colors = [
        Color::Reset,
        Color::Black,
        Color::Red,
        Color::Green,
        Color::Yellow,
        Color::Blue,
        Color::Magenta,
        Color::Cyan,
        Color::Gray,
        Color::DarkGray,
        Color::LightRed,
        Color::LightGreen,
        Color::LightYellow,
        Color::LightBlue,
        Color::LightMagenta,
        Color::LightCyan,
        Color::White,
        Color::Rgb(1, 2, 3),
        Color::Indexed(0),
        Color::Indexed(42),
        Color::Indexed(255),
    ];
    for c in colors {
        assert_eq!(color_from_data(&color_to_data(c)), c);
    }
}

#[test]
fn indexed_color_name_and_unknown_names() {
    match color_to_data(Color::Indexed(42)) {
        ColorData::Named(n) => assert_eq!(n, "indexed(42)"),
        _ => panic!("expected a name"),
    }
    assert_eq!(color_from_data(&ColorData::Named("no such color".to_string())), Color::Reset);
}
