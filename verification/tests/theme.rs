//! The themes and their palettes.

use ilar_tui::buffer::{Buffer, BufferCell, Rect};
use ilar_tui::style::{Color, Style};
use ilar_tui::theme::{
    apply, canvas, focus_border, map_background, map_color, palette, panel_border, selected, title,
    Palette, ThemeId, CODE_BG, DIFF_ADD_BG, DIFF_DEL_BG, ERROR, FOCUS_BORDER, MUTED, PRIMARY,
    RUNNING, SECONDARY, SELECTION_BG, SURFACE, SURFACE_ALT, SYN_COMMENT, SYN_KEYWORD, SYN_NUMBER,
    SYN_STRING, USER,
};

fn channels(color: Color) -> Option<(f64, f64, f64)> {
    match color {
        Color::Rgb(red, green, blue) => Some((
            f64::from(red) / 255.0,
            f64::from(green) / 255.0,
            f64::from(blue) / 255.0,
        )),
        _ => None,
    }
}

/// Relative luminance.
fn luminance(color: Color) -> Option<f64> {
    let (red, green, blue) = channels(color)?;
    let linear = |channel: f64| {
        if channel <= 0.03928 {
            channel / 12.92
        } else {
            ((channel + 0.055) / 1.055).powf(2.4)
        }
    };
    Some(0.2126 * linear(red) + 0.7152 * linear(green) + 0.0722 * linear(blue))
}

fn contrast(one: Color, other: Color) -> f64 {
    let (Some(one), Some(other)) = (luminance(one), luminance(other)) else {
        return f64::INFINITY;
    };
    let (lighter, darker) = if one > other { (one, other) } else { (other, one) };
    (lighter + 0.05) / (darker + 0.05)
}

fn surfaces(palette: Palette) -> Vec<(&'static str, Color)> {
    let Some(surfaces) = palette.surfaces else {
        return Vec::new();
    };
    vec![
        ("surface", surfaces.surface),
        ("surface_alt", surfaces.surface_alt),
        ("code_bg", surfaces.code_bg),
        ("diff_add_bg", surfaces.diff_add_bg),
        ("diff_del_bg", surfaces.diff_del_bg),
        ("selection_bg", surfaces.selection_bg),
    ]
}

#[test]
fn every_theme_keeps_text_legible_on_every_surface() {
    for theme in ThemeId::ALL {
        let palette = palette(theme);
        let ratio = contrast(palette.primary, palette.canvas);
        assert!(ratio >= 4.5, "{}: body text {ratio:.1}:1", theme.id());
        let ratio = contrast(palette.muted, palette.canvas);
        assert!(ratio >= 3.0, "{}: muted text {ratio:.1}:1", theme.id());
        for (name, surface) in surfaces(palette) {
            let ratio = contrast(palette.primary, surface);
            assert!(ratio >= 4.5, "{}: text on {name} {ratio:.1}:1", theme.id());
        }
    }
}

#[test]
fn the_default_theme_is_held_to_a_higher_bar() {
    let palette = palette(ThemeId::default());
    let ratio = contrast(palette.primary, palette.canvas);
    assert!(ratio >= 7.0, "default body text {ratio:.1}:1");
    for (name, surface) in surfaces(palette) {
        let ratio = contrast(palette.primary, surface);
        assert!(ratio >= 7.0, "default text on {name} {ratio:.1}:1");
    }
}

#[test]
fn surfaces_are_tints_not_slabs() {
    for theme in ThemeId::ALL {
        let palette = palette(theme);
        for (name, surface) in surfaces(palette) {
            assert_ne!(surface, palette.canvas, "{}: {name} is bare", theme.id());
            let ratio = contrast(surface, palette.canvas);
            assert!(ratio <= 2.0, "{}: {name} shouts at {ratio:.1}:1", theme.id());
        }
    }
}

#[test]
fn the_adaptive_theme_reverses_rather_than_painting_a_canvas_it_cannot_see() {
    let palette = palette(ThemeId::Terminal);
    for sentinel in [SURFACE, SURFACE_ALT, CODE_BG, DIFF_ADD_BG, DIFF_DEL_BG] {
        assert_eq!(
            map_background(Color::Indexed(sentinel), palette),
            (Color::Reset, false)
        );
    }
    assert_eq!(
        map_background(Color::Indexed(SELECTION_BG), palette),
        (Color::Reset, true)
    );
    for named in [PRIMARY, SECONDARY, MUTED, USER, RUNNING, ERROR] {
        assert_eq!(map_color(named, palette), named);
    }
}

#[test]
fn syntax_classes_differ_and_read_on_the_code_surface() {
    for theme in ThemeId::ALL {
        let palette = palette(theme);
        let classes = [
            ("keyword", SYN_KEYWORD),
            ("string", SYN_STRING),
            ("number", SYN_NUMBER),
            ("comment", SYN_COMMENT),
        ]
        .map(|(name, sentinel)| (name, map_color(Color::Indexed(sentinel), palette)));
        for (index, (name, color)) in classes.iter().enumerate() {
            for (other_name, other) in &classes[index + 1..] {
                assert_ne!(color, other, "{}: {name} == {other_name}", theme.id());
            }
            let Some(surfaces) = palette.surfaces else {
                continue;
            };
            let floor = if *name == "comment" { 3.0 } else { 4.0 };
            let ratio = contrast(*color, surfaces.code_bg);
            assert!(ratio >= floor, "{}: {name} on code {ratio:.1}:1", theme.id());
        }
    }
}

#[test]
fn a_theme_is_found_by_the_name_it_is_stored_under() {
    for theme in ThemeId::ALL {
        assert_eq!(ThemeId::parse(theme.id()), Some(theme));
        assert!(!theme.label().is_empty());
        assert!(!theme.description().is_empty());
    }
    assert_eq!(ThemeId::parse("Carbon"), None);
    assert_eq!(ThemeId::parse(""), None);
    assert_eq!(ThemeId::RosePine.label(), "Rosé Pine");
    assert_eq!(
        ThemeId::Carbon.description(),
        "Deep graphite with bright cyan and green accents"
    );
}

#[test]
fn a_frame_is_painted_cell_by_cell() {
    let cell = |fg: Color, bg: Color| BufferCell {
        symbol: "x".to_string(),
        fg,
        bg,
        modifier: Style::plain().modifier,
    };
    let mut buffer = Buffer {
        area: Rect::new(0, 0, 2, 1),
        content: vec![
            cell(Color::Reset, Color::Reset),
            cell(Color::LightRed, Color::Indexed(SELECTION_BG)),
        ],
    };
    apply(&mut buffer, ThemeId::Dracula);
    let dracula = palette(ThemeId::Dracula);
    assert_eq!(buffer.content[0].fg, dracula.primary);
    assert_eq!(buffer.content[0].bg, canvas(ThemeId::Dracula));
    assert_eq!(buffer.content[1].fg, dracula.error);
    assert_eq!(buffer.content[1].bg, dracula.surfaces.unwrap().selection_bg);
    assert!(!buffer.content[1].modifier.reversed);

    let mut adaptive = Buffer {
        area: Rect::new(0, 0, 1, 1),
        content: vec![cell(Color::LightRed, Color::Indexed(SELECTION_BG))],
    };
    apply(&mut adaptive, ThemeId::Terminal);
    assert_eq!(adaptive.content[0].bg, Color::Reset);
    assert!(adaptive.content[0].modifier.reversed);
}

#[test]
fn chrome_has_styles_of_its_own() {
    assert_eq!(focus_border().fg, Some(FOCUS_BORDER));
    assert_ne!(panel_border(), focus_border());
    assert!(title(USER).modifier.bold);
    assert_eq!(title(USER).fg, Some(USER));
    assert_ne!(selected(), Style::plain());
}
