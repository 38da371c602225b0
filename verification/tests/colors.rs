use std::collections::HashMap;

use nexterm_client::colors::{
    custom_scheme_palette, parse_hex_color, resolve_color, resolve_color_with_overrides, Color,
    ColorSource, CustomPalette, PaneColorOverrides, SchemePalette,
};

fn overrides_with(
    fg: Option<[u8; 3]>,
    bg: Option<[u8; 3]>,
    palette: &[(u8, [u8; 3])],
) -> PaneColorOverrides {
    PaneColorOverrides { fg, bg, palette: palette.iter().copied().collect::<HashMap<_, _>>() }
}

#[test]
fn default_color_resolves() {
    assert_eq!(resolve_color(Color::Default, true, None), ColorSource::DefaultFg);
    assert_eq!(resolve_color(Color::Default, false, None), ColorSource::DefaultBg);
}

#[test]
fn scheme_palette_parses_custom_hex_colors() {
    let custom = CustomPalette {
        foreground: "#aabbcc".to_string(),
        background: "112233".to_string(),
        cursor: "#ffffff".to_string(),
        ansi: vec!["#ff0000".to_string()],
    };
    let pal = custom_scheme_palette(&custom);
    assert_eq!(pal.fg, [0xaa, 0xbb, 0xcc]);
    assert_eq!(pal.bg, [0x11, 0x22, 0x33]);
    assert_eq!(pal.ansi[0], [0xff, 0x00, 0x00]);
    assert_eq!(pal.ansi[1], [0, 0, 0]);
}

#[test]
fn dynamic_fg_bg_overrides_beat_the_scheme_defaults() {
    let ov = overrides_with(Some([255, 0, 0]), Some([0, 0, 255]), &[]);
    let fg = resolve_color_with_overrides(Color::Default, true, None, Some(&ov));
    assert_eq!(fg, ColorSource::Rgb([255, 0, 0]));
    let bg = resolve_color_with_overrides(Color::Default, false, None, Some(&ov));
    assert_eq!(bg, ColorSource::Rgb([0, 0, 255]));
}

#[test]
fn palette_overrides_beat_the_builtin_indexed_colors() {
    let ov = overrides_with(None, None, &[(1, [0, 255, 0]), (196, [1, 2, 3])]);
    let c1 = resolve_color_with_overrides(Color::Indexed(1), true, None, Some(&ov));
    assert_eq!(c1, ColorSource::Rgb([0, 255, 0]));
    let c196 = resolve_color_with_overrides(Color::Indexed(196), true, None, Some(&ov));
    assert_eq!(c196, ColorSource::Rgb([1, 2, 3]));
    let c2 = resolve_color_with_overrides(Color::Indexed(2), true, None, Some(&ov));
    assert_eq!(c2, resolve_color(Color::Indexed(2), true, None));
}

#[test]
fn no_overrides_behaves_like_resolve_color() {
    for (color, is_fg) in [
        (Color::Default, true),
        (Color::Default, false),
        (Color::Indexed(42), true),
        (Color::Rgb(9, 8, 7), true),
    ] {
        assert_eq!(
            resolve_color_with_overrides(color, is_fg, None, None),
            resolve_color(color, is_fg, None),
        );
    }
}

// --- further cases ---

#[test]
fn scheme_palette_supplies_defaults_and_ansi_16() {
    let mut ansi = [[0u8; 3]; 16];
    ansi[3] = [3, 3, 3];
    let p = SchemePalette { fg: [1, 2, 3], bg: [4, 5, 6], ansi };
    assert_eq!(resolve_color(Color::Default, true, Some(&p)), ColorSource::Rgb([1, 2, 3]));
    assert_eq!(resolve_color(Color::Default, false, Some(&p)), ColorSource::Rgb([4, 5, 6]));
    assert_eq!(resolve_color(Color::Indexed(3), true, Some(&p)), ColorSource::Rgb([3, 3, 3]));
    assert_eq!(resolve_color(Color::Indexed(16), true, Some(&p)), ColorSource::Builtin(16));
    assert_eq!(resolve_color(Color::Rgb(7, 8, 9), false, Some(&p)), ColorSource::Rgb([7, 8, 9]));
    let ov = overrides_with(Some([9, 9, 9]), None, &[]);
    assert_eq!(
        resolve_color_with_overrides(Color::Default, false, Some(&p), Some(&ov)),
        ColorSource::Rgb([4, 5, 6])
    );
    assert_eq!(
        resolve_color_with_overrides(Color::Rgb(1, 1, 1), true, Some(&p), Some(&ov)),
        ColorSource::Rgb([1, 1, 1])
    );
}

#[test]
fn hex_colors_parse_like_from_str_radix() {
    assert_eq!(parse_hex_color("##0a0B0c"), [0x0a, 0x0b, 0x0c]);
    assert_eq!(parse_hex_color("+ff"), [0, 0, 0xff]);
    assert_eq!(parse_hex_color("#123456789"), [0, 0, 0]);
    assert_eq!(parse_hex_color("#ffffffff"), [0xff, 0xff, 0xff]);
    assert_eq!(parse_hex_color("#12 34"), [0, 0, 0]);
    assert_eq!(parse_hex_color("#"), [0, 0, 0]);
    assert_eq!(parse_hex_color("+"), [0, 0, 0]);
    assert_eq!(parse_hex_color("-1"), [0, 0, 0]);
    assert_eq!(parse_hex_color("#00000001234"), [0x00, 0x12, 0x34]);
}
