//! Which colour a cell is drawn in.
//!
//! A cell colour is the default foreground/background, a direct RGB value, or
//! an index into the 256-colour table. The pane's dynamic overrides (OSC 4,
//! 10 and 11) come first, then the colour scheme's palette, then the built-in
//! defaults. Converting the chosen colour to the renderer's floating-point
//! RGBA is the application's.

use std::collections::HashMap;
use vstd::prelude::*;
use crate::text::chars_of;

verus! {

broadcast use vstd::std_specs::hash::group_hash_axioms;

/// A cell colour as the terminal protocol carries it.
#[derive(Clone, Copy, Debug, PartialEq, Eq, Structural)]
pub enum Color {
    Default,
    Rgb(u8, u8, u8),
    Indexed(u8),
}

/// A colour scheme's concrete colours: default foreground and background and
/// the 16 ANSI colours.
#[derive(Clone, Copy, Debug)]
pub struct SchemePalette {
    pub fg: [u8; 3],
    pub bg: [u8; 3],
    pub ansi: [[u8; 3]; 16],
}

/// A pane's dynamic colour overrides: foreground (OSC 10), background
/// (OSC 11) and palette entries (OSC 4).
#[derive(Clone, Debug)]
pub struct PaneColorOverrides {
    pub fg: Option<[u8; 3]>,
    pub bg: Option<[u8; 3]>,
    pub palette: HashMap<u8, [u8; 3]>,
}

/// The colour chosen for a cell.
#[derive(Clone, Copy, Debug, PartialEq, Eq)]
pub enum ColorSource {
    /// This exact colour.
    Rgb([u8; 3]),
    /// The built-in default foreground (no scheme given).
    DefaultFg,
    /// The built-in default background (no scheme given).
    DefaultBg,
    /// Entry `n` of the built-in 256-colour table.
    Builtin(u8),
}

/// The colour of a cell from the scheme palette (when given) and the
/// built-in tables: the default colour is the scheme's foreground or
/// background, ANSI colours 0–15 come from the scheme, everything else from
/// the built-in table.
pub open spec fn spec_resolve_color(color: Color, is_fg: bool, palette: Option<SchemePalette>) -> ColorSource {
    match color {
        Color::Default => match palette {
            Some(p) => ColorSource::Rgb(if is_fg { p.fg } else { p.bg }),
            None => if is_fg {
                ColorSource::DefaultFg
            } else {
                ColorSource::DefaultBg
            },
        },
        Color::Rgb(r, g, b) => ColorSource::Rgb([r, g, b]),
        Color::Indexed(n) => match palette {
            Some(p) if n < 16 => ColorSource::Rgb(p.ansi@[n as int]),
            _ => ColorSource::Builtin(n),
        },
    }
}

/// With a scheme, every one of the 16 ANSI colours (the bright ones 8–15
/// included) is the scheme's own entry, and the default colours are the
/// scheme's foreground and background; the 256-colour entries beyond them,
/// and every indexed colour without a scheme, come from the built-in table.
/// A direct RGB colour is drawn as given.
pub proof fn lemma_scheme_colors(p: SchemePalette, n: u8, is_fg: bool)
    ensures
        n < 16 ==> spec_resolve_color(Color::Indexed(n), is_fg, Some(p)) == ColorSource::Rgb(p.ansi@[n as int]),
        n >= 16 ==> spec_resolve_color(Color::Indexed(n), is_fg, Some(p)) == ColorSource::Builtin(n),
        spec_resolve_color(Color::Indexed(n), is_fg, None) == ColorSource::Builtin(n),
        spec_resolve_color(Color::Default, true, Some(p)) == ColorSource::Rgb(p.fg),
        spec_resolve_color(Color::Default, false, Some(p)) == ColorSource::Rgb(p.bg),
        spec_resolve_color(Color::Default, true, None) == ColorSource::DefaultFg,
        spec_resolve_color(Color::Default, false, None) == ColorSource::DefaultBg,
        forall|r: u8, g: u8, b: u8|
            #![trigger spec_resolve_color(Color::Rgb(r, g, b), is_fg, Some(p))]
            spec_resolve_color(Color::Rgb(r, g, b), is_fg, Some(p)) == ColorSource::Rgb([r, g, b])
                && spec_resolve_color(Color::Rgb(r, g, b), is_fg, None) == ColorSource::Rgb([r, g, b]),
{
}

/// Choose the colour of a cell: the scheme's default colours and ANSI 0–15
/// when a palette is given, the built-in tables otherwise.
pub fn resolve_color(color: Color, is_fg: bool, palette: Option<&SchemePalette>) -> (r: ColorSource)
    ensures
        r == spec_resolve_color(
            color,
            is_fg,
            match palette {
                Some(p) => Some(*p),
                None => None,
            },
        ),
{
    match color {
        Color::Default => match palette {
            Some(p) => ColorSource::Rgb(if is_fg { p.fg } else { p.bg }),
            None => if is_fg {
                ColorSource::DefaultFg
            } else {
                ColorSource::DefaultBg
            },
        },
        Color::Rgb(r, g, b) => ColorSource::Rgb([r, g, b]),
        Color::Indexed(n) => {
            if n < 16 {
                if let Some(p) = palette {
                    return ColorSource::Rgb(p.ansi[n as usize]);
                }
            }
            ColorSource::Builtin(n)
        },
    }
}

/// The colour of a cell with the pane's overrides first: the dynamic
/// foreground/background replace the default colour, and an OSC 4 entry
/// replaces its index; anything not overridden resolves as without them.
pub open spec fn spec_resolve_with_overrides(
    color: Color,
    is_fg: bool,
    palette: Option<SchemePalette>,
    fg: Option<[u8; 3]>,
    bg: Option<[u8; 3]>,
    table: Option<Map<u8, [u8; 3]>>,
) -> ColorSource {
    match table {
        None => spec_resolve_color(color, is_fg, palette),
        Some(t) => match color {
            Color::Default => match (if is_fg { fg } else { bg }) {
                Some(c) => ColorSource::Rgb(c),
                None => spec_resolve_color(color, is_fg, palette),
            },
            Color::Indexed(n) => if t.contains_key(n) {
                ColorSource::Rgb(t[n])
            } else {
                spec_resolve_color(color, is_fg, palette)
            },
            Color::Rgb(..) => spec_resolve_color(color, is_fg, palette),
        },
    }
}

/// Choose the colour of a cell, consulting the pane's dynamic overrides
/// first.
pub fn resolve_color_with_overrides(
    color: Color,
    is_fg: bool,
    palette: Option<&SchemePalette>,
    overrides: Option<&PaneColorOverrides>,
) -> (r: ColorSource)
    ensures
        r == spec_resolve_with_overrides(
            color,
            is_fg,
            match palette {
                Some(p) => Some(*p),
                None => None,
            },
            match overrides {
                Some(o) => o.fg,
                None => None,
            },
            match overrides {
                Some(o) => o.bg,
                None => None,
            },
            match overrides {
                Some(o) => Some(o.palette@),
                None => None,
            },
        ),
{
    if let Some(ov) = overrides {
        match color {
            Color::Default => {
                let dynamic = if is_fg { ov.fg } else { ov.bg };
                if let Some(c) = dynamic {
                    return ColorSource::Rgb(c);
                }
            },
            Color::Indexed(n) => {
                if let Some(c) = ov.palette.get(&n) {
                    return ColorSource::Rgb(*c);
                }
            },
            Color::Rgb(..) => {},
        }
    }
    resolve_color(color, is_fg, palette)
}

/// Overrides only ever replace the default colour and indexed colours:
/// without a pane's overrides a cell resolves exactly as from the scheme and
/// the built-in tables, and a direct RGB colour is never replaced.
pub proof fn lemma_overrides_touch_only_default_and_indexed(
    color: Color,
    is_fg: bool,
    palette: Option<SchemePalette>,
    fg: Option<[u8; 3]>,
    bg: Option<[u8; 3]>,
    table: Option<Map<u8, [u8; 3]>>,
)
    ensures
        spec_resolve_with_overrides(color, is_fg, palette, fg, bg, None) == spec_resolve_color(color, is_fg, palette),
        color is Rgb ==> spec_resolve_with_overrides(color, is_fg, palette, fg, bg, table) == spec_resolve_color(
            color,
            is_fg,
            palette,
        ),
{
}

/// A pane's overrides win where they apply: its OSC 4 entry for an index
/// (whether or not the scheme has one), its dynamic foreground or background
/// for the default colour; with no override for that colour the scheme and
/// the built-in tables decide as without overrides.
pub proof fn lemma_overrides_win(
    n: u8,
    is_fg: bool,
    palette: Option<SchemePalette>,
    fg: Option<[u8; 3]>,
    bg: Option<[u8; 3]>,
    t: Map<u8, [u8; 3]>,
)
    ensures
        t.contains_key(n) ==> spec_resolve_with_overrides(Color::Indexed(n), is_fg, palette, fg, bg, Some(t))
            == ColorSource::Rgb(t[n]),
        !t.contains_key(n) ==> spec_resolve_with_overrides(Color::Indexed(n), is_fg, palette, fg, bg, Some(t))
            == spec_resolve_color(Color::Indexed(n), is_fg, palette),
        is_fg && fg is Some ==> spec_resolve_with_overrides(Color::Default, is_fg, palette, fg, bg, Some(t))
            == ColorSource::Rgb(fg->0),
        !is_fg && bg is Some ==> spec_resolve_with_overrides(Color::Default, is_fg, palette, fg, bg, Some(t))
            == ColorSource::Rgb(bg->0),
        (if is_fg { fg } else { bg }) is None ==> spec_resolve_with_overrides(Color::Default, is_fg, palette, fg, bg, Some(t))
            == spec_resolve_color(Color::Default, is_fg, palette),
{
}

// ---- custom palettes ----

/// `s` without its leading `#` characters (`trim_start_matches('#')`).
pub open spec fn strip_hashes(s: Seq<char>) -> Seq<char>
    decreases s.len(),
{
    if s.len() > 0 && s[0] == '#' {
        strip_hashes(s.drop_first())
    } else {
        s
    }
}

/// The value of a hexadecimal digit, either case.
pub open spec fn hex_digit(c: char) -> Option<int> {
    if '0' <= c && c <= '9' {
        Some(c as int - '0' as int)
    } else if 'a' <= c && c <= 'f' {
        Some(c as int - 'a' as int + 10)
    } else if 'A' <= c && c <= 'F' {
        Some(c as int - 'A' as int + 10)
    } else {
        None
    }
}

/// `s` is a non-empty run of hexadecimal digits.
pub open spec fn all_hex(s: Seq<char>) -> bool {
    s.len() > 0 && forall|i: int| 0 <= i < s.len() ==> #[trigger] hex_digit(s[i]) is Some
}

/// The value of a run of hexadecimal digits.
pub open spec fn hex_value(s: Seq<char>) -> int
    decreases s.len(),
{
    if s.len() == 0 {
        0
    } else {
        hex_value(s.drop_last()) * 16 + hex_digit(s.last())->0
    }
}

/// `u32::from_str_radix(s, 16)`: an optional `+`, then hexadecimal digits
/// whose value fits in 32 bits.
pub open spec fn spec_parse_hex_u32(s: Seq<char>) -> Option<u32> {
    let d = if s.len() > 0 && s[0] == '+' {
        s.drop_first()
    } else {
        s
    };
    if all_hex(d) && hex_value(d) <= u32::MAX {
        Some(hex_value(d) as u32)
    } else {
        None
    }
}

/// A palette colour string (`"#rrggbb"`, the `#` optional) as RGB bytes;
/// anything that does not parse is black.
pub open spec fn spec_hex_color(s: Seq<char>) -> [u8; 3] {
    let v: u32 = match spec_parse_hex_u32(strip_hashes(s)) {
        Some(v) => v,
        None => 0,
    };
    [((v / 65536) % 256) as u8, ((v / 256) % 256) as u8, (v % 256) as u8]
}

proof fn lemma_hex_value_nonneg(s: Seq<char>)
    requires
        forall|i: int| 0 <= i < s.len() ==> #[trigger] hex_digit(s[i]) is Some,
    ensures
        hex_value(s) >= 0,
    decreases s.len(),
{
    if s.len() > 0 {
        lemma_hex_value_nonneg(s.drop_last());
        assert(hex_digit(s[s.len() - 1]) is Some);
    }
}

proof fn lemma_hex_prefix_bound(d: Seq<char>, n: int)
    requires
        0 <= n <= d.len(),
        all_hex(d),
    ensures
        hex_value(d) >= hex_value(d.subrange(0, n)),
    decreases d.len() - n,
{
    if n < d.len() {
        lemma_hex_prefix_bound(d, n + 1);
        let p = d.subrange(0, n + 1);
        assert(p.drop_last() =~= d.subrange(0, n));
        assert(p.last() == d[n]);
        assert(hex_digit(d[n]) is Some);
        lemma_hex_value_nonneg(d.subrange(0, n));
    } else {
        assert(d.subrange(0, n) =~= d);
    }
}

fn hex_digit_exec(c: char) -> (r: Option<u32>)
    ensures
        match hex_digit(c) {
            Some(v) => r == Some(v as u32),
            None => r is None,
        },
{
    if '0' <= c && c <= '9' {
        Some((c as u32) - ('0' as u32))
    } else if 'a' <= c && c <= 'f' {
        Some((c as u32) - ('a' as u32) + 10)
    } else if 'A' <= c && c <= 'F' {
        Some((c as u32) - ('A' as u32) + 10)
    } else {
        None
    }
}

/// Parse a palette colour string into RGB bytes: leading `#`s are skipped,
/// the rest is read as a hexadecimal `u32` (0 when it does not parse), and its
/// low three bytes are red, green and blue.
pub fn parse_hex_color(s: &str) -> (r: [u8; 3])
    ensures
        r@ == spec_hex_color(s@)@,
{
    let v = chars_of(s);
    let mut a: usize = 0;
    assert(v@.subrange(0, v@.len() as int) =~= v@);
    while a < v.len() && v[a] == '#'
        invariant
            a <= v.len(),
            strip_hashes(v@) == strip_hashes(v@.subrange(a as int, v.len() as int)),
        decreases v.len() - a,
    {
        proof {
            assert(v@.subrange(a as int, v.len() as int).drop_first() =~= v@.subrange(a + 1, v.len() as int));
        }
        a = a + 1;
    }
    let ghost t = v@.subrange(a as int, v.len() as int);
    assert(strip_hashes(t) == t);
    let start: usize = if a < v.len() && v[a] == '+' {
        a + 1
    } else {
        a
    };
    let ghost d = if t.len() > 0 && t[0] == '+' {
        t.drop_first()
    } else {
        t
    };
    assert(d =~= v@.subrange(start as int, v.len() as int));
    let mut value: u32 = 0;
    let mut ok = start < v.len();
    let mut i = start;
    while ok && i < v.len()
        invariant
            start <= i <= v.len(),
            d == v@.subrange(start as int, v.len() as int),
            spec_parse_hex_u32(t) == if all_hex(d) && hex_value(d) <= u32::MAX {
                Some(hex_value(d) as u32)
            } else {
                None
            },
            ok ==> d.len() > 0,
            ok ==> forall|k: int| start <= k < i ==> #[trigger] hex_digit(v@[k]) is Some,
            ok ==> value == hex_value(v@.subrange(start as int, i as int)),
            !ok ==> spec_parse_hex_u32(t) is None,
        decreases v.len() - i + if ok { 1int } else { 0int },
    {
        match hex_digit_exec(v[i]) {
            None => {
                proof {
                    assert(d[i - start] == v@[i as int]);
                }
                ok = false;
            },
            Some(digit) => {
                proof {
                    let sub = v@.subrange(start as int, i + 1);
                    assert(sub.drop_last() =~= v@.subrange(start as int, i as int));
                    assert(sub.last() == v@[i as int]);
                }
                if value > 0x0fff_ffff {
                    proof {
                        let sub = v@.subrange(start as int, i + 1);
                        if all_hex(d) {
                            lemma_hex_prefix_bound(d, (i + 1 - start) as int);
                            assert(d.subrange(0, i + 1 - start) =~= sub);
                            assert(hex_value(sub) == value * 16 + digit);
                        }
                    }
                    ok = false;
                } else {
                    value = value * 16 + digit;
                }
            },
        }
        if ok {
            i = i + 1;
        }
    }
    let parsed: u32 = if ok {
        assert(v@.subrange(start as int, v.len() as int) == d);
        value
    } else {
        0
    };
    assert(parsed == match spec_parse_hex_u32(strip_hashes(s@)) {
        Some(x) => x,
        None => 0u32,
    });
    assert(((parsed >> 16) & 0xff) == (parsed / 65536) % 256) by (bit_vector);
    assert(((parsed >> 8) & 0xff) == (parsed / 256) % 256) by (bit_vector);
    assert((parsed & 0xff) == parsed % 256) by (bit_vector);
    let r = [((parsed >> 16) & 0xff) as u8, ((parsed >> 8) & 0xff) as u8, (parsed & 0xff) as u8];
    assert(r@ =~= spec_hex_color(s@)@);
    r
}

/// A colour scheme written out in the configuration as colour strings.
#[derive(Clone, Debug)]
pub struct CustomPalette {
    pub foreground: String,
    pub background: String,
    pub cursor: String,
    /// The ANSI colours; only the first 16 are used.
    pub ansi: Vec<String>,
}

/// The concrete colours of a custom scheme: each colour string parsed as
/// [`parse_hex_color`] does; ANSI entries past the end of the list are black.
pub fn custom_scheme_palette(p: &CustomPalette) -> (r: SchemePalette)
    ensures
        r.fg@ == spec_hex_color(p.foreground@)@,
        r.bg@ == spec_hex_color(p.background@)@,
        forall|i: int|
            0 <= i < 16 ==> (#[trigger] r.ansi@[i])@ == if i < p.ansi@.len() {
                spec_hex_color(p.ansi@[i]@)@
            } else {
                seq![0u8, 0u8, 0u8]
            },
{
    let mut ansi: [[u8; 3]; 16] = [[0u8; 3]; 16];
    let mut i: usize = 0;
    while i < 16
        invariant
            i <= 16,
            forall|k: int|
                0 <= k < 16 ==> (#[trigger] ansi@[k])@ == if k < i && k < p.ansi@.len() {
                    spec_hex_color(p.ansi@[k]@)@
                } else {
                    seq![0u8, 0u8, 0u8]
                },
        decreases 16 - i,
    {
        if i < p.ansi.len() {
            ansi[i] = parse_hex_color(p.ansi[i].as_str());
        }
        i = i + 1;
    }
    SchemePalette {
        fg: parse_hex_color(p.foreground.as_str()),
        bg: parse_hex_color(p.background.as_str()),
        ansi,
    }
}

} // verus!
