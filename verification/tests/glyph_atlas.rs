use nexterm_client::glyph_atlas::{
    GlyphCache,
    grown_size, lru_cap_for_size, lru_cap_from_cell, sizes_from_config, FontRole, GlyphKey,
    ShelfPacker, ICON_RESERVED_AREA,
};
use nexterm_client::icons::{ALL_ICONS, ICON_COUNT};

#[test]
fn lru_cap_default_formula_less_the_icon_reservation() {
    let cap = lru_cap_from_cell(1024, 8, 8);
    assert_eq!(cap, ((1024 * 1024 - ICON_RESERVED_AREA) / 64) as usize);
}

#[test]
fn lru_cap_realistic_font() {
    let cap = lru_cap_from_cell(1024, 11, 22);
    let expected = ((1024u64 * 1024 - ICON_RESERVED_AREA) / (11u64 * 22)) as usize;
    assert_eq!(cap, expected);
    let default_cap = lru_cap_from_cell(1024, 8, 8);
    assert!(cap < default_cap);
}

#[test]
fn lru_cap_floor_at_256() {
    let cap = lru_cap_from_cell(64, 64, 64);
    assert_eq!(cap, 256);
}

#[test]
fn lru_cap_grows_quadratically_with_atlas_size() {
    let cap1 = lru_cap_from_cell(1024, 16, 32);
    let cap2 = lru_cap_from_cell(2048, 16, 32);
    assert!(cap2 > cap1 * 4, "{cap2} should exceed 4x {cap1}");
    assert!(cap2 < cap1 * 41 / 10, "{cap2} should stay near 4x {cap1}");
}

#[test]
fn lru_cap_survives_overflowing_atlas_size() {
    let cap = lru_cap_from_cell(100_000, 8, 8);
    assert!(cap >= 256);
    let expected = ((100_000u64 * 100_000 - ICON_RESERVED_AREA) / 64) as usize;
    assert_eq!(cap, expected);
}

#[test]
fn lru_cap_survives_an_atlas_smaller_than_the_icon_reservation() {
    let cap = lru_cap_from_cell(16, 8, 8);
    assert_eq!(cap, 256);
}

#[test]
fn terminal_and_icon_glyphs_do_not_share_a_cache_slot() {
    let ch = '\u{f101}';
    assert_ne!(
        GlyphKey::terminal(ch, false, false, false),
        GlyphKey::icon(ch, 16)
    );
}

#[test]
fn icon_glyphs_are_keyed_by_size() {
    let ch = '\u{f101}';
    assert_ne!(GlyphKey::icon(ch, 16), GlyphKey::icon(ch, 20));
    assert_eq!(GlyphKey::icon(ch, 16), GlyphKey::icon(ch, 16));
}

#[test]
fn terminal_keys_ignore_size_and_keep_their_style_flags() {
    let a = GlyphKey::terminal('A', false, false, false);
    assert_eq!(a.size_px(), 0);
    assert_eq!(a.role(), FontRole::Terminal);
    assert_ne!(a, GlyphKey::terminal('A', true, false, false));
    assert_ne!(a, GlyphKey::terminal('A', false, true, false));
    assert_ne!(a, GlyphKey::terminal('A', false, false, true));
}

#[test]
fn lru_cap_handles_zero_cell_dimensions() {
    let cap = lru_cap_from_cell(1024, 0, 0);
    assert!(cap >= 256);
}

#[test]
fn chrome_keys_carry_their_size_and_weight() {
    let k = GlyphKey::chrome('A', 12, true);
    assert_eq!(k.role(), FontRole::Chrome);
    assert_eq!(k.size_px(), 12);
    assert_ne!(k, GlyphKey::terminal('A', true, false, false));
}

#[test]
fn the_icon_reservation_covers_every_icon_at_every_step() {
    assert_eq!(ALL_ICONS.len(), ICON_COUNT);
    assert_eq!(ICON_RESERVED_AREA, ICON_COUNT as u64 * 3 * 24 * 24);
    assert!(ICON_RESERVED_AREA * 20 < 1024 * 1024);
}

#[test]
fn fresh_atlas_capacity_is_area_over_64_floored() {
    assert_eq!(lru_cap_for_size(1024), 1024 * 1024 / 64);
    assert_eq!(lru_cap_for_size(64), 256);
}

#[test]
fn configured_sizes_keep_the_minimum_and_halve_the_start() {
    assert_eq!(sizes_from_config(0), (1024, 1024));
    assert_eq!(sizes_from_config(4096), (2048, 4096));
    assert_eq!(sizes_from_config(1500), (1024, 1500));
}

#[test]
fn growth_doubles_up_to_the_maximum() {
    assert_eq!(grown_size(1024, 4096), 2048);
    assert_eq!(grown_size(2048, 3000), 3000);
    assert_eq!(grown_size(2048, 2048), 2048);
}

#[test]
fn shelf_packer_lays_glyphs_in_rows_and_resets_when_full() {
    let mut p = ShelfPacker::new(16, 32);
    let a = p.place(6, 4);
    assert_eq!((a.x, a.y, a.reset), (0, 0, false));
    let b = p.place(6, 5);
    assert_eq!((b.x, b.y, b.reset), (7, 0, false));
    // 14 + 6 > 16: wraps to the next shelf below the tallest glyph (5) + 1.
    let c = p.place(6, 4);
    assert_eq!((c.x, c.y, c.reset), (0, 6, false));
    let d = p.place(10, 4);
    assert_eq!((d.x, d.y), (0, 11));
    // 11 + 4 <= 16 keeps going, then a tall glyph no longer fits: reset.
    let e = p.place(4, 8);
    assert_eq!((e.x, e.y, e.reset), (0, 0, true));
    assert!(p.cleared_this_frame);
    assert!(p.needs_grow, "16 < 32 so the atlas asks to grow");
}

#[test]
fn packed_glyphs_never_overlap_between_resets() {
    let mut packer = ShelfPacker::new(64, 128);
    let mut placed: Vec<(u32, u32, u32, u32)> = Vec::new();
    let sizes = [(7, 9), (13, 4), (20, 20), (1, 30), (33, 2), (0, 5), (12, 12), (40, 17), (9, 9), (64, 3)];
    for round in 0..20 {
        let (w, h) = sizes[round % sizes.len()];
        let p = packer.place(w, h);
        if p.reset {
            placed.clear();
        }
        let r = (p.x, p.y, w, h);
        assert!(r.0 + r.2 <= 64 && r.1 + r.3 <= 64);
        for q in &placed {
            let apart = q.0 + q.2 <= r.0 || r.0 + r.2 <= q.0 || q.1 + q.3 <= r.1 || r.1 + r.3 <= q.1;
            assert!(apart, "{q:?} overlaps {r:?}");
        }
        placed.push(r);
    }
    assert!(packer.cleared_this_frame);
    assert!(packer.needs_grow);
}

#[test]
fn a_second_lookup_hits_the_cache_with_the_same_rectangle() {
    let mut c = GlyphCache::with_size(64, 128);
    let a = GlyphKey::terminal('a', false, false, false);
    let first = c.get_or_insert(a, 10, 12);
    assert!(first.fresh);
    assert_eq!(first.rect, (0, 0, 10, 12));
    let b = c.get_or_insert(GlyphKey::terminal('b', false, false, false), 10, 12);
    assert!(b.fresh);
    assert_eq!(b.rect, (11, 0, 10, 12));
    let again = c.get_or_insert(a, 10, 12);
    assert!(!again.fresh);
    assert_eq!(again.rect, (0, 0, 10, 12));
}

#[test]
fn distinct_keys_for_the_same_character_get_distinct_slots() {
    let mut c = GlyphCache::with_size(64, 64);
    let t = c.get_or_insert(GlyphKey::terminal('x', false, false, false), 8, 8);
    let bold = c.get_or_insert(GlyphKey::terminal('x', true, false, false), 8, 8);
    let icon = c.get_or_insert(GlyphKey::icon('x', 16), 8, 8);
    assert!(t.fresh && bold.fresh && icon.fresh);
    assert_ne!(t.rect, bold.rect);
    assert_ne!(bold.rect, icon.rect);
    assert_ne!(GlyphKey::icon('x', 16).code(), GlyphKey::icon('x', 20).code());
}

#[test]
fn a_full_atlas_resets_drops_the_cache_and_asks_to_grow() {
    let mut c = GlyphCache::with_size(20, 40);
    let a = GlyphKey::terminal('a', false, false, false);
    c.get_or_insert(a, 20, 12);
    assert!(!c.cleared_this_frame());
    let b = c.get_or_insert(GlyphKey::terminal('b', false, false, false), 20, 12);
    assert_eq!(b.rect, (0, 0, 20, 12));
    assert!(c.cleared_this_frame());
    assert!(c.needs_grow());
    // 'a' was dropped with the reset, so it is packed again.
    let a2 = c.get_or_insert(a, 20, 6);
    assert!(a2.fresh);
    c.clear_frame_flag();
    assert!(!c.cleared_this_frame());
}

#[test]
fn growing_doubles_the_side_and_keeps_the_cell_hint() {
    let mut c = GlyphCache::new_with_config(4096);
    assert_eq!(c.size(), 2048);
    c.update_capacity_hint(10, 20);
    c.get_or_insert(GlyphKey::terminal('a', false, false, false), 10, 20);
    let g = c.grow();
    assert_eq!(g.size(), 4096);
    assert!(g.cleared_this_frame());
    assert!(!g.needs_grow());
    let mut g = g;
    assert!(g.get_or_insert(GlyphKey::terminal('a', false, false, false), 10, 20).fresh);
}

#[test]
fn the_least_recently_used_glyph_is_evicted_when_the_cache_is_full() {
    // A 128 px atlas holds at most 256 entries (the capacity floor).
    let mut c = GlyphCache::with_size(128, 128);
    let first = GlyphKey::terminal('\u{100}', false, false, false);
    let second = GlyphKey::terminal('\u{101}', false, false, false);
    c.get_or_insert(first, 1, 1);
    c.get_or_insert(second, 1, 1);
    // Touch the first glyph so the second becomes the least recently used.
    assert!(!c.get_or_insert(first, 1, 1).fresh);
    for i in 0..255u32 {
        let ch = char::from_u32(0x200 + i).unwrap();
        c.get_or_insert(GlyphKey::terminal(ch, false, false, false), 1, 1);
    }
    assert!(!c.get_or_insert(first, 1, 1).fresh);
    assert!(c.get_or_insert(second, 1, 1).fresh);
}

#[test]
fn a_ligature_reset_drops_the_glyph_cache() {
    let mut c = GlyphCache::with_size(20, 20);
    let a = GlyphKey::terminal('a', false, false, false);
    c.get_or_insert(a, 20, 12);
    let p = c.place_ligature(20, 12);
    assert!(p.reset);
    assert!(!c.needs_grow());
    assert!(c.get_or_insert(a, 5, 5).fresh);
}

#[test]
fn glyphs_cached_since_the_last_reset_never_overlap() {
    let mut c = GlyphCache::with_size(64, 64);
    let mut live: Vec<(u32, u32, u32, u32)> = Vec::new();
    for i in 0..200u32 {
        let ch = char::from_u32(0x4e00 + i).unwrap();
        let slot = c.get_or_insert(GlyphKey::terminal(ch, false, false, false), 3 + i % 9, 4 + i % 7);
        if c.cleared_this_frame() {
            live.clear();
            c.clear_frame_flag();
        }
        live.push(slot.rect);
    }
    for (a, r) in live.iter().enumerate() {
        for s in &live[a + 1..] {
            let apart = r.0 + r.2 <= s.0 || s.0 + s.2 <= r.0 || r.1 + r.3 <= s.1 || s.1 + s.3 <= r.1;
            assert!(apart, "{r:?} overlaps {s:?}");
        }
    }
}
