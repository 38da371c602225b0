//! Glyph atlas bookkeeping: the cache keys of rasterised glyphs, the LRU
//! capacity derived from the atlas and cell sizes, the atlas size schedule,
//! and the shelf packer that assigns each new glyph its place in the
//! texture. Uploading pixels and caching the resulting rectangles is the
//! renderer's job.

use std::num::NonZeroUsize;
use lru::LruCache;
use vstd::prelude::*;
use crate::icons::ICON_COUNT;

verus! {

/// Largest pixel size a chrome icon is drawn at.
pub const MAX_ICON_PX: u64 = 24;
/// How many icon size steps one icon can occupy in the cache at once.
pub const ICON_SIZE_STEPS: u64 = 3;
/// Atlas area reserved for chrome icons, excluded from the cell-based LRU
/// capacity.
pub const ICON_RESERVED_AREA: u64 = 18 * 3 * 24 * 24;

/// Initial atlas side when no configuration asks otherwise.
pub const SIZE_INIT: u32 = 1024;
/// Default maximum atlas side.
pub const SIZE_MAX_DEFAULT: u32 = 2048;

/// The icon reservation is the whole icon set at every size step.
pub proof fn lemma_icon_reservation_covers_the_icon_set()
    ensures
        ICON_RESERVED_AREA == ICON_COUNT * ICON_SIZE_STEPS * MAX_ICON_PX * MAX_ICON_PX,
        ICON_RESERVED_AREA * 20 < 1024 * 1024,
{
}

/// Which font a cached glyph was rasterised from.
#[derive(Debug, Clone, Copy, PartialEq, Eq, Hash, Structural)]
pub enum FontRole {
    /// The terminal font at the cell size.
    Terminal,
    /// The bundled icon font at an explicit pixel size.
    Icon,
    /// The terminal font at a chrome type-ramp size.
    Chrome,
}

/// Cache key of a single-character glyph. Constructed through
/// [`GlyphKey::terminal`], [`GlyphKey::icon`] or [`GlyphKey::chrome`], so a
/// call site always says which font it means.
#[derive(Debug, Clone, Copy, PartialEq, Eq, Hash, Structural)]
pub struct GlyphKey {
    ch: char,
    bold: bool,
    italic: bool,
    wide: bool,
    role: FontRole,
    /// Rasterised size in whole pixels; always 0 for terminal glyphs, whose
    /// size is the cell.
    size_px: u16,
}

impl GlyphKey {
    pub closed spec fn spec_fields(&self) -> (char, bool, bool, bool, FontRole, u16) {
        (self.ch, self.bold, self.italic, self.wide, self.role, self.size_px)
    }

    /// A key is its fields: two keys with the same fields are the same key.
    pub proof fn lemma_fields_determine_key(a: GlyphKey, b: GlyphKey)
        ensures
            a.spec_fields() == b.spec_fields() <==> a == b,
    {
    }

    /// A glyph of the terminal font at the cell size.
    pub fn terminal(ch: char, bold: bool, italic: bool, wide: bool) -> (k: Self)
        ensures
            k.spec_fields() == (ch, bold, italic, wide, FontRole::Terminal, 0u16),
    {
        GlyphKey { ch, bold, italic, wide, role: FontRole::Terminal, size_px: 0 }
    }

    /// A chrome icon of the icon font at `size_px` pixels.
    pub fn icon(ch: char, size_px: u16) -> (k: Self)
        ensures
            k.spec_fields() == (ch, false, false, false, FontRole::Icon, size_px),
    {
        GlyphKey { ch, bold: false, italic: false, wide: false, role: FontRole::Icon, size_px }
    }

    /// A glyph of the terminal font at a chrome type-ramp size.
    pub fn chrome(ch: char, size_px: u16, bold: bool) -> (k: Self)
        ensures
            k.spec_fields() == (ch, bold, false, false, FontRole::Chrome, size_px),
    {
        GlyphKey { ch, bold, italic: false, wide: false, role: FontRole::Chrome, size_px }
    }

    /// The character.
    pub fn ch(&self) -> (c: char)
        ensures
            c == self.spec_fields().0,
    {
        self.ch
    }

    /// Which font it comes from.
    pub fn role(&self) -> (r: FontRole)
        ensures
            r == self.spec_fields().4,
    {
        self.role
    }

    /// Its rasterised size in pixels.
    pub fn size_px(&self) -> (s: u16)
        ensures
            s == self.spec_fields().5,
    {
        self.size_px
    }
}

/// Keys of different fonts never share a cache slot, and icons of different
/// sizes never share one either.
pub proof fn lemma_glyph_keys_separate(k1: GlyphKey, k2: GlyphKey)
    requires
        k1.spec_fields().4 != k2.spec_fields().4 || k1.spec_fields().5 != k2.spec_fields().5,
    ensures
        k1 != k2,
{
}

/// `v` clamped to `[256, usize::MAX]`.
pub open spec fn lru_floor(v: int) -> int {
    let a = if v < 256 { 256 } else { v };
    if a > usize::MAX { usize::MAX as int } else { a }
}

pub open spec fn sat_mul_u64(a: int, b: int) -> int {
    if a * b > u64::MAX { u64::MAX as int } else { a * b }
}

/// LRU capacity of an atlas of side `atlas_size` for cells of
/// `cell_w × cell_h`: the atlas area (saturating) less the icon reservation
/// (saturating at 0), divided by the cell area (at least 1), floored at 256.
pub open spec fn spec_lru_cap_from_cell(atlas_size: u32, cell_w: u32, cell_h: u32) -> int {
    let atlas_sq = sat_mul_u64(atlas_size as int, atlas_size as int);
    let cell_area = sat_mul_u64(cell_w as int, cell_h as int);
    let cell_area = if cell_area < 1 { 1 } else { cell_area };
    let usable = if atlas_sq > ICON_RESERVED_AREA { atlas_sq - ICON_RESERVED_AREA } else { 0 };
    lru_floor(usable / cell_area)
}

/// The product of two `u32`s, which always fits in a `u64` (so the
/// saturating multiplication never saturates).
fn mul_u32s(a: u32, b: u32) -> (r: u64)
    ensures
        r == sat_mul_u64(a as int, b as int),
        r == a as int * b as int,
{
    assert(a as int * b as int <= 0xffff_ffff * 0xffff_ffff) by (nonlinear_arith)
        requires
            a <= 0xffff_ffff,
            b <= 0xffff_ffff,
    ;
    assert(0 <= a as int * b as int) by (nonlinear_arith);
    (a as u64) * (b as u64)
}

/// LRU capacity derived from the font cell size.
pub fn lru_cap_from_cell(atlas_size: u32, cell_w: u32, cell_h: u32) -> (cap: usize)
    ensures
        cap == spec_lru_cap_from_cell(atlas_size, cell_w, cell_h),
        cap >= 256,
{
    let atlas_sq = mul_u32s(atlas_size, atlas_size);
    let area = mul_u32s(cell_w, cell_h);
    let cell_area = if area < 1 { 1 } else { area };
    let usable = atlas_sq.saturating_sub(ICON_RESERVED_AREA);
    let q = usable / cell_area;
    let floored = if q < 256 { 256 } else { q };
    if floored > usize::MAX as u64 {
        usize::MAX
    } else {
        floored as usize
    }
}

/// LRU capacity of a fresh atlas of side `size`, sized for the smallest
/// (8 × 8) glyphs: the area (saturating) over 64, floored at 256.
pub fn lru_cap_for_size(size: u32) -> (cap: usize)
    ensures
        cap == lru_floor(sat_mul_u64(size as int, size as int) / 64),
        cap >= 256,
{
    let atlas_sq = mul_u32s(size, size);
    let q = atlas_sq / 64;
    let floored = if q < 256 { 256 } else { q };
    if floored > usize::MAX as u64 {
        usize::MAX
    } else {
        floored as usize
    }
}

/// Initial and maximum atlas sides for a configured `atlas_size`: the
/// maximum is the configured size but at least `SIZE_INIT`, the initial
/// side half of it but at least `SIZE_INIT`.
pub fn sizes_from_config(atlas_size: u32) -> (r: (u32, u32))
    ensures
        r.1 == if atlas_size > SIZE_INIT { atlas_size } else { SIZE_INIT },
        r.0 == if r.1 / 2 > SIZE_INIT { r.1 / 2 } else { SIZE_INIT },
        r.0 <= r.1,
{
    let max = if atlas_size > SIZE_INIT { atlas_size } else { SIZE_INIT };
    let half = max / 2;
    let init = if half > SIZE_INIT { half } else { SIZE_INIT };
    (init, max)
}

/// The side after one growth step: doubled, capped at `size_max`.
pub fn grown_size(size: u32, size_max: u32) -> (s: u32)
    requires
        size as int * 2 <= u32::MAX,
    ensures
        s == if size * 2 < size_max { size * 2 } else { size_max as int },
{
    let doubled = size * 2;
    if doubled < size_max {
        doubled
    } else {
        size_max
    }
}

/// The shelf packer of the atlas: glyphs are laid left to right in rows
/// ("shelves") one pixel apart; a glyph that does not fit the row starts a
/// new one, and when the atlas is full everything is discarded and packing
/// restarts at the origin (asking for a bigger atlas if one is allowed).
#[derive(Debug, Clone, Copy)]
pub struct ShelfPacker {
    /// Side of the (square) atlas.
    pub size: u32,
    /// Largest side the atlas may grow to.
    pub size_max: u32,
    /// Next column to write to.
    pub cursor_x: u32,
    /// Top of the current row.
    pub cursor_y: u32,
    /// Height of the tallest glyph in the current row.
    pub row_height: u32,
    /// The atlas was reset this frame, so cached rectangles are stale.
    pub cleared_this_frame: bool,
    /// The atlas should grow before the next frame.
    pub needs_grow: bool,
}

/// Where a glyph went: its top-left corner, and whether the atlas had to be
/// reset to make room (every earlier placement is then invalid).
#[derive(Debug, Clone, Copy, PartialEq, Eq, Structural)]
pub struct Placement {
    pub x: u32,
    pub y: u32,
    pub reset: bool,
}

/// The packer after placing a `width × height` glyph, and the placement:
/// past the right edge the glyph starts a new row one pixel below the
/// tallest glyph of the current one; past the bottom the atlas is reset and
/// the glyph goes to the origin (and growth is requested while the atlas is
/// below its largest size). The next glyph goes one pixel to the right.
pub open spec fn spec_place(s: ShelfPacker, width: u32, height: u32) -> (ShelfPacker, Placement) {
    let wraps = s.cursor_x + width > s.size;
    let y0 = if wraps { s.cursor_y + s.row_height + 1 } else { s.cursor_y as int };
    let x0 = if wraps { 0 } else { s.cursor_x as int };
    let h0 = if wraps { 0 } else { s.row_height as int };
    let full = y0 + height > s.size;
    let x = if full { 0 } else { x0 };
    let y = if full { 0 } else { y0 };
    let h = if full {
        height as int
    } else if h0 > height {
        h0
    } else {
        height as int
    };
    (
        ShelfPacker {
            size: s.size,
            size_max: s.size_max,
            cursor_x: (x + width + 1) as u32,
            cursor_y: y as u32,
            row_height: h as u32,
            cleared_this_frame: s.cleared_this_frame || full,
            needs_grow: s.needs_grow || (full && s.size < s.size_max),
        },
        Placement { x: x as u32, y: y as u32, reset: full },
    )
}

/// A placed rectangle: left, top, width, height.
pub type Rect = (u32, u32, u32, u32);

/// Two rectangles share no pixel.
pub open spec fn disjoint(a: Rect, b: Rect) -> bool {
    a.0 + a.2 <= b.0 || b.0 + b.2 <= a.0 || a.1 + a.3 <= b.1 || b.1 + b.3 <= a.1
}

/// The rectangles placed since the last reset lie where the packer will not
/// place again: in finished rows above the current one, or in the current
/// row left of the cursor and no taller than the row.
pub open spec fn packed(s: ShelfPacker, placed: Seq<Rect>) -> bool {
    forall|i: int|
        0 <= i < placed.len() ==> {
            let r = #[trigger] placed[i];
            ||| r.1 + r.3 < s.cursor_y
            ||| r.1 == s.cursor_y && r.3 <= s.row_height && r.0 + r.2 < s.cursor_x
        }
}

/// Packing never overlaps: a glyph placed without a reset shares no pixel
/// with any glyph placed since the last reset, and the packing invariant
/// carries over to the new state (starting afresh after a reset).
pub proof fn lemma_place_keeps_packing(s: ShelfPacker, placed: Seq<Rect>, width: u32, height: u32)
    requires
        s.wf(),
        width <= s.size,
        height <= s.size,
        packed(s, placed),
    ensures
        ({
            let (s2, p) = spec_place(s, width, height);
            let r: Rect = (p.x, p.y, width, height);
            &&& !p.reset ==> forall|i: int| 0 <= i < placed.len() ==> disjoint(#[trigger] placed[i], r)
            &&& !p.reset ==> packed(s2, placed.push(r))
            &&& p.reset ==> packed(s2, seq![r])
        }),
{
    let (s2, p) = spec_place(s, width, height);
    let r: Rect = (p.x, p.y, width, height);
    if !p.reset {
        assert forall|i: int| 0 <= i < placed.len() implies disjoint(#[trigger] placed[i], r) by {
            let q = placed[i];
            assert(q.1 + q.3 < s.cursor_y || (q.1 == s.cursor_y && q.3 <= s.row_height && q.0 + q.2 < s.cursor_x));
        }
        let n = placed.push(r);
        assert forall|i: int| 0 <= i < n.len() implies {
            let q = #[trigger] n[i];
            ||| q.1 + q.3 < s2.cursor_y
            ||| q.1 == s2.cursor_y && q.3 <= s2.row_height && q.0 + q.2 < s2.cursor_x
        } by {
            if i < placed.len() {
                assert(n[i] == placed[i]);
                let q = placed[i];
                assert(q.1 + q.3 < s.cursor_y || (q.1 == s.cursor_y && q.3 <= s.row_height && q.0 + q.2 < s.cursor_x));
            }
        }
    }
}

impl ShelfPacker {
    /// The packer's bookkeeping stays within the atlas, and the atlas is
    /// small enough for the packing arithmetic.
    pub open spec fn wf(&self) -> bool {
        &&& self.size <= 0x4000_0000
        &&& self.cursor_x <= self.size + 1
        &&& self.cursor_y <= self.size
        &&& self.row_height <= self.size
    }

    /// The empty packer of an atlas of side `size` that may grow to
    /// `size_max`.
    pub open spec fn new_spec(size: u32, size_max: u32) -> Self {
        ShelfPacker {
            size,
            size_max,
            cursor_x: 0,
            cursor_y: 0,
            row_height: 0,
            cleared_this_frame: false,
            needs_grow: false,
        }
    }

    /// An empty packer for an atlas of side `size` that may grow to
    /// `size_max`.
    pub fn new(size: u32, size_max: u32) -> (p: Self)
        requires
            size <= 0x4000_0000,
        ensures
            p.wf(),
            p == Self::new_spec(size, size_max),
    {
        ShelfPacker {
            size,
            size_max,
            cursor_x: 0,
            cursor_y: 0,
            row_height: 0,
            cleared_this_frame: false,
            needs_grow: false,
        }
    }

    /// Reserve a `width × height` place for a new glyph.
    pub fn place(&mut self, width: u32, height: u32) -> (p: Placement)
        requires
            old(self).wf(),
            width <= old(self).size,
            height <= old(self).size,
        ensures
            final(self).wf(),
            final(self).size == old(self).size,
            final(self).size_max == old(self).size_max,
            p.x + width <= final(self).size,
            p.y + height <= final(self).size,
            (*final(self), p) == spec_place(*old(self), width, height),
    {
        if self.cursor_x + width > self.size {
            self.cursor_y = self.cursor_y + self.row_height + 1;
            self.cursor_x = 0;
            self.row_height = 0;
        }
        let mut reset = false;
        if self.cursor_y as u64 + height as u64 > self.size as u64 {
            self.cursor_x = 0;
            self.cursor_y = 0;
            self.row_height = 0;
            self.cleared_this_frame = true;
            reset = true;
            if self.size < self.size_max {
                self.needs_grow = true;
            }
        }
        let placement = Placement { x: self.cursor_x, y: self.cursor_y, reset };
        self.cursor_x = self.cursor_x + width + 1;
        if height > self.row_height {
            self.row_height = height;
        }
        placement
    }
}


// ---- The glyph cache ----

/// `lru::LruCache`, the least-recently-used cache the glyph rectangles are
/// kept in; what it holds is stated through `lru_entries` and
/// `lru_capacity`.
#[verifier::external_type_specification]
#[verifier::external_body]
#[verifier::reject_recursive_types(K)]
#[verifier::reject_recursive_types(V)]
#[verifier::reject_recursive_types(S)]
pub struct ExLruCache<K, V, S>(LruCache<K, V, S>);

/// `lru::DefaultHasher`, the hash builder of an `LruCache`.
#[verifier::external_type_specification]
#[verifier::external_body]
pub struct ExLruHasher(lru::DefaultHasher);

/// The entries of an LRU cache of rectangles, most recently used first.
pub uninterp spec fn lru_entries(c: LruCache<u64, Rect>) -> Seq<(u64, Rect)>;

/// The number of entries an LRU cache of rectangles holds at most.
pub uninterp spec fn lru_capacity(c: LruCache<u64, Rect>) -> nat;

/// The position of the entry for `k`, searching from the most recent.
pub open spec fn entry_index(e: Seq<(u64, Rect)>, k: u64) -> Option<int>
    decreases e.len(),
{
    if e.len() == 0 {
        None
    } else if e[0].0 == k {
        Some(0)
    } else {
        match entry_index(e.drop_first(), k) {
            Some(i) => Some(i + 1),
            None => None,
        }
    }
}

/// Entry `i` moved to the front (it has just been used).
pub open spec fn touch(e: Seq<(u64, Rect)>, i: int) -> Seq<(u64, Rect)> {
    seq![e[i]] + e.remove(i)
}

/// The entries after putting `(k, v)` into a cache of capacity `cap`: an
/// entry for `k` is replaced and moved to the front; otherwise the new entry
/// goes to the front, pushing out the least recently used entry when the
/// cache is full.
pub open spec fn entries_after_put(e: Seq<(u64, Rect)>, cap: nat, k: u64, v: Rect) -> Seq<(u64, Rect)> {
    match entry_index(e, k) {
        Some(i) => seq![(k, v)] + e.remove(i),
        None => if e.len() == cap {
            seq![(k, v)] + e.drop_last()
        } else {
            seq![(k, v)] + e
        },
    }
}

/// A new cache holding at most `cap` entries (`LruCache::new`).
#[verifier::external_body]
fn lru_new(cap: usize) -> (c: LruCache<u64, Rect>)
    requires
        cap > 0,
    ensures
        lru_entries(c) == Seq::<(u64, Rect)>::empty(),
        lru_capacity(c) == cap,
{
    LruCache::new(NonZeroUsize::new(cap).unwrap_or(NonZeroUsize::MIN))
}

/// The value cached for `k`, which becomes the most recently used entry
/// (`LruCache::get`).
#[verifier::external_body]
fn lru_get(c: &mut LruCache<u64, Rect>, k: u64) -> (r: Option<Rect>)
    ensures
        lru_capacity(*final(c)) == lru_capacity(*old(c)),
        match entry_index(lru_entries(*old(c)), k) {
            Some(i) => r == Some(lru_entries(*old(c))[i].1) && lru_entries(*final(c)) == touch(
                lru_entries(*old(c)),
                i,
            ),
            None => r is None && lru_entries(*final(c)) == lru_entries(*old(c)),
        },
{
    c.get(&k).copied()
}

/// Caches `v` for `k` (`LruCache::put`).
#[verifier::external_body]
fn lru_put(c: &mut LruCache<u64, Rect>, k: u64, v: Rect)
    ensures
        lru_capacity(*final(c)) == lru_capacity(*old(c)),
        lru_entries(*final(c)) == entries_after_put(lru_entries(*old(c)), lru_capacity(*old(c)), k, v),
{
    c.put(k, v);
}

/// Drops every entry (`LruCache::clear`).
#[verifier::external_body]
fn lru_clear(c: &mut LruCache<u64, Rect>)
    ensures
        lru_capacity(*final(c)) == lru_capacity(*old(c)),
        lru_entries(*final(c)) == Seq::<(u64, Rect)>::empty(),
{
    c.clear();
}

/// Changes the capacity to `cap`, dropping the least recently used entries
/// that no longer fit (`LruCache::resize`).
#[verifier::external_body]
fn lru_resize(c: &mut LruCache<u64, Rect>, cap: usize)
    requires
        cap > 0,
    ensures
        lru_capacity(*final(c)) == cap,
        lru_entries(*final(c)) == if lru_capacity(*old(c)) != cap && lru_entries(*old(c)).len() > cap {
            lru_entries(*old(c)).take(cap as int)
        } else {
            lru_entries(*old(c))
        },
{
    c.resize(NonZeroUsize::new(cap).unwrap_or(NonZeroUsize::MIN));
}


/// The digit decomposition `low + radix * high` with `low < radix` is
/// unique.
proof fn lemma_digits_unique(l1: int, h1: int, l2: int, h2: int, radix: int)
    by (nonlinear_arith)
    requires
        radix > 0,
        0 <= l1 < radix,
        0 <= l2 < radix,
        l1 + radix * h1 == l2 + radix * h2,
    ensures
        l1 == l2,
        h1 == h2,
{
}

/// The number of a font role in a glyph's cache code.
pub open spec fn role_number(r: FontRole) -> int {
    match r {
        FontRole::Terminal => 0,
        FontRole::Icon => 1,
        FontRole::Chrome => 2,
    }
}

/// The integer a glyph key is cached under: the character in the low 21
/// bits, then the bold, italic and wide flags, the font role (two bits) and
/// the pixel size.
pub open spec fn glyph_code(f: (char, bool, bool, bool, FontRole, u16)) -> int {
    let flags = (if f.1 { 1int } else { 0 }) + 2 * (if f.2 { 1int } else { 0 }) + 4 * (if f.3 {
        1int
    } else {
        0
    }) + 8 * role_number(f.4) + 32 * (f.5 as int);
    (f.0 as int) + 0x20_0000 * flags
}

impl GlyphKey {
    /// The integer this key is cached under.
    pub fn code(&self) -> (c: u64)
        ensures
            c == glyph_code(self.spec_fields()),
    {
        let role: u64 = match self.role {
            FontRole::Terminal => 0,
            FontRole::Icon => 1,
            FontRole::Chrome => 2,
        };
        let flags: u64 = (if self.bold { 1u64 } else { 0 }) + 2 * (if self.italic { 1u64 } else { 0 }) + 4
            * (if self.wide { 1u64 } else { 0 }) + 8 * role + 32 * (self.size_px as u64);
        assert(flags <= 7 + 16 + 32 * 0xffff);
        assert(0x20_0000 * flags <= 0x20_0000 * (7 + 16 + 32 * 0xffff)) by (nonlinear_arith)
            requires
                flags <= 7 + 16 + 32 * 0xffff,
        ;
        (self.ch as u64) + 0x20_0000 * flags
    }
}

/// Different glyph keys are cached under different integers.
pub proof fn lemma_glyph_code_injective(k1: GlyphKey, k2: GlyphKey)
    requires
        glyph_code(k1.spec_fields()) == glyph_code(k2.spec_fields()),
    ensures
        k1 == k2,
{
    let f1 = k1.spec_fields();
    let f2 = k2.spec_fields();
    let b = |x: bool| if x { 1int } else { 0 };
    let hi1 = b(f1.1) + 2 * b(f1.2) + 4 * b(f1.3) + 8 * role_number(f1.4) + 32 * (f1.5 as int);
    let hi2 = b(f2.1) + 2 * b(f2.2) + 4 * b(f2.3) + 8 * role_number(f2.4) + 32 * (f2.5 as int);
    assert((f1.0 as int) < 0x20_0000 && (f2.0 as int) < 0x20_0000);
    lemma_digits_unique(f1.0 as int, hi1, f2.0 as int, hi2, 0x20_0000);
    let r1 = b(f1.2) + 2 * b(f1.3) + 4 * role_number(f1.4) + 16 * (f1.5 as int);
    let r2 = b(f2.2) + 2 * b(f2.3) + 4 * role_number(f2.4) + 16 * (f2.5 as int);
    lemma_digits_unique(b(f1.1), r1, b(f2.1), r2, 2);
    let q1 = b(f1.3) + 2 * role_number(f1.4) + 8 * (f1.5 as int);
    let q2 = b(f2.3) + 2 * role_number(f2.4) + 8 * (f2.5 as int);
    lemma_digits_unique(b(f1.2), q1, b(f2.2), q2, 2);
    let t1 = role_number(f1.4) + 4 * (f1.5 as int);
    let t2 = role_number(f2.4) + 4 * (f2.5 as int);
    lemma_digits_unique(b(f1.3), t1, b(f2.3), t2, 2);
    lemma_digits_unique(role_number(f1.4), f1.5 as int, role_number(f2.4), f2.5 as int, 4);
    assert(f1 == f2);
}


/// `entry_index` finds an entry exactly when one has the key, and points at
/// one that has it.
proof fn lemma_entry_index(e: Seq<(u64, Rect)>, k: u64)
    ensures
        match entry_index(e, k) {
            Some(i) => 0 <= i < e.len() && e[i].0 == k,
            None => forall|j: int| 0 <= j < e.len() ==> e[j].0 != k,
        },
    decreases e.len(),
{
    if e.len() > 0 && e[0].0 != k {
        lemma_entry_index(e.drop_first(), k);
        if entry_index(e.drop_first(), k) is None {
            assert forall|j: int| 0 <= j < e.len() implies e[j].0 != k by {
                if j > 0 {
                    assert(e[j] == e.drop_first()[j - 1]);
                }
            }
        }
    }
}

/// Where entry `a` of `touch(e, i)` came from in `e`.
pub open spec fn touch_source(i: int, a: int) -> int {
    if a == 0 {
        i
    } else if a <= i {
        a - 1
    } else {
        a
    }
}

/// Touching an entry only reorders the entries: each comes from its own
/// place.
proof fn lemma_touch(e: Seq<(u64, Rect)>, i: int)
    requires
        0 <= i < e.len(),
    ensures
        touch(e, i).len() == e.len(),
        forall|a: int|
            0 <= a < e.len() ==> 0 <= touch_source(i, a) < e.len() && #[trigger] touch(e, i)[a] == e[touch_source(
                i,
                a,
            )],
        forall|a: int, c: int|
            0 <= a < c < e.len() ==> #[trigger] touch_source(i, a) != #[trigger] touch_source(i, c),
{
}

/// A rectangle lies where the packer will not place again: in a finished
/// row, or in the current row left of the cursor and no taller than it.
pub open spec fn behind(s: ShelfPacker, r: Rect) -> bool {
    ||| r.1 + r.3 < s.cursor_y
    ||| r.1 == s.cursor_y && r.3 <= s.row_height && r.0 + r.2 < s.cursor_x
}

/// The cached rectangles, most recently used first.
pub open spec fn rects_of(e: Seq<(u64, Rect)>) -> Seq<Rect> {
    Seq::new(e.len(), |i: int| e[i].1)
}

/// The cache entries are a valid picture of the atlas: one entry per key,
/// no more than the capacity, each inside the atlas and behind the packer's
/// cursor, no two overlapping.
pub open spec fn entries_wf(s: ShelfPacker, e: Seq<(u64, Rect)>, cap: nat) -> bool {
    &&& 0 < cap
    &&& e.len() <= cap
    &&& forall|i: int, j: int| 0 <= i < j < e.len() ==> #[trigger] e[i].0 != #[trigger] e[j].0
    &&& forall|i: int, j: int| 0 <= i < j < e.len() ==> disjoint(#[trigger] e[i].1, #[trigger] e[j].1)
    &&& forall|i: int|
        0 <= i < e.len() ==> #[trigger] behind(s, e[i].1) && e[i].1.0 + e[i].1.2 <= s.size && e[i].1.1
            + e[i].1.3 <= s.size
}

/// What `get_or_insert` hands back: the glyph's rectangle in the atlas, and
/// whether it was just allocated (its pixels still have to be uploaded).
#[derive(Debug, Clone, Copy)]
pub struct GlyphSlot {
    pub rect: Rect,
    pub fresh: bool,
}

/// The glyph atlas's bookkeeping: the shelf packer, and the LRU cache from
/// glyph keys to the rectangles their bitmaps occupy.
pub struct GlyphCache {
    packer: ShelfPacker,
    rects: LruCache<u64, Rect>,
    cell_w_hint: u32,
    cell_h_hint: u32,
}

impl GlyphCache {
    /// The packer state.
    pub closed spec fn packer_spec(&self) -> ShelfPacker {
        self.packer
    }

    /// The cached `(key code, rectangle)` entries, most recently used first.
    pub closed spec fn entries_spec(&self) -> Seq<(u64, Rect)> {
        lru_entries(self.rects)
    }

    /// How many glyphs the cache holds at most.
    pub closed spec fn capacity_spec(&self) -> nat {
        lru_capacity(self.rects)
    }

    /// The cell size the capacity was last derived from (0 × 0 before).
    pub closed spec fn hints_spec(&self) -> (u32, u32) {
        (self.cell_w_hint, self.cell_h_hint)
    }

    /// The cache is consistent with the packer (see `entries_wf`).
    pub open spec fn wf(&self) -> bool {
        &&& self.packer_spec().wf()
        &&& entries_wf(self.packer_spec(), self.entries_spec(), self.capacity_spec())
    }

    /// An empty atlas of side `size` that may grow to `size_max`, with the
    /// capacity sized for 8 × 8 glyphs.
    pub fn with_size(size: u32, size_max: u32) -> (c: Self)
        requires
            size <= 0x4000_0000,
        ensures
            c.wf(),
            c.packer_spec() == ShelfPacker::new_spec(size, size_max),
            c.entries_spec() == Seq::<(u64, Rect)>::empty(),
            c.capacity_spec() == lru_floor(sat_mul_u64(size as int, size as int) / 64),
            c.hints_spec() == (0u32, 0u32),
    {
        let cap = lru_cap_for_size(size);
        GlyphCache {
            packer: ShelfPacker::new(size, size_max),
            rects: lru_new(cap),
            cell_w_hint: 0,
            cell_h_hint: 0,
        }
    }

    /// The atlas for a configured `atlas_size`: it starts at half the
    /// configured size (at least `SIZE_INIT`) and may grow to the configured
    /// size (at least `SIZE_INIT`).
    pub fn new_with_config(atlas_size: u32) -> (c: Self)
        requires
            atlas_size <= 0x4000_0000,
        ensures
            c.wf(),
            ({
                let max = if atlas_size > SIZE_INIT { atlas_size } else { SIZE_INIT };
                let init = if max / 2 > SIZE_INIT { (max / 2) as u32 } else { SIZE_INIT };
                &&& c.packer_spec() == ShelfPacker::new_spec(init, max)
                &&& c.capacity_spec() == lru_floor(sat_mul_u64(init as int, init as int) / 64)
            }),
            c.entries_spec() == Seq::<(u64, Rect)>::empty(),
            c.hints_spec() == (0u32, 0u32),
    {
        let (init, max) = sizes_from_config(atlas_size);
        Self::with_size(init, max)
    }

    /// The atlas side.
    pub fn size(&self) -> (s: u32)
        ensures
            s == self.packer_spec().size,
    {
        self.packer.size
    }

    /// The largest side the atlas may grow to.
    pub fn size_max(&self) -> (s: u32)
        ensures
            s == self.packer_spec().size_max,
    {
        self.packer.size_max
    }

    /// Whether the atlas was reset since the flag was last cleared, so
    /// rectangles handed out before are stale and the frame must be redrawn.
    pub fn cleared_this_frame(&self) -> (b: bool)
        ensures
            b == self.packer_spec().cleared_this_frame,
    {
        self.packer.cleared_this_frame
    }

    /// Whether the atlas filled up below its largest size and should grow.
    pub fn needs_grow(&self) -> (b: bool)
        ensures
            b == self.packer_spec().needs_grow,
    {
        self.packer.needs_grow
    }

    /// Forget that the atlas was reset (the redraw it asked for is done).
    pub fn clear_frame_flag(&mut self)
        requires
            old(self).wf(),
        ensures
            final(self).wf(),
            final(self).packer_spec() == (ShelfPacker { cleared_this_frame: false, ..old(self).packer_spec() }),
            final(self).entries_spec() == old(self).entries_spec(),
            final(self).capacity_spec() == old(self).capacity_spec(),
            final(self).hints_spec() == old(self).hints_spec(),
    {
        let ghost e = self.entries_spec();
        let ghost s0 = self.packer;
        self.packer.cleared_this_frame = false;
        proof {
            assert forall|i: int| 0 <= i < e.len() implies #[trigger] behind(self.packer, e[i].1) && e[i].1.0
                + e[i].1.2 <= self.packer.size && e[i].1.1 + e[i].1.3 <= self.packer.size by {
                assert(behind(s0, e[i].1));
            }
        }
    }

    /// Re-derive the capacity from the font's cell size (after a font, size
    /// or DPI change); the least recently used glyphs that no longer fit are
    /// dropped.
    pub fn update_capacity_hint(&mut self, cell_w: u32, cell_h: u32)
        requires
            old(self).wf(),
        ensures
            final(self).wf(),
            final(self).capacity_spec() == spec_lru_cap_from_cell(old(self).packer_spec().size, cell_w, cell_h),
            final(self).entries_spec() == if old(self).entries_spec().len() > final(self).capacity_spec() {
                old(self).entries_spec().take(final(self).capacity_spec() as int)
            } else {
                old(self).entries_spec()
            },
            final(self).packer_spec() == old(self).packer_spec(),
            final(self).hints_spec() == (cell_w, cell_h),
    {
        let cap = lru_cap_from_cell(self.packer.size, cell_w, cell_h);
        lru_resize(&mut self.rects, cap);
        self.cell_w_hint = cell_w;
        self.cell_h_hint = cell_h;
        proof {
            let e = old(self).entries_spec();
            let t = self.entries_spec();
            assert forall|i: int, j: int| 0 <= i < j < t.len() implies #[trigger] t[i].0 != #[trigger] t[j].0
                && disjoint(t[i].1, t[j].1) by {
                assert(t[i] == e[i] && t[j] == e[j]);
            }
            assert forall|i: int| 0 <= i < t.len() implies #[trigger] behind(self.packer, t[i].1) && t[i].1.0
                + t[i].1.2 <= self.packer.size && t[i].1.1 + t[i].1.3 <= self.packer.size by {
                assert(t[i] == e[i]);
                assert(behind(old(self).packer_spec(), e[i].1));
            }
        }
    }

    /// The rectangle of the glyph `key`, `width × height` pixels: the cached
    /// one if there is one (it becomes the most recently used), otherwise a
    /// freshly packed one, which is cached (evicting the least recently used
    /// glyph when the cache is full). When packing had to reset the atlas the
    /// whole cache is dropped first.
    pub fn get_or_insert(&mut self, key: GlyphKey, width: u32, height: u32) -> (slot: GlyphSlot)
        requires
            old(self).wf(),
            width <= old(self).packer_spec().size,
            height <= old(self).packer_spec().size,
        ensures
            final(self).wf(),
            final(self).capacity_spec() == old(self).capacity_spec(),
            final(self).hints_spec() == old(self).hints_spec(),
            match entry_index(old(self).entries_spec(), glyph_code(key.spec_fields()) as u64) {
                Some(i) => {
                    &&& slot == GlyphSlot { rect: old(self).entries_spec()[i].1, fresh: false }
                    &&& final(self).entries_spec() == touch(old(self).entries_spec(), i)
                    &&& final(self).packer_spec() == old(self).packer_spec()
                },
                None => {
                    let (s2, p) = spec_place(old(self).packer_spec(), width, height);
                    let kept = if p.reset {
                        Seq::<(u64, Rect)>::empty()
                    } else {
                        old(self).entries_spec()
                    };
                    &&& slot == GlyphSlot { rect: (p.x, p.y, width, height), fresh: true }
                    &&& final(self).packer_spec() == s2
                    &&& final(self).entries_spec() == entries_after_put(
                        kept,
                        old(self).capacity_spec(),
                        glyph_code(key.spec_fields()) as u64,
                        slot.rect,
                    )
                },
            },
    {
        let code = key.code();
        let ghost e0 = self.entries_spec();
        let ghost s0 = self.packer;
        proof {
            lemma_entry_index(e0, code);
        }
        match lru_get(&mut self.rects, code) {
            Some(rect) => {
                proof {
                    let i = entry_index(e0, code)->0;
                    let t = self.entries_spec();
                    lemma_touch(e0, i);
                    assert forall|a: int, c: int| 0 <= a < c < t.len() implies #[trigger] t[a].0 != #[trigger] t[c].0
                        && disjoint(t[a].1, t[c].1) by {
                        let ba = touch_source(i, a);
                        let bc = touch_source(i, c);
                        if ba < bc {
                            assert(e0[ba].0 != e0[bc].0 && disjoint(e0[ba].1, e0[bc].1));
                        } else {
                            assert(e0[bc].0 != e0[ba].0 && disjoint(e0[bc].1, e0[ba].1));
                        }
                    }
                    assert forall|a: int| 0 <= a < t.len() implies #[trigger] behind(self.packer, t[a].1) && t[a].1.0
                        + t[a].1.2 <= self.packer.size && t[a].1.1 + t[a].1.3 <= self.packer.size by {
                        assert(behind(s0, e0[touch_source(i, a)].1));
                    }
                }
                GlyphSlot { rect, fresh: false }
            },
            None => {
                proof {
                    assert forall|a: int| 0 <= a < rects_of(e0).len() implies {
                        let r = #[trigger] rects_of(e0)[a];
                        ||| r.1 + r.3 < s0.cursor_y
                        ||| r.1 == s0.cursor_y && r.3 <= s0.row_height && r.0 + r.2 < s0.cursor_x
                    } by {
                        assert(behind(s0, e0[a].1));
                    }
                    lemma_place_keeps_packing(s0, rects_of(e0), width, height);
                }
                let p = self.packer.place(width, height);
                if p.reset {
                    lru_clear(&mut self.rects);
                }
                let rect: Rect = (p.x, p.y, width, height);
                let ghost kept = self.entries_spec();
                lru_put(&mut self.rects, code, rect);
                proof {
                    lemma_entry_index(kept, code);
                    let t = self.entries_spec();
                    let cap = self.capacity_spec();
                    assert(t == seq![(code, rect)] + (if kept.len() == cap { kept.drop_last() } else { kept }));
                    assert forall|a: int| 1 <= a < t.len() implies t[a] == kept[a - 1] by {}
                    assert forall|a: int| 0 <= a < kept.len() implies disjoint(#[trigger] kept[a].1, rect) && behind(
                        self.packer,
                        kept[a].1,
                    ) by {
                        assert(!p.reset);
                        assert(rects_of(e0)[a] == e0[a].1);
                        assert(rects_of(e0).push(rect)[a] == e0[a].1);
                    }
                    assert(behind(self.packer, rect)) by {
                        if !p.reset {
                            assert(rects_of(e0).push(rect)[rects_of(e0).len() as int] == rect);
                        } else {
                            assert(seq![rect][0] == rect);
                        }
                    }
                    assert forall|a: int, c: int| 0 <= a < c < t.len() implies #[trigger] t[a].0 != #[trigger] t[c].0
                        && disjoint(t[a].1, t[c].1) by {
                        if a == 0 {
                            assert(t[c] == kept[c - 1]);
                            assert(disjoint(kept[c - 1].1, rect));
                        } else {
                            assert(t[a] == kept[a - 1] && t[c] == kept[c - 1]);
                        }
                    }
                    assert forall|a: int| 0 <= a < t.len() implies #[trigger] behind(self.packer, t[a].1) && t[a].1.0
                        + t[a].1.2 <= self.packer.size && t[a].1.1 + t[a].1.3 <= self.packer.size by {
                        if a > 0 {
                            assert(t[a] == kept[a - 1]);
                            assert(behind(self.packer, kept[a - 1].1));
                            assert(behind(s0, e0[a - 1].1));
                        }
                    }
                }
                GlyphSlot { rect, fresh: true }
            },
        }
    }
}


impl GlyphCache {
    /// Reserve a `width × height` place for a ligature glyph (cached by the
    /// renderer, keyed by its shaping context). When packing resets the
    /// atlas the glyph cache is dropped too; the caller drops its ligature
    /// cache on a reset placement.
    pub fn place_ligature(&mut self, width: u32, height: u32) -> (p: Placement)
        requires
            old(self).wf(),
            width <= old(self).packer_spec().size,
            height <= old(self).packer_spec().size,
        ensures
            final(self).wf(),
            (final(self).packer_spec(), p) == spec_place(old(self).packer_spec(), width, height),
            final(self).entries_spec() == if p.reset {
                Seq::<(u64, Rect)>::empty()
            } else {
                old(self).entries_spec()
            },
            final(self).capacity_spec() == old(self).capacity_spec(),
            final(self).hints_spec() == old(self).hints_spec(),
    {
        let ghost e0 = self.entries_spec();
        let ghost s0 = self.packer;
        proof {
            assert forall|a: int| 0 <= a < rects_of(e0).len() implies {
                let r = #[trigger] rects_of(e0)[a];
                ||| r.1 + r.3 < s0.cursor_y
                ||| r.1 == s0.cursor_y && r.3 <= s0.row_height && r.0 + r.2 < s0.cursor_x
            } by {
                assert(behind(s0, e0[a].1));
            }
            lemma_place_keeps_packing(s0, rects_of(e0), width, height);
        }
        let p = self.packer.place(width, height);
        if p.reset {
            lru_clear(&mut self.rects);
        } else {
            proof {
                assert forall|a: int| 0 <= a < e0.len() implies #[trigger] behind(self.packer, e0[a].1) && e0[a].1.0
                    + e0[a].1.2 <= self.packer.size && e0[a].1.1 + e0[a].1.3 <= self.packer.size by {
                    assert(rects_of(e0).push((p.x, p.y, width, height))[a] == e0[a].1);
                    assert(behind(s0, e0[a].1));
                }
            }
        }
        p
    }

    /// The next, larger atlas once this one has filled up: twice the side
    /// (at most the largest size), empty, flagged as reset so the frame is
    /// redrawn, and with the capacity re-derived from the cell size when one
    /// is known.
    pub fn grow(self) -> (c: Self)
        requires
            self.wf(),
            grown_side(self.packer_spec()) <= 0x4000_0000,
        ensures
            c.wf(),
            c.packer_spec() == (ShelfPacker {
                cleared_this_frame: true,
                ..ShelfPacker::new_spec(grown_side(self.packer_spec()) as u32, self.packer_spec().size_max)
            }),
            c.entries_spec() == Seq::<(u64, Rect)>::empty(),
            c.hints_spec() == self.hints_spec(),
            c.capacity_spec() == if self.hints_spec().0 > 0 && self.hints_spec().1 > 0 {
                spec_lru_cap_from_cell(grown_side(self.packer_spec()) as u32, self.hints_spec().0, self.hints_spec().1)
            } else {
                lru_floor(sat_mul_u64(grown_side(self.packer_spec()), grown_side(self.packer_spec())) / 64)
            },
    {
        let new_size = grown_size(self.packer.size, self.packer.size_max);
        let mut c = GlyphCache::with_size(new_size, self.packer.size_max);
        c.packer.cleared_this_frame = true;
        if self.cell_w_hint > 0 && self.cell_h_hint > 0 {
            c.update_capacity_hint(self.cell_w_hint, self.cell_h_hint);
        } else {
            c.cell_w_hint = self.cell_w_hint;
            c.cell_h_hint = self.cell_h_hint;
        }
        c
    }
}

/// The side after one growth step: doubled, capped at the largest size.
pub open spec fn grown_side(s: ShelfPacker) -> int {
    if s.size * 2 < s.size_max {
        s.size * 2
    } else {
        s.size_max as int
    }
}

/// Cached rectangles never overlap: no two glyphs share a pixel of the
/// atlas.
pub proof fn lemma_cached_glyphs_do_not_overlap(c: GlyphCache, i: int, j: int)
    requires
        c.wf(),
        0 <= i < c.entries_spec().len(),
        0 <= j < c.entries_spec().len(),
        i != j,
    ensures
        disjoint(c.entries_spec()[i].1, c.entries_spec()[j].1),
{
    let e = c.entries_spec();
    if i < j {
        assert(disjoint(e[i].1, e[j].1));
    } else {
        assert(disjoint(e[j].1, e[i].1));
    }
}

/// A glyph just looked up or inserted is the most recently used entry and
/// holds the rectangle handed out, so asking for it again is a cache hit
/// that returns the same rectangle.
pub proof fn lemma_lookup_after_insert(e: Seq<(u64, Rect)>, cap: nat, code: u64, rect: Rect)
    ensures
        entry_index(entries_after_put(e, cap, code, rect), code) == Some(0int),
        entries_after_put(e, cap, code, rect)[0] == (code, rect),
        entry_index(e, code) matches Some(i) ==> entry_index(touch(e, i), code) == Some(0int) && touch(
            e,
            i,
        )[0] == e[i],
{
    lemma_entry_index(e, code);
}

} // verus!
