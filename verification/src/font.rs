//! Glyph rasterisation: the integer side of turning shaped text into glyph
//! bitmaps.
//!
//! Shaping text and drawing its outlines is the font engine's job; around it
//! this module splits a row into runs that shape together, writes the engine's
//! coverage callbacks into an RGBA buffer, and cuts a shaped run's bitmap into
//! one bitmap per glyph.

use vstd::prelude::*;

verus! {

/// A rasterized glyph from ligature-aware shaping of one row.
#[derive(Clone, Debug)]
pub struct RenderedGlyph {
    /// Grid column the glyph starts at (0-based).
    pub col: usize,
    /// Bitmap width in pixels.
    pub width: u32,
    /// Bitmap height in pixels.
    pub height: u32,
    /// RGBA pixels, row by row.
    pub pixels: Vec<u8>,
}

/// One cell of a row to rasterise: grid column, character, bold, italic and
/// foreground colour (RGBA).
pub type StyledCell = (usize, char, bool, bool, [u8; 4]);

/// Two cells are drawn with the same attributes (weight, slant, colour).
pub open spec fn same_style(a: StyledCell, b: StyledCell) -> bool {
    a.2 == b.2 && a.3 == b.3 && a.4@ == b.4@
}

/// `runs` cuts `n` cells into consecutive non-empty runs `[start, end)`
/// that cover them in order.
pub open spec fn is_partition(runs: Seq<(usize, usize)>, n: int) -> bool {
    &&& n == 0 <==> runs.len() == 0
    &&& runs.len() > 0 ==> runs[0].0 == 0 && runs.last().1 == n
    &&& forall|k: int| 0 <= k < runs.len() ==> #[trigger] runs[k].0 < runs[k].1
    &&& forall|k: int| 0 <= k < runs.len() - 1 ==> #[trigger] runs[k].1 == runs[k + 1].0
}

/// Each run holds cells of its first cell's style and stops at the first
/// cell of another style.
pub open spec fn runs_are_maximal(cells: Seq<StyledCell>, runs: Seq<(usize, usize)>) -> bool {
    &&& forall|k: int, j: int|
        #![trigger runs[k], cells[j]]
        0 <= k < runs.len() && runs[k].0 <= j < runs[k].1 ==> same_style(cells[runs[k].0 as int], cells[j])
    &&& forall|k: int|
        0 <= k < runs.len() && runs[k].1 < cells.len() ==> !same_style(
            cells[#[trigger] runs[k].0 as int],
            cells[runs[k].1 as int],
        )
}

fn same_style_exec(a: &StyledCell, b: &StyledCell) -> (r: bool)
    ensures
        r == same_style(*a, *b),
{
    let r = a.2 == b.2 && a.3 == b.3 && a.4[0] == b.4[0] && a.4[1] == b.4[1] && a.4[2] == b.4[2]
        && a.4[3] == b.4[3];
    proof {
        if a.2 == b.2 && a.3 == b.3 && a.4[0] == b.4[0] && a.4[1] == b.4[1] && a.4[2] == b.4[2]
            && a.4[3] == b.4[3] {
            assert(a.4@ =~= b.4@);
        }
    }
    r
}

/// The runs of a row that are shaped together: maximal stretches of cells
/// sharing their weight, slant and colour (ligatures do not cross an
/// attribute change).
pub fn attribute_runs(cells: &[StyledCell]) -> (runs: Vec<(usize, usize)>)
    ensures
        is_partition(runs@, cells@.len() as int),
        runs_are_maximal(cells@, runs@),
{
    let mut runs: Vec<(usize, usize)> = Vec::new();
    let mut start: usize = 0;
    while start < cells.len()
        invariant
            start <= cells@.len(),
            start == 0 <==> runs@.len() == 0,
            runs@.len() > 0 ==> runs@[0].0 == 0 && runs@.last().1 == start,
            forall|k: int| 0 <= k < runs@.len() ==> #[trigger] runs@[k].0 < runs@[k].1,
            forall|k: int| 0 <= k < runs@.len() - 1 ==> #[trigger] runs@[k].1 == runs@[k + 1].0,
            runs_are_maximal(cells@, runs@),
        decreases cells@.len() - start,
    {
        let mut end: usize = start + 1;
        while end < cells.len()
            invariant
                start < end <= cells@.len(),
                forall|j: int| start <= j < end ==> same_style(cells@[start as int], #[trigger] cells@[j]),
            ensures
                start < end <= cells@.len(),
                forall|j: int| start <= j < end ==> same_style(cells@[start as int], #[trigger] cells@[j]),
                end < cells@.len() ==> !same_style(cells@[start as int], cells@[end as int]),
            decreases cells@.len() - end,
        {
            if !same_style_exec(&cells[start], &cells[end]) {
                break;
            }
            end = end + 1;
        }
        let ghost before = runs@;
        runs.push((start, end));
        proof {
            assert forall|k: int, j: int|
                #![trigger runs@[k], cells@[j]]
                0 <= k < runs@.len() && runs@[k].0 <= j < runs@[k].1 implies same_style(
                cells@[runs@[k].0 as int],
                cells@[j],
            ) by {
                if k < before.len() {
                    assert(runs@[k] == before[k]);
                }
            }
            assert forall|k: int|
                0 <= k < runs@.len() && runs@[k].1 < cells@.len() implies !same_style(
                cells@[#[trigger] runs@[k].0 as int],
                cells@[runs@[k].1 as int],
            ) by {
                if k < before.len() {
                    assert(runs@[k] == before[k]);
                }
            }
        }
        start = end;
    }
    runs
}

/// A colour premultiplied by its alpha: each channel scaled by `a / 255`
/// (rounding down), alpha kept.
pub open spec fn premultiplied(r: u8, g: u8, b: u8, a: u8) -> Seq<u8> {
    seq![(r * a / 255) as u8, (g * a / 255) as u8, (b * a / 255) as u8, a]
}

/// The colour `(r, g, b, a)` premultiplied by its alpha.
pub fn premultiply(r: u8, g: u8, b: u8, a: u8) -> (p: [u8; 4])
    ensures
        p@ == premultiplied(r, g, b, a),
{
    assert(r as u32 * a as u32 <= 255 * 255) by (nonlinear_arith)
        requires
            r <= 255,
            a <= 255,
    ;
    assert(g as u32 * a as u32 <= 255 * 255) by (nonlinear_arith)
        requires
            g <= 255,
            a <= 255,
    ;
    assert(b as u32 * a as u32 <= 255 * 255) by (nonlinear_arith)
        requires
            b <= 255,
            a <= 255,
    ;
    let p = [
        (r as u32 * a as u32 / 255) as u8,
        (g as u32 * a as u32 / 255) as u8,
        (b as u32 * a as u32 / 255) as u8,
        a,
    ];
    assert(p@ =~= premultiplied(r, g, b, a));
    p
}

/// Where pixel `(x, y)` of a `w × h` RGBA bitmap starts, if it lies inside
/// the bitmap and its four bytes inside a buffer of `len` bytes.
pub open spec fn pixel_offset(w: u32, h: u32, len: int, x: i32, y: i32) -> Option<int> {
    if x < 0 || y < 0 || x >= w || y >= h {
        None
    } else {
        let idx = (y * w + x) * 4;
        if idx + 3 < len {
            Some(idx)
        } else {
            None
        }
    }
}

/// Write the premultiplied colour `(r, g, b, a)` at pixel `(x, y)` of a
/// `w × h` RGBA bitmap, as the font engine reports coverage there; pixels
/// outside the bitmap (such as a left bearing's negative coordinates) are
/// dropped.
pub fn put_pixel(pixels: &mut Vec<u8>, w: u32, h: u32, x: i32, y: i32, r: u8, g: u8, b: u8, a: u8)
    ensures
        final(pixels)@ == match pixel_offset(w, h, old(pixels)@.len() as int, x, y) {
            Some(i) => {
                let p = premultiplied(r, g, b, a);
                old(pixels)@.update(i, p[0]).update(i + 1, p[1]).update(i + 2, p[2]).update(i + 3, p[3])
            },
            None => old(pixels)@,
        },
{
    if x < 0 || y < 0 {
        return;
    }
    let px = x as u32;
    let py = y as u32;
    if px < w && py < h {
        assert(py as int * w as int + px as int <= h as int * w as int - 1) by (nonlinear_arith)
            requires
                py < h,
                px < w,
        ;
        assert(h as int * w as int <= 0xffff_ffff * 0xffff_ffff) by (nonlinear_arith)
            requires
                h <= 0xffff_ffff,
                w <= 0xffff_ffff,
        ;
        let cell: u64 = py as u64 * w as u64 + px as u64;
        let quads: u64 = pixels.len() as u64 / 4;
        assert(cell * 4 + 3 < pixels@.len() <==> cell < quads) by (nonlinear_arith)
            requires
                quads == pixels@.len() / 4,
        ;
        if cell < quads {
            let i = (cell * 4) as usize;
            let p = premultiply(r, g, b, a);
            pixels.set(i, p[0]);
            pixels.set(i + 1, p[1]);
            pixels.set(i + 2, p[2]);
            pixels.set(i + 3, p[3]);
        }
    }
}


/// Byte `d` of the bitmap cut out of a `total_w`-pixel-wide RGBA bitmap
/// `full`, `width` pixels wide from column `x_start`: the byte of the
/// corresponding pixel when that whole pixel lies inside `full`, else 0.
pub open spec fn cropped_byte(full: Seq<u8>, total_w: int, x_start: int, width: int, d: int) -> u8 {
    let pix = d / 4;
    let src = ((pix / width) * total_w + x_start + pix % width) * 4;
    if src + 3 < full.len() {
        full[src + d % 4]
    } else {
        0
    }
}

/// The width a glyph keeps inside a `total_w`-pixel-wide bitmap when it
/// starts at `x_start` and is `width` pixels wide.
pub open spec fn clipped_width(total_w: u32, x_start: u32, width: u32) -> u32 {
    let room = if x_start <= total_w { (total_w - x_start) as u32 } else { 0u32 };
    if width < room { width } else { room }
}

/// The glyph at grid column `col` cut out of a shaped run's bitmap `full`
/// (`total_w × cell_h` RGBA pixels): `width` pixels from column `x_start`,
/// clipped to the bitmap. A glyph with nothing left after clipping is
/// dropped.
pub fn cut_glyph(full: &Vec<u8>, total_w: u32, cell_h: u32, col: usize, x_start: u32, width: u32) -> (g: Option<
    RenderedGlyph,
>)
    requires
        total_w as int * cell_h as int * 4 <= u32::MAX,
    ensures
        ({
            let w = clipped_width(total_w, x_start, width);
            match g {
                None => w == 0,
                Some(g) => {
                    &&& w > 0
                    &&& g.col == col && g.width == w && g.height == cell_h
                    &&& g.pixels@.len() == w * cell_h * 4
                    &&& forall|d: int|
                        0 <= d < g.pixels@.len() ==> #[trigger] g.pixels@[d] == cropped_byte(
                            full@,
                            total_w as int,
                            x_start as int,
                            w as int,
                            d,
                        )
                },
            }
        }),
{
    let room: u32 = if x_start <= total_w {
        total_w - x_start
    } else {
        0
    };
    let w: u32 = if width < room {
        width
    } else {
        room
    };
    if w == 0 {
        return None;
    }
    assert(w as int * cell_h as int * 4 <= total_w as int * cell_h as int * 4) by (nonlinear_arith)
        requires
            w <= total_w,
    ;
    let len: usize = (w as u64 * cell_h as u64 * 4) as usize;
    let mut pixels: Vec<u8> = Vec::new();
    let mut d: usize = 0;
    while d < len
        invariant
            d <= len,
            len == w * cell_h * 4,
            0 < w <= total_w,
            x_start + w <= total_w,
            total_w as int * cell_h as int * 4 <= u32::MAX,
            pixels@.len() == d,
            forall|e: int|
                0 <= e < d ==> #[trigger] pixels@[e] == cropped_byte(full@, total_w as int, x_start as int, w as int, e),
        decreases len - d,
    {
        let pix: u64 = d as u64 / 4;
        let row: u64 = pix / w as u64;
        let c: u64 = pix % w as u64;
        assert(row < cell_h) by (nonlinear_arith)
            requires
                pix == d as int / 4,
                row == pix as int / w as int,
                d < w as int * cell_h as int * 4,
                w > 0,
        ;
        assert((row as int) * (total_w as int) + (x_start as int) + (c as int) < (total_w as int) * (cell_h as int)) by (nonlinear_arith)
            requires
                row < cell_h,
                c < w,
                x_start + w <= total_w,
        ;
        let src: u64 = (row * total_w as u64 + x_start as u64 + c) * 4;
        let b: u8 = if src + 3 < full.len() as u64 {
            full[(src + (d as u64 % 4)) as usize]
        } else {
            0
        };
        pixels.push(b);
        d = d + 1;
    }
    Some(RenderedGlyph { col, width: w, height: cell_h, pixels })
}

} // verus!
