//! Image import support: fitting a source image into the cell grid with
//! letterboxing, quantizing pixels to the terminal palette, and
//! rasterizing a pixel grid to cells. Decoding and scaling the image file
//! itself is the front-end's work; this module consumes plain pixels.

use vstd::prelude::*;

use crate::cell::{best_idx_upto, color256_rgb_spec, color256_to_rgb, empty_cell, nearest_256, Cell, Rgb};

verus! {

/// How the image should be scaled to fit the canvas.
#[derive(Clone, Copy, PartialEq, Eq, Structural, Debug)]
pub enum FitMode {
    FitToCanvas,
    CustomSize(usize, usize),
}

/// Color quantization mode.
#[derive(Clone, Copy, PartialEq, Eq, Structural, Debug)]
pub enum ImportColorMode {
    Color256,
    Color16,
}

/// Character set for rasterization.
#[derive(Clone, Copy, PartialEq, Eq, Structural, Debug)]
pub enum ImportCharSet {
    FullBlocks,
    HalfBlocks,
}

/// Import configuration.
pub struct ImportOptions {
    pub fit_mode: FitMode,
    pub color_mode: ImportColorMode,
    pub char_set: ImportCharSet,
}

impl Default for ImportOptions {
    fn default() -> (o: ImportOptions)
        ensures
            o.fit_mode == FitMode::FitToCanvas,
            o.color_mode == ImportColorMode::Color256,
            o.char_set == ImportCharSet::HalfBlocks,
    {
        ImportOptions {
            fit_mode: FitMode::FitToCanvas,
            color_mode: ImportColorMode::Color256,
            char_set: ImportCharSet::HalfBlocks,
        }
    }
}

/// Errors during image import.
#[derive(Debug)]
pub enum ImportError {
    FileNotFound,
    InvalidFormat(String),
    DecodeFailed(String),
}

/// The scaled size and letterbox offsets that fit a source image into a
/// target box while preserving aspect ratio: the tighter axis is filled,
/// the other is scaled proportionally with rounding to nearest, clamped
/// into the box, and the remainder splits evenly into offsets.
pub open spec fn compute_fit_spec(sw: int, sh: int, tw: int, th: int) -> (int, int, int, int) {
    if sw == 0 || sh == 0 || tw == 0 || th == 0 {
        (0, 0, 0, 0)
    } else {
        let raw_w = if tw * sh <= th * sw {
            tw
        } else {
            (2 * sw * th + sh) / (2 * sh)
        };
        let raw_h = if tw * sh <= th * sw {
            (2 * sh * tw + sw) / (2 * sw)
        } else {
            th
        };
        let cw = if raw_w < 1 {
            1
        } else if raw_w > tw {
            tw
        } else {
            raw_w
        };
        let ch = if raw_h < 1 {
            1
        } else if raw_h > th {
            th
        } else {
            raw_h
        };
        (cw, ch, (tw - cw) / 2, (th - ch) / 2)
    }
}

/// Compute the scaled image dimensions that fit the target while
/// preserving aspect ratio, and the letterbox offsets that center them.
pub fn compute_fit(src_w: usize, src_h: usize, target_w: usize, target_h: usize) -> (r: (
    usize,
    usize,
    usize,
    usize,
))
    requires
        src_w <= u32::MAX,
        src_h <= u32::MAX,
        target_w <= u32::MAX,
        target_h <= u32::MAX,
    ensures
        (r.0 as int, r.1 as int, r.2 as int, r.3 as int) == compute_fit_spec(
            src_w as int,
            src_h as int,
            target_w as int,
            target_h as int,
        ),
{
    if src_w == 0 || src_h == 0 || target_w == 0 || target_h == 0 {
        return (0, 0, 0, 0);
    }
    let sw = src_w as u128;
    let sh = src_h as u128;
    let tw = target_w as u128;
    let th = target_h as u128;
    proof {
        assert(tw * sh < 0x1_0000_0000_0000_0000 && th * sw < 0x1_0000_0000_0000_0000 && sw * th
            < 0x1_0000_0000_0000_0000 && sh * tw < 0x1_0000_0000_0000_0000)
            by (nonlinear_arith)
            requires
                tw <= 0xffff_ffff,
                sh <= 0xffff_ffff,
                th <= 0xffff_ffff,
                sw <= 0xffff_ffff,
        ;
        assert(2 * (sw * th) + sh < 0x4_0000_0000_0000_0000 && 2 * (sh * tw) + sw
            < 0x4_0000_0000_0000_0000) by (nonlinear_arith)
            requires
                sw * th < 0x1_0000_0000_0000_0000,
                sh * tw < 0x1_0000_0000_0000_0000,
                sh <= 0xffff_ffff,
                sw <= 0xffff_ffff,
        ;
        assert(2 * sw * th == 2 * (sw * th) && 2 * sh * tw == 2 * (sh * tw)) by (nonlinear_arith);
    }
    let wide = tw * sh <= th * sw;
    let raw_w: u128 = if wide {
        tw
    } else {
        (2 * sw * th + sh) / (2 * sh)
    };
    let raw_h: u128 = if wide {
        (2 * sh * tw + sw) / (2 * sw)
    } else {
        th
    };
    proof {
        assert(raw_w <= tw || raw_w == (2 * sw * th + sh) / (2 * sh));
        assert((2 * sw * th + sh) / (2 * sh) <= (2 * sw * th + sh)) by (nonlinear_arith)
            requires
                sh >= 1,
        ;
    }
    let cw: u128 = if raw_w < 1 {
        1
    } else if raw_w > tw {
        tw
    } else {
        raw_w
    };
    let ch: u128 = if raw_h < 1 {
        1
    } else if raw_h > th {
        th
    } else {
        raw_h
    };
    ((cw as usize), (ch as usize), (((tw - cw) / 2) as usize), (((th - ch) / 2) as usize))
}

/// The quantized color of a pixel: the nearest palette color in the
/// selected depth.
pub open spec fn quantize_spec(r: u8, g: u8, b: u8, mode: ImportColorMode) -> Rgb {
    let src = Rgb { r, g, b };
    match mode {
        ImportColorMode::Color256 => color256_rgb_spec(best_idx_upto(src, 256)),
        ImportColorMode::Color16 => color256_rgb_spec(best_idx_upto(src, 16)),
    }
}

/// The lowest index of the sixteen base terminal colors nearest to the
/// given color.
pub fn nearest_16(color: &Rgb) -> (idx: u8)
    ensures
        idx as int == best_idx_upto(*color, 16),
{
    crate::cell::nearest_upto(color, 16)
}

/// Quantize an RGB pixel to the nearest color of the selected palette
/// depth.
pub fn quantize(r: u8, g: u8, b: u8, color_mode: ImportColorMode) -> (c: Rgb)
    ensures
        c == quantize_spec(r, g, b, color_mode),
{
    let src = Rgb { r, g, b };
    let idx = match color_mode {
        ImportColorMode::Color256 => nearest_256(&src),
        ImportColorMode::Color16 => nearest_16(&src),
    };
    color256_to_rgb(idx)
}

/// The pixel at (x, y), or nothing when the coordinate is outside the
/// pixel grid.
pub open spec fn pixel_at(px: Seq<Vec<Option<(u8, u8, u8)>>>, x: int, y: int) -> Option<
    (u8, u8, u8),
> {
    if 0 <= y < px.len() && 0 <= x < px[y]@.len() {
        px[y]@[x]
    } else {
        None
    }
}

/// The cell a full-block rasterization gives one pixel: the pixel's
/// quantized color as background, or the empty cell where the pixel is
/// absent or transparent.
pub open spec fn full_block_cell(
    px: Seq<Vec<Option<(u8, u8, u8)>>>,
    x: int,
    y: int,
    mode: ImportColorMode,
) -> Cell {
    match pixel_at(px, x, y) {
        Some(p) => Cell { ch: ' ', fg: None, bg: Some(quantize_spec(p.0, p.1, p.2, mode)) },
        None => empty_cell(),
    }
}

/// Rasterize to full-block cells: each pixel becomes one cell carrying its
/// quantized color as background.
pub fn rasterize_full_blocks(
    pixels: &Vec<Vec<Option<(u8, u8, u8)>>>,
    cell_w: usize,
    cell_h: usize,
    color_mode: ImportColorMode,
) -> (cells: Vec<Vec<Cell>>)
    ensures
        cells@.len() == cell_h,
        forall|y: int| 0 <= y < cell_h ==> (#[trigger] cells@[y])@.len() == cell_w,
        forall|y: int, x: int|
            #![trigger cells@[y], full_block_cell(pixels@, x, y, color_mode)]
            0 <= y < cell_h && 0 <= x < cell_w ==> cells@[y]@[x] == full_block_cell(
                pixels@,
                x,
                y,
                color_mode,
            ),
{
    let mut cells: Vec<Vec<Cell>> = Vec::new();
    let mut y: usize = 0;
    while y < cell_h
        invariant
            y <= cell_h,
            cells@.len() == y,
            forall|j: int| 0 <= j < y ==> (#[trigger] cells@[j])@.len() == cell_w,
            forall|j: int, x: int|
                #![trigger cells@[j], full_block_cell(pixels@, x, j, color_mode)]
                0 <= j < y && 0 <= x < cell_w ==> cells@[j]@[x] == full_block_cell(
                    pixels@,
                    x,
                    j,
                    color_mode,
                ),
        decreases cell_h - y,
    {
        let mut row: Vec<Cell> = Vec::new();
        let mut x: usize = 0;
        while x < cell_w
            invariant
                x <= cell_w,
                y < cell_h,
                row@.len() == x,
                forall|i: int|
                    0 <= i < x ==> #[trigger] row@[i] == full_block_cell(
                        pixels@,
                        i,
                        y as int,
                        color_mode,
                    ),
            decreases cell_w - x,
        {
            let mut cell = Cell::empty();
            if y < pixels.len() {
                if x < pixels[y].len() {
                    match pixels[y][x] {
                        Some((r, g, b)) => {
                            cell = Cell { ch: ' ', fg: None, bg: Some(quantize(r, g, b, color_mode)) };
                        },
                        None => {},
                    }
                }
            }
            row.push(cell);
            x = x + 1;
        }
        cells.push(row);
        y = y + 1;
    }
    cells
}

/// The cell a half-block rasterization gives one cell position: the two
/// stacked pixels of the column decide the glyph and the two colors.
pub open spec fn half_block_cell(
    px: Seq<Vec<Option<(u8, u8, u8)>>>,
    cx: int,
    cy: int,
    mode: ImportColorMode,
) -> Cell {
    let upper = pixel_at(px, cx, 2 * cy);
    let lower = pixel_at(px, cx, 2 * cy + 1);
    match (upper, lower) {
        (None, None) => empty_cell(),
        (Some(u), None) => Cell {
            ch: crate::blocks::UPPER_HALF,
            fg: Some(quantize_spec(u.0, u.1, u.2, mode)),
            bg: None,
        },
        (None, Some(l)) => Cell {
            ch: crate::blocks::LOWER_HALF,
            fg: Some(quantize_spec(l.0, l.1, l.2, mode)),
            bg: None,
        },
        (Some(u), Some(l)) => Cell {
            ch: crate::blocks::UPPER_HALF,
            fg: Some(quantize_spec(u.0, u.1, u.2, mode)),
            bg: Some(quantize_spec(l.0, l.1, l.2, mode)),
        },
    }
}

/// Rasterize to half-block cells: each pair of pixel rows becomes one cell
/// row of upper/lower half blocks.
pub fn rasterize_half_blocks(
    pixels: &Vec<Vec<Option<(u8, u8, u8)>>>,
    cell_w: usize,
    cell_h: usize,
    color_mode: ImportColorMode,
) -> (cells: Vec<Vec<Cell>>)
    requires
        cell_h <= usize::MAX / 2,
    ensures
        cells@.len() == cell_h,
        forall|y: int| 0 <= y < cell_h ==> (#[trigger] cells@[y])@.len() == cell_w,
        forall|y: int, x: int|
            #![trigger cells@[y], half_block_cell(pixels@, x, y, color_mode)]
            0 <= y < cell_h && 0 <= x < cell_w ==> cells@[y]@[x] == half_block_cell(
                pixels@,
                x,
                y,
                color_mode,
            ),
{
    let mut cells: Vec<Vec<Cell>> = Vec::new();
    let mut cy: usize = 0;
    while cy < cell_h
        invariant
            cy <= cell_h,
            cell_h <= usize::MAX / 2,
            cells@.len() == cy,
            forall|j: int| 0 <= j < cy ==> (#[trigger] cells@[j])@.len() == cell_w,
            forall|j: int, x: int|
                #![trigger cells@[j], half_block_cell(pixels@, x, j, color_mode)]
                0 <= j < cy && 0 <= x < cell_w ==> cells@[j]@[x] == half_block_cell(
                    pixels@,
                    x,
                    j,
                    color_mode,
                ),
        decreases cell_h - cy,
    {
        let upper_row = cy * 2;
        let lower_row = cy * 2 + 1;
        let mut row: Vec<Cell> = Vec::new();
        let mut cx: usize = 0;
        while cx < cell_w
            invariant
                cx <= cell_w,
                cy < cell_h,
                cell_h <= usize::MAX / 2,
                upper_row == 2 * cy,
                lower_row == 2 * cy + 1,
                row@.len() == cx,
                forall|i: int|
                    0 <= i < cx ==> #[trigger] row@[i] == half_block_cell(
                        pixels@,
                        i,
                        cy as int,
                        color_mode,
                    ),
            decreases cell_w - cx,
        {
            let upper = pixel_get(pixels, cx, upper_row);
            let lower = pixel_get(pixels, cx, lower_row);
            let cell = match (upper, lower) {
                (None, None) => Cell::empty(),
                (Some((r, g, b)), None) => Cell {
                    ch: crate::blocks::UPPER_HALF,
                    fg: Some(quantize(r, g, b, color_mode)),
                    bg: None,
                },
                (None, Some((r, g, b))) => Cell {
                    ch: crate::blocks::LOWER_HALF,
                    fg: Some(quantize(r, g, b, color_mode)),
                    bg: None,
                },
                (Some((ur, ug, ub)), Some((lr, lg, lb))) => Cell {
                    ch: crate::blocks::UPPER_HALF,
                    fg: Some(quantize(ur, ug, ub, color_mode)),
                    bg: Some(quantize(lr, lg, lb, color_mode)),
                },
            };
            row.push(cell);
            cx = cx + 1;
        }
        cells.push(row);
        cy = cy + 1;
    }
    cells
}

/// The pixel at (x, y) of the pixel grid, or nothing out of range.
fn pixel_get(pixels: &Vec<Vec<Option<(u8, u8, u8)>>>, x: usize, y: usize) -> (p: Option<
    (u8, u8, u8),
>)
    ensures
        p == pixel_at(pixels@, x as int, y as int),
{
    if y < pixels.len() {
        if x < pixels[y].len() {
            pixels[y][x]
        } else {
            None
        }
    } else {
        None
    }
}

} // verus!
