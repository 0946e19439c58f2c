//! The bitmap font's atlas: which cell each character is drawn from, where
//! that cell sits, and the atlas texture itself.
//!
//! The atlas is a square of RGBA8 texels. Its top 128 rows hold sixteen
//! rows of sixteen 8x8 glyph cells, one per Latin-1 code point; below them,
//! the first cell of one more row is solid white, the texel every untextured
//! primitive samples.
use vstd::prelude::*;
use crate::units::GLYPH;

verus! {

/// Glyph cells in one row of the atlas.
pub const ATLAS_COLUMNS: u32 = 16;

/// Glyph cells in the atlas: one per Latin-1 code point.
pub const GLYPH_CELLS: u32 = 256;

/// Side of the square atlas, in texels: sixteen rows of cells, and the row
/// that holds the white cell.
pub const ATLAS: u32 = 136;

/// Bytes of font data: eight rows of one byte for each glyph cell.
pub const FONT_BYTES: usize = 2048;

/// The cell a character that draws itself occupies: its code point.
pub open spec fn glyph_cell(c: char) -> u32 {
    c as u32
}

/// The cell `c` is drawn from: ASCII and Latin-1 draw themselves, anything
/// else draws as `?`.
pub fn glyph_index(c: char) -> (i: u32)
    ensures
        (c as u32) <= 0xFF ==> i == glyph_cell(c),
        (c as u32) > 0xFF ==> i == glyph_cell('?'),
        i < GLYPH_CELLS,
{
    let code = c as u32;
    if code <= 0xFF {
        code
    } else {
        '?' as u32
    }
}

/// The top-left texel of glyph cell `i`: cells run left to right, sixteen to
/// a row, top row first.
pub open spec fn cell_origin(i: u32) -> (u32, u32) {
    ((i % ATLAS_COLUMNS * GLYPH) as u32, (i / ATLAS_COLUMNS * GLYPH) as u32)
}

/// The top-left texel of glyph cell `i` in the atlas.
pub fn glyph_origin(i: u32) -> (o: (u32, u32))
    requires
        i < GLYPH_CELLS,
    ensures
        o == cell_origin(i),
        o.0 + GLYPH <= GLYPH_CELLS / ATLAS_COLUMNS * GLYPH,
        o.1 + GLYPH <= GLYPH_CELLS / ATLAS_COLUMNS * GLYPH,
{
    (i % ATLAS_COLUMNS * GLYPH, i / ATLAS_COLUMNS * GLYPH)
}

/// The top-left texel of the solid white cell: the first cell of the row
/// below the glyphs, so no glyph overlaps it.
pub fn white_origin() -> (o: (u32, u32))
    ensures
        o.0 == 0,
        o.1 == GLYPH_CELLS / ATLAS_COLUMNS * GLYPH,
        o.1 + GLYPH <= ATLAS,
{
    (0, GLYPH_CELLS / ATLAS_COLUMNS * GLYPH)
}

/// Whether texel `(x, y)` of the glyph area is lit. `font` holds each cell's
/// eight rows, top first, one byte a row, the lowest bit leftmost.
pub open spec fn glyph_bit(font: Seq<u8>, x: u32, y: u32) -> bool {
    let cell = (y / 8) * 16 + x / 8;
    (font[cell * 8 + y % 8] >> ((x % 8) as u8)) & 1u8 == 1u8
}

/// The alpha of atlas texel `(x, y)`: opaque where a glyph is lit and in the
/// white cell, clear everywhere else.
pub open spec fn atlas_alpha(font: Seq<u8>, x: u32, y: u32) -> u8 {
    if y < 128 && x < 128 {
        if glyph_bit(font, x, y) {
            255
        } else {
            0
        }
    } else if 128 <= y && y < 136 && x < 8 {
        255
    } else {
        0
    }
}

/// Byte `j` of the atlas: texels row by row, top first, each white with the
/// alpha above, as RGBA.
pub open spec fn atlas_byte(font: Seq<u8>, j: int) -> u8 {
    let t = j / 4;
    if j % 4 < 3 {
        255
    } else {
        atlas_alpha(font, (t % 136) as u32, (t / 136) as u32)
    }
}

/// Glyph cell `i` is where `bake_atlas` draws glyph `i`: texel `(dx, dy)` of
/// the cell at `glyph_origin(i)` is opaque exactly when bit `dx` of row `dy`
/// of glyph `i` is set, and clear otherwise.
pub proof fn lemma_glyph_origin_finds_its_glyph(font: Seq<u8>, i: u32, dx: u32, dy: u32)
    requires
        i < GLYPH_CELLS,
        dx < 8,
        dy < 8,
    ensures
        ({
            let o = cell_origin(i);
            let lit = (font[i * 8 + dy] >> (dx as u8)) & 1u8 == 1u8;
            &&& atlas_alpha(font, (o.0 + dx) as u32, (o.1 + dy) as u32) == (if lit {
                255u8
            } else {
                0u8
            })
            &&& atlas_byte(font, ((o.1 + dy) * ATLAS + (o.0 + dx)) * 4 + 3) == (if lit {
                255u8
            } else {
                0u8
            })
        }),
{
    let x = (i % 16 * 8 + dx) as u32;
    let y = (i / 16 * 8 + dy) as u32;
    assert(x < 128 && y < 128 && (y / 8) * 16 + x / 8 == i && y % 8 == dy && x % 8 == dx)
        by (nonlinear_arith)
        requires
            i < 256,
            dx < 8,
            dy < 8,
            x == i % 16 * 8 + dx,
            y == i / 16 * 8 + dy,
    ;
    let j = ((y as int) * 136 + x as int) * 4 + 3;
    assert(j / 4 == y * 136 + x && j % 4 == 3 && (j / 4) % 136 == x && (j / 4) / 136 == y)
        by (nonlinear_arith)
        requires
            x < 136,
            y < 136,
            j == (y * 136 + x) * 4 + 3,
    ;
}

/// Alpha of one atlas texel.
fn texel_alpha(font: &[u8], x: u32, y: u32) -> (a: u8)
    requires
        font@.len() == FONT_BYTES,
        x < ATLAS,
        y < ATLAS,
    ensures
        a == atlas_alpha(font@, x, y),
{
    if y < 128 && x < 128 {
        let cell = (y / 8) * 16 + x / 8;
        assert(cell < 256) by (nonlinear_arith)
            requires
                y < 128,
                x < 128,
                cell == (y / 8) * 16 + x / 8,
        ;
        let row = font[(cell * 8 + y % 8) as usize];
        if (row >> ((x % 8) as u8)) & 1u8 == 1u8 {
            255
        } else {
            0
        }
    } else if 128 <= y && y < 136 && x < 8 {
        255
    } else {
        0
    }
}

/// Bake the atlas texture from the font: `ATLAS * ATLAS` RGBA8 texels, row
/// by row, each white, opaque where its glyph is lit and in the white cell.
pub fn bake_atlas(font: &[u8]) -> (px: Vec<u8>)
    requires
        font@.len() == FONT_BYTES,
    ensures
        px@.len() == ATLAS * ATLAS * 4,
        forall|j: int| 0 <= j < px@.len() ==> #[trigger] px@[j] == atlas_byte(font@, j),
{
    let total: usize = 136 * 136 * 4;
    let mut px: Vec<u8> = Vec::with_capacity(total);
    let mut j: usize = 0;
    while j < total
        invariant
            font@.len() == FONT_BYTES,
            total == 136 * 136 * 4,
            j <= total,
            px@.len() == j,
            forall|i: int| 0 <= i < j ==> #[trigger] px@[i] == atlas_byte(font@, i),
        decreases total - j,
    {
        let t = j / 4;
        let b = if j % 4 < 3 {
            255
        } else {
            texel_alpha(font, (t % 136) as u32, (t / 136) as u32)
        };
        px.push(b);
        j = j + 1;
    }
    px
}

} // verus!
