//! Procedural tile atlas: a square RGBA pixel buffer of `tiles_per_row`
//! by `tiles_per_row` cells, the first three painted in flat colours.

use vstd::prelude::*;

verus! {

/// Pixel edge length of one tile.
pub const TILE_SIZE: u32 = 16;

/// Number of tiles along each edge of the atlas.
pub const ATLAS_SIZE: u32 = 16;

/// Bytes per RGBA pixel.
pub const BYTES_PER_PIXEL: usize = 4;

/// A rectangular RGBA8 pixel buffer, rows top to bottom.
pub struct Atlas {
    pub width: u32,
    pub height: u32,
    pub data: Vec<u8>,
}

/// An atlas together with what is needed to address its cells.
pub struct Tileset {
    pub atlas: Atlas,
    pub tile_size: u32,
    pub texture_index_count: u32,
}

/// RGBA of a cell: dark red, dark green and dark blue for cells 0, 1
/// and 2, transparent black for every other cell.
pub open spec fn tile_color(cell: int) -> Seq<u8> {
    if cell == 0 {
        seq![51u8, 25u8, 25u8, 255u8]
    } else if cell == 1 {
        seq![25u8, 51u8, 25u8, 255u8]
    } else if cell == 2 {
        seq![25u8, 25u8, 51u8, 255u8]
    } else {
        seq![0u8, 0u8, 0u8, 0u8]
    }
}

/// Row-major index of the cell that holds pixel `(x, y)`.
pub open spec fn cell_of(tile_size: int, tiles_per_row: int, x: int, y: int) -> int {
    (y / tile_size) * tiles_per_row + x / tile_size
}

/// Byte `channel` of pixel `(x, y)` in a buffer of rows `width` pixels wide.
pub open spec fn pixel_byte(data: Seq<u8>, width: int, x: int, y: int, channel: int) -> u8 {
    data[(y * width + x) * 4 + channel]
}

/// What `generate` leaves in its buffer: every pixel has its cell's colour.
pub open spec fn is_generated_atlas(atlas: Atlas, tile_size: int, tiles_per_row: int) -> bool {
    let side = tile_size * tiles_per_row;
    &&& atlas.width == side
    &&& atlas.height == side
    &&& atlas.data@.len() == side * side * 4
    &&& forall|x: int, y: int, c: int|
        0 <= x < side && 0 <= y < side && 0 <= c < 4 ==> #[trigger] pixel_byte(
            atlas.data@,
            side,
            x,
            y,
            c,
        ) == tile_color(cell_of(tile_size, tiles_per_row, x, y))[c]
}

/// Sizes that `generate` can allocate: the buffer and the cell count fit.
pub open spec fn atlas_fits(tile_size: int, tiles_per_row: int) -> bool {
    let side = tile_size * tiles_per_row;
    &&& side <= u32::MAX
    &&& side * side * 4 <= usize::MAX
    &&& tiles_per_row * tiles_per_row <= u32::MAX
}

fn color_byte(cell: u64, channel: usize) -> (r: u8)
    requires
        channel < 4,
    ensures
        r == tile_color(cell as int)[channel as int],
{
    if cell >= 3 {
        0
    } else if channel == 3 {
        255
    } else if channel as u64 == cell {
        51
    } else {
        25
    }
}

proof fn lemma_earlier_pixel(side: int, x0: int, y0: int, x: int, y: int)
    requires
        0 <= x0 < side,
        0 <= x <= side,
        0 <= y0,
        y0 < y || (y0 == y && x0 < x),
    ensures
        y0 * side + x0 < y * side + x,
{
    if y0 < y {
        assert(y0 * side + side <= y * side) by (nonlinear_arith)
            requires
                y0 < y,
                0 <= side,
        ;
    }
}

proof fn lemma_cell_bound(tile_size: int, tiles_per_row: int, x: int, y: int)
    requires
        tile_size >= 1,
        tiles_per_row >= 0,
        0 <= x < tile_size * tiles_per_row,
        0 <= y < tile_size * tiles_per_row,
    ensures
        0 <= x / tile_size < tiles_per_row,
        0 <= y / tile_size < tiles_per_row,
        0 <= cell_of(tile_size, tiles_per_row, x, y) < tiles_per_row * tiles_per_row,
{
    assert(0 <= x / tile_size < tiles_per_row) by (nonlinear_arith)
        requires
            tile_size >= 1,
            0 <= x < tile_size * tiles_per_row,
    ;
    assert(0 <= y / tile_size < tiles_per_row) by (nonlinear_arith)
        requires
            tile_size >= 1,
            0 <= y < tile_size * tiles_per_row,
    ;
    let r = y / tile_size;
    let q = x / tile_size;
    assert(0 <= r * tiles_per_row + q < tiles_per_row * tiles_per_row) by (nonlinear_arith)
        requires
            0 <= r < tiles_per_row,
            0 <= q < tiles_per_row,
    ;
}

/// With at least three cells per row, the painted pixels are exactly the
/// first three `tile_size`-wide blocks of the top row of cells: pixel
/// `(x, y)` there has the colour of block `x / tile_size`, and every other
/// pixel is transparent black.
pub proof fn lemma_painted_blocks(tile_size: int, tiles_per_row: int, x: int, y: int)
    requires
        tile_size >= 1,
        tiles_per_row >= 3,
        0 <= x < tile_size * tiles_per_row,
        0 <= y < tile_size * tiles_per_row,
    ensures
        y < tile_size && x < 3 * tile_size ==> tile_color(cell_of(tile_size, tiles_per_row, x, y))
            == tile_color(x / tile_size) && 0 <= x / tile_size < 3,
        !(y < tile_size && x < 3 * tile_size) ==> tile_color(
            cell_of(tile_size, tiles_per_row, x, y),
        ) == seq![0u8, 0u8, 0u8, 0u8],
{
    lemma_cell_bound(tile_size, tiles_per_row, x, y);
    let row = y / tile_size;
    let col = x / tile_size;
    if y < tile_size {
        assert(row == 0) by (nonlinear_arith)
            requires
                0 <= y < tile_size,
                row == y / tile_size,
        ;
        assert(row * tiles_per_row == 0) by (nonlinear_arith)
            requires
                row == 0,
        ;
        if x < 3 * tile_size {
            assert(col < 3) by (nonlinear_arith)
                requires
                    0 <= x < 3 * tile_size,
                    col == x / tile_size,
                    tile_size >= 1,
            ;
        } else {
            assert(col >= 3) by (nonlinear_arith)
                requires
                    x >= 3 * tile_size,
                    col == x / tile_size,
                    tile_size >= 1,
            ;
        }
    } else {
        assert(row >= 1) by (nonlinear_arith)
            requires
                y >= tile_size,
                row == y / tile_size,
                tile_size >= 1,
        ;
        assert(row * tiles_per_row + col >= 3) by (nonlinear_arith)
            requires
                row >= 1,
                tiles_per_row >= 3,
                col >= 0,
        ;
    }
}

impl Tileset {
    /// Builds the atlas of `tiles_per_row` by `tiles_per_row` cells of
    /// `tile_size` pixels: cells 0, 1 and 2 (row-major) get their flat
    /// colour, every other pixel is transparent black.
    pub fn generate(tile_size: u32, tiles_per_row: u32) -> (r: Tileset)
        requires
            tile_size >= 1,
            atlas_fits(tile_size as int, tiles_per_row as int),
        ensures
            r.tile_size == tile_size,
            r.texture_index_count == tiles_per_row * tiles_per_row,
            is_generated_atlas(r.atlas, tile_size as int, tiles_per_row as int),
    {
        let ghost ts = tile_size as int;
        let ghost tpr = tiles_per_row as int;
        let side: u32 = tile_size * tiles_per_row;
        let ghost w = side as int;
        proof {
            assert(0 <= w * w) by (nonlinear_arith);
        }
        let total: usize = side as usize * side as usize * BYTES_PER_PIXEL;
        let mut data: Vec<u8> = Vec::with_capacity(total);
        let mut y: u32 = 0;
        while y < side
            invariant
                ts == tile_size,
                tpr == tiles_per_row,
                w == side,
                w == ts * tpr,
                ts >= 1,
                tpr * tpr <= u32::MAX,
                y <= side,
                data@.len() == (y * w) * 4,
                forall|x0: int, y0: int, c: int|
                    0 <= x0 < w && 0 <= y0 < y && 0 <= c < 4 ==> #[trigger] pixel_byte(
                        data@,
                        w,
                        x0,
                        y0,
                        c,
                    ) == tile_color(cell_of(ts, tpr, x0, y0))[c],
            decreases side - y,
        {
            let mut x: u32 = 0;
            while x < side
                invariant
                    ts == tile_size,
                    tpr == tiles_per_row,
                    w == side,
                    w == ts * tpr,
                    ts >= 1,
                    tpr * tpr <= u32::MAX,
                    y < side,
                    x <= side,
                    data@.len() == (y * w + x) * 4,
                    forall|x0: int, y0: int, c: int|
                        0 <= x0 < w && 0 <= y0 && (y0 < y || (y0 == y && x0 < x)) && 0 <= c < 4
                            ==> #[trigger] pixel_byte(data@, w, x0, y0, c) == tile_color(
                            cell_of(ts, tpr, x0, y0),
                        )[c],
                decreases side - x,
            {
                proof {
                    lemma_cell_bound(ts, tpr, x as int, y as int);
                }
                let cell: u64 = (y / tile_size) as u64 * tiles_per_row as u64 + (x / tile_size) as u64;
                let ghost before = data@;
                let mut c: usize = 0;
                while c < BYTES_PER_PIXEL
                    invariant
                        c <= 4,
                        data@.len() == before.len() + c,
                        before.len() == (y * w + x) * 4,
                        cell == cell_of(ts, tpr, x as int, y as int),
                        forall|i: int| 0 <= i < before.len() ==> data@[i] == before[i],
                        forall|i: int|
                            0 <= i < c ==> data@[before.len() + i] == tile_color(cell as int)[i],
                    decreases 4 - c,
                {
                    data.push(color_byte(cell, c));
                    c = c + 1;
                }
                proof {
                    assert forall|x0: int, y0: int, c0: int|
                        0 <= x0 < w && 0 <= y0 && (y0 < y || (y0 == y && x0 < x + 1)) && 0 <= c0
                            < 4 implies #[trigger] pixel_byte(data@, w, x0, y0, c0) == tile_color(
                        cell_of(ts, tpr, x0, y0),
                    )[c0] by {
                        if y0 == y && x0 == x {
                            assert((y0 * w + x0) * 4 + c0 == before.len() + c0);
                        } else {
                            lemma_earlier_pixel(w, x0, y0, x as int, y as int);
                            assert((y0 * w + x0) * 4 + c0 < before.len());
                            assert(pixel_byte(before, w, x0, y0, c0) == tile_color(
                                cell_of(ts, tpr, x0, y0),
                            )[c0]);
                        }
                    }
                }
                x = x + 1;
            }
            proof {
                assert(y * w + w == (y + 1) * w) by (nonlinear_arith);
            }
            y = y + 1;
        }
        Tileset {
            atlas: Atlas { width: side, height: side, data },
            tile_size,
            texture_index_count: tiles_per_row * tiles_per_row,
        }
    }

    /// The game's tileset: `ATLAS_SIZE` by `ATLAS_SIZE` cells of
    /// `TILE_SIZE` pixels.
    pub fn new() -> (r: Tileset)
        ensures
            r.tile_size == TILE_SIZE,
            r.texture_index_count == ATLAS_SIZE * ATLAS_SIZE,
            is_generated_atlas(r.atlas, TILE_SIZE as int, ATLAS_SIZE as int),
    {
        Tileset::generate(TILE_SIZE, ATLAS_SIZE)
    }
}

} // verus!
