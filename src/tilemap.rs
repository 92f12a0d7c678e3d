//! A grid of placed tiles, each holding an index into a tileset's cells.
//!
//! The map is modelled as a finite map from grid coordinates `(x, y)` to
//! texture indices; a coordinate is in the map when a tile stands there.

use crate::tileset::Tileset;
use vstd::prelude::*;

verus! {

/// A grid coordinate: column `x`, row `y`.
#[derive(Clone, Copy, Debug, PartialEq, Eq, Structural)]
pub struct TilePos {
    pub x: u32,
    pub y: u32,
}

/// Grid dimensions: `x` columns by `y` rows.
#[derive(Clone, Copy, Debug, PartialEq, Eq, Structural)]
pub struct TilemapSize {
    pub x: u32,
    pub y: u32,
}

/// A placed tile grid. Cells are stored row-major; a cell holds the
/// texture index of its tile, or nothing where no tile was placed.
pub struct Tilemap {
    map_size: TilemapSize,
    cells: Vec<Option<u32>>,
}

/// Position of coordinate `(x, y)` in row-major order.
pub open spec fn grid_index(width: int, x: int, y: int) -> int {
    y * width + x
}

pub open spec fn in_grid(size: TilemapSize, x: int, y: int) -> bool {
    0 <= x < size.x && 0 <= y < size.y
}

/// Number of cells of a grid.
pub open spec fn cell_count(size: TilemapSize) -> int {
    size.x * size.y
}

/// The tiles that building places: the coordinate at row-major position
/// `i` gets `indices[i]`, for every `i` that is both in the grid and in
/// the sequence.
pub open spec fn built_tiles(size: TilemapSize, indices: Seq<u32>) -> Map<(int, int), u32> {
    Map::new(
        |p: (int, int)| in_grid(size, p.0, p.1) && grid_index(size.x as int, p.0, p.1) < indices.len(),
        |p: (int, int)| indices[grid_index(size.x as int, p.0, p.1)],
    )
}

/// The tiles after repainting `pos` with `texture_index`: only an
/// occupied coordinate changes, and no tile is created.
pub open spec fn repaint(tiles: Map<(int, int), u32>, pos: (int, int), texture_index: u32) -> Map<(int, int), u32> {
    if tiles.contains_key(pos) {
        tiles.insert(pos, texture_index)
    } else {
        tiles
    }
}

/// The tile at `pos`, if any.
pub open spec fn tile_at_spec(tiles: Map<(int, int), u32>, pos: (int, int)) -> Option<u32> {
    if tiles.contains_key(pos) {
        Some(tiles[pos])
    } else {
        None
    }
}

pub open spec fn pos_key(pos: TilePos) -> (int, int) {
    (pos.x as int, pos.y as int)
}

proof fn lemma_index_in_range(size: TilemapSize, x: int, y: int)
    requires
        in_grid(size, x, y),
    ensures
        0 <= grid_index(size.x as int, x, y) < cell_count(size),
{
    let w = size.x as int;
    let h = size.y as int;
    assert(0 <= y * w + x < h * w) by (nonlinear_arith)
        requires
            0 <= x < w,
            0 <= y < h,
    ;
    assert(h * w == w * h) by (nonlinear_arith);
}

proof fn lemma_index_injective(size: TilemapSize, x0: int, y0: int, x1: int, y1: int)
    requires
        in_grid(size, x0, y0),
        in_grid(size, x1, y1),
        grid_index(size.x as int, x0, y0) == grid_index(size.x as int, x1, y1),
    ensures
        x0 == x1,
        y0 == y1,
{
    let w = size.x as int;
    if y0 < y1 {
        assert(y0 * w + w <= y1 * w) by (nonlinear_arith)
            requires
                y0 < y1,
                0 <= w,
        ;
    } else if y1 < y0 {
        assert(y1 * w + w <= y0 * w) by (nonlinear_arith)
            requires
                y1 < y0,
                0 <= w,
        ;
    }
}

/// Coordinate of row-major position `i` in a grid `width` wide.
proof fn lemma_position_of_index(size: TilemapSize, i: int)
    requires
        0 <= i < cell_count(size),
    ensures
        size.x > 0,
        in_grid(size, i % size.x as int, i / size.x as int),
        grid_index(size.x as int, i % size.x as int, i / size.x as int) == i,
{
    let w = size.x as int;
    let h = size.y as int;
    if w == 0 {
        assert(w * h == 0) by (nonlinear_arith)
            requires
                w == 0,
        ;
    }
    assert(w > 0);
    vstd::arithmetic::div_mod::lemma_fundamental_div_mod(i, w);
    vstd::arithmetic::div_mod::lemma_mod_pos_bound(i, w);
    assert(w * (i / w) == (i / w) * w) by (nonlinear_arith);
    assert(0 <= i / w < h) by (nonlinear_arith)
        requires
            0 <= i < w * h,
            w > 0,
    ;
}

/// How many tiles building places: one per sequence entry, up to the
/// number of cells.
pub open spec fn placed_count(size: TilemapSize, len: int) -> int {
    if len < cell_count(size) {
        len
    } else {
        cell_count(size)
    }
}

/// Building from a sequence of length `L` places exactly `min(L, cells)`
/// tiles: the entry at position `i` lands at `(i % width, i / width)`
/// with its texture index kept, and every placed tile comes from such an
/// entry.
pub proof fn lemma_build_placement(size: TilemapSize, indices: Seq<u32>)
    ensures
        forall|i: int|
            0 <= i < placed_count(size, indices.len() as int) ==> {
                &&& #[trigger] built_tiles(size, indices).contains_key(
                    (i % size.x as int, i / size.x as int),
                )
                &&& built_tiles(size, indices)[(i % size.x as int, i / size.x as int)]
                    == indices[i]
            },
        forall|p: (int, int)|
            #[trigger] built_tiles(size, indices).contains_key(p) ==> 0 <= grid_index(
                size.x as int,
                p.0,
                p.1,
            ) < placed_count(size, indices.len() as int),
        built_tiles(size, indices).dom().finite(),
        built_tiles(size, indices).dom().len() == placed_count(size, indices.len() as int),
{
    let tiles = built_tiles(size, indices);
    let n = placed_count(size, indices.len() as int);
    let w = size.x as int;
    let f = |i: int| (i % w, i / w);
    assert forall|i: int| 0 <= i < n implies #[trigger] tiles.contains_key((i % w, i / w))
        && tiles[(i % w, i / w)] == indices[i] && grid_index(w, i % w, i / w) == i && f(i) == (i
        % w, i / w) by {
        lemma_position_of_index(size, i);
    }
    assert forall|p: (int, int)| #[trigger] tiles.contains_key(p) implies 0 <= grid_index(
        w,
        p.0,
        p.1,
    ) < n && f(grid_index(w, p.0, p.1)) == p by {
        lemma_index_in_range(size, p.0, p.1);
        vstd::arithmetic::div_mod::lemma_fundamental_div_mod_converse(
            grid_index(w, p.0, p.1),
            w,
            p.1,
            p.0,
        );
    }
    let range = vstd::set_lib::set_int_range(0, n);
    vstd::set_lib::lemma_int_range(0, n);
    assert forall|i: int, j: int| range.contains(i) && range.contains(j) && #[trigger] f(i)
        == #[trigger] f(j) implies i == j by {
        assert(tiles.contains_key(f(i)));
    }
    assert forall|p: (int, int)| #[trigger] tiles.dom().contains(p) implies range.map(f).contains(
        p,
    ) by {
        let i = grid_index(w, p.0, p.1);
        assert(range.contains(i) && f(i) == p);
    }
    assert(range.map(f) =~= tiles.dom());
    vstd::set_lib::lemma_map_size(range, tiles.dom(), f);
}

/// Repainting an occupied coordinate makes a later read give the new
/// index and keeps the set of occupied coordinates; repainting an empty
/// coordinate changes nothing.
pub proof fn lemma_repaint_then_read(tiles: Map<(int, int), u32>, pos: (int, int), texture_index: u32)
    ensures
        repaint(tiles, pos, texture_index).dom() == tiles.dom(),
        tiles.contains_key(pos) ==> tile_at_spec(repaint(tiles, pos, texture_index), pos) == Some(
            texture_index,
        ),
        !tiles.contains_key(pos) ==> repaint(tiles, pos, texture_index) == tiles,
        forall|q: (int, int)|
            q != pos ==> #[trigger] tile_at_spec(repaint(tiles, pos, texture_index), q)
                == tile_at_spec(tiles, q),
{
    if tiles.contains_key(pos) {
        assert(tiles.insert(pos, texture_index).dom() =~= tiles.dom());
    }
}

/// The sequence `0, 1, .., period - 1, 0, 1, ..` of length `count`: the
/// texture index of each cell cycles through the first `period` cells.
pub fn cycling_indices(count: u32, period: u32) -> (r: Vec<u32>)
    requires
        period > 0,
    ensures
        r@.len() == count,
        forall|i: int| 0 <= i < count ==> #[trigger] r@[i] == i % period as int,
{
    let mut r: Vec<u32> = Vec::new();
    let mut i: u32 = 0;
    while i < count
        invariant
            period > 0,
            i <= count,
            r@.len() == i,
            forall|j: int| 0 <= j < i ==> #[trigger] r@[j] == j % period as int,
        decreases count - i,
    {
        r.push(i % period);
        i = i + 1;
    }
    r
}

impl View for Tilemap {
    type V = Map<(int, int), u32>;

    closed spec fn view(&self) -> Map<(int, int), u32> {
        Map::new(
            |p: (int, int)|
                in_grid(self.map_size, p.0, p.1) && self.cells@[grid_index(
                    self.map_size.x as int,
                    p.0,
                    p.1,
                )] is Some,
            |p: (int, int)| self.cells@[grid_index(self.map_size.x as int, p.0, p.1)]->Some_0,
        )
    }
}

impl Tilemap {
    /// The grid dimensions.
    pub closed spec fn dims(&self) -> TilemapSize {
        self.map_size
    }

    pub closed spec fn wf(&self) -> bool {
        self.cells@.len() == cell_count(self.map_size)
    }

    /// Places `texture_indices[i]` at `(i % width, i / width)` for every
    /// position `i` that lies in the grid; entries beyond the grid are
    /// dropped. Every placed index must address a cell of `tileset`.
    pub fn new(tileset: &Tileset, map_size: TilemapSize, texture_indices: &Vec<u32>) -> (r: Tilemap)
        requires
            cell_count(map_size) <= usize::MAX,
            forall|i: int|
                0 <= i < texture_indices@.len() && i < cell_count(map_size)
                    ==> #[trigger] texture_indices@[i] < tileset.texture_index_count,
        ensures
            r.wf(),
            r.dims() == map_size,
            r@ == built_tiles(map_size, texture_indices@),
    {
        let count: usize = map_size.x as usize * map_size.y as usize;
        let mut cells: Vec<Option<u32>> = Vec::with_capacity(count);
        let mut i: usize = 0;
        while i < count
            invariant
                count == cell_count(map_size),
                i <= count,
                cells@.len() == i,
                forall|j: int|
                    0 <= j < i ==> #[trigger] cells@[j] == (if j < texture_indices@.len() {
                        Some(texture_indices@[j])
                    } else {
                        None
                    }),
            decreases count - i,
        {
            if i < texture_indices.len() {
                cells.push(Some(texture_indices[i]));
            } else {
                cells.push(None);
            }
            i = i + 1;
        }
        let r = Tilemap { map_size, cells };
        proof {
            assert forall|p: (int, int)| in_grid(map_size, p.0, p.1) implies 0 <= grid_index(
                map_size.x as int,
                p.0,
                p.1,
            ) < cell_count(map_size) by {
                lemma_index_in_range(map_size, p.0, p.1);
            }
            assert(r@ =~= built_tiles(map_size, texture_indices@));
        }
        r
    }

    /// The grid dimensions.
    pub fn size(&self) -> (r: TilemapSize)
        ensures
            r == self.dims(),
    {
        self.map_size
    }

    fn cell_position(&self, position: TilePos) -> (r: Option<usize>)
        requires
            self.wf(),
        ensures
            match r {
                Some(k) => in_grid(self.dims(), position.x as int, position.y as int) && k
                    == grid_index(self.dims().x as int, position.x as int, position.y as int) && k
                    < self.cells@.len(),
                None => !in_grid(self.dims(), position.x as int, position.y as int),
            },
    {
        let n = self.cells.len();
        if position.x < self.map_size.x && position.y < self.map_size.y {
            proof {
                lemma_index_in_range(self.map_size, position.x as int, position.y as int);
                assert(position.y as int * self.map_size.x as int <= grid_index(
                    self.map_size.x as int,
                    position.x as int,
                    position.y as int,
                ));
            }
            Some(position.y as usize * self.map_size.x as usize + position.x as usize)
        } else {
            None
        }
    }

    /// The texture index of the tile at `position`, if one stands there.
    pub fn tile_at(&self, position: TilePos) -> (r: Option<u32>)
        requires
            self.wf(),
        ensures
            r == tile_at_spec(self@, pos_key(position)),
    {
        match self.cell_position(position) {
            Some(k) => self.cells[k],
            None => None,
        }
    }

    /// Repaints the tile at `position` with `texture_index`. Returns
    /// whether a tile stood there; where none did, nothing changes.
    pub fn update_tile(&mut self, position: TilePos, texture_index: u32) -> (r: bool)
        requires
            old(self).wf(),
        ensures
            final(self).wf(),
            final(self).dims() == old(self).dims(),
            r == old(self)@.contains_key(pos_key(position)),
            final(self)@ == repaint(old(self)@, pos_key(position), texture_index),
    {
        let k = match self.cell_position(position) {
            Some(k) => k,
            None => return false,
        };
        if self.cells[k].is_none() {
            return false;
        }
        let ghost before = *self;
        self.cells.set(k, Some(texture_index));
        proof {
            let size = self.map_size;
            assert forall|p: (int, int)|
                in_grid(size, p.0, p.1) && p != pos_key(position) implies #[trigger] self.cells@[grid_index(
                size.x as int,
                p.0,
                p.1,
            )] == before.cells@[grid_index(size.x as int, p.0, p.1)] by {
                lemma_index_in_range(size, p.0, p.1);
                if grid_index(size.x as int, p.0, p.1) == k {
                    lemma_index_injective(size, p.0, p.1, position.x as int, position.y as int);
                }
            }
            assert(self@ =~= before@.insert(pos_key(position), texture_index));
        }
        true
    }
}

} // verus!
