use rustgame::tileset::{Tileset, ATLAS_SIZE, TILE_SIZE};

fn pixel(tileset: &Tileset, x: usize, y: usize) -> [u8; 4] {
    let w = tileset.atlas.width as usize;
    let k = (y * w + x) * 4;
    let d = &tileset.atlas.data;
    [d[k], d[k + 1], d[k + 2], d[k + 3]]
}

const RED: [u8; 4] = [51, 25, 25, 255];
const GREEN: [u8; 4] = [25, 51, 25, 255];
const BLUE: [u8; 4] = [25, 25, 51, 255];
const CLEAR: [u8; 4] = [0, 0, 0, 0];

#[test]
fn default_tileset_dimensions() {
    let t = Tileset::new();
    assert_eq!(t.tile_size, 16);
    assert_eq!(t.texture_index_count, 256);
    assert_eq!(t.atlas.width, TILE_SIZE * ATLAS_SIZE);
    assert_eq!(t.atlas.height, 256);
    assert_eq!(t.atlas.data.len(), 256 * 256 * 4);
}

#[test]
fn default_tileset_blocks() {
    let t = Tileset::new();
    assert_eq!(pixel(&t, 0, 0), RED);
    assert_eq!(pixel(&t, 15, 15), RED);
    assert_eq!(pixel(&t, 16, 0), GREEN);
    assert_eq!(pixel(&t, 31, 15), GREEN);
    assert_eq!(pixel(&t, 32, 7), BLUE);
    assert_eq!(pixel(&t, 47, 15), BLUE);
    assert_eq!(pixel(&t, 48, 0), CLEAR);
    assert_eq!(pixel(&t, 0, 16), CLEAR);
    assert_eq!(pixel(&t, 255, 255), CLEAR);
}

#[test]
fn generated_buffer_size_formula() {
    for (ts, tpr) in [(1u32, 3u32), (2, 3), (3, 5), (7, 4)] {
        let t = Tileset::generate(ts, tpr);
        let side = (ts * tpr) as usize;
        assert_eq!(t.atlas.data.len(), side * side * 4);
        assert_eq!(t.texture_index_count, tpr * tpr);
        assert_eq!(t.tile_size, ts);
    }
}

#[test]
fn every_pixel_outside_first_three_blocks_is_clear() {
    let t = Tileset::generate(2, 4);
    for y in 0..8usize {
        for x in 0..8usize {
            let expected = if y < 2 && x < 2 {
                RED
            } else if y < 2 && x < 4 {
                GREEN
            } else if y < 2 && x < 6 {
                BLUE
            } else {
                CLEAR
            };
            assert_eq!(pixel(&t, x, y), expected, "pixel ({}, {})", x, y);
        }
    }
}

#[test]
fn one_pixel_tiles() {
    let t = Tileset::generate(1, 3);
    assert_eq!(t.atlas.data.len(), 36);
    assert_eq!(pixel(&t, 0, 0), RED);
    assert_eq!(pixel(&t, 1, 0), GREEN);
    assert_eq!(pixel(&t, 2, 0), BLUE);
    assert_eq!(pixel(&t, 0, 1), CLEAR);
}

#[test]
fn narrow_atlas_paints_cells_in_row_major_order() {
    let t = Tileset::generate(1, 2);
    assert_eq!(pixel(&t, 0, 0), RED);
    assert_eq!(pixel(&t, 1, 0), GREEN);
    assert_eq!(pixel(&t, 0, 1), BLUE);
    assert_eq!(pixel(&t, 1, 1), CLEAR);
}
