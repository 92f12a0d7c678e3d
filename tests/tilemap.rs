use rustgame::tilemap::{cycling_indices, TilePos, Tilemap, TilemapSize};
use rustgame::tileset::Tileset;

fn pos(x: u32, y: u32) -> TilePos {
    TilePos { x, y }
}

#[test]
fn build_places_indices_row_major() {
    let ts = Tileset::generate(1, 3);
    let m = Tilemap::new(&ts, TilemapSize { x: 3, y: 2 }, &vec![0, 1, 2, 3, 4]);
    assert_eq!(m.size(), TilemapSize { x: 3, y: 2 });
    assert_eq!(m.tile_at(pos(0, 0)), Some(0));
    assert_eq!(m.tile_at(pos(2, 0)), Some(2));
    assert_eq!(m.tile_at(pos(0, 1)), Some(3));
    assert_eq!(m.tile_at(pos(1, 1)), Some(4));
    assert_eq!(m.tile_at(pos(2, 1)), None);
    assert_eq!(m.tile_at(pos(3, 0)), None);
    assert_eq!(m.tile_at(pos(0, 2)), None);
}

#[test]
fn build_drops_entries_beyond_grid() {
    let ts = Tileset::generate(1, 3);
    let indices: Vec<u32> = vec![1, 2, 3, 4, 5, 6, 7, 8, 100, 200];
    let m = Tilemap::new(&ts, TilemapSize { x: 2, y: 2 }, &indices);
    let mut placed = 0;
    for y in 0..4 {
        for x in 0..4 {
            if m.tile_at(pos(x, y)).is_some() {
                placed += 1;
            }
        }
    }
    assert_eq!(placed, 4);
    assert_eq!(m.tile_at(pos(1, 1)), Some(4));
}

#[test]
fn build_places_min_of_length_and_cells() {
    let ts = Tileset::generate(1, 4);
    let indices = cycling_indices(7, 3);
    let m = Tilemap::new(&ts, TilemapSize { x: 4, y: 3 }, &indices);
    let mut placed = 0;
    for i in 0..12u32 {
        let t = m.tile_at(pos(i % 4, i / 4));
        if (i as usize) < indices.len() {
            assert_eq!(t, Some(indices[i as usize]));
            placed += 1;
        } else {
            assert_eq!(t, None);
        }
    }
    assert_eq!(placed, 7);
}

#[test]
fn zero_width_map_is_empty() {
    let ts = Tileset::generate(1, 3);
    let m = Tilemap::new(&ts, TilemapSize { x: 0, y: 5 }, &vec![0, 1, 2]);
    assert_eq!(m.tile_at(pos(0, 0)), None);
}

#[test]
fn update_occupied_tile() {
    let ts = Tileset::generate(1, 3);
    let mut m = Tilemap::new(&ts, TilemapSize { x: 2, y: 2 }, &vec![0, 0, 0, 0]);
    assert!(m.update_tile(pos(1, 0), 2));
    assert_eq!(m.tile_at(pos(1, 0)), Some(2));
    assert_eq!(m.tile_at(pos(0, 0)), Some(0));
    assert_eq!(m.tile_at(pos(0, 1)), Some(0));
}

#[test]
fn update_unoccupied_tile_is_noop() {
    let ts = Tileset::generate(1, 3);
    let mut m = Tilemap::new(&ts, TilemapSize { x: 2, y: 2 }, &vec![1, 2]);
    assert!(!m.update_tile(pos(0, 1), 2));
    assert_eq!(m.tile_at(pos(0, 1)), None);
    assert!(!m.update_tile(pos(5, 5), 2));
    assert_eq!(m.tile_at(pos(5, 5)), None);
    assert_eq!(m.tile_at(pos(0, 0)), Some(1));
    assert_eq!(m.tile_at(pos(1, 0)), Some(2));
}

#[test]
fn cycling_indices_repeat() {
    assert_eq!(cycling_indices(7, 3), vec![0, 1, 2, 0, 1, 2, 0]);
    assert_eq!(cycling_indices(0, 3), Vec::<u32>::new());
    assert_eq!(cycling_indices(3, 1), vec![0, 0, 0]);
}
