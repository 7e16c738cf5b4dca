use bioengineer::world::world_map::cell::{Cell, TileType};
use bioengineer::world::world_map::cell_index::CellIndex;
use bioengineer::world::world_map::chunk::{Chunk, CellIterItem, SIZE};
use bioengineer::world::world_map::WorldMap;

#[test]
fn test_cell_iter() {
    let chunk = Chunk::new(CellIndex::new(0, 0, 0));
    let mut i = 0;
    let mut iter = chunk.into_iter_mut();
    let mut sum_pressures = 0;
    while let Option::Some(item) = iter.next() {
        let CellIterItem { cell_index: _cell_index, cell } = item;
        cell.pressure += 1;
        sum_pressures += cell.pressure;
        i += 1;
    }
    let updated_chunk = iter.into_chunk();
    assert_eq!(i, SIZE);
    assert_eq!(sum_pressures, SIZE as i32);
    assert_eq!(updated_chunk.get_cell(CellIndex::new(0, 0, 0)).pressure, 1);
}

#[test]
fn test_vec_iter() {
    let mut v = vec![1, 2, 3];
    let x = v.iter_mut();
    for n in x {
        *n += 10;
    }
    assert_eq!(v[0], 11);
}

#[test]
fn test_in_range() {
    let map = WorldMap::new();
    assert_eq!(map.in_range(CellIndex::new(0, 0, 0)), true);
    assert_eq!(map.in_range(CellIndex::new(0, 0, -64)), false);
}

#[test]
fn test_new_from_tiles_basic() {
    let map = WorldMap::_new_from_tiles(
        Cell::new(TileType::FloorDirt),
        vec![(CellIndex::new(0, 0, 0), TileType::FloorRock)],
    );
    assert_eq!(map.chunk_count(), 1);
}

#[test]
fn test_new_from_tiles() {
    let some_pos = CellIndex::new(0, 0, 0);
    let other_pos = CellIndex::new(0, 100, 0);
    let some_tile = TileType::FloorRock;
    let other_tile = TileType::WallRock;
    let default_cell = Cell::new(TileType::FloorDirt);
    let map = WorldMap::_new_from_tiles(
        default_cell,
        vec![(some_pos, some_tile), (other_pos, other_tile)],
    );
    assert_eq!(map.chunk_count(), 2);
    assert_eq!(*map.get_cell(some_pos), Cell::new(some_tile));
    assert_eq!(*map.get_cell(other_pos), Cell::new(other_tile));
    assert_eq!(*map.get_cell(other_pos.plus(CellIndex::new(1, 0, 0))), default_cell);
}
