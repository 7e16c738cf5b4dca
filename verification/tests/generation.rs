use bioengineer::common::trunc::trunc_towards_neg_inf;
use bioengineer::world::world_map::cell::TileType;
use bioengineer::world::world_map::cell_index::CellIndex;
use bioengineer::world::world_map::generation::ColumnHeights;
use bioengineer::world::world_map::map_iterator::MutMapIterator;
use bioengineer::world::world_map::{MapType, WorldMap};

fn flat_heights(height: i32) -> ColumnHeights {
    ColumnHeights::new(-32, -32, 64, 64, vec![height; 64 * 64]).unwrap()
}

#[test]
fn trunc_rounds_towards_negative_infinity() {
    assert_eq!(trunc_towards_neg_inf(3, 2), 2);
    assert_eq!(trunc_towards_neg_inf(4, 2), 4);
    assert_eq!(trunc_towards_neg_inf(-3, 2), -4);
    assert_eq!(trunc_towards_neg_inf(-4, 2), -4);
    assert_eq!(trunc_towards_neg_inf(-1, 10), -10);
}

#[test]
fn column_heights_need_one_height_per_column() {
    assert!(ColumnHeights::new(0, 0, 2, 3, vec![0; 5]).is_none());
    let heights = ColumnHeights::new(10, 20, 2, 3, vec![1, 2, 3, 4, 5, 6]).unwrap();
    assert_eq!(heights.height_at(10, 20), Some(1));
    assert_eq!(heights.height_at(11, 21), Some(4));
    assert_eq!(heights.height_at(11, 22), Some(6));
    assert_eq!(heights.height_at(12, 20), None);
    assert_eq!(heights.height_at(9, 20), None);
}

#[test]
fn island_map_has_the_ship_on_the_island() {
    let map = WorldMap::new_generated(MapType::Island, &flat_heights(0)).unwrap();
    assert_eq!(map.get_ship_position(), Some(CellIndex::new(0, 1, 0)));
    assert_eq!(map.get_cell(CellIndex::new(0, 1, 0)).tile_type, TileType::MachineShip);
    assert_eq!(map.get_cell(CellIndex::new(0, 0, 0)).tile_type, TileType::WallRock);
    assert_eq!(map.get_cell(CellIndex::new(4, 0, 0)).tile_type, TileType::WallRock);
    assert_eq!(map.get_cell(CellIndex::new(5, 0, 0)).tile_type, TileType::Air);
    assert_eq!(map.get_cell(CellIndex::new(5, -4, 0)).tile_type, TileType::WallRock);
    assert_eq!(map.get_cell(CellIndex::new(5, 0, 0)).pressure, 10);
    assert_eq!(map.get_cell(CellIndex::new(6, -1, 0)).pressure, 20);
    assert_eq!(map.get_cell(CellIndex::new(5, -1, 0)).tile_type, TileType::WallRock);
    assert_eq!(map.get_cell(CellIndex::new(0, 2, 0)).tile_type, TileType::Air);
    assert_eq!(map.get_cell(CellIndex::new(0, 2, 0)).pressure, 0);
}

#[test]
fn flat_noise_map_lands_the_ship_on_the_first_column() {
    let map = WorldMap::new_generated(MapType::Simplex, &flat_heights(1)).unwrap();
    // a noise height of 1 is rounded down to a terrain at level 0
    assert_eq!(map.get_cell(CellIndex::new(3, 0, 3)).tile_type, TileType::WallDirt);
    assert_eq!(map.get_cell(CellIndex::new(3, -1, 3)).tile_type, TileType::WallRock);
    assert_eq!(map.get_cell(CellIndex::new(3, 1, 3)).tile_type, TileType::Air);
    assert_eq!(map.get_ship_position(), Some(CellIndex::new(-5, 1, 0)));
    assert_eq!(map.get_cell(CellIndex::new(-5, 1, 0)).tile_type, TileType::MachineShip);
}

#[test]
fn the_ship_can_not_land_on_water() {
    // below level 1 the air of a fresh map holds water, so every walk ends on it
    assert_eq!(WorldMap::new_generated(MapType::Simplex, &flat_heights(-10)).is_none(), true);
}

#[test]
fn landing_stops_on_the_first_solid_cell() {
    let map = WorldMap::new_generated(MapType::Island, &flat_heights(0)).unwrap();
    assert_eq!(map.land_ship(0, 0), Some(CellIndex::new(0, 2, 0)));
    assert_eq!(map.land_ship(1, 1), Some(CellIndex::new(1, 1, 1)));
    assert_eq!(map.land_ship(20, 0), None);
}

#[test]
fn walking_the_map_hands_out_every_cell_once() {
    let map = WorldMap::new_for_cube(CellIndex::new(0, 0, 0), CellIndex::new(20, 0, 0));
    let chunks = map.chunk_count();
    let mut iter: MutMapIterator = map.iter_mut();
    let mut count = 0;
    while let Some(item) = iter.next() {
        item.cell.pressure = item.cell_index.x;
        count += 1;
    }
    assert_eq!(count, chunks * 4096);
    let rebuilt = WorldMap::new_from_iter(iter);
    assert_eq!(rebuilt.get_cell(CellIndex::new(17, 3, 5)).pressure, 17);
    assert_eq!(rebuilt.get_cell(CellIndex::new(2, 0, 0)).pressure, 2);
    assert_eq!(rebuilt.chunk_count(), chunks);
}

#[test]
fn rebuilding_from_an_unused_walk_gives_the_same_map() {
    let map = WorldMap::_new_from_pressures(vec![3, 4, 5], CellIndex::new(0, 0, 0), CellIndex::new(0, 2, 0));
    let iter = map.iter_mut();
    let rebuilt = WorldMap::new_from_iter(iter);
    assert_eq!(rebuilt.get_cell(CellIndex::new(0, 1, 0)).pressure, 4);
    assert_eq!(rebuilt.get_cell(CellIndex::new(0, 2, 0)).pressure, 5);
}
