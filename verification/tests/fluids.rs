use bioengineer::world::fluids::advance_fluid;
use bioengineer::world::world_map::cell::TileType;
use bioengineer::world::world_map::cell::TileType::{Air, FloorRock};
use bioengineer::world::world_map::cell_index::CellIndex;
use bioengineer::world::world_map::{PressureAndType, WorldMap};

fn assert_steps_with_types(maps: Vec<Vec<PressureAndType>>, min_cell: CellIndex, max_cell: CellIndex) {
    assert!(maps.len() >= 2);
    for i in 1..maps.len() {
        let initial = maps[i - 1].clone();
        let expected = maps[i].clone();
        let mut map = WorldMap::_new_from_pressures_and_tiles(initial, min_cell, max_cell);
        advance_fluid(&mut map);
        let computed = map._get_pressures_and_types(min_cell, max_cell);
        assert_eq!(computed, expected);
    }
}

#[test]
fn test_emptying() {
    let cells = vec![5, 1];
    let max_cell = CellIndex::new(0, 1, 0);
    let min_cell = CellIndex::new(0, 0, 0);
    let mut map = WorldMap::_new_from_pressures(cells, min_cell, max_cell);
    advance_fluid(&mut map);
    assert_eq!(map.get_cell(min_cell).pressure, 6);
    assert_eq!(map.get_cell(min_cell).tile_type, TileType::Air);
    assert_eq!(map.get_cell(max_cell).pressure, 0);
    assert_eq!(map.get_cell(max_cell).tile_type, TileType::Air);
}

#[test]
fn test_filling() {
    let cells = vec![20, 0, 0];
    let max_cell = CellIndex::new(0, 2, 0);
    let middle_cell = CellIndex::new(0, 1, 0);
    let min_cell = CellIndex::new(0, 0, 0);
    let mut map = WorldMap::_new_from_pressures(cells, min_cell, max_cell);
    advance_fluid(&mut map);
    assert_eq!(map.get_cell(min_cell).pressure, 19);
    assert_eq!(map.get_cell(min_cell).tile_type, TileType::Air);
    assert_eq!(map.get_cell(middle_cell).pressure, 1);
    assert_eq!(map.get_cell(middle_cell).tile_type, TileType::Air);
    assert_eq!(map.get_cell(max_cell).pressure, 0);
    assert_eq!(map.get_cell(max_cell).tile_type, TileType::Air);
}

#[test]
fn test_basic_floodable_top_view() {
    let cells = vec![(5, Air), (0, FloorRock)];
    let expected = cells.clone();
    assert_steps_with_types(vec![cells, expected], CellIndex::new(0, 0, 0), CellIndex::new(0, 0, 1));
}

#[test]
fn the_total_of_the_pressures_stays_the_same() {
    let min_cell = CellIndex::new(0, 0, 0);
    let max_cell = CellIndex::new(2, 2, 2);
    let cells: Vec<i32> = (0..27).map(|i| (i * 7 % 23) as i32).collect();
    let total: i32 = cells.iter().sum();
    let mut map = WorldMap::_new_from_pressures(cells, min_cell, max_cell);
    for _ in 0..10 {
        advance_fluid(&mut map);
        let pressures = map._get_pressures(min_cell, max_cell);
        assert!(pressures.iter().all(|p| *p >= 0));
        assert_eq!(pressures.iter().sum::<i32>(), total);
    }
}
