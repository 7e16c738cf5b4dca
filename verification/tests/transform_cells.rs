use bioengineer::screen::gui::panels::draw_available_transformations::{available_actions, to_action_str};
use bioengineer::world::world_map::cell::{Cell, TileType};
use bioengineer::world::world_map::cell_index::CellIndex;
use bioengineer::world::world_map::cell_set::CellSet;
use bioengineer::world::world_map::transform_cells::{
    allowed_transformations, set_intersection, Transformation, AIR_LEVELS_FOR_ALLOWING_SOLAR,
};
use bioengineer::world::world_map::WorldMap;

struct CellTransformationFixture {
    pub _cell: Cell,
    pub map: WorldMap,
}

impl CellTransformationFixture {
    pub fn new() -> Self {
        let cell = Cell::new(TileType::FloorRock);
        let min_cell = CellIndex::new(0, 0, 0);
        let max_cell = CellIndex::new(0, 25, 0);
        let mut map = WorldMap::new_for_cube(min_cell, max_cell);
        map.get_cell_mut(CellIndex::new(0, 0, 0)).tile_type = cell.tile_type;
        for i in 1..=AIR_LEVELS_FOR_ALLOWING_SOLAR {
            map.get_cell_mut(CellIndex::new(0, i, 0)).tile_type = TileType::Air;
        }
        CellTransformationFixture { _cell: cell, map }
    }
}

fn cell_set(cells: [CellIndex; 2]) -> CellSet {
    CellSet::from_vec(cells.to_vec())
}

#[test]
fn test_no_identity_on_homogeneous_set() {
    let mut fx = CellTransformationFixture::new();
    let cell_indexes = [CellIndex::new(0, 5, 0), CellIndex::new(0, 6, 0)];
    for index in cell_indexes {
        fx.map.get_cell_mut(index).tile_type = TileType::WallRock;
    }
    let transformations = allowed_transformations(&cell_set(cell_indexes), &fx.map);
    let contains_wall = transformations.contains(&Transformation::to(TileType::WallRock));
    assert_eq!(contains_wall, false);
}

#[test]
fn test_identity_on_hetergeneous_set() {
    let mut fx = CellTransformationFixture::new();
    let cell_indexes = [CellIndex::new(0, 5, 0), CellIndex::new(0, 6, 0)];
    fx.map.get_cell_mut(cell_indexes[0]).tile_type = TileType::WallRock;
    fx.map.get_cell_mut(cell_indexes[1]).tile_type = TileType::MachineAirCleaner;
    let transformations = allowed_transformations(&cell_set(cell_indexes), &fx.map);
    let contains_cleaner = transformations.contains(&Transformation::to(TileType::MachineAirCleaner));
    assert_eq!(contains_cleaner, true);
    let contains_floor = transformations.contains(&Transformation::to(TileType::WallRock));
    assert_eq!(contains_floor, true);
}

#[test]
fn test_air_and_machines_can_become_rock_wall() {
    let mut fx = CellTransformationFixture::new();
    let cell_indexes = [CellIndex::new(0, 5, 0), CellIndex::new(0, 6, 0)];
    fx.map.get_cell_mut(cell_indexes[0]).tile_type = TileType::Air;
    fx.map.get_cell_mut(cell_indexes[1]).tile_type = TileType::MachineAirCleaner;
    let transformations = allowed_transformations(&cell_set(cell_indexes), &fx.map);
    let contains_cleaner = transformations.contains(&Transformation::to(TileType::MachineAirCleaner));
    assert_eq!(contains_cleaner, true);
    let contains_floor = transformations.contains(&Transformation::to(TileType::WallRock));
    assert_eq!(contains_floor, true);
}

#[test]
fn test_intersection() {
    let a = vec![1, 2, 3, 6, 7];
    let b = vec![4, 3, 5, 6, 8];
    let in_both = set_intersection(vec![a, b]);
    assert_eq!(in_both, vec![3, 6]);
}

#[test]
fn test_intersection_transformation() {
    let to_drill = Transformation::to(TileType::MachineDrill);
    let a = vec![to_drill];
    let b = vec![to_drill];
    let in_both = set_intersection(vec![a, b]);
    assert_eq!(in_both, vec![to_drill]);
}

#[test]
fn test_intersection_duplicates() {
    let a = vec![1, 2, 3, 2];
    let b = vec![3, 2, 8];
    let in_both = set_intersection(vec![a, b]);
    assert_eq!(in_both, vec![2, 3]);
}

#[test]
fn available_actions_are_the_allowed_ones_in_the_order_of_their_labels() {
    let mut fx = CellTransformationFixture::new();
    let cell_indexes = [CellIndex::new(0, 5, 0), CellIndex::new(0, 6, 0)];
    fx.map.get_cell_mut(cell_indexes[0]).tile_type = TileType::Air;
    fx.map.get_cell_mut(cell_indexes[1]).tile_type = TileType::MachineAirCleaner;
    let cells = cell_set(cell_indexes);
    let allowed = allowed_transformations(&cells, &fx.map);
    let actions = available_actions(&cells, &fx.map);
    assert_eq!(actions.len(), allowed.len());
    for action in &actions {
        assert!(allowed.contains(action));
    }
    let labels: Vec<&str> = actions.iter().map(|t| to_action_str(t.new_tile_type)).collect();
    let mut sorted = labels.clone();
    sorted.sort();
    assert_eq!(labels, sorted);
}
