use bioengineer::screen::gui::gui_actions::GuiActions;
use bioengineer::world::frame::World;
use bioengineer::world::world_map::cell::{TileType, DEFAULT_HEALTH};
use bioengineer::world::world_map::cell_index::CellIndex;
use bioengineer::world::world_map::cell_set::CellSet;
use bioengineer::world::world_map::transform_cells::Transformation;
use bioengineer::world::{GameGoalState, TransformationTask};

fn gui_action_transform_tile(cell: CellIndex, to_tile: TileType) -> GuiActions {
    gui_action_transform_tiles(vec![cell], to_tile)
}

fn gui_action_transform_tiles(cells: Vec<CellIndex>, to_tile: TileType) -> GuiActions {
    let mut gui_actions = GuiActions::default();
    gui_actions.selected_cell_transformation =
        Some(TransformationTask::new(CellSet::from_vec(cells), Transformation::to(to_tile)));
    gui_actions
}

fn next_to_ship(world: &World) -> CellIndex {
    let ship = world.map.get_ship_position().unwrap();
    CellIndex::new(ship.x, ship.y, ship.z + 1)
}

#[test]
fn test_build_machine_next_to_ship() {
    let mut world = World::new();
    let cell = next_to_ship(&world);
    let from_tile = TileType::Air;
    let to_tile = TileType::MachineAirCleaner;
    assert_eq!(world.map.get_cell(cell).tile_type, from_tile);

    let gui_actions = gui_action_transform_tile(cell, to_tile);
    world.update(gui_actions, None);
    assert_eq!(world.map.get_cell(cell).tile_type, to_tile);
}

#[test]
fn test_build_tree_next_to_ship() {
    let mut world = World::new();
    let cell = next_to_ship(&world);
    let from_tile = TileType::Air;
    let to_tile = TileType::TreeHealthy;
    assert_eq!(world.map.get_cell(cell).tile_type, from_tile);

    let gui_actions = gui_action_transform_tile(cell, to_tile);
    world.update(gui_actions, None);
    assert_eq!(world.map.get_cell(cell).tile_type, to_tile);
}

#[test]
fn test_remove_machine() {
    let mut world = World::new();
    world.game_state.set_advance_every_frame();
    let cell = next_to_ship(&world);
    let from_tile = TileType::Air;
    let to_tile = TileType::MachineAirCleaner;
    assert_eq!(world.map.get_cell(cell).tile_type, from_tile);

    let gui_actions = gui_action_transform_tile(cell, to_tile);
    world.update(gui_actions, None);
    assert_eq!(world.map.get_cell(cell).tile_type, to_tile);

    let to_tile = TileType::TreeHealthy;
    let gui_actions = gui_action_transform_tile(cell, to_tile);
    world.update(gui_actions, None);
    assert_eq!(world.map.get_cell(cell).tile_type, to_tile);
}

#[test]
fn test_replace_ship_is_forbidden() {
    let mut world = World::new();
    world.game_state.set_advance_every_frame();
    let cell = world.map.get_ship_position().unwrap();
    let from_tile = TileType::MachineShip;
    assert_eq!(world.map.get_cell(cell).tile_type, from_tile);

    let gui_actions = gui_action_transform_tile(cell, TileType::MachineAirCleaner);
    world.update(gui_actions, None);
    assert_eq!(world.map.get_cell(cell).tile_type, from_tile);

    let gui_actions = gui_action_transform_tile(cell, TileType::TreeHealthy);
    world.update(gui_actions, None);
    assert_eq!(world.map.get_cell(cell).tile_type, from_tile);
}

#[test]
fn test_replace_ship_is_forbidden_even_selecting_many() {
    let mut world = World::new();
    world.game_state.set_advance_every_frame();
    let cell = world.map.get_ship_position().unwrap();
    let adjacent_cell = CellIndex::new(cell.x, cell.y, cell.z + 1);
    let from_tile = TileType::MachineShip;
    assert_eq!(world.map.get_cell(cell).tile_type, from_tile);

    let gui_actions = gui_action_transform_tiles(vec![cell, adjacent_cell], TileType::MachineAirCleaner);
    world.update(gui_actions, None);
    world.update(GuiActions::default(), None);
    assert_eq!(world.map.get_cell(cell).tile_type, from_tile);
}

#[test]
fn test_trees_degrade() {
    let mut world = World::new();
    world.goal_state = GameGoalState::Started;
    world.game_state.set_advance_every_frame();
    let cell = next_to_ship(&world);
    let from_tile = TileType::Air;
    let to_tile = TileType::TreeHealthy;
    assert_eq!(world.map.get_cell(cell).tile_type, from_tile);

    let gui_actions = gui_action_transform_tile(cell, to_tile);
    world.update(gui_actions, None);
    assert_eq!(world.map.get_cell(cell).tile_type, to_tile);
    for _ in 0..DEFAULT_HEALTH {
        world.update(GuiActions::default(), None);
    }
    assert_eq!(world.map.get_cell(cell).tile_type, TileType::TreeSparse);
    for _ in 0..DEFAULT_HEALTH {
        world.update(GuiActions::default(), None);
    }
    assert_eq!(world.map.get_cell(cell).tile_type, TileType::TreeDying);
    for _ in 0..DEFAULT_HEALTH {
        world.update(GuiActions::default(), None);
    }
    assert_eq!(world.map.get_cell(cell).tile_type, TileType::TreeDead);
    for _ in 0..DEFAULT_HEALTH {
        world.update(GuiActions::default(), None);
    }
    assert_eq!(world.map.get_cell(cell).tile_type, TileType::TreeDead);
}

#[test]
fn regenerating_the_map_resets_the_world_around_it() {
    let mut world = World::new();
    world.game_state.set_advance_every_frame();
    let cell = next_to_ship(&world);
    world.update(gui_action_transform_tile(cell, TileType::MachineAirCleaner), None);
    assert_eq!(world.map.get_cell(cell).tile_type, TileType::MachineAirCleaner);
    let fresh = World::new().map;
    let mut gui_actions = GuiActions::default();
    gui_actions.regenerate_map = true;
    world.update(gui_actions, Some(fresh));
    assert_eq!(world.map.get_cell(cell).tile_type, TileType::Air);
    assert_eq!(world.robots.len(), 1);
    assert!(world.task_queue.is_empty());
}

#[test]
fn resetting_the_quantities_goes_back_to_the_first_dialog() {
    let mut world = World::new();
    world.goal_state = GameGoalState::Started;
    world.age_in_minutes = 30;
    let mut gui_actions = GuiActions::default();
    gui_actions.reset_quantities = true;
    world.update(gui_actions, None);
    assert_eq!(world.goal_state, GameGoalState::InitialDialog);
    assert_eq!(world.age_in_minutes, 0);
    let mut gui_actions = GuiActions::default();
    gui_actions.quit = true;
    assert!(!world.update(gui_actions, None).should_continue());
}
