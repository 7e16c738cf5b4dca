use bioengineer::screen::drawing_state::{DrawingState, TopBarShowing};
use bioengineer::screen::gui::gui_actions::GuiActions;
use bioengineer::screen::gui::panels::draw_available_transformations::{
    available_transformations_actions, chosen_task,
};
use bioengineer::screen::gui::panels::task_queue::{highlight_task, task_description, task_queue_actions};
use bioengineer::screen::gui::panels::top_bar::{deepen_render, shallow_render, top_bar_actions};
use bioengineer::screen::main_scene_input::{CellSelection, CellSelectionState};
use bioengineer::scene::GameLoopState;
use bioengineer::world::construction::{buildable, try_build, try_update_network, update_task_queue};
use std::collections::VecDeque;
use bioengineer::world::networks::Networks;
use bioengineer::world::world_map::cell::TileType;
use bioengineer::world::world_map::cell_index::CellIndex;
use bioengineer::world::world_map::cell_set::CellSet;
use bioengineer::world::world_map::transform_cells::{Transformation, TransformationFailure};
use bioengineer::world::world_map::transformation_rules::reads_inside;
use bioengineer::world::world_map::WorldMap;
use bioengineer::world::{Task, TransformationTask};

/// A map of rock below level 0, air from level 0 up, and the ship at the origin.
fn ground() -> (WorldMap, Networks) {
    let mut map = WorldMap::new_for_cube(CellIndex::new(-4, -4, -4), CellIndex::new(4, 4, 4));
    for x in -4..=4 {
        for z in -4..=4 {
            for y in -4..=4 {
                let tile = if y < 0 { TileType::WallRock } else { TileType::Air };
                map.get_cell_mut(CellIndex::new(x, y, z)).tile_type = tile;
            }
        }
    }
    map.get_cell_mut(CellIndex::new(0, 0, 0)).tile_type = TileType::MachineShip;
    (map, Networks::new(CellIndex::new(0, 0, 0)))
}

fn task_on(cells: Vec<CellIndex>, tile: TileType) -> TransformationTask {
    TransformationTask::new(CellSet::from_vec(cells), Transformation::to(tile))
}

fn build(map: &mut WorldMap, networks: &mut Networks, cells: Vec<CellIndex>, tile: TileType) -> Option<Task> {
    let mut aging = CellSet::new();
    let mut life = CellSet::new();
    try_build(networks, map, &mut aging, &mut life, task_on(cells, tile))
}

#[test]
fn building_a_machine_next_to_the_ship() {
    let (mut map, mut networks) = ground();
    let cell = CellIndex::new(0, 0, 1);
    assert!(build(&mut map, &mut networks, vec![cell], TileType::MachineAirCleaner).is_none());
    assert_eq!(map.get_cell(cell).tile_type, TileType::MachineAirCleaner);
    assert!(networks.is_in_ship_network(cell));
}

#[test]
fn planting_a_tree_next_to_the_ship_counts_it_as_living() {
    let (mut map, mut networks) = ground();
    let cell = CellIndex::new(0, 0, 1);
    let mut aging = CellSet::new();
    let mut life = CellSet::new();
    let left = try_build(&mut networks, &mut map, &mut aging, &mut life, task_on(vec![cell], TileType::TreeHealthy));
    assert!(left.is_none());
    assert_eq!(map.get_cell(cell).tile_type, TileType::TreeHealthy);
    assert!(aging.contains(&cell));
    assert!(life.contains(&cell));
}

#[test]
fn cells_out_of_reach_are_left_with_their_reason() {
    let (mut map, mut networks) = ground();
    let near = CellIndex::new(0, 0, 1);
    let far = CellIndex::new(0, 0, 3);
    let left = build(&mut map, &mut networks, vec![near, far], TileType::MachineAirCleaner);
    match left {
        Some(Task::Transform(rest)) => {
            assert_eq!(rest.to_transform.len(), 1);
            assert!(rest.to_transform.contains(&far));
            assert_eq!(rest.blocked_because, Some(vec![TransformationFailure::OutOfShipReach]));
        }
        _ => panic!("the far cell should be left"),
    }
    assert_eq!(map.get_cell(near).tile_type, TileType::MachineAirCleaner);
    assert_eq!(map.get_cell(far).tile_type, TileType::Air);
}

#[test]
fn the_ship_is_never_replaced() {
    let (mut map, mut networks) = ground();
    let ship = CellIndex::new(0, 0, 0);
    let beside = CellIndex::new(1, 0, 0);
    build(&mut map, &mut networks, vec![beside], TileType::Wire);
    let left = build(&mut map, &mut networks, vec![ship, beside], TileType::MachineAirCleaner);
    assert_eq!(map.get_cell(ship).tile_type, TileType::MachineShip);
    assert!(left.is_some());
    assert_eq!(map.get_cell(beside).tile_type, TileType::MachineAirCleaner);
}

#[test]
fn a_forbidden_cell_is_left_with_the_rule_it_breaks() {
    let (mut map, mut networks) = ground();
    let cell = CellIndex::new(0, 0, 1);
    map.get_cell_mut(CellIndex::new(0, 1, 1)).tile_type = TileType::TreeHealthy;
    let left = build(&mut map, &mut networks, vec![cell], TileType::Air);
    match left {
        Some(Task::Transform(rest)) => {
            assert_eq!(rest.blocked_because, Some(vec![TransformationFailure::AboveWouldCollapse]));
        }
        _ => panic!("the cell should be left"),
    }
}

#[test]
fn removing_a_machine_gives_back_its_material() {
    let (mut map, mut networks) = ground();
    let cell = CellIndex::new(0, 0, 1);
    let before = networks.get_stored_resources();
    build(&mut map, &mut networks, vec![cell], TileType::MachineAirCleaner);
    assert!(networks.get_stored_resources() < before);
    assert!(build(&mut map, &mut networks, vec![cell], TileType::Air).is_none());
    assert_eq!(networks.get_stored_resources(), before);
    assert_eq!(map.get_cell(cell).tile_type, TileType::Air);
}

#[test]
fn updating_one_cell_refused_by_the_networks_leaves_the_map() {
    let (mut map, mut networks) = ground();
    let cell = CellIndex::new(0, -1, 1);
    let mut aging = CellSet::new();
    let mut life = CellSet::new();
    let failure = try_update_network(&mut networks, &mut map, &mut aging, &mut life, Transformation::to(TileType::Wire), cell);
    assert_eq!(failure, Some(TransformationFailure::NotEnoughStorage));
    assert_eq!(map.get_cell(cell).tile_type, TileType::WallRock);
}

#[test]
fn the_rules_read_inside_the_map_only_away_from_its_edges() {
    let (map, _) = ground();
    assert!(reads_inside(&map, CellIndex::new(0, 0, 1), TileType::MachineAirCleaner));
    assert!(reads_inside(&map, CellIndex::new(0, 4, 1), TileType::MachineAirCleaner));
    assert!(!reads_inside(&map, CellIndex::new(0, 4, 100), TileType::MachineAirCleaner));
}

#[test]
fn describing_tasks() {
    let task = Task::Transform(TransformationTask::new_with_reason(
        CellSet::from_vec(vec![CellIndex::new(0, 0, 1), CellIndex::new(0, 0, 2)]),
        Transformation::to(TileType::MachineDrill),
        Some(vec![TransformationFailure::OutOfShipReach]),
    ));
    assert_eq!(
        task_description(&task),
        vec![
            "Task: Build drill (2)".to_string(),
            "Blocked because:".to_string(),
            "  The spaceship network can't reach".to_string(),
        ]
    );
    assert_eq!(task_description(&Task::Movement(CellIndex::new(0, 0, 0))), vec!["Task: Move".to_string()]);
}

fn selecting() -> CellSelection {
    CellSelection { state: CellSelectionState::InProgress, ..CellSelection::no_selection() }
}

#[test]
fn the_task_queue_cancels_and_drops_the_selection() {
    let mut actions = GuiActions::nothing();
    actions.cell_selection = selecting();
    actions.go_to_robot = Some(CellIndex::new(1, 1, 1));
    let kept = task_queue_actions(actions, Some(2), false);
    assert_eq!(kept.cancel_task, Some(2));
    assert_eq!(kept.go_to_robot, None);
    assert_eq!(kept.cell_selection, selecting());
    let dropped = task_queue_actions(kept, None, true);
    assert_eq!(dropped.cancel_task, None);
    assert_eq!(dropped.cell_selection, CellSelection::no_selection());
}

#[test]
fn clicking_a_task_highlights_its_cells() {
    let mut drawing = DrawingState::new();
    let task = Task::Transform(task_on(vec![CellIndex::new(0, 0, 1)], TileType::Wire));
    highlight_task(&mut drawing, &task);
    assert!(drawing.highlighted_cells().contains(&CellIndex::new(0, 0, 1)));
}

#[test]
fn the_top_bar_drops_the_selection_and_selecting_hides_its_pop_ups() {
    let mut drawing = DrawingState::new();
    drawing.top_bar_showing = TopBarShowing::Help;
    let mut actions = GuiActions::nothing();
    actions.cell_selection = selecting();
    let hovered = top_bar_actions(actions, true, &mut drawing);
    assert_eq!(hovered.cell_selection, CellSelection::no_selection());
    assert_eq!(drawing.top_bar_showing, TopBarShowing::Help);
    let mut actions = GuiActions::nothing();
    actions.cell_selection = selecting();
    top_bar_actions(actions, false, &mut drawing);
    assert_eq!(drawing.top_bar_showing, TopBarShowing::Hidden);
}

#[test]
fn the_render_depth_buttons() {
    let mut drawing = DrawingState::new();
    drawing.min_cell.y = -5;
    drawing.max_cell.y = 0;
    deepen_render(&mut drawing);
    assert_eq!(drawing.max_cell.y - drawing.min_cell.y, 6);
    for _ in 0..20 {
        deepen_render(&mut drawing);
    }
    assert_eq!(drawing.max_cell.y - drawing.min_cell.y, 15);
    for _ in 0..20 {
        shallow_render(&mut drawing);
    }
    assert_eq!(drawing.max_cell.y - drawing.min_cell.y, 2);
}

#[test]
fn quitting_stops_the_game() {
    let mut actions = GuiActions::nothing();
    assert_eq!(actions.should_continue(), GameLoopState::ShouldContinue);
    actions.quit = true;
    assert_eq!(actions.should_continue(), GameLoopState::ShouldFinish);
}

#[test]
fn choosing_an_action_by_its_place() {
    let (map, _) = ground();
    let cells = CellSet::from_vec(vec![CellIndex::new(0, 0, 1)]);
    let first = chosen_task(&cells, &map, 0).expect("air offers actions");
    assert!(first.to_transform.contains(&CellIndex::new(0, 0, 1)));
    assert!(first.blocked_because.is_none());
    assert!(chosen_task(&cells, &map, 99).is_none());
}

#[test]
fn a_task_is_buildable_only_on_cells_of_the_map() {
    let (map, _) = ground();
    assert!(buildable(&map, &task_on(vec![CellIndex::new(0, 0, 1)], TileType::Wire)));
    assert!(!buildable(&map, &task_on(vec![CellIndex::new(0, 0, 100)], TileType::Wire)));
    assert!(!buildable(&map, &task_on(vec![CellIndex::new(0, 0, 1)], TileType::Stairs)));
}

#[test]
fn the_queue_cancels_then_adds_then_works_on_its_back() {
    let (mut map, mut networks) = ground();
    let mut aging = CellSet::new();
    let mut life = CellSet::new();
    let mut queue: VecDeque<Task> = VecDeque::new();
    queue.push_back(Task::Movement(CellIndex::new(0, 0, 0)));
    queue.push_back(Task::Movement(CellIndex::new(1, 0, 0)));
    let near = CellIndex::new(0, 0, 1);
    let far = CellIndex::new(0, 0, 3);
    update_task_queue(
        &mut queue,
        Some(0),
        Some(task_on(vec![near, far], TileType::Wire)),
        false,
        &mut networks,
        &mut map,
        &mut aging,
        &mut life,
    );
    assert_eq!(queue.len(), 2);
    assert_eq!(map.get_cell(near).tile_type, TileType::Air);
    update_task_queue(&mut queue, None, None, true, &mut networks, &mut map, &mut aging, &mut life);
    assert_eq!(queue.len(), 2);
    assert_eq!(map.get_cell(near).tile_type, TileType::Wire);
    match queue.back() {
        Some(Task::Transform(rest)) => {
            assert_eq!(rest.to_transform.len(), 1);
            assert!(rest.to_transform.contains(&far));
        }
        _ => panic!("the far cell should be left at the back"),
    }
    update_task_queue(&mut queue, Some(1), None, true, &mut networks, &mut map, &mut aging, &mut life);
    assert!(queue.is_empty());
}

#[test]
fn building_changes_only_the_cells_of_the_task() {
    let (mut map, mut networks) = ground();
    let before = *map.get_cell(CellIndex::new(1, 0, 1));
    build(&mut map, &mut networks, vec![CellIndex::new(0, 0, 1)], TileType::MachineDrill);
    assert_eq!(map.get_cell(CellIndex::new(0, 0, 1)).tile_type, TileType::MachineDrill);
    assert_eq!(*map.get_cell(CellIndex::new(1, 0, 1)), before);
    assert_eq!(map.get_cell(CellIndex::new(0, 0, 0)).tile_type, TileType::MachineShip);
}

#[test]
fn the_panel_of_actions_asks_for_the_clicked_one() {
    let (map, _) = ground();
    let cells = CellSet::from_vec(vec![CellIndex::new(0, 0, 1)]);
    let mut actions = GuiActions::nothing();
    actions.cell_selection = selecting();
    let asked = available_transformations_actions(actions, &cells, &map, Some(0), false);
    assert!(asked.selected_cell_transformation.is_some());
    assert_eq!(asked.cell_selection, CellSelection::no_selection());
    let mut actions = GuiActions::nothing();
    actions.cell_selection = selecting();
    let idle = available_transformations_actions(actions, &cells, &map, None, false);
    assert!(idle.selected_cell_transformation.is_none());
    assert_eq!(idle.cell_selection, selecting());
    let none = available_transformations_actions(GuiActions::nothing(), &CellSet::new(), &map, Some(0), true);
    assert!(none.selected_cell_transformation.is_none());
    assert_eq!(none.cell_selection, CellSelection::no_selection());
}
