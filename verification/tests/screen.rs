use bioengineer::screen::gui::panels::task_queue::format_reasons;
use bioengineer::world::world_map::transform_cells::TransformationFailure;
use bioengineer::common::cli::{parse_ui_backend, UiBackend};
use bioengineer::scene::GameLoopState;
use bioengineer::screen::drawing_state::TopBarShowing;
use bioengineer::screen::gui::format_units::format_age;
use bioengineer::screen::gui::panels::cell_info::cell_to_str;
use bioengineer::screen::gui::panels::draw_available_transformations::{to_action_str, to_tooltip_str};
use bioengineer::screen::gui::panels::top_bar::toggle_showing_or_none;
use bioengineer::screen::main_scene_input::{CellSelectionType, ZoomChange};
use bioengineer::screen::main_scene_input_source::{
    get_cell_selection_type, get_changed_height, get_vertical_arrow_pressed, get_zoom,
};
use bioengineer::world::world_map::cell::{Cell, TileType};

#[test]
fn negative_ages_are_minutes() {
    assert_eq!(format_age(-5), "-5 minutes");
    assert_eq!(format_age(i64::MIN), "-9223372036854775808 minutes");
}

#[test]
fn action_labels() {
    assert_eq!(to_action_str(TileType::WallRock), "Build rock wall");
    assert_eq!(to_action_str(TileType::Air), "Remove cell");
    assert_eq!(to_action_str(TileType::TreeDead), "Kill tree");
}

#[test]
fn tooltips() {
    assert_eq!(to_tooltip_str(TileType::WallRock), None);
    assert_eq!(to_tooltip_str(TileType::MachineAirCleaner), Some(vec!["- Consumes 1KW"]));
    assert_eq!(to_tooltip_str(TileType::Stairs).unwrap().len(), 2);
}

#[test]
fn cell_descriptions() {
    let mut water = Cell::new(TileType::Air);
    water.pressure = 12;
    assert_eq!(cell_to_str(&water, false, true), vec!["Water".to_string(), "  Liquid pressure: 12 ".to_string()]);
    let ship = Cell::new(TileType::MachineShip);
    assert_eq!(
        cell_to_str(&ship, true, true),
        vec![
            "Spaceship".to_string(),
            "Can't be deconstructed".to_string(),
            "  Liquid pressure: 0 ".to_string(),
            "  Effect on network:".to_string(),
            "    Able to construct other machines".to_string(),
        ]
    );
    let rock = Cell::new(TileType::WallRock);
    assert_eq!(
        cell_to_str(&rock, false, false),
        vec!["Wall of rock".to_string(), "  Networking: unreachable".to_string()]
    );
}

#[test]
fn toggling_pop_ups() {
    let mut showing = TopBarShowing::Hidden;
    toggle_showing_or_none(&mut showing, TopBarShowing::Goals);
    assert_eq!(showing, TopBarShowing::Goals);
    toggle_showing_or_none(&mut showing, TopBarShowing::Help);
    assert_eq!(showing, TopBarShowing::Help);
    toggle_showing_or_none(&mut showing, TopBarShowing::Help);
    assert_eq!(showing, TopBarShowing::Hidden);
}

#[test]
fn ui_backend_names() {
    assert_eq!(parse_ui_backend("mq"), Ok(UiBackend::Macroquad));
    assert_eq!(parse_ui_backend("macroquad"), Ok(UiBackend::Macroquad));
    assert_eq!(parse_ui_backend("egui"), Ok(UiBackend::Egui));
    assert_eq!(parse_ui_backend("gtk"), Err("error: unknown UiBackend gtk".to_string()));
    assert_eq!("egui".parse::<UiBackend>(), Ok(UiBackend::Egui));
}

#[test]
fn game_loop_states() {
    assert!(GameLoopState::ShouldContinue.should_continue());
    assert!(GameLoopState::ShouldRepositionCamera.should_continue());
    assert!(!GameLoopState::ShouldFinish.should_continue());
}

#[test]
fn input_decisions() {
    assert_eq!(get_changed_height(1, 0, false), 1);
    assert_eq!(get_changed_height(1, -1, true), 0);
    assert_eq!(get_changed_height(-1, -1, true), -3);
    assert_eq!(get_vertical_arrow_pressed(true, false), 1);
    assert_eq!(get_vertical_arrow_pressed(true, true), 0);
    assert_eq!(get_cell_selection_type(true, true, true), CellSelectionType::Add);
    assert_eq!(get_cell_selection_type(true, false, true), CellSelectionType::Remove);
    assert_eq!(get_cell_selection_type(false, true, false), CellSelectionType::Exclusive);
    assert_eq!(get_zoom(true, 1), ZoomChange::ZoomIn);
    assert_eq!(get_zoom(true, -1), ZoomChange::ZoomOut);
    assert_eq!(get_zoom(false, 1), ZoomChange::NoChange);
}

#[test]
fn reasons_are_listed_once_each_in_alphabetical_order() {
    assert_eq!(format_reasons(&None), Vec::<String>::new());
    let reasons = vec![
        TransformationFailure::OutOfShipReach,
        TransformationFailure::NotEnoughMaterial,
        TransformationFailure::OutOfShipReach,
        TransformationFailure::AboveWouldCollapse,
    ];
    assert_eq!(
        format_reasons(&Some(reasons)),
        vec![
            "Blocked because:",
            "  Cells above would collapse",
            "  Not enough resources",
            "  The spaceship network can't reach",
        ]
    );
    assert_eq!(format_reasons(&Some(Vec::new())), vec!["Blocked because:"]);
}
