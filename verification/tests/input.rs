use bioengineer::screen::gui::panels::top_bar::help_text_lines;
use bioengineer::screen::main_scene_input::{
    CellSelectionState, CellSelectionType, PixelCellSelection, PixelSelection,
};
use bioengineer::screen::main_scene_input_source::{MainSceneInputSource, PointerEvents};

fn events(mouse_position: (i32, i32)) -> PointerEvents<(i32, i32)> {
    PointerEvents {
        left_pressed: false,
        left_down: false,
        left_released: false,
        right_pressed: false,
        right_down: false,
        right_released: false,
        control_down: false,
        mouse_position,
    }
}

#[test]
fn a_left_drag_starts_continues_and_finishes_a_selection() {
    let mut input = MainSceneInputSource::new((0, 0));
    let press = PointerEvents { left_pressed: true, left_down: true, ..events((1, 2)) };
    let started = input.get_cell_selection(&press);
    assert_eq!(started.state, CellSelectionState::Started);
    assert_eq!(started.pixel_selection, Some(PixelSelection { start: (1, 2), end: (1, 2) }));
    assert_eq!(started.selection_type, CellSelectionType::Exclusive);
    let hold = PointerEvents { left_down: true, ..events((5, 6)) };
    let in_course = input.get_cell_selection(&hold);
    assert_eq!(in_course.state, CellSelectionState::InProgress);
    assert_eq!(in_course.pixel_selection, Some(PixelSelection { start: (1, 2), end: (5, 6) }));
    let release = PointerEvents { left_released: true, ..events((7, 8)) };
    let finished = input.get_cell_selection(&release);
    assert_eq!(finished, PixelCellSelection::finished(PixelSelection { start: (1, 2), end: (7, 8) }, CellSelectionType::Exclusive));
    assert_eq!(input.previous_left_click_pos, None);
    assert_eq!(input.get_cell_selection(&events((9, 9))), PixelCellSelection::no_selection());
}

#[test]
fn a_right_drag_with_control_removes_cells() {
    let mut input = MainSceneInputSource::new((0, 0));
    let press = PointerEvents { right_pressed: true, right_down: true, control_down: true, ..events((3, 3)) };
    let started = input.get_cell_selection(&press);
    assert_eq!(started.state, CellSelectionState::Started);
    assert_eq!(started.selection_type, CellSelectionType::Remove);
    let release = PointerEvents { right_released: true, control_down: true, ..events((4, 4)) };
    let finished = input.get_cell_selection(&release);
    assert_eq!(finished.state, CellSelectionState::Finished);
    assert_eq!(finished.pixel_selection, Some(PixelSelection { start: (3, 3), end: (4, 4) }));
    assert_eq!(input.previous_right_click_pos_with_control, None);
}

#[test]
fn a_left_drag_with_control_adds_cells() {
    let mut input = MainSceneInputSource::new((0, 0));
    let press = PointerEvents { left_pressed: true, control_down: true, ..events((3, 3)) };
    assert_eq!(input.get_cell_selection(&press).selection_type, CellSelectionType::Add);
}

#[test]
fn right_clicks_without_control_move_robots() {
    let input = MainSceneInputSource::new((0, 0));
    let click = PointerEvents { right_pressed: true, ..events((2, 5)) };
    assert_eq!(input.get_robot_movement(&click), Some((2, 5)));
    let with_control = PointerEvents { control_down: true, ..click };
    assert_eq!(input.get_robot_movement(&with_control), None);
    assert_eq!(input.get_robot_movement(&events((2, 5))), None);
}

#[test]
fn the_help_lists_the_controls() {
    let lines = help_text_lines();
    assert_eq!(lines.len(), 15);
    assert_eq!(lines[0], "Controls");
    assert_eq!(lines[9], "- G: go to spaceship");
}
