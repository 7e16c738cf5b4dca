use bioengineer::screen::drawing_state::highlight_cells::highlight_cells;
use bioengineer::screen::drawing_state::{DrawingState, DEFAULT_RENDER_DEPTH, DEFAULT_RENDER_HALF_SIDE};
use bioengineer::screen::main_scene_input::CellSelectionState::{Finished, InProgress, Started};
use bioengineer::screen::main_scene_input::CellSelectionType::{Add, Exclusive, Remove};
use bioengineer::world::world_map::cell_envelope::Envelope;
use bioengineer::world::world_map::cell_index::{up, CellIndex};
use bioengineer::world::world_map::cell_set::CellSet;

#[test]
fn test_select_higher_cell() {
    let envelope = Envelope {
        min_cell: CellIndex::new(0, -10, 0),
        max_cell: CellIndex::new(0, -5, 0),
    };
    let mut highlighted = CellSet::new();
    let mut highlighted_consolidated = CellSet::new();
    highlight_cells(
        CellIndex::new(0, 0, 0),
        CellIndex::new(0, 0, 0),
        envelope,
        Exclusive,
        &mut highlighted,
        &mut highlighted_consolidated,
    );
    assert_eq!(highlighted.len(), 1);
}

struct TestData {
    pub start: CellIndex,
    pub small_end: CellIndex,
    pub big_end: CellIndex,
}

fn setup() -> TestData {
    TestData {
        start: CellIndex::new(0, 1, 0),
        small_end: CellIndex::new(1, 1, 1),
        big_end: CellIndex::new(1, 1, 2),
    }
}

#[test]
fn quick_selection() {
    let mut drawing = DrawingState::new();
    let t = setup();

    drawing.maybe_select_cells(t.start, t.small_end, Finished, Exclusive);
    assert_eq!(drawing.highlighted_cells().len(), 4);
}

#[test]
fn quick_selection_progress() {
    let mut drawing = DrawingState::new();
    let t = setup();

    drawing.maybe_select_cells(t.start, t.small_end, InProgress, Exclusive);
    assert_eq!(drawing.highlighted_cells().len(), 4);
}

#[test]
fn new_selection() {
    let mut drawing = DrawingState::new();
    let t = setup();

    drawing.maybe_select_cells(t.start, t.small_end, Finished, Exclusive);
    assert_eq!(drawing.highlighted_cells().len(), 4);

    drawing.maybe_select_cells(t.small_end, t.big_end, Started, Exclusive);
    let highlighted = drawing.highlighted_cells();
    assert_eq!(highlighted.len(), 2);
    assert!(highlighted.contains(&t.small_end));
    assert!(highlighted.contains(&t.big_end));
}

#[test]
fn selection_without_addition() {
    let mut drawing = DrawingState::new();
    let t = setup();

    drawing.maybe_select_cells(t.start, t.small_end, Started, Exclusive);
    assert_eq!(drawing.highlighted_cells().len(), 4);

    drawing.maybe_select_cells(t.start, t.big_end, InProgress, Exclusive);
    assert_eq!(drawing.highlighted_cells().len(), 6);

    drawing.maybe_select_cells(t.start, t.small_end, Started, Exclusive);
    assert_eq!(drawing.highlighted_cells().len(), 4);

    drawing.maybe_select_cells(t.start, t.big_end, Finished, Exclusive);
    assert_eq!(drawing.highlighted_cells().len(), 6);
}

#[test]
fn selection_with_addition() {
    let mut drawing = DrawingState::new();
    let t = setup();

    drawing.maybe_select_cells(t.start, t.small_end, Finished, Exclusive);
    assert_eq!(drawing.highlighted_cells().len(), 4);

    drawing.maybe_select_cells(t.small_end, t.big_end, Started, Add);
    assert_eq!(drawing.highlighted_cells().len(), 5);

    drawing.maybe_select_cells(t.small_end, t.big_end.plus(up()), InProgress, Add);
    assert_eq!(drawing.highlighted_cells().len(), 7);

    drawing.maybe_select_cells(t.small_end, t.big_end, InProgress, Add);
    assert_eq!(drawing.highlighted_cells().len(), 5);

    drawing.maybe_select_cells(t.small_end, t.big_end, Finished, Add);
    assert_eq!(drawing.highlighted_cells().len(), 5);
}

#[test]
fn reduce_selection_with_addition() {
    let mut drawing = DrawingState::new();
    let t = setup();

    drawing.maybe_select_cells(t.small_end, t.big_end.plus(up()), Started, Add);
    assert_eq!(drawing.highlighted_cells().len(), 4);

    drawing.maybe_select_cells(t.small_end, t.big_end, InProgress, Add);
    assert_eq!(drawing.highlighted_cells().len(), 2);
}

#[test]
fn remove_selection() {
    let mut drawing = DrawingState::new();
    let t = setup();

    drawing.maybe_select_cells(t.start, t.big_end.plus(up()), Finished, Add);
    assert_eq!(drawing.highlighted_cells().len(), 12);

    drawing.maybe_select_cells(t.start, t.small_end, Started, Remove);
    assert_eq!(drawing.highlighted_cells().len(), 8);

    drawing.maybe_select_cells(t.start, t.small_end, Finished, Remove);
    assert_eq!(drawing.highlighted_cells().len(), 8);
}

#[test]
fn re_center_after_moving_back_by_negative_offsets() {
    let mut drawing = DrawingState::new_centered(CellIndex::new(0, 0, 0));
    let clamped = drawing.move_map_horizontally_rel(CellIndex::new(-4, 0, -4));
    assert_eq!(clamped, (false, false));
    assert_eq!(drawing.min_cell, CellIndex::new(-14, -10, -14));
    assert_eq!(drawing.max_cell, CellIndex::new(5, 0, 5));
    drawing.re_center(CellIndex::new(0, 0, 0));
    assert_eq!(drawing.min_cell, CellIndex::new(-10, -10, -10));
    assert_eq!(drawing.max_cell, CellIndex::new(9, 0, 9));
}

#[test]
fn re_center_undoes_a_move() {
    let mut drawing = DrawingState::new_centered(CellIndex::new(0, 0, 0));
    drawing.move_map_horizontally_rel(CellIndex::new(6, 0, 4));
    assert_eq!(drawing.min_cell, CellIndex::new(-4, -10, -6));
    assert_eq!(drawing.max_cell, CellIndex::new(15, 0, 13));
    drawing.re_center(CellIndex::new(0, 0, 0));
    assert_eq!(drawing.min_cell, CellIndex::new(-10, -10, -10));
    assert_eq!(drawing.max_cell, CellIndex::new(9, 0, 9));
}

#[test]
fn test_move_center_even_x_greater() {
    let x_diff = 6;
    let z_diff = 4;
    move_and_re_center(x_diff, z_diff);
}

#[test]
fn test_move_center_even_z_greater() {
    let x_diff = 4;
    let z_diff = 6;
    move_and_re_center(x_diff, z_diff);
}

#[test]
fn test_move_center_odd_x_greater() {
    let x_diff = 6;
    let z_diff = 5;
    move_and_re_center(x_diff, z_diff);
}

#[test]
fn test_move_center_negative() {
    let x_diff = -4;
    let z_diff = -4;
    move_and_re_center(x_diff, z_diff);
}

#[test]
fn test_move_center_x_negative() {
    let x_diff = -4;
    let z_diff = 4;
    move_and_re_center(x_diff, z_diff);
}

#[test]
fn test_move_center_z_negative() {
    let x_diff = 4;
    let z_diff = -4;
    move_and_re_center(x_diff, z_diff);
}

fn move_and_re_center(x_diff: i32, z_diff: i32) {
    let mut drawing = DrawingState::new_centered(CellIndex::new(0, 0, 0));
    drawing.move_map_horizontally_rel(CellIndex::new(x_diff, 0, z_diff));
    let side = DEFAULT_RENDER_HALF_SIDE;
    let min_at_0 = CellIndex::new(-side, -DEFAULT_RENDER_DEPTH, -side);
    let max_at_0 = CellIndex::new(side - 1, 0, side - 1);
    assert_eq!(drawing.min_cell, CellIndex::new(min_at_0.x + x_diff, min_at_0.y, min_at_0.z + z_diff));
    assert_eq!(drawing.max_cell, CellIndex::new(max_at_0.x + x_diff, max_at_0.y, max_at_0.z + z_diff));

    drawing.re_center(CellIndex::new(0, 0, 0));
    assert_eq!(drawing.min_cell, min_at_0);
    assert_eq!(drawing.max_cell, max_at_0);
}

#[test]
fn a_window_already_at_the_edge_does_not_move() {
    let mut drawing = DrawingState::new_centered(CellIndex::new(0, 0, 0));
    let clamped = drawing.move_map_horizontally_rel(CellIndex::new(-22, 0, 0));
    assert_eq!(clamped, (false, false));
    assert_eq!(drawing.min_cell, CellIndex::new(-32, -10, -10));
}

#[test]
fn moving_past_the_map_edge_is_clamped() {
    let mut drawing = DrawingState::new_centered(CellIndex::new(0, 0, 0));
    let clamped = drawing.move_map_horizontally_rel(CellIndex::new(100, 0, -25));
    assert_eq!(clamped, (true, true));
    assert_eq!(drawing.min_cell, CellIndex::new(12, -10, -32));
    assert_eq!(drawing.max_cell, CellIndex::new(31, 0, -13));
}

#[test]
fn changing_height_is_kept_inside_the_map() {
    let mut drawing = DrawingState::new_centered(CellIndex::new(0, 0, 0));
    drawing.change_height_to(100);
    assert_eq!(drawing.max_cell.y, 31);
    assert_eq!(drawing.min_cell.y, 21);
    drawing.maybe_change_height_rel(-5, None);
    assert_eq!(drawing.max_cell.y, 26);
    drawing.maybe_change_height_rel(0, Some(CellIndex::new(3, -40, 3)));
    assert_eq!(drawing.min_cell.y, -32);
    assert_eq!(drawing.max_cell.y, -22);
}
