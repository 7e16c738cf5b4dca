use vstd::prelude::*;
use crate::screen::drawing_state::change_height::{spec_move_inside_range, MAX_WINDOW_SPAN};
use crate::screen::drawing_state::{DrawingState, TopBarShowing};
use crate::screen::gui::gui_actions::GuiActions;
use crate::screen::main_scene_input::{CellSelection, CellSelectionState};
use crate::world::world_map::cell_index::CellIndex;

verus! {

/// Shows the pop-up `showing`, or hides it if it is the one shown.
pub fn toggle_showing_or_none(top_bar_showing: &mut TopBarShowing, showing: TopBarShowing)
    ensures
        *final(top_bar_showing) == if *old(top_bar_showing) == showing {
            TopBarShowing::Hidden
        } else {
            showing
        },
{
    if *top_bar_showing == showing {
        *top_bar_showing = TopBarShowing::Hidden;
    } else {
        *top_bar_showing = showing;
    }
}

/// The lines of the help pop-up.
pub open spec fn spec_help_text_lines() -> Seq<Seq<char>> {
    seq![
        "Controls"@,
        "- click (optionally drag): select cells"@,
        "  - CTRL (or CMD) + left click (opt. drag): add cells to the selection"@,
        "  - CTRL (or CMD) + right click (opt. drag): remove cells from the selection"@,
        "- arrow UP and DOWN, or W and S, or mouse wheel up and down: change height layer"@,
        "- mouse wheel click and drag: move the map horizontally"@,
        "- Q and D: move the map horizontally to top left or to bottom down (Z axis in 3D)"@,
        "- A and E: move the map horizontally to bottom left or to top right (X axis 3D)"@,
        "- SHIFT + {W,A,S,D,Q,E}: faster move"@,
        "- G: go to spaceship"@,
        "- CTRL (or CMD) + wheel: zoom in or out"@,
        "- L: enable or disable fluid simulaton (CPU heavy)"@,
        "- N: single step of fluid simulation"@,
        "- R: reset timer and accumulated production"@,
        "- M: regenerate map (delete all constructions)"@
    ]
}

/// The lines of the help pop-up: the controls of the game.
pub fn help_text_lines() -> (result: Vec<String>)
    ensures
        result@.map_values(|line: String| line@) == spec_help_text_lines(),
{
    let mut lines: Vec<String> = Vec::new();
    lines.push(String::from_str("Controls"));
    lines.push(String::from_str("- click (optionally drag): select cells"));
    lines.push(String::from_str("  - CTRL (or CMD) + left click (opt. drag): add cells to the selection"));
    lines.push(String::from_str("  - CTRL (or CMD) + right click (opt. drag): remove cells from the selection"));
    lines.push(String::from_str("- arrow UP and DOWN, or W and S, or mouse wheel up and down: change height layer"));
    lines.push(String::from_str("- mouse wheel click and drag: move the map horizontally"));
    lines.push(String::from_str("- Q and D: move the map horizontally to top left or to bottom down (Z axis in 3D)"));
    lines.push(String::from_str("- A and E: move the map horizontally to bottom left or to top right (X axis 3D)"));
    lines.push(String::from_str("- SHIFT + {W,A,S,D,Q,E}: faster move"));
    lines.push(String::from_str("- G: go to spaceship"));
    lines.push(String::from_str("- CTRL (or CMD) + wheel: zoom in or out"));
    lines.push(String::from_str("- L: enable or disable fluid simulaton (CPU heavy)"));
    lines.push(String::from_str("- N: single step of fluid simulation"));
    lines.push(String::from_str("- R: reset timer and accumulated production"));
    lines.push(String::from_str("- M: regenerate map (delete all constructions)"));
    assert(lines@.map_values(|line: String| line@) =~= spec_help_text_lines());
    lines
}

/// The lowest level shown after the render depth's "+" button: one level lower, but at most
/// fifteen levels below the top one.
pub open spec fn spec_deeper(min_y: int, max_y: int) -> int {
    if min_y - 1 >= max_y - 15 {
        min_y - 1
    } else {
        max_y - 15
    }
}

/// The lowest level shown after the render depth's "-" button: one level higher, but at least
/// two levels below the top one.
pub open spec fn spec_shallower(min_y: int, max_y: int) -> int {
    if min_y + 1 <= max_y - 2 {
        min_y + 1
    } else {
        max_y - 2
    }
}

/// Sets the lowest level shown to `min_y`, then keeps the levels shown inside the map.
fn set_render_bottom(drawing: &mut DrawingState, min_y: i32)
    requires
        -MAX_WINDOW_SPAN <= old(drawing).max_cell.y - min_y <= MAX_WINDOW_SPAN,
    ensures
        final(drawing).max_cell.y - final(drawing).min_cell.y == old(drawing).max_cell.y - min_y,
        final(drawing).max_cell.y == spec_move_inside_range(min_y as int, old(drawing).max_cell.y as int, -32, 31).1,
        final(drawing).min_cell == (CellIndex { y: final(drawing).min_cell.y, ..old(drawing).min_cell }),
        final(drawing).max_cell == (CellIndex { y: final(drawing).max_cell.y, ..old(drawing).max_cell }),
        final(drawing).top_bar_showing == old(drawing).top_bar_showing,
        final(drawing).cell_index_set == old(drawing).cell_index_set,
        final(drawing).highlight_start_height == old(drawing).highlight_start_height,
{
    drawing.min_cell.y = min_y;
    drawing.maybe_change_height_rel(0, None);
}

/// The render depth's "+" button: shows one level more below, up to sixteen levels.
pub fn deepen_render(drawing: &mut DrawingState)
    requires
        old(drawing).min_cell.y > i32::MIN,
        old(drawing).max_cell.y >= i32::MIN + 15,
        -MAX_WINDOW_SPAN < old(drawing).max_cell.y - old(drawing).min_cell.y < MAX_WINDOW_SPAN,
    ensures
        final(drawing).max_cell.y - final(drawing).min_cell.y == old(drawing).max_cell.y - spec_deeper(
            old(drawing).min_cell.y as int,
            old(drawing).max_cell.y as int,
        ),
        final(drawing).max_cell.y == spec_move_inside_range(
            spec_deeper(old(drawing).min_cell.y as int, old(drawing).max_cell.y as int),
            old(drawing).max_cell.y as int,
            -32,
            31,
        ).1,
        final(drawing).min_cell == (CellIndex { y: final(drawing).min_cell.y, ..old(drawing).min_cell }),
        final(drawing).max_cell == (CellIndex { y: final(drawing).max_cell.y, ..old(drawing).max_cell }),
        final(drawing).top_bar_showing == old(drawing).top_bar_showing,
{
    let lower = drawing.min_cell.y - 1;
    let limit = drawing.max_cell.y - 15;
    let min_y = if lower >= limit {
        lower
    } else {
        limit
    };
    set_render_bottom(drawing, min_y);
}

/// The render depth's "-" button: shows one level less below, down to three levels.
pub fn shallow_render(drawing: &mut DrawingState)
    requires
        old(drawing).min_cell.y < i32::MAX,
        old(drawing).max_cell.y >= i32::MIN + 2,
        -MAX_WINDOW_SPAN < old(drawing).max_cell.y - old(drawing).min_cell.y < MAX_WINDOW_SPAN,
    ensures
        final(drawing).max_cell.y - final(drawing).min_cell.y == old(drawing).max_cell.y - spec_shallower(
            old(drawing).min_cell.y as int,
            old(drawing).max_cell.y as int,
        ),
        final(drawing).max_cell.y == spec_move_inside_range(
            spec_shallower(old(drawing).min_cell.y as int, old(drawing).max_cell.y as int),
            old(drawing).max_cell.y as int,
            -32,
            31,
        ).1,
        final(drawing).min_cell == (CellIndex { y: final(drawing).min_cell.y, ..old(drawing).min_cell }),
        final(drawing).max_cell == (CellIndex { y: final(drawing).max_cell.y, ..old(drawing).max_cell }),
        final(drawing).top_bar_showing == old(drawing).top_bar_showing,
{
    let higher = drawing.min_cell.y + 1;
    let limit = drawing.max_cell.y - 2;
    let min_y = if higher <= limit {
        higher
    } else {
        limit
    };
    set_render_bottom(drawing, min_y);
}

/// What the top bar makes of a frame: hovering or clicking it (or a pop-up it shows) drops the
/// selection of cells, and selecting cells hides its pop-ups.
pub fn top_bar_actions(gui_actions: GuiActions, bar_hovered_or_clicked: bool, drawing: &mut DrawingState) -> (result:
    GuiActions)
    ensures
        result == (GuiActions {
            cell_selection: if bar_hovered_or_clicked {
                CellSelection::spec_no_selection()
            } else {
                gui_actions.cell_selection
            },
            ..gui_actions
        }),
        final(drawing).top_bar_showing == if result.cell_selection.state == CellSelectionState::Started || result.cell_selection.state
            == CellSelectionState::InProgress {
            TopBarShowing::Hidden
        } else {
            old(drawing).top_bar_showing
        },
        final(drawing).min_cell == old(drawing).min_cell,
        final(drawing).max_cell == old(drawing).max_cell,
        final(drawing).cell_index_set == old(drawing).cell_index_set,
        final(drawing).highlight_start_height == old(drawing).highlight_start_height,
{
    let cell_selection = if bar_hovered_or_clicked {
        CellSelection::no_selection()
    } else {
        gui_actions.cell_selection
    };
    if cell_selection.is_something_being_selected() {
        drawing.top_bar_showing = TopBarShowing::Hidden;
    }
    GuiActions { cell_selection, ..gui_actions }
}

} // verus!
