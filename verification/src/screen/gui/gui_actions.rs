use vstd::prelude::*;
use crate::scene::GameLoopState;
use crate::screen::main_scene_input::CellSelection;
use crate::world::world_map::cell_index::CellIndex;
use crate::world::{GameGoalState, TransformationTask};

verus! {

/// What the user asked for on one frame.
pub struct GuiActions {
    pub quit: bool,
    pub regenerate_map: bool,
    pub toggle_profiling: bool,
    pub toggle_fluids: bool,
    pub single_fluid: bool,
    pub reset_quantities: bool,
    pub change_height_rel: i32,
    pub move_map_horizontally: Option<CellIndex>,
    pub go_to_robot: Option<CellIndex>,
    pub cell_selection: CellSelection,
    pub selected_cell_transformation: Option<TransformationTask>,
    pub cancel_task: Option<usize>,
    pub next_game_goal_state: Option<GameGoalState>,
}

impl Default for GuiActions {
    /// Nothing asked for, and no cell being selected.
    fn default() -> (result: GuiActions)
        ensures
            !result.quit && !result.regenerate_map && !result.toggle_profiling,
            !result.toggle_fluids && !result.single_fluid && !result.reset_quantities,
            result.change_height_rel == 0,
            result.move_map_horizontally is None && result.go_to_robot is None,
            result.cell_selection == CellSelection::spec_no_selection(),
            result.selected_cell_transformation is None,
            result.cancel_task is None && result.next_game_goal_state is None,
    {
        GuiActions::nothing()
    }
}

impl GuiActions {
    /// Nothing asked for, and no cell being selected.
    pub fn nothing() -> (result: GuiActions)
        ensures
            !result.quit && !result.regenerate_map && !result.toggle_profiling,
            !result.toggle_fluids && !result.single_fluid && !result.reset_quantities,
            result.change_height_rel == 0,
            result.move_map_horizontally is None && result.go_to_robot is None,
            result.cell_selection == CellSelection::spec_no_selection(),
            result.selected_cell_transformation is None,
            result.cancel_task is None && result.next_game_goal_state is None,
    {
        GuiActions {
            quit: false,
            regenerate_map: false,
            toggle_profiling: false,
            toggle_fluids: false,
            single_fluid: false,
            reset_quantities: false,
            change_height_rel: 0,
            move_map_horizontally: None,
            go_to_robot: None,
            cell_selection: CellSelection::no_selection(),
            selected_cell_transformation: None,
            cancel_task: None,
            next_game_goal_state: None,
        }
    }

    /// Whether the game goes on after this frame: it stops once the user asked to quit.
    pub fn should_continue(&self) -> (result: GameLoopState)
        ensures
            result == if self.quit {
                GameLoopState::ShouldFinish
            } else {
                GameLoopState::ShouldContinue
            },
    {
        if self.quit {
            GameLoopState::ShouldFinish
        } else {
            GameLoopState::ShouldContinue
        }
    }
}

} // verus!
