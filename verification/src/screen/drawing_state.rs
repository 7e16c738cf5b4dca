pub mod change_height;
pub mod highlight_cells;
pub mod move_horizontally;

use vstd::prelude::*;
use crate::screen::drawing_state::highlight_cells::CellIndexSet;
use crate::world::world_map::cell_index::CellIndex;
use crate::world::world_map::cell_set::CellSet;

verus! {

/// How many levels below the top one are drawn.
pub const DEFAULT_RENDER_DEPTH: i32 = 10;

/// Half the side of the drawn region, in cells.
pub const DEFAULT_RENDER_HALF_SIDE: i32 = 10;

/// Which pop-up of the top bar is shown.
#[derive(PartialEq, Eq, Copy, Clone, Debug, Structural)]
pub enum TopBarShowing {
    Goals,
    Help,
    Hidden,
}

/// What part of the map is drawn, and which cells are highlighted. The region drawn goes from
/// `min_cell` to `max_cell`; the top level drawn is `max_cell.y`.
pub struct DrawingState {
    pub min_cell: CellIndex,
    pub max_cell: CellIndex,
    pub top_bar_showing: TopBarShowing,
    pub cell_index_set: CellIndexSet,
    pub highlight_start_height: Option<i32>,
}

impl DrawingState {
    pub open spec fn spec_cell_index_set(&self) -> CellIndexSet {
        self.cell_index_set
    }

    pub open spec fn spec_highlight_start_height(&self) -> Option<i32> {
        self.highlight_start_height
    }

    pub open spec fn wf(&self) -> bool {
        self.spec_cell_index_set().wf()
    }

    /// The drawn region of side `2 * DEFAULT_RENDER_HALF_SIDE` centered on `(0, 1, 0)`.
    pub fn new() -> (result: DrawingState)
        ensures
            result.wf(),
            result.min_cell == (CellIndex { x: -10i32, y: -9i32, z: -10i32 }),
            result.max_cell == (CellIndex { x: 9, y: 1, z: 9 }),
            result.top_bar_showing == TopBarShowing::Hidden,
            result.spec_cell_index_set().spec_merged() == Set::<CellIndex>::empty(),
            result.spec_highlight_start_height() == None::<i32>,
    {
        DrawingState::new_centered(CellIndex::new(0, 1, 0))
    }

    /// The drawn region around the given position (the ship's), with that position's level on
    /// top.
    pub fn new_centered(ship_pos: CellIndex) -> (result: DrawingState)
        requires
            i32::MIN + 10 <= ship_pos.x <= i32::MAX - 10,
            i32::MIN + 10 <= ship_pos.y,
            i32::MIN + 10 <= ship_pos.z <= i32::MAX - 10,
        ensures
            result.wf(),
            result.min_cell == (CellIndex {
                x: (ship_pos.x - 10) as i32,
                y: (ship_pos.y - 10) as i32,
                z: (ship_pos.z - 10) as i32,
            }),
            result.max_cell == (CellIndex { x: (ship_pos.x + 9) as i32, y: ship_pos.y, z: (ship_pos.z + 9) as i32 }),
            result.top_bar_showing == TopBarShowing::Hidden,
            result.spec_cell_index_set().spec_merged() == Set::<CellIndex>::empty(),
            result.spec_highlight_start_height() == None::<i32>,
    {
        let side = DEFAULT_RENDER_HALF_SIDE;
        DrawingState {
            min_cell: CellIndex {
                x: ship_pos.x - side,
                y: ship_pos.y - DEFAULT_RENDER_DEPTH,
                z: ship_pos.z - side,
            },
            max_cell: CellIndex { x: ship_pos.x + side - 1, y: ship_pos.y, z: ship_pos.z + side - 1 },
            top_bar_showing: TopBarShowing::Hidden,
            cell_index_set: CellIndexSet::new(),
            highlight_start_height: None,
        }
    }

    /// The highlighted cells.
    pub fn highlighted_cells(&self) -> (result: &CellSet)
        requires
            self.wf(),
        ensures
            result.wf(),
            result@ == self.spec_cell_index_set().spec_merged(),
    {
        self.cell_index_set.highlighted_cells()
    }

    /// Highlights exactly these cells, as a finished selection to which later ones add.
    pub fn set_highlighted_cells(&mut self, cells: CellSet)
        requires
            old(self).wf(),
            cells.wf(),
        ensures
            final(self).wf(),
            final(self).spec_cell_index_set().spec_merged() == cells@,
            final(self).spec_cell_index_set().spec_consolidated() == cells@,
            final(self).spec_cell_index_set().spec_in_progress() == Set::<CellIndex>::empty(),
            final(self).min_cell == old(self).min_cell,
            final(self).max_cell == old(self).max_cell,
            final(self).top_bar_showing == old(self).top_bar_showing,
            final(self).spec_highlight_start_height() == old(self).spec_highlight_start_height(),
    {
        self.cell_index_set.set_highlighted_cells(cells);
    }
}

} // verus!
