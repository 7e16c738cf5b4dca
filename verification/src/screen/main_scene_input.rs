use vstd::prelude::*;
use crate::world::world_map::cell_index::CellIndex;

verus! {

#[derive(Copy, Clone, PartialEq, Eq, Debug, Structural)]
pub enum ZoomChange {
    ZoomIn,
    ZoomOut,
    NoChange,
}

/// Where the user is in the gesture of selecting cells.
#[derive(PartialEq, Eq, Copy, Clone, Debug, Structural)]
pub enum CellSelectionState {
    NotSelecting,
    Started,
    InProgress,
    Finished,
}

/// What a new selection does with the cells that were already selected.
#[derive(PartialEq, Eq, Copy, Clone, Debug, Structural)]
pub enum CellSelectionType {
    /// Replaces them.
    Exclusive,
    /// Adds to them.
    Add,
    /// Removes from them.
    Remove,
}

/// The corners of a selection on the screen, as points of type `P`.
#[derive(Copy, Clone, Debug, PartialEq, Eq)]
pub struct PixelSelection<P> {
    pub start: P,
    pub end: P,
}

/// A selection of cells made by the user, still on the screen.
#[derive(Copy, Clone, Debug, PartialEq, Eq)]
pub struct PixelCellSelection<P> {
    pub state: CellSelectionState,
    pub pixel_selection: Option<PixelSelection<P>>,
    pub selection_type: CellSelectionType,
}

impl<P> PixelCellSelection<P> {
    pub fn no_selection() -> (result: PixelCellSelection<P>)
        ensures
            result == (PixelCellSelection::<P> {
                state: CellSelectionState::NotSelecting,
                pixel_selection: None,
                selection_type: CellSelectionType::Exclusive,
            }),
    {
        PixelCellSelection {
            state: CellSelectionState::NotSelecting,
            pixel_selection: None,
            selection_type: CellSelectionType::Exclusive,
        }
    }

    pub fn started(selection: PixelSelection<P>, addition: CellSelectionType) -> (result:
        PixelCellSelection<P>)
        ensures
            result == (PixelCellSelection::<P> {
                state: CellSelectionState::Started,
                pixel_selection: Some(selection),
                selection_type: addition,
            }),
    {
        PixelCellSelection {
            state: CellSelectionState::Started,
            pixel_selection: Some(selection),
            selection_type: addition,
        }
    }

    pub fn in_progress(selection: PixelSelection<P>, addition: CellSelectionType) -> (result:
        PixelCellSelection<P>)
        ensures
            result == (PixelCellSelection::<P> {
                state: CellSelectionState::InProgress,
                pixel_selection: Some(selection),
                selection_type: addition,
            }),
    {
        PixelCellSelection {
            state: CellSelectionState::InProgress,
            pixel_selection: Some(selection),
            selection_type: addition,
        }
    }

    pub fn finished(selection: PixelSelection<P>, addition: CellSelectionType) -> (result:
        PixelCellSelection<P>)
        ensures
            result == (PixelCellSelection::<P> {
                state: CellSelectionState::Finished,
                pixel_selection: Some(selection),
                selection_type: addition,
            }),
    {
        PixelCellSelection {
            state: CellSelectionState::Finished,
            pixel_selection: Some(selection),
            selection_type: addition,
        }
    }
}

/// The corners of a selection, as cells.
#[derive(Default, Debug, Copy, Clone, PartialEq, Eq, Structural)]
pub struct CellIndexSelection {
    pub start: CellIndex,
    pub end: CellIndex,
}

/// A selection of cells made by the user.
#[derive(Copy, Clone, Debug, PartialEq, Eq, Structural)]
pub struct CellSelection {
    pub state: CellSelectionState,
    pub selection: Option<CellIndexSelection>,
    pub selection_type: CellSelectionType,
}

impl CellSelection {
    pub open spec fn spec_no_selection() -> CellSelection {
        CellSelection {
            state: CellSelectionState::NotSelecting,
            selection: None,
            selection_type: CellSelectionType::Exclusive,
        }
    }

    pub fn no_selection() -> (result: CellSelection)
        ensures
            result == CellSelection::spec_no_selection(),
    {
        CellSelection {
            state: CellSelectionState::NotSelecting,
            selection: None,
            selection_type: CellSelectionType::Exclusive,
        }
    }

    /// Whether the user is in the middle of selecting.
    pub fn is_something_being_selected(&self) -> (result: bool)
        ensures
            result == (self.state == CellSelectionState::Started || self.state
                == CellSelectionState::InProgress),
    {
        self.state == CellSelectionState::Started || self.state == CellSelectionState::InProgress
    }
}

} // verus!
