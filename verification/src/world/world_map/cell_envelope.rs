use vstd::prelude::*;
use crate::world::world_map::cell_index::CellIndex;

verus! {

/// A box of cells, given by its lowest and highest corners.
#[derive(Copy, Clone, Debug, PartialEq, Eq, Structural)]
pub struct Envelope {
    pub min_cell: CellIndex,
    pub max_cell: CellIndex,
}

pub open spec fn spec_is_horizontally_inside(cell: CellIndex, envelope: Envelope) -> bool {
    envelope.min_cell.x <= cell.x <= envelope.max_cell.x && envelope.min_cell.z <= cell.z
        <= envelope.max_cell.z
}

/// Whether the cell is inside the box when looking from above: its height does not matter.
pub fn is_horizontally_inside(cell: &CellIndex, envelope: &Envelope) -> (result: bool)
    ensures
        result == spec_is_horizontally_inside(*cell, *envelope),
{
    envelope.min_cell.x <= cell.x && cell.x <= envelope.max_cell.x && envelope.min_cell.z <= cell.z
        && cell.z <= envelope.max_cell.z
}

} // verus!
