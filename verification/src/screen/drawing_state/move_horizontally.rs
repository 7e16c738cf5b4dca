use vstd::prelude::*;
use crate::screen::drawing_state::DrawingState;
use crate::screen::drawing_state::change_height::MAX_WINDOW_SPAN;
use crate::world::world_map::WorldMap;
use crate::world::world_map::cell_index::CellIndex;

verus! {

/// Where the window `[min, max]` ends after `move_inside_range_min_equals`, and whether it
/// moved: a window that starts at or below `hard_min` is brought to start at `hard_min`, else
/// one that ends above `hard_max` is brought to end there.
pub open spec fn spec_move_inside_range_min_equals(min: int, max: int, hard_min: int, hard_max: int) -> (int, int, bool) {
    if min <= hard_min {
        (hard_min, max + (hard_min - min), min < hard_min)
    } else if max > hard_max {
        (min + (hard_max - max), hard_max, true)
    } else {
        (min, max, false)
    }
}

/// The column in the middle of the drawn window `[min, max]`, along one axis: the first column
/// that is no farther from `max` than from `min` (with an even number of columns, the upper of
/// the two middle ones).
pub open spec fn spec_center(min: int, max: int) -> int {
    (min + max + 1) / 2
}

/// The middle moves with the window: shifting a window by `k` shifts its middle by `k`, so
/// shifting it back to where its middle was undoes the shift.
pub proof fn lemma_center_follows_shift(min: int, max: int, k: int)
    ensures
        spec_center(min + k, max + k) == spec_center(min, max) + k,
{
    assert((min + k + max + k + 1) / 2 == (min + max + 1) / 2 + k) by {
        vstd::arithmetic::div_mod::lemma_hoist_over_denominator(min + max + 1, k, 2);
    }
}

/// Shifts the window `[min, max]` (keeping its width) so that it starts no lower than
/// `hard_min`, or else ends no higher than `hard_max`. Returns whether it moved.
pub fn move_inside_range_min_equals(min: &mut i32, max: &mut i32, hard_min: i32, hard_max: i32) -> (moved: bool)
    requires
        *old(min) <= hard_min ==> i32::MIN <= *old(max) + (hard_min - *old(min)) <= i32::MAX,
        *old(min) > hard_min && *old(max) > hard_max ==> i32::MIN <= *old(min) + (hard_max - *old(max)) <= i32::MAX,
    ensures
        (*final(min) as int, *final(max) as int, moved) == spec_move_inside_range_min_equals(
            *old(min) as int,
            *old(max) as int,
            hard_min as int,
            hard_max as int,
        ),
        moved == (*final(min) != *old(min)),
        *final(max) - *final(min) == *old(max) - *old(min),
        *old(max) - *old(min) <= hard_max - hard_min ==> hard_min <= *final(min) && *final(max) <= hard_max,
{
    if *min <= hard_min {
        let diff = hard_min as i64 - *min as i64;
        *min = hard_min;
        *max = (*max as i64 + diff) as i32;
        diff != 0
    } else if *max > hard_max {
        let diff = hard_max as i64 - *max as i64;
        *min = (*min as i64 + diff) as i32;
        *max = hard_max;
        true
    } else {
        false
    }
}

/// The middle column of the window `[min, max]`.
fn center(min: i32, max: i32) -> (result: i32)
    requires
        -MAX_WINDOW_SPAN <= min <= MAX_WINDOW_SPAN,
        -MAX_WINDOW_SPAN <= max <= MAX_WINDOW_SPAN,
    ensures
        result == spec_center(min as int, max as int),
        max - result <= result - min + 1,
        result - min <= max - result + 1,
{
    let above: i64 = min as i64 + max as i64 + 1;
    if above >= 0 {
        (above / 2) as i32
    } else {
        let below: i64 = -above;
        -(((below + 1) / 2) as i32)
    }
}

impl DrawingState {
    /// The drawing state after a horizontal shift by `cell_diff` (its `y` is ignored): on each
    /// axis the window is shifted, then kept inside the default map.
    pub open spec fn spec_shifted(before: DrawingState, cell_diff: CellIndex) -> DrawingState {
        let rx = spec_move_inside_range_min_equals(
            before.min_cell.x + cell_diff.x,
            before.max_cell.x + cell_diff.x,
            WorldMap::spec_default_min_cell().x as int,
            WorldMap::spec_default_max_cell().x as int,
        );
        let rz = spec_move_inside_range_min_equals(
            before.min_cell.z + cell_diff.z,
            before.max_cell.z + cell_diff.z,
            WorldMap::spec_default_min_cell().z as int,
            WorldMap::spec_default_max_cell().z as int,
        );
        DrawingState {
            min_cell: CellIndex { x: rx.0 as i32, y: before.min_cell.y, z: rz.0 as i32 },
            max_cell: CellIndex { x: rx.1 as i32, y: before.max_cell.y, z: rz.1 as i32 },
            ..before
        }
    }

    /// Whether the horizontal shift by `cell_diff` had to be corrected on the x axis and on the
    /// z axis.
    pub open spec fn spec_moved_horizontally_clamps(before: DrawingState, cell_diff: CellIndex) -> (bool, bool) {
        (
            spec_move_inside_range_min_equals(
                before.min_cell.x + cell_diff.x,
                before.max_cell.x + cell_diff.x,
                -32,
                31,
            ).2,
            spec_move_inside_range_min_equals(
                before.min_cell.z + cell_diff.z,
                before.max_cell.z + cell_diff.z,
                -32,
                31,
            ).2,
        )
    }

    /// Shifts the drawn window horizontally by `cell_diff` (its `y` is ignored), keeping it
    /// inside the default map. Returns whether the x and the z shift had to be corrected, so
    /// that a caller that tracks a fraction of a cell can drop it.
    pub fn move_map_horizontally_rel(&mut self, cell_diff: CellIndex) -> (clamped: (bool, bool))
        requires
            i32::MIN <= old(self).min_cell.x + cell_diff.x <= i32::MAX,
            i32::MIN <= old(self).max_cell.x + cell_diff.x <= i32::MAX,
            i32::MIN <= old(self).min_cell.z + cell_diff.z <= i32::MAX,
            i32::MIN <= old(self).max_cell.z + cell_diff.z <= i32::MAX,
            -2 * MAX_WINDOW_SPAN <= old(self).max_cell.x - old(self).min_cell.x <= 2 * MAX_WINDOW_SPAN,
            -2 * MAX_WINDOW_SPAN <= old(self).max_cell.z - old(self).min_cell.z <= 2 * MAX_WINDOW_SPAN,
        ensures
            *final(self) == Self::spec_shifted(*old(self), cell_diff),
            clamped == Self::spec_moved_horizontally_clamps(*old(self), cell_diff),
            0 <= old(self).max_cell.x - old(self).min_cell.x <= 63 ==> -32 <= final(self).min_cell.x
                && final(self).max_cell.x <= 31,
            0 <= old(self).max_cell.z - old(self).min_cell.z <= 63 ==> -32 <= final(self).min_cell.z
                && final(self).max_cell.z <= 31,
    {
        let hard_min = WorldMap::default_min_cell();
        let hard_max = WorldMap::default_max_cell();
        self.max_cell.x = self.max_cell.x + cell_diff.x;
        self.min_cell.x = self.min_cell.x + cell_diff.x;
        self.max_cell.z = self.max_cell.z + cell_diff.z;
        self.min_cell.z = self.min_cell.z + cell_diff.z;
        let clamped_x = move_inside_range_min_equals(
            &mut self.min_cell.x,
            &mut self.max_cell.x,
            hard_min.x,
            hard_max.x,
        );
        let clamped_z = move_inside_range_min_equals(
            &mut self.min_cell.z,
            &mut self.max_cell.z,
            hard_min.z,
            hard_max.z,
        );
        (clamped_x, clamped_z)
    }

    /// The shift that brings column `(x, z)` to the middle of the drawn window.
    pub open spec fn spec_shift_to(&self, x: int, z: int) -> CellIndex {
        CellIndex {
            x: (x - spec_center(self.min_cell.x as int, self.max_cell.x as int)) as i32,
            y: 0,
            z: (z - spec_center(self.min_cell.z as int, self.max_cell.z as int)) as i32,
        }
    }

    /// Shifts the drawn window so that column `(x, z)` is in its middle, as far as the default
    /// map allows.
    pub fn maybe_move_map_horizontally_to(&mut self, x: i32, z: i32)
        requires
            -MAX_WINDOW_SPAN <= old(self).min_cell.x <= MAX_WINDOW_SPAN,
            -MAX_WINDOW_SPAN <= old(self).max_cell.x <= MAX_WINDOW_SPAN,
            -MAX_WINDOW_SPAN <= old(self).min_cell.z <= MAX_WINDOW_SPAN,
            -MAX_WINDOW_SPAN <= old(self).max_cell.z <= MAX_WINDOW_SPAN,
            -MAX_WINDOW_SPAN <= x <= MAX_WINDOW_SPAN,
            -MAX_WINDOW_SPAN <= z <= MAX_WINDOW_SPAN,
        ensures
            *final(self) == Self::spec_shifted(*old(self), old(self).spec_shift_to(x as int, z as int)),
    {
        let center_x = center(self.min_cell.x, self.max_cell.x);
        let center_z = center(self.min_cell.z, self.max_cell.z);
        let diff = CellIndex { x: x - center_x, y: 0, z: z - center_z };
        self.move_map_horizontally_rel(diff);
    }

    /// Shifts the drawn window by `cell_shift`, if any; then, if asked to go to the robot,
    /// shifts it so that the robot's column is in its middle. Returns whether the first shift
    /// had to be corrected on the x axis and on the z axis.
    pub fn maybe_move_map_horizontally(&mut self, cell_shift: Option<CellIndex>, go_to_robot: Option<CellIndex>) -> (clamped: (bool, bool))
        requires
            -MAX_WINDOW_SPAN <= old(self).min_cell.x <= MAX_WINDOW_SPAN,
            -MAX_WINDOW_SPAN <= old(self).max_cell.x <= MAX_WINDOW_SPAN,
            -MAX_WINDOW_SPAN <= old(self).min_cell.z <= MAX_WINDOW_SPAN,
            -MAX_WINDOW_SPAN <= old(self).max_cell.z <= MAX_WINDOW_SPAN,
            0 <= old(self).max_cell.x - old(self).min_cell.x <= 63,
            0 <= old(self).max_cell.z - old(self).min_cell.z <= 63,
            cell_shift matches Some(s) ==> -MAX_WINDOW_SPAN <= s.x <= MAX_WINDOW_SPAN
                && -MAX_WINDOW_SPAN <= s.z <= MAX_WINDOW_SPAN,
            go_to_robot matches Some(r) ==> -MAX_WINDOW_SPAN <= r.x <= MAX_WINDOW_SPAN
                && -MAX_WINDOW_SPAN <= r.z <= MAX_WINDOW_SPAN,
        ensures
            ({
                let middle = match cell_shift {
                    Some(s) => Self::spec_shifted(*old(self), s),
                    None => *old(self),
                };
                &&& clamped == match cell_shift {
                    Some(s) => Self::spec_moved_horizontally_clamps(*old(self), s),
                    None => (false, false),
                }
                &&& *final(self) == match go_to_robot {
                    Some(r) => Self::spec_shifted(middle, middle.spec_shift_to(r.x as int, r.z as int)),
                    None => middle,
                }
            }),
    {
        let mut clamped = (false, false);
        if let Some(shift) = cell_shift {
            clamped = self.move_map_horizontally_rel(shift);
        }
        if let Some(robot_pos) = go_to_robot {
            self.maybe_move_map_horizontally_to(robot_pos.x, robot_pos.z);
        }
        clamped
    }

    /// Shows the cell's level on top and its column in the middle, as far as the default map
    /// allows.
    pub fn re_center(&mut self, cell_index: CellIndex)
        requires
            -MAX_WINDOW_SPAN <= old(self).min_cell.x <= MAX_WINDOW_SPAN,
            -MAX_WINDOW_SPAN <= old(self).max_cell.x <= MAX_WINDOW_SPAN,
            -MAX_WINDOW_SPAN <= old(self).min_cell.z <= MAX_WINDOW_SPAN,
            -MAX_WINDOW_SPAN <= old(self).max_cell.z <= MAX_WINDOW_SPAN,
            -MAX_WINDOW_SPAN <= old(self).min_cell.y <= MAX_WINDOW_SPAN,
            -MAX_WINDOW_SPAN <= old(self).max_cell.y <= MAX_WINDOW_SPAN,
            -MAX_WINDOW_SPAN <= old(self).max_cell.y - old(self).min_cell.y <= MAX_WINDOW_SPAN,
            -MAX_WINDOW_SPAN <= cell_index.x <= MAX_WINDOW_SPAN,
            -MAX_WINDOW_SPAN <= cell_index.y <= MAX_WINDOW_SPAN,
            -MAX_WINDOW_SPAN <= cell_index.z <= MAX_WINDOW_SPAN,
        ensures
            ({
                let span = old(self).max_cell.y - old(self).min_cell.y;
                let ry = crate::screen::drawing_state::change_height::spec_move_inside_range(
                    cell_index.y - span,
                    cell_index.y as int,
                    -32,
                    31,
                );
                let raised = DrawingState {
                    min_cell: CellIndex { y: ry.0 as i32, ..old(self).min_cell },
                    max_cell: CellIndex { y: ry.1 as i32, ..old(self).max_cell },
                    ..*old(self)
                };
                *final(self) == Self::spec_shifted(
                    raised,
                    raised.spec_shift_to(cell_index.x as int, cell_index.z as int),
                )
            }),
    {
        self.change_height_to(cell_index.y);
        self.maybe_move_map_horizontally_to(cell_index.x, cell_index.z);
    }
}

} // verus!
