use vstd::prelude::*;
use crate::screen::drawing_state::DrawingState;
use crate::world::world_map::WorldMap;
use crate::world::world_map::cell_index::CellIndex;

verus! {

/// Bound on the span of a drawn window, and on a level to go to, that keeps the moves of the
/// window free of overflow.
pub const MAX_WINDOW_SPAN: i32 = 0x2000_0000;

/// Where the window `[min, max]` ends after `move_inside_range`, and whether it moved: it is
/// shifted up so that it starts at `hard_min` if it started below, else shifted down so that
/// it ends at `hard_max` if it ended above.
pub open spec fn spec_move_inside_range(min: int, max: int, hard_min: int, hard_max: int) -> (int, int, bool) {
    if min < hard_min {
        (hard_min, max + (hard_min - min), true)
    } else if max > hard_max {
        (min + (hard_max - max), hard_max, true)
    } else {
        (min, max, false)
    }
}

/// Shifts the window `[min, max]` (keeping its width) so that it starts no lower than
/// `hard_min`, or else ends no higher than `hard_max`. Returns whether it moved.
pub fn move_inside_range(min: &mut i32, max: &mut i32, hard_min: i32, hard_max: i32) -> (moved: bool)
    requires
        *old(min) < hard_min ==> i32::MIN <= *old(max) + (hard_min - *old(min)) <= i32::MAX,
        *old(min) >= hard_min && *old(max) > hard_max ==> i32::MIN <= *old(min) + (hard_max - *old(max)) <= i32::MAX,
    ensures
        (*final(min) as int, *final(max) as int, moved) == spec_move_inside_range(
            *old(min) as int,
            *old(max) as int,
            hard_min as int,
            hard_max as int,
        ),
        *final(max) - *final(min) == *old(max) - *old(min),
        *old(max) - *old(min) <= hard_max - hard_min ==> hard_min <= *final(min) && *final(max) <= hard_max,
{
    if *min < hard_min {
        let diff = hard_min as i64 - *min as i64;
        *min = hard_min;
        *max = (*max as i64 + diff) as i32;
        true
    } else if *max > hard_max {
        let diff = hard_max as i64 - *max as i64;
        *min = (*min as i64 + diff) as i32;
        *max = hard_max;
        true
    } else {
        false
    }
}

impl DrawingState {
    /// The levels shown are shifted by `y`, then kept inside the levels of the default map.
    pub fn change_height_rel(&mut self, y: i32)
        requires
            i32::MIN <= old(self).min_cell.y + y <= i32::MAX,
            i32::MIN <= old(self).max_cell.y + y <= i32::MAX,
            -MAX_WINDOW_SPAN <= old(self).max_cell.y - old(self).min_cell.y <= MAX_WINDOW_SPAN,
        ensures
            ({
                let r = spec_move_inside_range(
                    old(self).min_cell.y + y,
                    old(self).max_cell.y + y,
                    WorldMap::spec_default_min_cell().y as int,
                    WorldMap::spec_default_max_cell().y as int,
                );
                &&& final(self).min_cell.y == r.0
                &&& final(self).max_cell.y == r.1
            }),
            final(self).max_cell.y - final(self).min_cell.y == old(self).max_cell.y - old(self).min_cell.y,
            0 <= old(self).max_cell.y - old(self).min_cell.y <= 63 ==> -32 <= final(self).min_cell.y
                && final(self).max_cell.y <= 31,
            final(self).min_cell == (CellIndex { y: final(self).min_cell.y, ..old(self).min_cell }),
            final(self).max_cell == (CellIndex { y: final(self).max_cell.y, ..old(self).max_cell }),
            final(self).top_bar_showing == old(self).top_bar_showing,
            final(self).cell_index_set == old(self).cell_index_set,
            final(self).highlight_start_height == old(self).highlight_start_height,
    {
        let hard_min = WorldMap::default_min_cell().y;
        let hard_max = WorldMap::default_max_cell().y;
        self.max_cell.y = self.max_cell.y + y;
        self.min_cell.y = self.min_cell.y + y;
        move_inside_range(&mut self.min_cell.y, &mut self.max_cell.y, hard_min, hard_max);
    }

    /// Shifts the levels shown by `y`, then, if asked to go to the robot, shows the robot's
    /// level on top (both kept inside the default map).
    pub fn maybe_change_height_rel(&mut self, y: i32, go_to_robot: Option<CellIndex>)
        requires
            i32::MIN <= old(self).min_cell.y + y <= i32::MAX,
            i32::MIN <= old(self).max_cell.y + y <= i32::MAX,
            -MAX_WINDOW_SPAN <= old(self).max_cell.y - old(self).min_cell.y <= MAX_WINDOW_SPAN,
            go_to_robot matches Some(robot) ==> -MAX_WINDOW_SPAN <= robot.y <= MAX_WINDOW_SPAN,
        ensures
            final(self).max_cell.y - final(self).min_cell.y == old(self).max_cell.y - old(self).min_cell.y,
            0 <= old(self).max_cell.y - old(self).min_cell.y <= 63 ==> -32 <= final(self).min_cell.y
                && final(self).max_cell.y <= 31,
            go_to_robot is None ==> final(self).max_cell.y == spec_move_inside_range(
                old(self).min_cell.y + y,
                old(self).max_cell.y + y,
                -32,
                31,
            ).1,
            go_to_robot matches Some(robot) ==> final(self).max_cell.y == spec_move_inside_range(
                robot.y - (old(self).max_cell.y - old(self).min_cell.y),
                robot.y as int,
                -32,
                31,
            ).1,
            final(self).min_cell == (CellIndex { y: final(self).min_cell.y, ..old(self).min_cell }),
            final(self).max_cell == (CellIndex { y: final(self).max_cell.y, ..old(self).max_cell }),
            final(self).top_bar_showing == old(self).top_bar_showing,
            final(self).cell_index_set == old(self).cell_index_set,
            final(self).highlight_start_height == old(self).highlight_start_height,
    {
        self.change_height_rel(y);
        if let Some(robot_pos) = go_to_robot {
            let level_diff = robot_pos.y - self.max_cell.y;
            self.change_height_rel(level_diff);
        }
    }

    /// Shows level `y` on top (kept inside the default map).
    pub fn change_height_to(&mut self, y: i32)
        requires
            i32::MIN <= y - old(self).max_cell.y <= i32::MAX,
            i32::MIN <= y - (old(self).max_cell.y - old(self).min_cell.y) <= i32::MAX,
            -MAX_WINDOW_SPAN <= old(self).max_cell.y - old(self).min_cell.y <= MAX_WINDOW_SPAN,
        ensures
            final(self).max_cell.y == spec_move_inside_range(
                y - (old(self).max_cell.y - old(self).min_cell.y),
                y as int,
                -32,
                31,
            ).1,
            final(self).max_cell.y - final(self).min_cell.y == old(self).max_cell.y - old(self).min_cell.y,
            0 <= old(self).max_cell.y - old(self).min_cell.y <= 63 ==> -32 <= final(self).min_cell.y
                && final(self).max_cell.y <= 31,
            final(self).min_cell == (CellIndex { y: final(self).min_cell.y, ..old(self).min_cell }),
            final(self).max_cell == (CellIndex { y: final(self).max_cell.y, ..old(self).max_cell }),
            final(self).top_bar_showing == old(self).top_bar_showing,
            final(self).cell_index_set == old(self).cell_index_set,
            final(self).highlight_start_height == old(self).highlight_start_height,
    {
        let diff = y - self.max_cell.y;
        self.maybe_change_height_rel(diff, None);
    }
}

} // verus!
