use vstd::prelude::*;
use crate::screen::drawing_state::DrawingState;
use crate::screen::main_scene_input::{CellSelection, CellSelectionState, CellSelectionType};
use crate::world::world_map::cell_cube_iterator::{
    cell_cube_from_mixed, in_cube, spec_max_corner, spec_min_corner,
};
use crate::world::world_map::cell_envelope::{Envelope, is_horizontally_inside, spec_is_horizontally_inside};
use crate::world::world_map::cell_index::CellIndex;
use crate::world::world_map::cell_set::CellSet;

verus! {

/// The cells between the corners `start` and `end` that are inside the shown region, seen from
/// above.
pub open spec fn spec_highlight_region(start: CellIndex, end: CellIndex, shown_cube: Envelope) -> Set<CellIndex> {
    Set::new(
        |c: CellIndex|
            in_cube(c, spec_min_corner(start, end), spec_max_corner(start, end))
                && spec_is_horizontally_inside(c, shown_cube),
    )
}

/// What is highlighted, given the finished selection, the one in progress, and what the one in
/// progress does.
pub open spec fn spec_merge(consolidated: Set<CellIndex>, in_progress: Set<CellIndex>, selection_type: CellSelectionType) -> Set<CellIndex> {
    match selection_type {
        CellSelectionType::Exclusive => in_progress,
        CellSelectionType::Add => consolidated.union(in_progress),
        CellSelectionType::Remove => consolidated.difference(in_progress),
    }
}

/// Replaces the selection in progress with the cells between the corners that are inside the
/// shown region (its height does not matter).
pub fn highlight_cells(
    start: CellIndex,
    end: CellIndex,
    shown_cube: Envelope,
    _selection_type: CellSelectionType,
    highlighted_cells_in_progress: &mut CellSet,
    _highlighted_cells_consolidated: &mut CellSet,
)
    requires
        old(highlighted_cells_in_progress).wf(),
    ensures
        final(highlighted_cells_in_progress).wf(),
        final(highlighted_cells_in_progress)@ == spec_highlight_region(start, end, shown_cube),
        *final(_highlighted_cells_consolidated) == *old(_highlighted_cells_consolidated),
{
    let cell_cube = cell_cube_from_mixed(start, end);
    let ghost lo = spec_min_corner(start, end);
    let ghost hi = spec_max_corner(start, end);
    highlighted_cells_in_progress.clear();
    let mut k: usize = 0;
    while k < cell_cube.len()
        invariant
            highlighted_cells_in_progress.wf(),
            crate::world::world_map::cell_cube_iterator::is_cube_walk(cell_cube@, lo, hi),
            k <= cell_cube@.len(),
            forall|c: CellIndex| #[trigger] highlighted_cells_in_progress@.contains(c) == (exists|j: int|
                0 <= j < k && cell_cube@[j] == c && spec_is_horizontally_inside(c, shown_cube)),
        decreases cell_cube@.len() - k,
    {
        let cell = cell_cube[k];
        if is_horizontally_inside(&cell, &shown_cube) {
            highlighted_cells_in_progress.insert(cell);
        }
        proof {
            assert forall|c: CellIndex| #[trigger] highlighted_cells_in_progress@.contains(c) == (exists|j: int|
                0 <= j < k + 1 && cell_cube@[j] == c && spec_is_horizontally_inside(c, shown_cube)) by {
                if c == cell && spec_is_horizontally_inside(c, shown_cube) {
                    assert(cell_cube@[k as int] == c);
                }
                if exists|j: int| 0 <= j < k + 1 && cell_cube@[j] == c && spec_is_horizontally_inside(c, shown_cube) {
                    let j = choose|j: int| 0 <= j < k + 1 && cell_cube@[j] == c && spec_is_horizontally_inside(c, shown_cube);
                    if j < k {
                        assert(exists|j: int| 0 <= j < k && cell_cube@[j] == c && spec_is_horizontally_inside(c, shown_cube));
                    }
                }
            }
        }
        k = k + 1;
    }
    proof {
        assert(highlighted_cells_in_progress@ =~= spec_highlight_region(start, end, shown_cube)) by {
            assert forall|c: CellIndex| #[trigger] highlighted_cells_in_progress@.contains(c) == spec_highlight_region(start, end, shown_cube).contains(c) by {
                if in_cube(c, lo, hi) {
                    crate::world::world_map::cell_cube_iterator::lemma_cube_position(c, lo, hi);
                    let j = crate::world::world_map::cell_cube_iterator::cube_position(c, lo, hi);
                    assert(cell_cube@[j] == c);
                }
                if exists|j: int| 0 <= j < k && cell_cube@[j] == c && spec_is_horizontally_inside(c, shown_cube) {
                    let j = choose|j: int| 0 <= j < k && cell_cube@[j] == c && spec_is_horizontally_inside(c, shown_cube);
                    assert(in_cube(cell_cube@[j], lo, hi));
                }
            }
        }
    }
}

/// The highlighted cells: a finished (consolidated) selection and one in progress, combined as
/// the type of the one in progress says.
pub struct CellIndexSet {
    highlighted_cells_in_progress: CellSet,
    highlighted_cells_consolidated: CellSet,
    highlighted_cells_in_progress_type: CellSelectionType,
    merged_cached: CellSet,
}

impl CellIndexSet {
    pub closed spec fn spec_in_progress(&self) -> Set<CellIndex> {
        self.highlighted_cells_in_progress@
    }

    pub closed spec fn spec_consolidated(&self) -> Set<CellIndex> {
        self.highlighted_cells_consolidated@
    }

    pub closed spec fn spec_in_progress_type(&self) -> CellSelectionType {
        self.highlighted_cells_in_progress_type
    }

    /// The highlighted cells.
    pub open spec fn spec_merged(&self) -> Set<CellIndex> {
        spec_merge(self.spec_consolidated(), self.spec_in_progress(), self.spec_in_progress_type())
    }

    /// The two selections are well formed.
    pub closed spec fn parts_wf(&self) -> bool {
        &&& self.highlighted_cells_in_progress.wf()
        &&& self.highlighted_cells_consolidated.wf()
    }

    /// The sets are well formed and the cached combination is up to date.
    pub closed spec fn wf(&self) -> bool {
        &&& self.parts_wf()
        &&& self.merged_cached.wf()
        &&& self.merged_cached@ == self.spec_merged()
    }

    pub fn new() -> (result: CellIndexSet)
        ensures
            result.wf(),
            result.spec_in_progress() == Set::<CellIndex>::empty(),
            result.spec_consolidated() == Set::<CellIndex>::empty(),
            result.spec_in_progress_type() == CellSelectionType::Exclusive,
            result.spec_merged() == Set::<CellIndex>::empty(),
    {
        CellIndexSet {
            highlighted_cells_in_progress: CellSet::new(),
            highlighted_cells_consolidated: CellSet::new(),
            highlighted_cells_in_progress_type: CellSelectionType::Exclusive,
            merged_cached: CellSet::new(),
        }
    }

    /// Makes the selection in progress the cells between the corners inside the shown region.
    pub fn highlight_cells(
        &mut self,
        start: CellIndex,
        end: CellIndex,
        shown_cube: Envelope,
        selection_type: CellSelectionType,
    )
        requires
            old(self).wf(),
        ensures
            final(self).wf(),
            final(self).spec_in_progress() == spec_highlight_region(start, end, shown_cube),
            final(self).spec_consolidated() == old(self).spec_consolidated(),
            final(self).spec_in_progress_type() == selection_type,
    {
        highlight_cells(
            start,
            end,
            shown_cube,
            selection_type,
            &mut self.highlighted_cells_in_progress,
            &mut self.highlighted_cells_consolidated,
        );
        self.highlighted_cells_in_progress_type = selection_type;
        self.merged_cached = self.merge_consolidated_and_in_progress();
    }

    /// Whether the cell is highlighted.
    pub fn contains(&self, cell_index: &CellIndex) -> (result: bool)
        requires
            self.wf(),
        ensures
            result == self.spec_merged().contains(*cell_index),
    {
        self.merged_cached.contains(cell_index)
    }

    /// Number of highlighted cells.
    pub fn len(&self) -> (result: usize)
        requires
            self.wf(),
        ensures
            result == self.spec_merged().len(),
    {
        self.merged_cached.len()
    }

    /// Some highlighted cell, if there is any.
    pub fn first(&self) -> (result: Option<CellIndex>)
        requires
            self.wf(),
        ensures
            result is None <==> self.spec_merged().len() == 0,
            result matches Some(c) ==> self.spec_merged().contains(c),
    {
        self.merged_cached.first()
    }

    /// Highlights exactly these cells, as a finished selection to which later ones add.
    pub fn set_highlighted_cells(&mut self, cells: CellSet)
        requires
            old(self).wf(),
            cells.wf(),
        ensures
            final(self).wf(),
            final(self).spec_consolidated() == cells@,
            final(self).spec_in_progress() == Set::<CellIndex>::empty(),
            final(self).spec_in_progress_type() == CellSelectionType::Add,
            final(self).spec_merged() == cells@,
    {
        self.highlighted_cells_consolidated = cells;
        self.highlighted_cells_in_progress.clear();
        self.highlighted_cells_in_progress_type = CellSelectionType::Add;
        self.merged_cached = self.merge_consolidated_and_in_progress();
        assert(self.spec_merged() =~= cells@);
    }

    /// Makes what is highlighted the finished selection, and starts an empty one in progress.
    /// What stays highlighted is the same unless the selection in progress replaces the
    /// finished one (`Exclusive`), in which case nothing stays highlighted until it grows.
    pub fn finish_selection(&mut self)
        requires
            old(self).wf(),
        ensures
            final(self).wf(),
            final(self).spec_consolidated() == old(self).spec_merged(),
            final(self).spec_in_progress() == Set::<CellIndex>::empty(),
            final(self).spec_in_progress_type() == old(self).spec_in_progress_type(),
            old(self).spec_in_progress_type() != CellSelectionType::Exclusive ==> final(self).spec_merged()
                == old(self).spec_merged(),
            old(self).spec_in_progress_type() == CellSelectionType::Exclusive ==> final(self).spec_merged()
                == Set::<CellIndex>::empty(),
    {
        self.highlighted_cells_consolidated = self.merge_consolidated_and_in_progress();
        self.highlighted_cells_in_progress.clear();
        self.merged_cached = self.merge_consolidated_and_in_progress();
        assert(self.spec_merged() =~= spec_merge(old(self).spec_merged(), Set::empty(), self.spec_in_progress_type()));
        assert(old(self).spec_merged().union(Set::<CellIndex>::empty()) =~= old(self).spec_merged());
        assert(old(self).spec_merged().difference(Set::<CellIndex>::empty()) =~= old(self).spec_merged());
    }

    /// The highlighted cells.
    pub fn highlighted_cells(&self) -> (result: &CellSet)
        requires
            self.wf(),
        ensures
            result.wf(),
            result@ == self.spec_merged(),
    {
        &self.merged_cached
    }

    /// The highlighted cells, freshly combined.
    pub fn merge_consolidated_and_in_progress(&self) -> (result: CellSet)
        requires
            self.parts_wf(),
        ensures
            result.wf(),
            result@ == self.spec_merged(),
    {
        merge_consolidated_and_in_progress(
            &self.highlighted_cells_consolidated,
            &self.highlighted_cells_in_progress,
            self.highlighted_cells_in_progress_type,
        )
    }
}

/// Combines the finished selection with the one in progress: the one in progress replaces,
/// adds to, or removes from the finished one.
pub fn merge_consolidated_and_in_progress(
    consolidated: &CellSet,
    in_progress: &CellSet,
    selection_type: CellSelectionType,
) -> (result: CellSet)
    requires
        consolidated.wf(),
        in_progress.wf(),
    ensures
        result.wf(),
        result@ == spec_merge(consolidated@, in_progress@, selection_type),
{
    match selection_type {
        CellSelectionType::Exclusive => in_progress.duplicate(),
        CellSelectionType::Add => consolidated.union(in_progress),
        CellSelectionType::Remove => consolidated.difference(in_progress),
    }
}

impl DrawingState {
    /// Applies what the user is selecting, if anything.
    pub fn maybe_select_cells_from_pixels(&mut self, cell_selection: &CellSelection)
        requires
            old(self).wf(),
        ensures
            final(self).wf(),
            match cell_selection.selection {
                None => *final(self) == *old(self),
                Some(selection) => final(self).spec_selected_from(
                    *old(self),
                    selection.start,
                    selection.end,
                    cell_selection.state,
                    cell_selection.selection_type,
                ),
            },
    {
        if let Some(selection) = cell_selection.selection {
            self.maybe_select_cells(
                selection.start,
                selection.end,
                cell_selection.state,
                cell_selection.selection_type,
            );
        }
    }

    /// Whether this state is what selecting from `start` to `end` makes of `before`: a new
    /// selection (or a change of type) finishes the previous one; a new selection starts at
    /// the top level drawn; the selection keeps the height where it started.
    pub open spec fn spec_selected_from(
        &self,
        before: DrawingState,
        start: CellIndex,
        end: CellIndex,
        selection_state: CellSelectionState,
        selection_type: CellSelectionType,
    ) -> bool {
        let finishes = before.spec_cell_index_set().spec_in_progress_type() != selection_type
            || selection_state == CellSelectionState::Started;
        let consolidated = if finishes {
            before.spec_cell_index_set().spec_merged()
        } else {
            before.spec_cell_index_set().spec_consolidated()
        };
        let start_height = if selection_state == CellSelectionState::Started {
            Some(before.max_cell.y)
        } else {
            before.spec_highlight_start_height()
        };
        let height = match start_height {
            Some(h) => h,
            None => start.y,
        };
        let shown = Envelope { min_cell: before.min_cell, max_cell: before.max_cell };
        &&& self.min_cell == before.min_cell
        &&& self.max_cell == before.max_cell
        &&& self.top_bar_showing == before.top_bar_showing
        &&& self.spec_highlight_start_height() == Some(height)
        &&& self.spec_cell_index_set().spec_consolidated() == consolidated
        &&& self.spec_cell_index_set().spec_in_progress() == spec_highlight_region(
            CellIndex { y: height, ..start },
            end,
            shown,
        )
        &&& self.spec_cell_index_set().spec_in_progress_type() == selection_type
    }

    /// Selects the cells from `start` to `end`, at the height where the selection started.
    pub fn maybe_select_cells(
        &mut self,
        start: CellIndex,
        end: CellIndex,
        selection_state: CellSelectionState,
        selection_type: CellSelectionType,
    )
        requires
            old(self).wf(),
        ensures
            final(self).wf(),
            final(self).spec_selected_from(*old(self), start, end, selection_state, selection_type),
    {
        let mut start = start;
        if self.cell_index_set.highlighted_cells_in_progress_type != selection_type
            || selection_state == CellSelectionState::Started {
            self.finish_selection();
        }
        let shown_cube = Envelope { min_cell: self.min_cell, max_cell: self.max_cell };
        if selection_state == CellSelectionState::Started {
            self.highlight_start_height = Some(self.max_cell.y);
        }
        if let Some(start_height) = self.highlight_start_height {
            start.y = start_height;
        } else {
            self.highlight_start_height = Some(start.y);
        }
        self.cell_index_set.highlight_cells(start, end, shown_cube, selection_type);
    }

    /// Makes what is highlighted the finished selection.
    pub fn finish_selection(&mut self)
        requires
            old(self).wf(),
        ensures
            final(self).wf(),
            final(self).spec_cell_index_set().spec_consolidated() == old(self).spec_cell_index_set().spec_merged(),
            final(self).spec_cell_index_set().spec_in_progress() == Set::<CellIndex>::empty(),
            final(self).spec_cell_index_set().spec_in_progress_type() == old(self).spec_cell_index_set().spec_in_progress_type(),
            final(self).min_cell == old(self).min_cell,
            final(self).max_cell == old(self).max_cell,
            final(self).top_bar_showing == old(self).top_bar_showing,
            final(self).spec_highlight_start_height() == old(self).spec_highlight_start_height(),
    {
        self.cell_index_set.finish_selection()
    }
}

} // verus!
