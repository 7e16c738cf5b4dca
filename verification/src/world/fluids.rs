pub mod conservation;

use vstd::prelude::*;
use crate::world::world_map::cell::{
    is_floodable_from_above, is_floodable_from_below, is_floodable_horizontal, spec_is_floodable_from_above,
    spec_is_floodable_from_below, spec_is_floodable_horizontal, Cell, Pressure, TileType,
};
use crate::world::world_map::cell_index::CellIndex;
use crate::world::world_map::chunk::{get_cell_index, spec_cell_index_in_chunk, Chunk, SIZE};
use crate::world::world_map::WorldMap;

verus! {

/// Pressure difference between two stacked cells of fluid at rest.
pub const VERTICAL_PRESSURE_DIFFERENCE: i32 = 10;

/// How the fluid simulation advances each time it is asked to.
#[derive(Copy, Clone, PartialEq, Eq, Debug, Structural)]
pub enum FluidMode {
    /// All the stages at once.
    AllTogether,
    /// One stage at a time.
    InStages,
}

/// The stages of one step of the fluid simulation, in order.
#[derive(Copy, Clone, PartialEq, Eq, Debug, Structural)]
pub enum FluidStage {
    Downwards,
    SidewaysPrepare,
    SidewaysApply,
    Upwards,
    TileUpdate,
}

pub open spec fn spec_next_fluid_stage(stage: FluidStage) -> FluidStage {
    match stage {
        FluidStage::Downwards => FluidStage::SidewaysPrepare,
        FluidStage::SidewaysPrepare => FluidStage::SidewaysApply,
        FluidStage::SidewaysApply => FluidStage::Upwards,
        FluidStage::Upwards => FluidStage::TileUpdate,
        FluidStage::TileUpdate => FluidStage::Downwards,
    }
}

pub fn next_fluid_stage(stage: FluidStage) -> (result: FluidStage)
    ensures
        result == spec_next_fluid_stage(stage),
{
    match stage {
        FluidStage::Downwards => FluidStage::SidewaysPrepare,
        FluidStage::SidewaysPrepare => FluidStage::SidewaysApply,
        FluidStage::SidewaysApply => FluidStage::Upwards,
        FluidStage::Upwards => FluidStage::TileUpdate,
        FluidStage::TileUpdate => FluidStage::Downwards,
    }
}

pub open spec fn dir(x: int, y: int, z: int) -> CellIndex {
    CellIndex { x: x as i32, y: y as i32, z: z as i32 }
}

/// The neighbour of `idx` in direction `diff`, if it is in the map.
pub open spec fn spec_neighbour(m: Map<CellIndex, Cell>, idx: CellIndex, diff: CellIndex) -> Option<Cell> {
    match idx.offset_spec(diff.x as int, diff.y as int, diff.z as int) {
        Some(n) => if m.dom().contains(n) {
            Some(m[n])
        } else {
            None
        },
        None => None,
    }
}

/// Whether fluid can move between a cell and its neighbour in direction `diff`, judged by the
/// neighbour's tile: fluid leaving upwards (`outwards`) enters the neighbour from below, and so
/// on.
pub open spec fn spec_floodable_towards(diff: CellIndex, outwards: bool, tile: TileType) -> bool {
    if diff == dir(0, 1, 0) {
        if outwards {
            spec_is_floodable_from_below(tile)
        } else {
            spec_is_floodable_from_above(tile)
        }
    } else if diff == dir(0, -1, 0) {
        if outwards {
            spec_is_floodable_from_above(tile)
        } else {
            spec_is_floodable_from_below(tile)
        }
    } else {
        spec_is_floodable_horizontal(tile)
    }
}

/// The neighbour in direction `diff`, if it is in the map and fluid can move there (or from
/// there, when not `outwards`).
pub open spec fn spec_is_floodable(m: Map<CellIndex, Cell>, idx: CellIndex, diff: CellIndex, outwards: bool) -> Option<Cell> {
    match spec_neighbour(m, idx, diff) {
        Some(c) => if spec_floodable_towards(diff, outwards, c.tile_type) {
            Some(c)
        } else {
            None
        },
        None => None,
    }
}

/// -1 if a unit of fluid leaves a cell of pressure `p` towards `diff`, else 0.
pub open spec fn spec_outflow(m: Map<CellIndex, Cell>, idx: CellIndex, diff: CellIndex, p: int, threshold: int) -> int {
    if p > 0 {
        match spec_is_floodable(m, idx, diff, true) {
            Some(c) => if p - c.pressure > threshold {
                -1
            } else {
                0
            },
            None => 0,
        }
    } else {
        0
    }
}

/// 1 if a unit of fluid enters a cell of pressure `p` from `diff`, else 0.
pub open spec fn spec_inflow(m: Map<CellIndex, Cell>, idx: CellIndex, diff: CellIndex, p: int, threshold: int) -> int {
    match spec_is_floodable(m, idx, diff, false) {
        Some(c) => if c.pressure > 0 && c.pressure - p > threshold {
            1
        } else {
            0
        },
        None => 0,
    }
}

/// 1 if a unit of fluid enters from `diff`, coming from a neighbour that was marked as able to
/// lose it, else 0.
pub open spec fn spec_maybe_inflow(m: Map<CellIndex, Cell>, idx: CellIndex, diff: CellIndex, p: int, threshold: int) -> int {
    match spec_is_floodable(m, idx, diff, false) {
        Some(c) => if c.can_flow_out && c.pressure - p > threshold {
            1
        } else {
            0
        },
        None => 0,
    }
}

pub open spec fn spec_down_delta(m: Map<CellIndex, Cell>, idx: CellIndex) -> int {
    let p = m[idx].pressure as int;
    spec_outflow(m, idx, dir(0, -1, 0), p, -VERTICAL_PRESSURE_DIFFERENCE)
        + spec_inflow(m, idx, dir(0, 1, 0), p, -VERTICAL_PRESSURE_DIFFERENCE)
}

pub open spec fn spec_sideways_out_delta(m: Map<CellIndex, Cell>, idx: CellIndex) -> int {
    let p = m[idx].pressure as int;
    spec_outflow(m, idx, dir(1, 0, 0), p, 0) + spec_outflow(m, idx, dir(-1, 0, 0), p, 0)
        + spec_outflow(m, idx, dir(0, 0, 1), p, 0) + spec_outflow(m, idx, dir(0, 0, -1), p, 0)
}

pub open spec fn spec_sideways_in_delta(m: Map<CellIndex, Cell>, idx: CellIndex) -> int {
    let p = m[idx].pressure as int;
    spec_maybe_inflow(m, idx, dir(1, 0, 0), p, 0) + spec_maybe_inflow(m, idx, dir(-1, 0, 0), p, 0)
        + spec_maybe_inflow(m, idx, dir(0, 0, 1), p, 0) + spec_maybe_inflow(m, idx, dir(0, 0, -1), p, 0)
}

pub open spec fn spec_up_delta(m: Map<CellIndex, Cell>, idx: CellIndex) -> int {
    let p = m[idx].pressure as int;
    spec_outflow(m, idx, dir(0, 1, 0), p, VERTICAL_PRESSURE_DIFFERENCE + 1)
        + spec_inflow(m, idx, dir(0, -1, 0), p, VERTICAL_PRESSURE_DIFFERENCE + 1)
}

/// What one stage of the simulation makes of the cell at `idx`. Every cell is computed from the
/// map as it was before the stage.
pub open spec fn spec_stage_cell(m: Map<CellIndex, Cell>, stage: FluidStage, idx: CellIndex) -> Cell {
    let c = m[idx];
    match stage {
        FluidStage::Downwards => if spec_is_floodable_from_above(c.tile_type) {
            Cell { pressure: (c.pressure + spec_down_delta(m, idx)) as i32, ..c }
        } else {
            c
        },
        FluidStage::SidewaysPrepare => if spec_is_floodable_horizontal(c.tile_type) {
            let next = c.pressure + spec_sideways_out_delta(m, idx);
            Cell {
                can_flow_out: next >= 0,
                next_pressure: if next >= 0 {
                    next as i32
                } else {
                    c.pressure
                },
                ..c
            }
        } else {
            c
        },
        FluidStage::SidewaysApply => if spec_is_floodable_horizontal(c.tile_type) {
            Cell {
                pressure: (c.next_pressure + spec_sideways_in_delta(m, idx)) as i32,
                next_pressure: 0,
                can_flow_out: false,
                ..c
            }
        } else {
            c
        },
        FluidStage::Upwards => if spec_is_floodable_from_below(c.tile_type) {
            Cell { pressure: (c.pressure + spec_up_delta(m, idx)) as i32, ..c }
        } else {
            c
        },
        FluidStage::TileUpdate => Cell { renderable_pressure: c.pressure, ..c },
    }
}

/// The map after one stage.
pub open spec fn spec_stage_map(m: Map<CellIndex, Cell>, stage: FluidStage) -> Map<CellIndex, Cell> {
    Map::new(|idx: CellIndex| m.dom().contains(idx), |idx: CellIndex| spec_stage_cell(m, stage, idx))
}

pub open spec fn fits_i32(v: int) -> bool {
    i32::MIN <= v <= i32::MAX
}

/// Whether the stage can run on the map without overflowing a pressure, and (for the tile
/// update) without finding a negative pressure.
pub open spec fn spec_stage_safe(m: Map<CellIndex, Cell>, stage: FluidStage) -> bool {
    forall|idx: CellIndex| #[trigger] m.dom().contains(idx) ==> {
        let c = m[idx];
        match stage {
            FluidStage::Downwards => spec_is_floodable_from_above(c.tile_type) ==> fits_i32(
                c.pressure + spec_down_delta(m, idx),
            ),
            FluidStage::SidewaysPrepare => true,
            FluidStage::SidewaysApply => spec_is_floodable_horizontal(c.tile_type) ==> fits_i32(
                c.next_pressure + spec_sideways_in_delta(m, idx),
            ),
            FluidStage::Upwards => spec_is_floodable_from_below(c.tile_type) ==> fits_i32(
                c.pressure + spec_up_delta(m, idx),
            ),
            FluidStage::TileUpdate => c.pressure >= 0,
        }
    }
}

/// A whole step: downwards, sideways (prepare and apply), upwards, tile update.
pub open spec fn spec_advance_fluid(m: Map<CellIndex, Cell>) -> Map<CellIndex, Cell> {
    spec_stage_map(
        spec_stage_map(
            spec_stage_map(
                spec_stage_map(spec_stage_map(m, FluidStage::Downwards), FluidStage::SidewaysPrepare),
                FluidStage::SidewaysApply,
            ),
            FluidStage::Upwards,
        ),
        FluidStage::TileUpdate,
    )
}

/// Whether a whole step can run on the map: each stage is safe on what the previous left.
pub open spec fn spec_advance_fluid_safe(m: Map<CellIndex, Cell>) -> bool {
    let m1 = spec_stage_map(m, FluidStage::Downwards);
    let m2 = spec_stage_map(m1, FluidStage::SidewaysPrepare);
    let m3 = spec_stage_map(m2, FluidStage::SidewaysApply);
    let m4 = spec_stage_map(m3, FluidStage::Upwards);
    &&& spec_stage_safe(m, FluidStage::Downwards)
    &&& spec_stage_safe(m2, FluidStage::SidewaysApply)
    &&& spec_stage_safe(m3, FluidStage::Upwards)
    &&& spec_stage_safe(m4, FluidStage::TileUpdate)
}

/// Looks at the neighbours of a cell to see how much fluid goes in and out.
pub struct Flow<'a> {
    map: &'a WorldMap,
    pressure_threshold: Pressure,
}

impl<'a> Flow<'a> {
    pub closed spec fn spec_map(&self) -> &'a WorldMap {
        self.map
    }

    pub closed spec fn spec_threshold(&self) -> Pressure {
        self.pressure_threshold
    }

    pub fn new(map: &'a WorldMap, pressure_threshold: Pressure) -> (result: Flow<'a>)
        ensures
            result.spec_map() == map,
            result.spec_threshold() == pressure_threshold,
    {
        Flow { map, pressure_threshold }
    }

    /// Counts one unit of fluid leaving the cell towards `diff`, if it does.
    pub fn flow_outwards(
        &self,
        target_index: CellIndex,
        diff: CellIndex,
        current_pressure: Pressure,
        pressure_diff: &mut Pressure,
    )
        requires
            self.spec_map().wf(),
            -8 <= *old(pressure_diff) <= 8,
        ensures
            *final(pressure_diff) == *old(pressure_diff) + spec_outflow(
                self.spec_map()@,
                target_index,
                diff,
                current_pressure as int,
                self.spec_threshold() as int,
            ),
    {
        if current_pressure > 0 {
            let option_cell = is_floodable(target_index, diff, self.map, true);
            if let Some(adjacent_cell) = option_cell {
                if (current_pressure as i64 - adjacent_cell.pressure as i64)
                    > self.pressure_threshold as i64 {
                    *pressure_diff -= 1;
                }
            }
        }
    }

    /// Counts one unit of fluid entering the cell from `diff`, if it does.
    pub fn flow_inwards(
        &self,
        target_index: CellIndex,
        diff: CellIndex,
        current_pressure: Pressure,
        pressure_diff: &mut Pressure,
    )
        requires
            self.spec_map().wf(),
            -8 <= *old(pressure_diff) <= 8,
        ensures
            *final(pressure_diff) == *old(pressure_diff) + spec_inflow(
                self.spec_map()@,
                target_index,
                diff,
                current_pressure as int,
                self.spec_threshold() as int,
            ),
    {
        let option_cell = is_floodable(target_index, diff, self.map, false);
        if let Some(adjacent_cell) = option_cell {
            if adjacent_cell.pressure > 0 && (adjacent_cell.pressure as i64
                - current_pressure as i64) > self.pressure_threshold as i64 {
                *pressure_diff += 1;
            }
        }
    }

    /// Counts one unit of fluid entering the cell from `diff`, if the neighbour was marked as
    /// able to lose it.
    pub fn maybe_flow_inwards(
        &self,
        target_index: CellIndex,
        diff: CellIndex,
        current_pressure: Pressure,
        pressure_diff: &mut Pressure,
    )
        requires
            self.spec_map().wf(),
            -8 <= *old(pressure_diff) <= 8,
        ensures
            *final(pressure_diff) == *old(pressure_diff) + spec_maybe_inflow(
                self.spec_map()@,
                target_index,
                diff,
                current_pressure as int,
                self.spec_threshold() as int,
            ),
    {
        let option_cell = is_floodable(target_index, diff, self.map, false);
        if let Some(adjacent_cell) = option_cell {
            if adjacent_cell.can_flow_out && (adjacent_cell.pressure as i64
                - current_pressure as i64) > self.pressure_threshold as i64 {
                *pressure_diff += 1;
            }
        }
    }
}

/// The neighbour of `cell_index` in direction `diff`, if it is in the map and fluid can move
/// between them.
pub fn is_floodable(cell_index: CellIndex, diff: CellIndex, map: &WorldMap, outwards: bool) -> (result: Option<Cell>)
    requires
        map.wf(),
    ensures
        result == spec_is_floodable(map@, cell_index, diff, outwards),
{
    let neighbour_index = cell_index.checked_plus(diff);
    match neighbour_index {
        None => None,
        Some(neighbour_index) => {
            match map.get_cell_optional(neighbour_index) {
                None => None,
                Some(cell) => {
                    let floodable = if diff == (CellIndex { x: 0, y: 1, z: 0 }) {
                        if outwards {
                            is_floodable_from_below(cell.tile_type)
                        } else {
                            is_floodable_from_above(cell.tile_type)
                        }
                    } else if diff == (CellIndex { x: 0, y: -1, z: 0 }) {
                        if outwards {
                            is_floodable_from_above(cell.tile_type)
                        } else {
                            is_floodable_from_below(cell.tile_type)
                        }
                    } else {
                        is_floodable_horizontal(cell.tile_type)
                    };
                    if floodable {
                        Some(*cell)
                    } else {
                        None
                    }
                },
            }
        },
    }
}

fn stage_threshold(stage: FluidStage) -> (result: Pressure)
    ensures
        result == match stage {
            FluidStage::Downwards => -VERTICAL_PRESSURE_DIFFERENCE,
            FluidStage::Upwards => VERTICAL_PRESSURE_DIFFERENCE + 1,
            _ => 0,
        },
{
    match stage {
        FluidStage::Downwards => -VERTICAL_PRESSURE_DIFFERENCE,
        FluidStage::Upwards => VERTICAL_PRESSURE_DIFFERENCE + 1,
        _ => 0,
    }
}

/// What the stage makes of one cell.
fn stage_cell(flow: &Flow, stage: FluidStage, cell_index: CellIndex, cell: Cell) -> (result: Cell)
    requires
        flow.spec_map().wf(),
        flow.spec_map()@.dom().contains(cell_index),
        flow.spec_map()@[cell_index] == cell,
        flow.spec_threshold() == match stage {
            FluidStage::Downwards => -VERTICAL_PRESSURE_DIFFERENCE,
            FluidStage::Upwards => VERTICAL_PRESSURE_DIFFERENCE + 1,
            _ => 0,
        },
        spec_stage_safe(flow.spec_map()@, stage),
    ensures
        result == spec_stage_cell(flow.spec_map()@, stage, cell_index),
{
    let xp = CellIndex { x: 1, y: 0, z: 0 };
    let xn = CellIndex { x: -1, y: 0, z: 0 };
    let yp = CellIndex { x: 0, y: 1, z: 0 };
    let yn = CellIndex { x: 0, y: -1, z: 0 };
    let zp = CellIndex { x: 0, y: 0, z: 1 };
    let zn = CellIndex { x: 0, y: 0, z: -1 };
    assert(flow.spec_map()@.dom().contains(cell_index));
    let mut cell = cell;
    match stage {
        FluidStage::Downwards => {
            if is_floodable_from_above(cell.tile_type) {
                let current_pressure = cell.pressure;
                let mut pressure_diff: Pressure = 0;
                flow.flow_outwards(cell_index, yn, current_pressure, &mut pressure_diff);
                flow.flow_inwards(cell_index, yp, current_pressure, &mut pressure_diff);
                cell.pressure = cell.pressure + pressure_diff;
            }
        },
        FluidStage::SidewaysPrepare => {
            if is_floodable_horizontal(cell.tile_type) {
                let current_pressure = cell.pressure;
                let mut pressure_diff: Pressure = 0;
                flow.flow_outwards(cell_index, xp, current_pressure, &mut pressure_diff);
                flow.flow_outwards(cell_index, xn, current_pressure, &mut pressure_diff);
                flow.flow_outwards(cell_index, zp, current_pressure, &mut pressure_diff);
                flow.flow_outwards(cell_index, zn, current_pressure, &mut pressure_diff);
                let next_pressure = pressure_diff + cell.pressure;
                cell.can_flow_out = next_pressure >= 0;
                if cell.can_flow_out {
                    cell.next_pressure = next_pressure;
                } else {
                    cell.next_pressure = cell.pressure;
                }
            }
        },
        FluidStage::SidewaysApply => {
            if is_floodable_horizontal(cell.tile_type) {
                let current_pressure = cell.pressure;
                let mut pressure_diff: Pressure = 0;
                flow.maybe_flow_inwards(cell_index, xp, current_pressure, &mut pressure_diff);
                flow.maybe_flow_inwards(cell_index, xn, current_pressure, &mut pressure_diff);
                flow.maybe_flow_inwards(cell_index, zp, current_pressure, &mut pressure_diff);
                flow.maybe_flow_inwards(cell_index, zn, current_pressure, &mut pressure_diff);
                cell.pressure = cell.next_pressure + pressure_diff;
                cell.next_pressure = 0;
                cell.can_flow_out = false;
            }
        },
        FluidStage::Upwards => {
            if is_floodable_from_below(cell.tile_type) {
                let current_pressure = cell.pressure;
                let mut pressure_diff: Pressure = 0;
                flow.flow_outwards(cell_index, yp, current_pressure, &mut pressure_diff);
                flow.flow_inwards(cell_index, yn, current_pressure, &mut pressure_diff);
                cell.pressure = cell.pressure + pressure_diff;
            }
        },
        FluidStage::TileUpdate => {
            cell.renderable_pressure = cell.pressure;
        },
    }
    cell
}

/// Runs one stage over every cell of the map. Each cell is computed from the map as it was
/// before the stage.
pub fn advance_fluid_stage(map: &mut WorldMap, stage: FluidStage)
    requires
        old(map).wf(),
        spec_stage_safe(old(map)@, stage),
    ensures
        final(map).wf(),
        final(map)@ == spec_stage_map(old(map)@, stage),
        final(map).spec_min_cell() == old(map).spec_min_cell(),
        final(map).spec_max_cell() == old(map).spec_max_cell(),
        final(map).spec_ship_position() == old(map).spec_ship_position(),
        final(map).spec_map_type() == old(map).spec_map_type(),
{
    let ghost m = map@;
    let mut all_cells: Vec<Vec<Cell>> = Vec::new();
    let n = map.chunk_count();
    {
        let flow = Flow::new(&*map, stage_threshold(stage));
        let mut j: usize = 0;
        while j < n
            invariant
                flow.spec_map() == &*map,
                map@ == m,
                map.wf(),
                n == map.spec_chunks().len(),
                spec_stage_safe(m, stage),
                flow.spec_threshold() == match stage {
                    FluidStage::Downwards => -VERTICAL_PRESSURE_DIFFERENCE,
                    FluidStage::Upwards => VERTICAL_PRESSURE_DIFFERENCE + 1,
                    _ => 0,
                },
                j <= n,
                all_cells@.len() == j,
                forall|k: int| 0 <= k < j ==> (#[trigger] all_cells@[k])@.len() == SIZE,
                forall|k: int, i: int|
                    0 <= k < j && 0 <= i < SIZE ==> all_cells@[k]@[i] == spec_stage_cell(
                        m,
                        stage,
                        spec_cell_index_in_chunk(map.spec_chunks()[k].spec_index(), i),
                    ),
            decreases n - j,
        {
            let chunk: &Chunk = map.chunk_at(j);
            proof {
                map.lemma_cell_of_chunk(j as int, 0);
            }
            let chunk_index = chunk.get_index();
            let mut cells: Vec<Cell> = Vec::new();
            let mut i: usize = 0;
            while i < SIZE
                invariant
                    flow.spec_map() == &*map,
                    map@ == m,
                    map.wf(),
                    spec_stage_safe(m, stage),
                    flow.spec_threshold() == match stage {
                        FluidStage::Downwards => -VERTICAL_PRESSURE_DIFFERENCE,
                        FluidStage::Upwards => VERTICAL_PRESSURE_DIFFERENCE + 1,
                        _ => 0,
                    },
                    j < map.spec_chunks().len(),
                    *chunk == map.spec_chunks()[j as int],
                    chunk.wf(),
                    chunk_index == chunk.spec_index(),
                    i <= SIZE,
                    cells@.len() == i,
                    forall|k: int|
                        0 <= k < i ==> cells@[k] == spec_stage_cell(
                            m,
                            stage,
                            spec_cell_index_in_chunk(chunk_index, k),
                        ),
                decreases SIZE - i,
            {
                let cell_index = get_cell_index(chunk_index, i);
                let cell = *chunk.get_cell_at(i);
                proof {
                    map.lemma_cell_of_chunk(j as int, i as int);
                }
                let new_cell = stage_cell(&flow, stage, cell_index, cell);
                cells.push(new_cell);
                i = i + 1;
            }
            all_cells.push(cells);
            j = j + 1;
        }
    }
    let ghost before = *map;
    map.replace_all_cells(all_cells);
    proof {
        assert forall|idx: CellIndex| #[trigger] map@.dom().contains(idx) implies map@[idx]
            == spec_stage_cell(m, stage, idx) by {
            let (j, i) = before.lemma_locate(idx);
            assert(all_cells@[j]@[i] == spec_stage_cell(
                m,
                stage,
                spec_cell_index_in_chunk(before.spec_chunks()[j].spec_index(), i),
            ));
            assert(map@[spec_cell_index_in_chunk(before.spec_chunks()[j].spec_index(), i)] == all_cells@[j]@[i]);
        }
        assert(map@ =~= spec_stage_map(m, stage));
    }
}

/// Fluid moves one cell down where the pressure below is not too high.
pub fn advance_fluid_downwards(map: &mut WorldMap)
    requires
        old(map).wf(),
        spec_stage_safe(old(map)@, FluidStage::Downwards),
    ensures
        final(map).wf(),
        final(map)@ == spec_stage_map(old(map)@, FluidStage::Downwards),
        final(map).spec_min_cell() == old(map).spec_min_cell(),
        final(map).spec_max_cell() == old(map).spec_max_cell(),
        final(map).spec_ship_position() == old(map).spec_ship_position(),
        final(map).spec_map_type() == old(map).spec_map_type(),
{
    advance_fluid_stage(map, FluidStage::Downwards)
}

/// Decides how much fluid each cell would lose sideways, and whether it can lose it.
pub fn prepare_fluid_sideways(map: &mut WorldMap)
    requires
        old(map).wf(),
    ensures
        final(map).wf(),
        final(map)@ == spec_stage_map(old(map)@, FluidStage::SidewaysPrepare),
        final(map).spec_min_cell() == old(map).spec_min_cell(),
        final(map).spec_max_cell() == old(map).spec_max_cell(),
        final(map).spec_ship_position() == old(map).spec_ship_position(),
        final(map).spec_map_type() == old(map).spec_map_type(),
{
    advance_fluid_stage(map, FluidStage::SidewaysPrepare)
}

/// Moves fluid sideways, as prepared.
pub fn advance_fluid_sideways(map: &mut WorldMap)
    requires
        old(map).wf(),
        spec_stage_safe(old(map)@, FluidStage::SidewaysApply),
    ensures
        final(map).wf(),
        final(map)@ == spec_stage_map(old(map)@, FluidStage::SidewaysApply),
        final(map).spec_min_cell() == old(map).spec_min_cell(),
        final(map).spec_max_cell() == old(map).spec_max_cell(),
        final(map).spec_ship_position() == old(map).spec_ship_position(),
        final(map).spec_map_type() == old(map).spec_map_type(),
{
    advance_fluid_stage(map, FluidStage::SidewaysApply)
}

/// Fluid moves one cell up where the pressure below is high enough.
pub fn advance_fluid_upwards(map: &mut WorldMap)
    requires
        old(map).wf(),
        spec_stage_safe(old(map)@, FluidStage::Upwards),
    ensures
        final(map).wf(),
        final(map)@ == spec_stage_map(old(map)@, FluidStage::Upwards),
        final(map).spec_min_cell() == old(map).spec_min_cell(),
        final(map).spec_max_cell() == old(map).spec_max_cell(),
        final(map).spec_ship_position() == old(map).spec_ship_position(),
        final(map).spec_map_type() == old(map).spec_map_type(),
{
    advance_fluid_stage(map, FluidStage::Upwards)
}

/// Makes the pressure that is drawn the current one. Every pressure must be non-negative.
pub fn update_tile_type(map: &mut WorldMap)
    requires
        old(map).wf(),
        spec_stage_safe(old(map)@, FluidStage::TileUpdate),
    ensures
        final(map).wf(),
        final(map)@ == spec_stage_map(old(map)@, FluidStage::TileUpdate),
        final(map).spec_min_cell() == old(map).spec_min_cell(),
        final(map).spec_max_cell() == old(map).spec_max_cell(),
        final(map).spec_ship_position() == old(map).spec_ship_position(),
        final(map).spec_map_type() == old(map).spec_map_type(),
{
    advance_fluid_stage(map, FluidStage::TileUpdate)
}

/// A whole step of the simulation.
pub fn advance_fluid(map: &mut WorldMap)
    requires
        old(map).wf(),
        spec_advance_fluid_safe(old(map)@),
    ensures
        final(map).wf(),
        final(map)@ == spec_advance_fluid(old(map)@),
        final(map).spec_min_cell() == old(map).spec_min_cell(),
        final(map).spec_max_cell() == old(map).spec_max_cell(),
        final(map).spec_ship_position() == old(map).spec_ship_position(),
        final(map).spec_map_type() == old(map).spec_map_type(),
{
    advance_fluid_downwards(map);
    prepare_fluid_sideways(map);
    advance_fluid_sideways(map);
    advance_fluid_upwards(map);
    update_tile_type(map);
}

/// The fluid simulation, which remembers which stage comes next.
pub struct Fluids {
    mode: FluidMode,
    next_stage: FluidStage,
    profile: bool,
}

impl Fluids {
    pub closed spec fn spec_mode(&self) -> FluidMode {
        self.mode
    }

    pub closed spec fn spec_next_stage(&self) -> FluidStage {
        self.next_stage
    }

    pub closed spec fn spec_profile(&self) -> bool {
        self.profile
    }

    /// What advancing the simulation requires of the map: that what will run is safe.
    pub open spec fn can_advance(&self, m: Map<CellIndex, Cell>) -> bool {
        match self.spec_mode() {
            FluidMode::AllTogether => spec_advance_fluid_safe(m),
            FluidMode::InStages => spec_stage_safe(m, self.spec_next_stage()),
        }
    }

    pub fn new(mode: FluidMode) -> (result: Fluids)
        ensures
            result.spec_mode() == mode,
            result.spec_next_stage() == FluidStage::Downwards,
            !result.spec_profile(),
    {
        Fluids { mode, next_stage: FluidStage::Downwards, profile: false }
    }

    /// Advances the simulation: a whole step, or the next stage.
    pub fn advance(&mut self, map: &mut WorldMap)
        requires
            old(map).wf(),
            old(self).can_advance(old(map)@),
        ensures
            final(map).wf(),
            final(map)@ == match old(self).spec_mode() {
                FluidMode::AllTogether => spec_advance_fluid(old(map)@),
                FluidMode::InStages => spec_stage_map(old(map)@, old(self).spec_next_stage()),
            },
            final(self).spec_mode() == old(self).spec_mode(),
            final(self).spec_profile() == old(self).spec_profile(),
            final(self).spec_next_stage() == match old(self).spec_mode() {
                FluidMode::AllTogether => old(self).spec_next_stage(),
                FluidMode::InStages => spec_next_fluid_stage(old(self).spec_next_stage()),
            },
            final(map).spec_min_cell() == old(map).spec_min_cell(),
            final(map).spec_max_cell() == old(map).spec_max_cell(),
            final(map).spec_ship_position() == old(map).spec_ship_position(),
            final(map).spec_map_type() == old(map).spec_map_type(),
    {
        match self.mode {
            FluidMode::AllTogether => advance_fluid(map),
            FluidMode::InStages => {
                advance_fluid_stage(map, self.next_stage);
                self.next_stage = next_fluid_stage(self.next_stage);
            },
        }
    }

    /// Advances the simulation, as `advance` does, if every pressure is between 0 and
    /// `i32::MAX - 20` (which keeps the simulation free of overflow); otherwise changes nothing.
    /// Returns whether it advanced.
    pub fn try_advance(&mut self, map: &mut WorldMap) -> (advanced: bool)
        requires
            old(map).wf(),
        ensures
            final(map).wf(),
            advanced == spec_fluid_bounded(old(map)@, i32::MAX - 20int),
            advanced ==> final(map)@ == match old(self).spec_mode() {
                FluidMode::AllTogether => spec_advance_fluid(old(map)@),
                FluidMode::InStages => spec_stage_map(old(map)@, old(self).spec_next_stage()),
            },
            advanced ==> final(self).spec_next_stage() == match old(self).spec_mode() {
                FluidMode::AllTogether => old(self).spec_next_stage(),
                FluidMode::InStages => spec_next_fluid_stage(old(self).spec_next_stage()),
            },
            !advanced ==> final(map)@ == old(map)@ && final(self).spec_next_stage() == old(self).spec_next_stage(),
            final(self).spec_mode() == old(self).spec_mode(),
            final(self).spec_profile() == old(self).spec_profile(),
            final(map).spec_min_cell() == old(map).spec_min_cell(),
            final(map).spec_max_cell() == old(map).spec_max_cell(),
            final(map).spec_ship_position() == old(map).spec_ship_position(),
            final(map).spec_map_type() == old(map).spec_map_type(),
    {
        if fluid_is_bounded(map, i32::MAX - 20) {
            proof {
                lemma_advance_fluid_safe(map@);
                lemma_stage_keeps_fluid_bounded(map@, self.spec_next_stage(), i32::MAX - 20);
            }
            self.advance(map);
            true
        } else {
            false
        }
    }

    /// Whether the stages should be timed.
    pub fn set_profile(&mut self, profile: bool)
        ensures
            final(self).spec_profile() == profile,
            final(self).spec_mode() == old(self).spec_mode(),
            final(self).spec_next_stage() == old(self).spec_next_stage(),
    {
        self.profile = profile;
    }

    pub fn get_next_stage(&self) -> (result: FluidStage)
        ensures
            result == self.spec_next_stage(),
    {
        self.next_stage
    }
}

/// Whether every cell has a pressure and a next pressure between 0 and `bound`.
pub open spec fn spec_fluid_bounded(m: Map<CellIndex, Cell>, bound: int) -> bool {
    forall|idx: CellIndex| #[trigger] m.dom().contains(idx) ==> 0 <= m[idx].pressure <= bound && 0
        <= m[idx].next_pressure <= bound
}

proof fn lemma_deltas(m: Map<CellIndex, Cell>, idx: CellIndex)
    requires
        m.dom().contains(idx),
    ensures
        -1 <= spec_down_delta(m, idx) <= 1,
        m[idx].pressure <= 0 ==> spec_down_delta(m, idx) >= 0,
        -4 <= spec_sideways_out_delta(m, idx) <= 0,
        0 <= spec_sideways_in_delta(m, idx) <= 4,
        -1 <= spec_up_delta(m, idx) <= 1,
        m[idx].pressure <= 0 ==> spec_up_delta(m, idx) >= 0,
{
}

/// A stage never makes a pressure negative, and raises none by more than 4: fluid that is not
/// there can not flow out. So the tile update, which refuses negative pressures, always accepts
/// what the other stages leave.
pub proof fn lemma_stage_keeps_fluid_bounded(m: Map<CellIndex, Cell>, stage: FluidStage, bound: int)
    requires
        spec_fluid_bounded(m, bound),
        bound <= i32::MAX - 4,
    ensures
        spec_stage_safe(m, stage),
        spec_fluid_bounded(spec_stage_map(m, stage), bound + 4),
{
    assert forall|idx: CellIndex| #[trigger] m.dom().contains(idx) implies {
        let c = m[idx];
        match stage {
            FluidStage::Downwards => spec_is_floodable_from_above(c.tile_type) ==> fits_i32(
                c.pressure + spec_down_delta(m, idx),
            ),
            FluidStage::SidewaysPrepare => true,
            FluidStage::SidewaysApply => spec_is_floodable_horizontal(c.tile_type) ==> fits_i32(
                c.next_pressure + spec_sideways_in_delta(m, idx),
            ),
            FluidStage::Upwards => spec_is_floodable_from_below(c.tile_type) ==> fits_i32(
                c.pressure + spec_up_delta(m, idx),
            ),
            FluidStage::TileUpdate => c.pressure >= 0,
        }
    } by {
        lemma_deltas(m, idx);
    }
    let m2 = spec_stage_map(m, stage);
    assert forall|idx: CellIndex| #[trigger] m2.dom().contains(idx) implies 0 <= m2[idx].pressure
        <= bound + 4 && 0 <= m2[idx].next_pressure <= bound + 4 by {
        lemma_deltas(m, idx);
    }
}

/// A whole step can run on any map whose pressures are between 0 and `i32::MAX - 20`, and it
/// leaves no negative pressure behind.
pub proof fn lemma_advance_fluid_safe(m: Map<CellIndex, Cell>)
    requires
        spec_fluid_bounded(m, i32::MAX - 20int),
    ensures
        spec_advance_fluid_safe(m),
        spec_fluid_bounded(spec_advance_fluid(m), i32::MAX as int),
{
    let b = i32::MAX - 20;
    let m1 = spec_stage_map(m, FluidStage::Downwards);
    let m2 = spec_stage_map(m1, FluidStage::SidewaysPrepare);
    let m3 = spec_stage_map(m2, FluidStage::SidewaysApply);
    let m4 = spec_stage_map(m3, FluidStage::Upwards);
    lemma_stage_keeps_fluid_bounded(m, FluidStage::Downwards, b);
    lemma_stage_keeps_fluid_bounded(m1, FluidStage::SidewaysPrepare, b + 4);
    lemma_stage_keeps_fluid_bounded(m2, FluidStage::SidewaysApply, b + 8);
    lemma_stage_keeps_fluid_bounded(m3, FluidStage::Upwards, b + 12);
    lemma_stage_keeps_fluid_bounded(m4, FluidStage::TileUpdate, b + 16);
}

/// After five stages the simulation is back at the stage where it started.
pub proof fn lemma_stages_cycle(stage: FluidStage)
    ensures
        spec_next_fluid_stage(
            spec_next_fluid_stage(
                spec_next_fluid_stage(spec_next_fluid_stage(spec_next_fluid_stage(stage))),
            ),
        ) == stage,
        spec_next_fluid_stage(stage) != stage,
{
}

/// Whether every cell has a pressure and a next pressure between 0 and `bound`: when this holds
/// for `i32::MAX - 20`, the simulation can advance (see `lemma_advance_fluid_safe`).
pub fn fluid_is_bounded(map: &WorldMap, bound: Pressure) -> (result: bool)
    requires
        map.wf(),
    ensures
        result == spec_fluid_bounded(map@, bound as int),
{
    let n = map.chunk_count();
    let mut j: usize = 0;
    while j < n
        invariant
            map.wf(),
            n == map.spec_chunks().len(),
            j <= n,
            forall|k: int, i: int|
                0 <= k < j && 0 <= i < SIZE ==> {
                    let c = #[trigger] map.spec_chunks()[k].spec_cells()[i];
                    0 <= c.pressure <= bound && 0 <= c.next_pressure <= bound
                },
        decreases n - j,
    {
        let chunk = map.chunk_at(j);
        proof {
            map.lemma_cell_of_chunk(j as int, 0);
        }
        let mut i: usize = 0;
        while i < SIZE
            invariant
                map.wf(),
                j < map.spec_chunks().len(),
                *chunk == map.spec_chunks()[j as int],
                chunk.wf(),
                i <= SIZE,
                forall|k: int, l: int|
                    0 <= k < j && 0 <= l < SIZE ==> {
                        let c = #[trigger] map.spec_chunks()[k].spec_cells()[l];
                        0 <= c.pressure <= bound && 0 <= c.next_pressure <= bound
                    },
                forall|l: int|
                    0 <= l < i ==> {
                        let c = #[trigger] chunk.spec_cells()[l];
                        0 <= c.pressure <= bound && 0 <= c.next_pressure <= bound
                    },
            decreases SIZE - i,
        {
            let cell = chunk.get_cell_at(i);
            if cell.pressure < 0 || cell.pressure > bound || cell.next_pressure < 0
                || cell.next_pressure > bound {
                proof {
                    map.lemma_cell_of_chunk(j as int, i as int);
                }
                return false;
            }
            i = i + 1;
        }
        j = j + 1;
    }
    proof {
        assert forall|idx: CellIndex| #[trigger] map@.dom().contains(idx) implies 0 <= map@[idx].pressure
            <= bound && 0 <= map@[idx].next_pressure <= bound by {
            let (k, i) = map.lemma_locate(idx);
            map.lemma_cell_of_chunk(k, i);
        }
    }
    true
}

/// Whether the stage applies to the cell (its tile lets fluid in from the stage's direction).
pub open spec fn spec_takes_part(stage: FluidStage, tile: TileType) -> bool {
    match stage {
        FluidStage::Downwards => spec_is_floodable_from_above(tile),
        FluidStage::SidewaysPrepare | FluidStage::SidewaysApply => spec_is_floodable_horizontal(tile),
        FluidStage::Upwards => spec_is_floodable_from_below(tile),
        FluidStage::TileUpdate => false,
    }
}

/// Fluid moving down is never lost nor made: a cell gives a unit to the cell below it exactly
/// when that cell takes a unit from above.
pub proof fn lemma_downwards_flow_is_conserved(m: Map<CellIndex, Cell>, upper: CellIndex, lower: CellIndex)
    requires
        m.dom().contains(upper),
        m.dom().contains(lower),
        upper.offset_spec(0, -1, 0) == Some(lower),
    ensures
        (spec_takes_part(FluidStage::Downwards, m[upper].tile_type) && spec_outflow(
            m,
            upper,
            dir(0, -1, 0),
            m[upper].pressure as int,
            -VERTICAL_PRESSURE_DIFFERENCE,
        ) == -1) <==> (spec_takes_part(FluidStage::Downwards, m[lower].tile_type) && spec_inflow(
            m,
            lower,
            dir(0, 1, 0),
            m[lower].pressure as int,
            -VERTICAL_PRESSURE_DIFFERENCE,
        ) == 1),
{
    assert(lower.offset_spec(0, 1, 0) == Some(upper));
}

/// Fluid moving up is never lost nor made: a cell gives a unit to the cell above it exactly
/// when that cell takes a unit from below.
pub proof fn lemma_upwards_flow_is_conserved(m: Map<CellIndex, Cell>, lower: CellIndex, upper: CellIndex)
    requires
        m.dom().contains(upper),
        m.dom().contains(lower),
        lower.offset_spec(0, 1, 0) == Some(upper),
    ensures
        (spec_takes_part(FluidStage::Upwards, m[lower].tile_type) && spec_outflow(
            m,
            lower,
            dir(0, 1, 0),
            m[lower].pressure as int,
            VERTICAL_PRESSURE_DIFFERENCE + 1,
        ) == -1) <==> (spec_takes_part(FluidStage::Upwards, m[upper].tile_type) && spec_inflow(
            m,
            upper,
            dir(0, -1, 0),
            m[upper].pressure as int,
            VERTICAL_PRESSURE_DIFFERENCE + 1,
        ) == 1),
{
    assert(upper.offset_spec(0, -1, 0) == Some(lower));
}

/// Fluid moving sideways is never lost nor made, where pressures are not negative: over the
/// two sideways stages, a cell loses a unit towards a neighbour (it counts it out while
/// preparing, and keeps the loss because it can flow out) exactly when that neighbour gains it.
pub proof fn lemma_sideways_flow_is_conserved(m: Map<CellIndex, Cell>, from: CellIndex, to: CellIndex, d: CellIndex)
    requires
        m.dom().contains(from),
        m.dom().contains(to),
        d == dir(1, 0, 0) || d == dir(-1, 0, 0) || d == dir(0, 0, 1) || d == dir(0, 0, -1),
        from.offset_spec(d.x as int, d.y as int, d.z as int) == Some(to),
        m[from].pressure >= 0,
        m[to].pressure >= 0,
    ensures
        ({
            let prepared = spec_stage_map(m, FluidStage::SidewaysPrepare);
            let back = dir(-d.x, -d.y, -d.z);
            &&& (spec_takes_part(FluidStage::SidewaysPrepare, m[from].tile_type)
                && prepared[from].can_flow_out && spec_outflow(m, from, d, m[from].pressure as int, 0) == -1)
                <==> (spec_takes_part(FluidStage::SidewaysApply, prepared[to].tile_type) && spec_maybe_inflow(
                prepared,
                to,
                back,
                prepared[to].pressure as int,
                0,
            ) == 1)
        }),
{
    let prepared = spec_stage_map(m, FluidStage::SidewaysPrepare);
    let back = dir(-d.x, -d.y, -d.z);
    assert(to.offset_spec(back.x as int, back.y as int, back.z as int) == Some(from));
    assert(prepared.dom().contains(from) && prepared.dom().contains(to));
    assert(prepared[from].pressure == m[from].pressure && prepared[from].tile_type == m[from].tile_type);
    assert(prepared[to].pressure == m[to].pressure && prepared[to].tile_type == m[to].tile_type);
}

/// The cell above `idx`.
pub open spec fn cell_above(idx: CellIndex) -> CellIndex {
    CellIndex { y: (idx.y + 1) as i32, ..idx }
}

/// The cell below `idx`.
pub open spec fn cell_below(idx: CellIndex) -> CellIndex {
    CellIndex { y: (idx.y - 1) as i32, ..idx }
}

/// Water falls into floors. In the downward stage, a floor (of rock or of dirt) with nothing
/// below it in the map, under a cell of air with nothing above it in the map, whose pressure is
/// positive and not lower than the floor's by the vertical difference or more, takes one unit
/// of fluid from that cell: the floor's pressure grows by one and the air's drops by one.
pub proof fn lemma_floor_takes_fluid_from_above(m: Map<CellIndex, Cell>, floor: CellIndex)
    requires
        m.dom().contains(floor),
        m[floor].tile_type == TileType::FloorRock || m[floor].tile_type == TileType::FloorDirt,
        i32::MIN < floor.y < i32::MAX - 1,
        m.dom().contains(cell_above(floor)),
        m[cell_above(floor)].tile_type == TileType::Air,
        m[cell_above(floor)].pressure > 0,
        m[cell_above(floor)].pressure - m[floor].pressure > -VERTICAL_PRESSURE_DIFFERENCE,
        m[floor].pressure < i32::MAX,
        !m.dom().contains(cell_below(floor)),
        !m.dom().contains(cell_above(cell_above(floor))),
    ensures
        spec_stage_map(m, FluidStage::Downwards)[floor].pressure == m[floor].pressure + 1,
        spec_stage_map(m, FluidStage::Downwards)[cell_above(floor)].pressure == m[cell_above(floor)].pressure
            - 1,
{
    let above = cell_above(floor);
    assert(floor.offset_spec(0, -1, 0) == Some(cell_below(floor)));
    assert(floor.offset_spec(0, 1, 0) == Some(above));
    assert(above.offset_spec(0, -1, 0) == Some(floor));
    assert(above.offset_spec(0, 1, 0) == Some(cell_above(above)));
    assert(dir(0, -1, 0).y == -1 && dir(0, -1, 0).x == 0 && dir(0, -1, 0).z == 0);
    assert(dir(0, 1, 0).y == 1 && dir(0, 1, 0).x == 0 && dir(0, 1, 0).z == 0);
    assert(spec_neighbour(m, floor, dir(0, -1, 0)) is None);
    assert(spec_neighbour(m, floor, dir(0, 1, 0)) == Some(m[above]));
    assert(spec_neighbour(m, above, dir(0, -1, 0)) == Some(m[floor]));
    assert(spec_neighbour(m, above, dir(0, 1, 0)) is None);
}

} // verus!
