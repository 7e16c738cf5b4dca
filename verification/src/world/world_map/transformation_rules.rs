use vstd::prelude::*;
use crate::world::world_map::cell::{
    is_soil, is_sturdy, is_tree, spec_is_soil, spec_is_sturdy, spec_is_tree, Cell, TileType,
};
use crate::world::world_map::cell_index::CellIndex;
use crate::world::world_map::transform_cells::{
    above, above_is, above_readable, below, below_is, below_readable, column_readable, solar_allowed,
    spec_above, spec_above_readable, spec_below,
    spec_below_readable, spec_column_above_is, spec_column_readable, TransformationFailure,
};
use crate::world::world_map::WorldMap;

verus! {

/// The physical rules that a transformation of one cell has to respect.
pub struct TransformationRules<'a> {
    position_to_transform: CellIndex,
    new_tile_type: TileType,
    map: &'a WorldMap,
}

impl<'a> TransformationRules<'a> {
    pub closed spec fn spec_position(&self) -> CellIndex {
        self.position_to_transform
    }

    pub closed spec fn spec_new_tile_type(&self) -> TileType {
        self.new_tile_type
    }

    pub closed spec fn spec_map(&self) -> &'a WorldMap {
        self.map
    }

    /// Whether the cell above is air (or there is nothing above).
    pub open spec fn spec_air_above(&self) -> bool {
        spec_column_above_is(
            self.spec_map()@,
            self.spec_map().spec_max_cell().y as int,
            TileType::Air,
            self.spec_position(),
            1,
        )
    }

    /// Whether the cell above is a tree (or there is nothing above).
    pub open spec fn spec_tree_above(&self) -> bool {
        match spec_above(self.spec_map()@, self.spec_map().spec_max_cell().y as int, self.spec_position()) {
            None => true,
            Some(c) => spec_is_tree(c.tile_type),
        }
    }

    /// Whether the cell below satisfies `sturdy` or `soil` (or there is nothing below).
    pub open spec fn spec_below_matches(&self, soil: bool) -> bool {
        match spec_below(self.spec_map()@, self.spec_map().spec_min_cell().y as int, self.spec_position()) {
            None => true,
            Some(c) => if soil {
                spec_is_soil(c.tile_type)
            } else {
                spec_is_sturdy(c.tile_type)
            },
        }
    }

    /// Whether the cell below is a solar panel (or there is nothing below).
    pub open spec fn spec_solar_below(&self) -> bool {
        match spec_below(self.spec_map()@, self.spec_map().spec_min_cell().y as int, self.spec_position()) {
            None => true,
            Some(c) => c.tile_type == TileType::MachineSolarPanel,
        }
    }

    pub open spec fn spec_cells_above_would_collapse(&self) -> bool {
        (!spec_is_sturdy(self.spec_new_tile_type()) && !self.spec_air_above()) || (
        self.spec_new_tile_type() != TileType::WallRock && self.spec_tree_above())
    }

    pub open spec fn spec_building_on_top_of_non_sturdy_cells(&self) -> bool {
        self.spec_new_tile_type() != TileType::Air && !self.spec_below_matches(false)
    }

    pub open spec fn spec_planting_tree_on_non_soil(&self) -> bool {
        self.spec_new_tile_type() == TileType::TreeHealthy && !self.spec_below_matches(true)
    }

    pub open spec fn spec_occluding_solar_panel(&self) -> bool {
        self.spec_new_tile_type() != TileType::Air && self.spec_solar_below()
    }

    pub open spec fn spec_occluded_solar_panel(&self) -> bool {
        self.spec_new_tile_type() == TileType::MachineSolarPanel && !spec_column_above_is(
            self.spec_map()@,
            self.spec_map().spec_max_cell().y as int,
            TileType::Air,
            self.spec_position(),
            20,
        )
    }

    /// The first rule that the transformation breaks, if any.
    pub open spec fn spec_is_forbidden(&self) -> Option<TransformationFailure> {
        if self.spec_cells_above_would_collapse() {
            Some(TransformationFailure::AboveWouldCollapse)
        } else if self.spec_building_on_top_of_non_sturdy_cells() {
            Some(TransformationFailure::NoSturdyBase)
        } else if self.spec_planting_tree_on_non_soil() {
            Some(TransformationFailure::NoSturdyBase)
        } else if self.spec_occluding_solar_panel() {
            Some(TransformationFailure::WouldOccludeSolarPanel)
        } else if self.spec_occluded_solar_panel() {
            Some(TransformationFailure::OccludedSolarPanel)
        } else {
            None
        }
    }

    /// Whether the cells that checking the collapse rule looks at are readable.
    pub open spec fn collapse_readable(&self) -> bool {
        self.spec_new_tile_type() != TileType::WallRock ==> spec_above_readable(self.spec_map(), self.spec_position())
    }

    /// Whether the cells that checking the rules about the cell below look at are readable.
    pub open spec fn below_readable(&self) -> bool {
        self.spec_new_tile_type() != TileType::Air ==> spec_below_readable(self.spec_map(), self.spec_position())
    }

    /// Whether the column that checking the sunlight rule looks at is readable.
    pub open spec fn sunlight_readable(&self) -> bool {
        self.spec_new_tile_type() == TileType::MachineSolarPanel ==> spec_column_readable(
            self.spec_map()@,
            self.spec_map().spec_max_cell().y as int,
            TileType::Air,
            self.spec_position(),
            20,
        )
    }

    /// Whether every cell that `is_forbidden` looks at, in the order it looks, is readable.
    pub open spec fn forbidden_readable(&self) -> bool {
        &&& self.collapse_readable()
        &&& !self.spec_cells_above_would_collapse() ==> {
            &&& self.below_readable()
            &&& (!self.spec_building_on_top_of_non_sturdy_cells()
                && !self.spec_planting_tree_on_non_soil() && !self.spec_occluding_solar_panel())
                ==> self.sunlight_readable()
        }
    }

    pub fn new(position_to_transform: CellIndex, new_tile_type: TileType, map: &'a WorldMap) -> (result: TransformationRules<'a>)
        ensures
            result.spec_position() == position_to_transform,
            result.spec_new_tile_type() == new_tile_type,
            result.spec_map() == map,
    {
        TransformationRules { position_to_transform, new_tile_type, map }
    }

    /// The first rule that the transformation breaks, if any.
    pub fn is_forbidden(&self) -> (result: Option<TransformationFailure>)
        requires
            self.spec_map().wf(),
            self.forbidden_readable(),
        ensures
            result == self.spec_is_forbidden(),
    {
        if self.cells_above_would_collapse() {
            Some(TransformationFailure::AboveWouldCollapse)
        } else if self.building_on_top_of_non_sturdy_cells() {
            Some(TransformationFailure::NoSturdyBase)
        } else if self.planting_tree_on_non_soil() {
            Some(TransformationFailure::NoSturdyBase)
        } else if self.occluding_solar_panel() {
            Some(TransformationFailure::WouldOccludeSolarPanel)
        } else if self.occluded_solar_panel() {
            Some(TransformationFailure::OccludedSolarPanel)
        } else {
            None
        }
    }

    /// Whether `is_forbidden` only reads cells of the map.
    pub fn rules_readable(&self) -> (result: bool)
        requires
            self.spec_map().wf(),
        ensures
            result == self.forbidden_readable(),
    {
        if self.new_tile_type != TileType::WallRock && !above_readable(self.map, self.position_to_transform) {
            return false;
        }
        if self.cells_above_would_collapse() {
            return true;
        }
        if self.new_tile_type != TileType::Air && !below_readable(self.map, self.position_to_transform) {
            return false;
        }
        if self.building_on_top_of_non_sturdy_cells() || self.planting_tree_on_non_soil()
            || self.occluding_solar_panel() {
            return true;
        }
        self.new_tile_type != TileType::MachineSolarPanel || column_readable(
            TileType::Air,
            20,
            self.position_to_transform,
            self.map,
        )
    }

    /// Whatever is not sturdy can only have air above; and only a rock wall can replace what
    /// holds a tree.
    pub fn cells_above_would_collapse(&self) -> (result: bool)
        requires
            self.spec_map().wf(),
            self.collapse_readable(),
        ensures
            result == self.spec_cells_above_would_collapse(),
    {
        proof {
            if self.spec_new_tile_type() != TileType::WallRock {
                crate::world::world_map::transform_cells::lemma_one_level_readable(self.map, TileType::Air, self.position_to_transform);
            }
        }
        !is_sturdy(self.new_tile_type) && !above_is(TileType::Air, self.position_to_transform, self.map)
            || self.new_tile_type != TileType::WallRock && above(is_tree, self.position_to_transform, self.map)
    }

    /// Anything but air needs something sturdy below.
    pub fn building_on_top_of_non_sturdy_cells(&self) -> (result: bool)
        requires
            self.spec_map().wf(),
            self.below_readable(),
        ensures
            result == self.spec_building_on_top_of_non_sturdy_cells(),
    {
        self.new_tile_type != TileType::Air && !below(is_sturdy, self.position_to_transform, self.map)
    }

    /// Trees need soil below.
    pub fn planting_tree_on_non_soil(&self) -> (result: bool)
        requires
            self.spec_map().wf(),
            self.below_readable(),
        ensures
            result == self.spec_planting_tree_on_non_soil(),
    {
        self.new_tile_type == TileType::TreeHealthy && !below(is_soil, self.position_to_transform, self.map)
    }

    /// Only air can stand on top of a solar panel.
    pub fn occluding_solar_panel(&self) -> (result: bool)
        requires
            self.spec_map().wf(),
            self.below_readable(),
        ensures
            result == self.spec_occluding_solar_panel(),
    {
        self.new_tile_type != TileType::Air && below_is(TileType::MachineSolarPanel, self.position_to_transform, self.map)
    }

    /// A solar panel needs air above it for enough levels.
    pub fn occluded_solar_panel(&self) -> (result: bool)
        requires
            self.spec_map().wf(),
            self.sunlight_readable(),
        ensures
            result == self.spec_occluded_solar_panel(),
    {
        self.new_tile_type == TileType::MachineSolarPanel && !solar_allowed(&self.position_to_transform, self.map)
    }
}

/// The first rule that turning the cell at `pos` into `tile` breaks, on a map whose cells are
/// `m` and whose levels go from `min_y` to `max_y` (see `TransformationRules::spec_is_forbidden`).
pub open spec fn spec_forbidden_in(
    m: Map<CellIndex, Cell>,
    min_y: int,
    max_y: int,
    pos: CellIndex,
    tile: TileType,
) -> Option<TransformationFailure> {
    let air_above = spec_column_above_is(m, max_y, TileType::Air, pos, 1);
    let tree_above = match spec_above(m, max_y, pos) {
        None => true,
        Some(c) => spec_is_tree(c.tile_type),
    };
    let below = spec_below(m, min_y, pos);
    let sturdy_below = match below {
        None => true,
        Some(c) => spec_is_sturdy(c.tile_type),
    };
    let soil_below = match below {
        None => true,
        Some(c) => spec_is_soil(c.tile_type),
    };
    let solar_below = match below {
        None => true,
        Some(c) => c.tile_type == TileType::MachineSolarPanel,
    };
    if (!spec_is_sturdy(tile) && !air_above) || (tile != TileType::WallRock && tree_above) {
        Some(TransformationFailure::AboveWouldCollapse)
    } else if tile != TileType::Air && !sturdy_below {
        Some(TransformationFailure::NoSturdyBase)
    } else if tile == TileType::TreeHealthy && !soil_below {
        Some(TransformationFailure::NoSturdyBase)
    } else if tile != TileType::Air && solar_below {
        Some(TransformationFailure::WouldOccludeSolarPanel)
    } else if tile == TileType::MachineSolarPanel && !spec_column_above_is(m, max_y, TileType::Air, pos, 20) {
        Some(TransformationFailure::OccludedSolarPanel)
    } else {
        None
    }
}

/// A tree needs soil: planting one on a cell with air above it, over a cell of the map that is
/// neither rock nor dirt (wall or floor), such as a machine or a wire, is refused for want of a
/// sturdy base.
pub proof fn lemma_tree_needs_soil(m: Map<CellIndex, Cell>, min_y: int, max_y: int, pos: CellIndex)
    requires
        i32::MIN < pos.y < i32::MAX,
        min_y <= pos.y - 1,
        pos.y + 1 <= max_y,
        m[CellIndex { y: (pos.y + 1) as i32, ..pos }].tile_type == TileType::Air,
        ({
            let below = m[CellIndex { y: (pos.y - 1) as i32, ..pos }].tile_type;
            below != TileType::WallRock && below != TileType::WallDirt && below
                != TileType::FloorRock && below != TileType::FloorDirt
        }),
    ensures
        spec_forbidden_in(m, min_y, max_y, pos, TileType::TreeHealthy) == Some(
            TransformationFailure::NoSturdyBase,
        ),
{
    let next = CellIndex { y: (pos.y + 1) as i32, ..pos };
    assert(spec_column_above_is(m, max_y, TileType::Air, next, 0));
}

/// Whether the `levels` cells above `idx` are in `dom`, up to the top level `max_y`, with no
/// level past `i32::MAX`.
pub open spec fn spec_column_in(dom: Set<CellIndex>, max_y: int, idx: CellIndex, levels: int) -> bool
    decreases levels,
{
    if levels <= 0 {
        true
    } else if idx.y == i32::MAX {
        false
    } else if idx.y + 1 > max_y {
        true
    } else {
        let next = CellIndex { y: (idx.y + 1) as i32, ..idx };
        dom.contains(next) && spec_column_in(dom, max_y, next, levels - 1)
    }
}

/// Whether every cell that the rules may read to judge turning the cell at `pos` into `tile` is
/// in `dom` (or past the top or the bottom level), whatever the cells hold.
pub open spec fn spec_reads_inside(dom: Set<CellIndex>, min_y: int, max_y: int, pos: CellIndex, tile: TileType) -> bool {
    &&& tile != TileType::WallRock ==> spec_column_in(dom, max_y, pos, 1)
    &&& tile != TileType::Air ==> pos.y > i32::MIN && (pos.y - 1 >= min_y ==> dom.contains(
        CellIndex { y: (pos.y - 1) as i32, ..pos },
    ))
    &&& tile == TileType::MachineSolarPanel ==> spec_column_in(dom, max_y, pos, 20)
}

/// A column whose cells are all in the map can be read whatever they hold.
proof fn lemma_column_in_readable(m: Map<CellIndex, Cell>, max_y: int, expected: TileType, idx: CellIndex, levels: int)
    requires
        spec_column_in(m.dom(), max_y, idx, levels),
    ensures
        spec_column_readable(m, max_y, expected, idx, levels),
    decreases levels,
{
    if levels > 0 && idx.y != i32::MAX && idx.y + 1 <= max_y {
        let next = CellIndex { y: (idx.y + 1) as i32, ..idx };
        lemma_column_in_readable(m, max_y, expected, next, levels - 1);
    }
}

impl<'a> TransformationRules<'a> {
    /// The rules judge by the cells of the map and its levels alone.
    pub proof fn lemma_forbidden_in(&self)
        ensures
            self.spec_is_forbidden() == spec_forbidden_in(
                self.spec_map()@,
                self.spec_map().spec_min_cell().y as int,
                self.spec_map().spec_max_cell().y as int,
                self.spec_position(),
                self.spec_new_tile_type(),
            ),
    {
    }

    /// Planting a tree over a cell of the map that is not soil, with air above, is refused for
    /// want of a sturdy base; see `lemma_tree_needs_soil`.
    pub proof fn lemma_planting_tree_needs_soil(&self)
        requires
            self.spec_new_tile_type() == TileType::TreeHealthy,
            i32::MIN < self.spec_position().y < i32::MAX,
            self.spec_map().spec_min_cell().y <= self.spec_position().y - 1,
            self.spec_position().y + 1 <= self.spec_map().spec_max_cell().y,
            self.spec_map()@[CellIndex { y: (self.spec_position().y + 1) as i32, ..self.spec_position() }].tile_type
                == TileType::Air,
            ({
                let below = self.spec_map()@[CellIndex {
                    y: (self.spec_position().y - 1) as i32,
                    ..self.spec_position()
                }].tile_type;
                below != TileType::WallRock && below != TileType::WallDirt && below
                    != TileType::FloorRock && below != TileType::FloorDirt
            }),
        ensures
            self.spec_is_forbidden() == Some(TransformationFailure::NoSturdyBase),
    {
        self.lemma_forbidden_in();
        lemma_tree_needs_soil(
            self.spec_map()@,
            self.spec_map().spec_min_cell().y as int,
            self.spec_map().spec_max_cell().y as int,
            self.spec_position(),
        );
    }

    /// When every cell the rules may read is in the map, they can judge.
    pub proof fn lemma_reads_inside(&self)
        requires
            spec_reads_inside(
                self.spec_map()@.dom(),
                self.spec_map().spec_min_cell().y as int,
                self.spec_map().spec_max_cell().y as int,
                self.spec_position(),
                self.spec_new_tile_type(),
            ),
        ensures
            self.forbidden_readable(),
    {
        let m = self.spec_map()@;
        let max_y = self.spec_map().spec_max_cell().y as int;
        let pos = self.spec_position();
        if self.spec_new_tile_type() != TileType::WallRock {
            assert(spec_column_in(m.dom(), max_y, pos, 1));
            assert(spec_column_in(m.dom(), max_y, CellIndex { y: (pos.y + 1) as i32, ..pos }, 0));
        }
        if self.spec_new_tile_type() == TileType::MachineSolarPanel {
            lemma_column_in_readable(m, max_y, TileType::Air, pos, 20);
        }
    }
}

/// Whether every cell that the rules may read to judge turning the cell at `pos` into `tile` is
/// in the map; see `spec_reads_inside`.
pub fn reads_inside(map: &WorldMap, pos: CellIndex, tile: TileType) -> (result: bool)
    requires
        map.wf(),
    ensures
        result == spec_reads_inside(map@.dom(), map.spec_min_cell().y as int, map.spec_max_cell().y as int, pos, tile),
{
    let min_y = map.min_cell().y;
    let max_y = map.max_cell().y;
    if tile != TileType::WallRock && !column_in(map, max_y, pos, 1) {
        return false;
    }
    if tile != TileType::Air {
        if pos.y == i32::MIN {
            return false;
        }
        if pos.y - 1 >= min_y && !map.in_range(CellIndex { y: pos.y - 1, ..pos }) {
            return false;
        }
    }
    tile != TileType::MachineSolarPanel || column_in(map, max_y, pos, 20)
}

/// Whether the `levels` cells above `idx` are in the map; see `spec_column_in`.
fn column_in(map: &WorldMap, max_y: i32, idx: CellIndex, levels: i32) -> (result: bool)
    requires
        map.wf(),
        levels >= 0,
    ensures
        result == spec_column_in(map@.dom(), max_y as int, idx, levels as int),
    decreases levels,
{
    if levels == 0 {
        true
    } else if idx.y == i32::MAX {
        false
    } else if idx.y + 1 > max_y {
        true
    } else {
        let next = CellIndex { y: idx.y + 1, ..idx };
        map.in_range(next) && column_in(map, max_y, next, levels - 1)
    }
}

} // verus!
