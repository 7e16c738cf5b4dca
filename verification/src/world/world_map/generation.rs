use vstd::prelude::*;
use crate::common::trunc::{spec_trunc_towards_neg_inf, trunc_towards_neg_inf};
use crate::world::fluids::VERTICAL_PRESSURE_DIFFERENCE;
use crate::world::world_map::{spec_required_chunk, MapType, WorldMap};
use crate::world::world_map::chunk::spec_chunk_index;
use crate::world::world_map::cell::{Cell, Pressure, TileType};
use crate::world::world_map::cell_index::{fits_i32, CellIndex};

verus! {

/// Pressure of the air at level `y` of a freshly generated map: none from level 1 up, and
/// `VERTICAL_PRESSURE_DIFFERENCE` more for each level below.
pub open spec fn spec_air_pressure(y: int) -> int {
    let p = VERTICAL_PRESSURE_DIFFERENCE - VERTICAL_PRESSURE_DIFFERENCE * y;
    if p > 0 {
        p
    } else {
        0
    }
}

/// Levels whose air pressure fits in an `i32`.
pub open spec fn level_fits(y: int) -> bool {
    VERTICAL_PRESSURE_DIFFERENCE - VERTICAL_PRESSURE_DIFFERENCE * y <= i32::MAX
}

/// The cell `cell` once generation gives it `tile_type`: no fluid moving, and the air pressure
/// of its level if it is air (which is then also the pressure shown).
pub open spec fn spec_generated_cell(tile_type: TileType, y: int, cell: Cell) -> Cell {
    if tile_type == TileType::Air {
        Cell {
            tile_type,
            pressure: spec_air_pressure(y) as i32,
            renderable_pressure: spec_air_pressure(y) as i32,
            next_pressure: 0,
            can_flow_out: false,
            ..cell
        }
    } else {
        Cell { tile_type, pressure: 0, next_pressure: 0, can_flow_out: false, ..cell }
    }
}

/// Whether a cell is land of the island: its horizontal distance from the center is below
/// `5 - y / 4`, that is, the island widens by one cell every four levels down.
pub open spec fn spec_is_island_land(idx: CellIndex) -> bool {
    16 * (idx.x * idx.x + idx.z * idx.z) < (20 - idx.y) * (20 - idx.y)
}

/// The tile of the island map: rock under the island, air elsewhere (level 1, the surface,
/// is air).
pub open spec fn spec_island_tile(idx: CellIndex) -> TileType {
    if idx.y <= 0 && spec_is_island_land(idx) {
        TileType::WallRock
    } else {
        TileType::Air
    }
}

/// The tile of the noise map for a column whose noise gives `noise_height`: rock below the
/// terrain height (the noise height rounded down to an even level), dirt at it, air above.
pub open spec fn spec_simplex_tile(idx: CellIndex, noise_height: int) -> TileType {
    let terrain_height = spec_trunc_towards_neg_inf(noise_height, 2);
    if idx.y < terrain_height {
        TileType::WallRock
    } else if idx.y == terrain_height {
        TileType::WallDirt
    } else {
        TileType::Air
    }
}

/// Resets the fluid of the cell and, if it is air, gives it the air pressure of its level.
fn define_pressure(tile_type: TileType, cell_index: CellIndex, cell: &mut Cell)
    requires
        level_fits(cell_index.y as int),
    ensures
        *final(cell) == (Cell {
            tile_type: old(cell).tile_type,
            ..spec_generated_cell(tile_type, cell_index.y as int, *old(cell))
        }),
{
    cell.pressure = 0;
    cell.can_flow_out = false;
    cell.next_pressure = 0;
    if tile_type == TileType::Air {
        let p: i64 = VERTICAL_PRESSURE_DIFFERENCE as i64 - VERTICAL_PRESSURE_DIFFERENCE as i64
            * cell_index.y as i64;
        let pressure: i32 = if p > 0 {
            p as i32
        } else {
            0
        };
        cell.pressure = pressure;
        cell.renderable_pressure = pressure;
    }
}

/// Whether the cell is land of the island, computed exactly on integers.
fn is_island_land(cell_index: CellIndex) -> (result: bool)
    ensures
        result == spec_is_island_land(cell_index),
{
    let x: i128 = cell_index.x as i128;
    let z: i128 = cell_index.z as i128;
    let depth: i128 = 20 - cell_index.y as i128;
    assert(x * x <= 0x4000_0000_0000_0000) by (nonlinear_arith)
        requires
            -0x8000_0000 <= x <= 0x8000_0000,
    ;
    assert(z * z <= 0x4000_0000_0000_0000) by (nonlinear_arith)
        requires
            -0x8000_0000 <= z <= 0x8000_0000,
    ;
    assert(0 <= depth * depth <= 0x1_0000_0000_0000_0000) by (nonlinear_arith)
        requires
            -0x1_0000_0000 <= depth <= 0x1_0000_0000,
    ;
    assert(x * x >= 0 && z * z >= 0) by (nonlinear_arith);
    16 * (x * x + z * z) < depth * depth
}

/// Makes the cell part of the island map.
fn choose_tile_in_island_map(cell_index: CellIndex, cell: &mut Cell)
    requires
        level_fits(cell_index.y as int),
    ensures
        *final(cell) == spec_generated_cell(spec_island_tile(cell_index), cell_index.y as int, *old(cell)),
{
    cell.tile_type = if cell_index.y > 1 {
        TileType::Air
    } else {
        if is_island_land(cell_index) {
            if cell_index.y == 1 {
                TileType::Air
            } else {
                TileType::WallRock
            }
        } else {
            TileType::Air
        }
    };
    let tile_type = cell.tile_type;
    define_pressure(tile_type, cell_index, cell);
}

/// Makes the cell part of the noise map, in a column whose noise gives `noise_height`.
fn choose_tile_simplex(noise_height: i32, cell_index: CellIndex, cell: &mut Cell)
    requires
        level_fits(cell_index.y as int),
    ensures
        *final(cell) == spec_generated_cell(
            spec_simplex_tile(cell_index, noise_height as int),
            cell_index.y as int,
            *old(cell),
        ),
{
    assert(spec_trunc_towards_neg_inf(noise_height as int, 2) >= i32::MIN) by (nonlinear_arith)
        requires
            noise_height >= i32::MIN,
            spec_trunc_towards_neg_inf(noise_height as int, 2) == (noise_height as int / 2) * 2,
    ;
    let terrain_height = trunc_towards_neg_inf(noise_height, 2);
    let tile_type = if cell_index.y < terrain_height {
        TileType::WallRock
    } else if cell_index.y == terrain_height {
        TileType::WallDirt
    } else {
        TileType::Air
    };
    cell.tile_type = tile_type;
    define_pressure(tile_type, cell_index, cell);
}

/// Heights given by a noise for the columns `min_x .. min_x + size_x` by
/// `min_z .. min_z + size_z` of a map, x varying fastest.
pub struct ColumnHeights {
    min_x: i32,
    min_z: i32,
    size_x: u16,
    size_z: u16,
    heights: Vec<i32>,
}

impl ColumnHeights {
    pub closed spec fn wf(&self) -> bool {
        self.heights@.len() == self.size_x as int * self.size_z as int
    }

    /// Whether the column `(x, z)` has a height.
    pub closed spec fn covers(&self, x: int, z: int) -> bool {
        &&& self.min_x <= x < self.min_x + self.size_x
        &&& self.min_z <= z < self.min_z + self.size_z
    }

    /// The height of the column `(x, z)`.
    pub closed spec fn spec_height(&self, x: int, z: int) -> int {
        self.heights@[(x - self.min_x) + (z - self.min_z) * self.size_x] as int
    }

    /// The heights of the columns from `(min_x, min_z)` on, x varying fastest, or `None` if
    /// `heights` does not hold exactly `size_x * size_z` of them.
    pub fn new(min_x: i32, min_z: i32, size_x: u16, size_z: u16, heights: Vec<i32>) -> (result: Option<ColumnHeights>)
        ensures
            result is Some <==> heights@.len() == size_x as int * size_z as int,
            result matches Some(h) ==> {
                &&& h.wf()
                &&& forall|x: int, z: int| #[trigger] h.covers(x, z) <==> (min_x <= x < min_x + size_x
                    && min_z <= z < min_z + size_z)
                &&& forall|x: int, z: int| #[trigger] h.covers(x, z) ==> h.spec_height(x, z)
                    == heights@[(x - min_x) + (z - min_z) * size_x]
            },
    {
        assert(size_x as u64 * size_z as u64 <= 0xffff * 0xffff) by (nonlinear_arith)
            requires
                size_x <= 0xffff,
                size_z <= 0xffff,
        ;
        let expected: u64 = size_x as u64 * size_z as u64;
        if heights.len() as u64 == expected {
            Some(ColumnHeights { min_x, min_z, size_x, size_z, heights })
        } else {
            None
        }
    }

    /// The height of the column `(x, z)`, if it has one.
    pub fn height_at(&self, x: i32, z: i32) -> (result: Option<i32>)
        requires
            self.wf(),
        ensures
            result is Some <==> self.covers(x as int, z as int),
            result matches Some(h) ==> h == self.spec_height(x as int, z as int),
    {
        let dx: i64 = x as i64 - self.min_x as i64;
        let dz: i64 = z as i64 - self.min_z as i64;
        if dx < 0 || dz < 0 || dx >= self.size_x as i64 || dz >= self.size_z as i64 {
            return None;
        }
        let sx: usize = self.size_x as usize;
        let sz: usize = self.size_z as usize;
        let ix: usize = dx as usize;
        let iz: usize = dz as usize;
        assert(ix + iz * sx < sx * sz) by (nonlinear_arith)
            requires
                ix < sx,
                iz < sz,
        ;
        assert(sx * sz <= 0xffff * 0xffff) by (nonlinear_arith)
            requires
                sx <= 0xffff,
                sz <= 0xffff,
        ;
        assert(iz * sx <= sx * sz) by (nonlinear_arith)
            requires
                iz < sz,
        ;
        Some(self.heights[ix + iz * sx])
    }
}

/// Whether the cell `(x, y, z)` is in the map, air, and without pressure: the ship can sink
/// through it.
pub open spec fn spec_clear_cell(m: Map<CellIndex, Cell>, x: i32, y: int, z: i32) -> bool {
    &&& fits_i32(y)
    &&& m.dom().contains(CellIndex { x, y: y as i32, z })
    &&& m[CellIndex { x, y: y as i32, z }].tile_type == TileType::Air
    &&& m[CellIndex { x, y: y as i32, z }].pressure <= 0
}

/// Whether the walk down column `(x, z)` from level `top` stops at level `top - j`: the cells
/// above it (below `top`) let the ship sink, and this one is in the map and does not.
pub open spec fn spec_stops_at(m: Map<CellIndex, Cell>, x: i32, top: int, z: i32, j: int) -> bool {
    &&& j >= 1
    &&& forall|i: int| 1 <= i < j ==> #[trigger] spec_clear_cell(m, x, top - i, z)
    &&& fits_i32(top - j)
    &&& m.dom().contains(CellIndex { x, y: (top - j) as i32, z })
    &&& !spec_clear_cell(m, x, top - j, z)
}

/// Where the ship lands in column `(x, z)` dropped from level `top`: on the cell where the walk
/// stops, unless that cell is air (with pressure), where it cannot land. `None` also where the
/// walk does not stop inside the map.
pub open spec fn spec_landing(m: Map<CellIndex, Cell>, x: i32, top: int, z: i32) -> Option<CellIndex> {
    if exists|j: int| spec_stops_at(m, x, top, z, j) {
        let j = choose|j: int| spec_stops_at(m, x, top, z, j);
        if m[CellIndex { x, y: (top - j) as i32, z }].tile_type == TileType::Air {
            None
        } else {
            Some(CellIndex { x, y: (top - j + 1) as i32, z })
        }
    } else {
        None
    }
}

/// The walk down a column stops at one level at most.
pub proof fn lemma_stop_unique(m: Map<CellIndex, Cell>, x: i32, top: int, z: i32, j: int, k: int)
    requires
        spec_stops_at(m, x, top, z, j),
        spec_stops_at(m, x, top, z, k),
    ensures
        j == k,
{
    if j < k {
        assert(spec_clear_cell(m, x, top - j, z));
    } else if k < j {
        assert(spec_clear_cell(m, x, top - k, z));
    }
}

/// Where the ship first lands dropped on the columns `(x, 0)` for `x` from `x_from` to
/// `x_to - 1`, in order.
pub open spec fn spec_first_landing(m: Map<CellIndex, Cell>, top: int, x_from: int, x_to: int) -> Option<CellIndex>
    decreases x_to - x_from,
{
    if x_from >= x_to || !fits_i32(x_from) {
        None
    } else {
        match spec_landing(m, x_from as i32, top, 0) {
            Some(p) => Some(p),
            None => spec_first_landing(m, top, x_from + 1, x_to),
        }
    }
}

/// The map `m` with every cell generated as an island.
pub open spec fn spec_island_map(m: Map<CellIndex, Cell>) -> Map<CellIndex, Cell> {
    Map::new(
        |idx: CellIndex| m.dom().contains(idx),
        |idx: CellIndex| spec_generated_cell(spec_island_tile(idx), idx.y as int, m[idx]),
    )
}

/// The map `m` with every cell generated from the noise heights of its column.
pub open spec fn spec_simplex_map(m: Map<CellIndex, Cell>, heights: ColumnHeights) -> Map<CellIndex, Cell> {
    Map::new(
        |idx: CellIndex| m.dom().contains(idx),
        |idx: CellIndex|
            spec_generated_cell(
                spec_simplex_tile(idx, heights.spec_height(idx.x as int, idx.z as int)),
                idx.y as int,
                m[idx],
            ),
    )
}

/// Where the ship stands on a freshly generated island.
pub open spec fn spec_island_ship_position() -> CellIndex {
    CellIndex { x: 0, y: 1, z: 0 }
}

/// The ship itself, put on a cell.
pub open spec fn spec_with_ship(cell: Cell) -> Cell {
    Cell { tile_type: TileType::MachineShip, ..cell }
}

impl WorldMap {
    /// Where the ship lands dropped on column `(x, z)` from the top level, or `None` where it
    /// cannot land there or the column does not end inside the map.
    pub fn try_land_ship(&self, x: i32, z: i32) -> (result: Option<CellIndex>)
        requires
            self.wf(),
        ensures
            result == spec_landing(self@, x, self.spec_max_cell().y as int, z),
    {
        let ghost m = self@;
        let top = self.max_cell().y;
        let ghost t = top as int;
        if top == i32::MIN {
            proof {
                if exists|j: int| spec_stops_at(m, x, t, z, j) {
                    let j = choose|j: int| spec_stops_at(m, x, t, z, j);
                    assert(!fits_i32(t - j));
                }
            }
            return None;
        }
        let mut y: i32 = top - 1;
        loop
            invariant
                self.wf(),
                self@ == m,
                t == self.spec_max_cell().y,
                y < t,
                forall|i: int| 1 <= i < t - y ==> #[trigger] spec_clear_cell(m, x, t - i, z),
            decreases y - i32::MIN,
        {
            let ghost j0 = t - y;
            let below = CellIndex { x, y, z };
            match self.get_cell_optional(below) {
                None => {
                    proof {
                        if exists|j: int| spec_stops_at(m, x, t, z, j) {
                            let j = choose|j: int| spec_stops_at(m, x, t, z, j);
                            if j > j0 {
                                assert(spec_clear_cell(m, x, t - j0, z));
                            }
                        }
                    }
                    return None;
                },
                Some(cell) => {
                    let pressure: Pressure = cell.pressure;
                    if cell.tile_type == TileType::Air && pressure <= 0 {
                        assert(spec_clear_cell(m, x, t - j0, z));
                        if y == i32::MIN {
                            proof {
                                if exists|j: int| spec_stops_at(m, x, t, z, j) {
                                    let j = choose|j: int| spec_stops_at(m, x, t, z, j);
                                    if j <= j0 {
                                        assert(spec_clear_cell(m, x, t - j, z));
                                    } else {
                                        assert(!fits_i32(t - j));
                                    }
                                }
                            }
                            return None;
                        }
                        y = y - 1;
                    } else {
                        proof {
                            assert(spec_stops_at(m, x, t, z, j0));
                            let j = choose|j: int| spec_stops_at(m, x, t, z, j);
                            lemma_stop_unique(m, x, t, z, j, j0);
                        }
                        if cell.tile_type == TileType::Air {
                            return None;
                        }
                        return Some(CellIndex { x, y: y + 1, z });
                    }
                },
            }
        }
    }

    /// Where the ship lands dropped on column `(x, z)` from the top level: `None` where the walk
    /// down ends on air (with pressure). The walk must end inside the map.
    pub fn land_ship(&self, x: i32, z: i32) -> (result: Option<CellIndex>)
        requires
            self.wf(),
            exists|j: int| spec_stops_at(self@, x, self.spec_max_cell().y as int, z, j),
        ensures
            result == spec_landing(self@, x, self.spec_max_cell().y as int, z),
            forall|j: int| #[trigger] spec_stops_at(self@, x, self.spec_max_cell().y as int, z, j) ==> result == if self@[CellIndex { x, y: (self.spec_max_cell().y - j) as i32, z }].tile_type == TileType::Air {
                None
            } else {
                Some(CellIndex { x, y: (self.spec_max_cell().y - j + 1) as i32, z })
            },
    {
        proof {
            assert forall|j: int| #[trigger] spec_stops_at(self@, x, self.spec_max_cell().y as int, z, j) implies spec_landing(self@, x, self.spec_max_cell().y as int, z) == if self@[CellIndex { x, y: (self.spec_max_cell().y - j) as i32, z }].tile_type == TileType::Air {
                None
            } else {
                Some(CellIndex { x, y: (self.spec_max_cell().y - j + 1) as i32, z })
            } by {
                let k = choose|k: int| spec_stops_at(self@, x, self.spec_max_cell().y as int, z, k);
                lemma_stop_unique(self@, x, self.spec_max_cell().y as int, z, j, k);
            }
        }
        self.try_land_ship(x, z)
    }
}

/// The cells of the default map as `WorldMap::new` makes it: every cell of the chunks that hold
/// the default cube, all `Unset`.
pub open spec fn spec_default_map() -> Map<CellIndex, Cell> {
    Map::new(
        |idx: CellIndex|
            spec_required_chunk(
                spec_chunk_index(idx),
                WorldMap::spec_default_min_cell(),
                WorldMap::spec_default_max_cell(),
            ),
        |idx: CellIndex| Cell::spec_new(TileType::Unset),
    )
}

/// The cells of the default map are those of the default cube, from -32 to 31 on each axis.
pub proof fn lemma_default_map_cells(idx: CellIndex)
    ensures
        spec_default_map().dom().contains(idx) <==> (-32 <= idx.x <= 31 && -32 <= idx.y <= 31 && -32
            <= idx.z <= 31),
{
    assert(spec_chunk_index(WorldMap::spec_default_min_cell()) == (CellIndex { x: -2i32, y: -2i32, z: -2i32 }));
    assert(spec_chunk_index(WorldMap::spec_default_max_cell()) == (CellIndex { x: 1, y: 1, z: 1 }));
    lemma_chunk_coord_bounds(idx.x as int);
    lemma_chunk_coord_bounds(idx.y as int);
    lemma_chunk_coord_bounds(idx.z as int);
}

proof fn lemma_chunk_coord_bounds(v: int)
    requires
        i32::MIN <= v <= i32::MAX,
    ensures
        (-2 <= v / 16 <= 1) <==> (-32 <= v <= 31),
{
    assert((-2 <= v / 16 <= 1) <==> (-32 <= v <= 31)) by (nonlinear_arith);
}

impl WorldMap {
    /// Generates every cell as the island map and puts the ship on the island.
    fn regenerate_island(&mut self)
        requires
            old(self).wf(),
            forall|idx: CellIndex| #[trigger] old(self)@.dom().contains(idx) ==> level_fits(idx.y as int),
            old(self)@.dom().contains(spec_island_ship_position()),
        ensures
            final(self).wf(),
            final(self)@ == spec_island_map(old(self)@).insert(
                spec_island_ship_position(),
                spec_with_ship(spec_island_map(old(self)@)[spec_island_ship_position()]),
            ),
            final(self).spec_ship_position() == Some(spec_island_ship_position()),
            final(self).spec_min_cell() == old(self).spec_min_cell(),
            final(self).spec_max_cell() == old(self).spec_max_cell(),
            final(self).spec_map_type() == old(self).spec_map_type(),
    {
        let ghost m = self@;
        let f = |idx: CellIndex, cell: Cell| -> (r: Cell)
            requires
                level_fits(idx.y as int),
            ensures
                r == spec_generated_cell(spec_island_tile(idx), idx.y as int, cell),
            {
                let mut c = cell;
                choose_tile_in_island_map(idx, &mut c);
                c
            };
        self.update_every_cell(f);
        assert(self@ =~= spec_island_map(m));
        let ship_pos = CellIndex { x: 0, y: 1, z: 0 };
        let cell = self.get_cell_mut(ship_pos);
        cell.tile_type = TileType::MachineShip;
        self.set_ship_position(Some(ship_pos));
    }

    /// Generates every cell from the noise heights of its column, then drops the ship on the
    /// columns `(x, 0)` for `x` from -5 to 14 until it lands. Returns whether it landed; if it
    /// did not, the ship is not placed.
    fn regenerate_with_simplex_noise(&mut self, heights: &ColumnHeights) -> (landed: bool)
        requires
            old(self).wf(),
            heights.wf(),
            forall|idx: CellIndex| #[trigger] old(self)@.dom().contains(idx) ==> level_fits(idx.y as int)
                && heights.covers(idx.x as int, idx.z as int),
        ensures
            final(self).wf(),
            ({
                let g = spec_simplex_map(old(self)@, *heights);
                let p = spec_first_landing(g, old(self).spec_max_cell().y as int, -5, 15);
                &&& landed == (p is Some && g.dom().contains(p->0))
                &&& landed ==> final(self)@ == g.insert(p->0, spec_with_ship(g[p->0]))
                    && final(self).spec_ship_position() == p
                &&& !landed ==> final(self)@ == g && final(self).spec_ship_position()
                    == old(self).spec_ship_position()
            }),
            final(self).spec_min_cell() == old(self).spec_min_cell(),
            final(self).spec_max_cell() == old(self).spec_max_cell(),
            final(self).spec_map_type() == old(self).spec_map_type(),
    {
        let ghost m = self@;
        let f = |idx: CellIndex, cell: Cell| -> (r: Cell)
            requires
                level_fits(idx.y as int),
                heights.covers(idx.x as int, idx.z as int),
            ensures
                r == spec_generated_cell(
                    spec_simplex_tile(idx, heights.spec_height(idx.x as int, idx.z as int)),
                    idx.y as int,
                    cell,
                ),
            {
                let noise_height = heights.height_at(idx.x, idx.z).unwrap();
                let mut c = cell;
                choose_tile_simplex(noise_height, idx, &mut c);
                c
            };
        self.update_every_cell(f);
        let ghost g = spec_simplex_map(m, *heights);
        assert(self@ =~= g);
        let ghost top = self.spec_max_cell().y as int;
        let mut ship_pos: Option<CellIndex> = None;
        let mut x: i32 = -5;
        while x < 15
            invariant_except_break
                ship_pos is None,
            invariant
                self.wf(),
                self@ == g,
                top == self.spec_max_cell().y,
                -5 <= x <= 15,
                spec_first_landing(g, top, -5, 15) == spec_first_landing(g, top, x as int, 15),
            ensures
                ship_pos == spec_first_landing(g, top, -5, 15),
            decreases 15 - x,
        {
            let landing = self.try_land_ship(x, 0);
            if landing.is_some() {
                ship_pos = landing;
                break;
            }
            x = x + 1;
        }
        match ship_pos {
            Some(pos) => {
                if self.in_range(pos) {
                    let cell = self.get_cell_mut(pos);
                    cell.tile_type = TileType::MachineShip;
                    self.set_ship_position(Some(pos));
                    true
                } else {
                    false
                }
            },
            None => false,
        }
    }
}

impl WorldMap {
    /// What `regenerate` needs: every level fits the air pressure; an island map holds the
    /// ship's cell; a noise map has a height for every column of its cells.
    pub open spec fn can_regenerate(&self, heights: ColumnHeights) -> bool {
        &&& forall|idx: CellIndex| #[trigger] self@.dom().contains(idx) ==> level_fits(idx.y as int)
        &&& self.spec_map_type() == MapType::Island ==> self@.dom().contains(spec_island_ship_position())
        &&& self.spec_map_type() == MapType::Simplex ==> heights.wf() && forall|idx: CellIndex| #[trigger]
            self@.dom().contains(idx) ==> heights.covers(idx.x as int, idx.z as int)
    }

    /// What `regenerate` makes of the map `before`: the cells generated as its type says, and
    /// the ship placed; `landed` says whether the ship could be placed.
    pub open spec fn spec_regenerated(&self, before: WorldMap, heights: ColumnHeights, landed: bool) -> bool {
        &&& self.spec_min_cell() == before.spec_min_cell()
        &&& self.spec_max_cell() == before.spec_max_cell()
        &&& self.spec_map_type() == before.spec_map_type()
        &&& match before.spec_map_type() {
            MapType::Island => {
                let g = spec_island_map(before@);
                &&& landed
                &&& self@ == g.insert(
                    spec_island_ship_position(),
                    spec_with_ship(g[spec_island_ship_position()]),
                )
                &&& self.spec_ship_position() == Some(spec_island_ship_position())
            },
            MapType::Simplex => {
                let g = spec_simplex_map(before@, heights);
                let p = spec_first_landing(g, before.spec_max_cell().y as int, -5, 15);
                &&& landed == (p is Some && g.dom().contains(p->0))
                &&& landed ==> self@ == g.insert(p->0, spec_with_ship(g[p->0]))
                    && self.spec_ship_position() == p
                &&& !landed ==> self@ == g && self.spec_ship_position() == before.spec_ship_position()
            },
        }
    }

    /// Generates every cell again as the map's type says (an island, or a terrain from the
    /// noise heights of each column), and places the ship: on the island at `(0, 1, 0)`; on a
    /// noise map where it first lands dropped on the columns `(x, 0)`, `x` from -5 to 14.
    /// Returns whether the ship was placed (it always is on an island).
    pub fn regenerate(&mut self, heights: &ColumnHeights) -> (landed: bool)
        requires
            old(self).wf(),
            old(self).can_regenerate(*heights),
        ensures
            final(self).wf(),
            final(self).spec_regenerated(*old(self), *heights, landed),
    {
        match self.get_map_type() {
            MapType::Island => {
                self.regenerate_island();
                true
            },
            MapType::Simplex => self.regenerate_with_simplex_noise(heights),
        }
    }

    /// A default map of the given type, generated; `None` if the ship could not be placed.
    pub fn new_generated(map_type: MapType, heights: &ColumnHeights) -> (result: Option<WorldMap>)
        requires
            map_type == MapType::Simplex ==> heights.wf() && forall|x: int, z: int|
                -32 <= x <= 31 && -32 <= z <= 31 ==> #[trigger] heights.covers(x, z),
        ensures
            map_type == MapType::Island ==> result is Some,
            result matches Some(map) ==> map.wf(),
            ({
                let fresh = spec_default_map();
                match map_type {
                    MapType::Island => result matches Some(map) && map@ == spec_island_map(fresh).insert(
                        spec_island_ship_position(),
                        spec_with_ship(spec_island_map(fresh)[spec_island_ship_position()]),
                    ) && map.spec_ship_position() == Some(spec_island_ship_position()),
                    MapType::Simplex => {
                        let g = spec_simplex_map(fresh, *heights);
                        let p = spec_first_landing(g, 31, -5, 15);
                        &&& result is Some == (p is Some && g.dom().contains(p->0))
                        &&& result matches Some(map) ==> map@ == g.insert(p->0, spec_with_ship(g[p->0]))
                            && map.spec_ship_position() == p
                    },
                }
            }),
            result matches Some(map) ==> map.spec_map_type() == map_type
                && map.spec_min_cell() == WorldMap::spec_default_min_cell()
                && map.spec_max_cell() == WorldMap::spec_default_max_cell(),
    {
        let mut map = Self::new();
        proof {
            assert(map@ =~= spec_default_map());
        }
        map.set_map_type(map_type);
        proof {
            assert forall|idx: CellIndex| #[trigger] map@.dom().contains(idx) implies level_fits(idx.y as int)
                && (map_type == MapType::Simplex ==> heights.covers(idx.x as int, idx.z as int)) by {
                lemma_default_map_cells(idx);
            }
            lemma_default_map_cells(spec_island_ship_position());
        }
        if map.regenerate(heights) {
            Some(map)
        } else {
            None
        }
    }
}

} // verus!
