use vstd::prelude::*;
use vstd::std_specs::cmp::{PartialEqSpec, PartialEqSpecImpl};
use crate::world::world_map::cell::{Cell, DEFAULT_HEALTH, TileType, is_liquid, spec_is_liquid, spec_is_tree};
use crate::world::world_map::cell_index::CellIndex;
use crate::world::world_map::cell_set::CellSet;
use crate::world::world_map::WorldMap;

verus! {

/// Number of air cells that must be above a cell for a solar panel to be built there.
pub const AIR_LEVELS_FOR_ALLOWING_SOLAR: i32 = 20;

/// Turning cells into another type of tile.
#[derive(Debug, Copy, Clone)]
pub struct Transformation {
    pub new_tile_type: TileType,
}

impl PartialEq for Transformation {
    fn eq(&self, other: &Transformation) -> (result: bool) {
        self.new_tile_type == other.new_tile_type
    }
}

impl Eq for Transformation {
}

impl PartialEqSpecImpl for Transformation {
    open spec fn obeys_eq_spec() -> bool {
        true
    }

    open spec fn eq_spec(&self, other: &Transformation) -> bool {
        self.new_tile_type == other.new_tile_type
    }
}

/// Why a transformation could not be done (yet).
#[derive(PartialEq, Eq, Hash, Copy, Clone, Debug, Structural)]
pub enum TransformationFailure {
    NotEnoughMaterial,
    NotEnoughStorage,
    AboveWouldCollapse,
    NoSturdyBase,
    WouldOccludeSolarPanel,
    OccludedSolarPanel,
    OutOfShipReach,
    CanNotDeconstructShip,
    SplitNetwork,
}

impl Transformation {
    pub open spec fn spec_to(new_tile_type: TileType) -> Transformation {
        Transformation { new_tile_type }
    }

    pub fn to(new_tile_type: TileType) -> (result: Transformation)
        ensures
            result == Transformation::spec_to(new_tile_type),
    {
        Transformation { new_tile_type }
    }

    /// What the transformation makes of a cell.
    pub open spec fn spec_apply(&self, cell: Cell) -> Cell {
        let emptied = (spec_is_liquid(cell.tile_type) && self.new_tile_type == TileType::Air)
            || self.new_tile_type == TileType::WallRock;
        Cell {
            tile_type: self.new_tile_type,
            pressure: if emptied {
                0
            } else {
                cell.pressure
            },
            renderable_pressure: if emptied {
                0
            } else {
                cell.renderable_pressure
            },
            health: if self.new_tile_type == TileType::TreeHealthy {
                DEFAULT_HEALTH
            } else {
                cell.health
            },
            ..cell
        }
    }

    /// Changes the tile type of the cell. Building a rock wall, or removing fluid, leaves no
    /// pressure; a new tree starts with full health.
    pub fn apply(&self, cell: &mut Cell)
        ensures
            *final(cell) == self.spec_apply(*old(cell)),
    {
        if is_liquid(cell.tile_type) && self.new_tile_type == TileType::Air
            || self.new_tile_type == TileType::WallRock {
            cell.pressure = 0;
            cell.renderable_pressure = 0;
        }
        if self.new_tile_type == TileType::TreeHealthy {
            cell.health = DEFAULT_HEALTH;
        }
        cell.tile_type = self.new_tile_type;
    }
}

/// Whether every list after the first holds `x`.
pub open spec fn in_all_others<T>(lists: Seq<Seq<T>>, x: T) -> bool {
    forall|k: int| 1 <= k < lists.len() ==> #[trigger] lists[k].contains(x)
}

/// The elements of `first` that every other list holds, each once, in order of first
/// appearance in `first`.
pub open spec fn spec_common_unique<T>(first: Seq<T>, lists: Seq<Seq<T>>) -> Seq<T>
    decreases first.len(),
{
    if first.len() == 0 {
        Seq::empty()
    } else {
        let rest = spec_common_unique(first.drop_last(), lists);
        let x = first.last();
        if in_all_others(lists, x) && !rest.contains(x) {
            rest.push(x)
        } else {
            rest
        }
    }
}

/// The elements that all the lists hold, each once, in the order of the first list.
pub open spec fn spec_set_intersection<T>(lists: Seq<Seq<T>>) -> Seq<T> {
    if lists.len() == 0 {
        Seq::empty()
    } else {
        spec_common_unique(lists[0], lists)
    }
}

/// The intersection holds exactly the elements of all the lists, and none twice.
pub proof fn lemma_set_intersection<T>(lists: Seq<Seq<T>>)
    ensures
        spec_set_intersection(lists).no_duplicates(),
        forall|x: T| #[trigger] spec_set_intersection(lists).contains(x) == (lists.len() > 0
            && forall|k: int| 0 <= k < lists.len() ==> #[trigger] lists[k].contains(x)),
{
    if lists.len() > 0 {
        lemma_common_unique(lists[0], lists);
        assert forall|x: T| #[trigger] spec_set_intersection(lists).contains(x) == (lists.len() > 0
            && forall|k: int| 0 <= k < lists.len() ==> #[trigger] lists[k].contains(x)) by {
            if forall|k: int| 0 <= k < lists.len() ==> #[trigger] lists[k].contains(x) {
                assert(lists[0].contains(x));
            }
        }
    }
}

proof fn lemma_common_unique<T>(first: Seq<T>, lists: Seq<Seq<T>>)
    ensures
        spec_common_unique(first, lists).no_duplicates(),
        forall|x: T| #[trigger] spec_common_unique(first, lists).contains(x) == (first.contains(x)
            && in_all_others(lists, x)),
    decreases first.len(),
{
    if first.len() > 0 {
        let rest = spec_common_unique(first.drop_last(), lists);
        lemma_common_unique(first.drop_last(), lists);
        assert forall|x: T| #[trigger] spec_common_unique(first, lists).contains(x) == (first.contains(x)
            && in_all_others(lists, x)) by {
            if first.contains(x) && x != first.last() {
                let k = choose|k: int| 0 <= k < first.len() && first[k] == x;
                assert(first.drop_last()[k] == x);
            }
            if first.drop_last().contains(x) {
                let k = choose|k: int| 0 <= k < first.drop_last().len() && first.drop_last()[k] == x;
                assert(first[k] == x);
            }
            if in_all_others(lists, first.last()) && !rest.contains(first.last()) {
                let r2 = rest.push(first.last());
                if r2.contains(x) {
                    let k = choose|k: int| 0 <= k < r2.len() && r2[k] == x;
                    if k < rest.len() {
                        assert(rest[k] == x);
                    }
                }
                if rest.contains(x) {
                    let k = choose|k: int| 0 <= k < rest.len() && rest[k] == x;
                    assert(r2[k] == x);
                }
                if x == first.last() {
                    assert(r2[rest.len() as int] == x);
                }
            }
            assert(first.len() > 0 ==> first[first.len() - 1] == first.last());
        }
    }
}

/// Whether the vector holds the element.
fn vec_contains<T: PartialEq + Copy>(v: &Vec<T>, x: &T) -> (result: bool)
    requires
        vstd::laws_eq::obeys_concrete_eq::<T>(),
    ensures
        result == v@.contains(*x),
{
    proof {
        reveal(vstd::laws_eq::obeys_concrete_eq);
    }
    let mut i: usize = 0;
    while i < v.len()
        invariant
            vstd::laws_eq::obeys_concrete_eq::<T>(),
            T::obeys_eq_spec(),
            forall|a: T, b: T| (a.eq_spec(&b)) <==> (a == b),
            i <= v@.len(),
            forall|k: int| 0 <= k < i ==> v@[k] != *x,
        decreases v@.len() - i,
    {
        if v[i] == *x {
            return true;
        }
        i = i + 1;
    }
    false
}

/// The elements present in all the lists, each once, in the order of the first list.
pub fn set_intersection<T: PartialEq + Copy>(transformations_per_cell: Vec<Vec<T>>) -> (result: Vec<T>)
    requires
        vstd::laws_eq::obeys_concrete_eq::<T>(),
    ensures
        result@ == spec_set_intersection(transformations_per_cell@.map_values(|v: Vec<T>| v@)),
{
    let ghost lists = transformations_per_cell@.map_values(|v: Vec<T>| v@);
    if transformations_per_cell.len() == 0 {
        return Vec::new();
    }
    let first = &transformations_per_cell[0];
    let mut unique: Vec<T> = Vec::new();
    let mut i: usize = 0;
    while i < first.len()
        invariant
            vstd::laws_eq::obeys_concrete_eq::<T>(),
            lists == transformations_per_cell@.map_values(|v: Vec<T>| v@),
            transformations_per_cell@.len() > 0,
            first@ == lists[0],
            i <= first@.len(),
            unique@ == spec_common_unique(first@.take(i as int), lists),
        decreases first@.len() - i,
    {
        let x = first[i];
        let mut present = true;
        let mut k: usize = 1;
        while k < transformations_per_cell.len()
            invariant
                vstd::laws_eq::obeys_concrete_eq::<T>(),
                lists == transformations_per_cell@.map_values(|v: Vec<T>| v@),
                1 <= k <= transformations_per_cell@.len(),
                present == forall|j: int| 1 <= j < k ==> #[trigger] lists[j].contains(x),
            decreases transformations_per_cell@.len() - k,
        {
            assert(lists[k as int] == transformations_per_cell@[k as int]@);
            if !vec_contains(&transformations_per_cell[k], &x) {
                present = false;
            }
            k = k + 1;
        }
        proof {
            assert(first@.take(i + 1).drop_last() =~= first@.take(i as int));
            assert(first@.take(i + 1).last() == x);
        }
        if present && !vec_contains(&unique, &x) {
            unique.push(x);
        }
        i = i + 1;
    }
    assert(first@.take(first@.len() as int) =~= first@);
    unique
}

/// Tiles that can be built anywhere, given whether a solar panel would get light there.
pub open spec fn spec_machines(solar: bool) -> Seq<TileType> {
    seq![TileType::MachineAirCleaner, TileType::Wire, TileType::MachineStorage] + if solar {
        seq![TileType::MachineSolarPanel]
    } else {
        Seq::empty()
    }
}

/// Tiles that can replace a tile of the given type, besides the machines.
pub open spec fn spec_extra_tiles(tile: TileType) -> Seq<TileType> {
    match tile {
        TileType::Unset => Seq::empty(),
        TileType::WallRock | TileType::WallDirt | TileType::FloorRock => seq![TileType::TreeHealthy],
        TileType::FloorDirt | TileType::Stairs => seq![TileType::FloorRock, TileType::TreeHealthy],
        TileType::Air => seq![TileType::WallRock, TileType::TreeHealthy],
        TileType::Wire | TileType::MachineAssembler | TileType::MachineAirCleaner
        | TileType::MachineDrill | TileType::MachineSolarPanel | TileType::MachineStorage
        | TileType::MachineShip => seq![TileType::WallRock, TileType::TreeHealthy],
        TileType::TreeHealthy | TileType::TreeSparse | TileType::TreeDying | TileType::TreeDead => seq![
            TileType::WallRock,
        ],
    }
}

/// Every tile a cell of type `tile` may become, in the order they are offered: the machines,
/// the tile-specific ones, the tile itself, and air (unless it is air or the ship).
pub open spec fn spec_allowed_tiles(tile: TileType, solar: bool) -> Seq<TileType> {
    spec_machines(solar) + spec_extra_tiles(tile) + seq![tile] + if tile != TileType::Air && tile
        != TileType::MachineShip {
        seq![TileType::Air]
    } else {
        Seq::empty()
    }
}

pub open spec fn spec_allowed_transformations_of_cell(tile: TileType, solar: bool) -> Seq<Transformation> {
    spec_allowed_tiles(tile, solar).map_values(|t: TileType| Transformation::spec_to(t))
}

/// Whether the `levels` cells above `idx` all have the `expected` type, not looking past the
/// top of the map.
pub open spec fn spec_column_above_is(
    m: Map<CellIndex, Cell>,
    max_y: int,
    expected: TileType,
    idx: CellIndex,
    levels: int,
) -> bool
    decreases levels,
{
    if levels <= 0 {
        true
    } else if idx.y + 1 > max_y {
        true
    } else {
        let next = CellIndex { y: (idx.y + 1) as i32, ..idx };
        if m[next].tile_type != expected {
            false
        } else {
            spec_column_above_is(m, max_y, expected, next, levels - 1)
        }
    }
}

/// Whether looking up the column (as `spec_column_above_is` does) only reads cells that are in
/// the map and never goes past `i32::MAX`.
pub open spec fn spec_column_readable(
    m: Map<CellIndex, Cell>,
    max_y: int,
    expected: TileType,
    idx: CellIndex,
    levels: int,
) -> bool
    decreases levels,
{
    if levels <= 0 {
        true
    } else if idx.y == i32::MAX {
        false
    } else if idx.y + 1 > max_y {
        true
    } else {
        let next = CellIndex { y: (idx.y + 1) as i32, ..idx };
        m.dom().contains(next) && (m[next].tile_type != expected || spec_column_readable(
            m,
            max_y,
            expected,
            next,
            levels - 1,
        ))
    }
}

/// Whether the `levels` cells above `cell_index` are all of type `expected`. Above the top of
/// the map counts as matching.
pub fn column_above_is(expected_tile: TileType, levels: i32, cell_index: CellIndex, map: &WorldMap) -> (result: bool)
    requires
        map.wf(),
        spec_column_readable(map@, map.spec_max_cell().y as int, expected_tile, cell_index, levels as int),
    ensures
        result == spec_column_above_is(map@, map.spec_max_cell().y as int, expected_tile, cell_index, levels as int),
{
    let max_height = map.max_cell().y;
    let mut idx = cell_index;
    let mut remaining = levels;
    while remaining > 0
        invariant
            map.wf(),
            max_height == map.spec_max_cell().y,
            spec_column_readable(map@, max_height as int, expected_tile, idx, remaining as int),
            spec_column_above_is(map@, max_height as int, expected_tile, cell_index, levels as int)
                == spec_column_above_is(map@, max_height as int, expected_tile, idx, remaining as int),
        decreases remaining,
    {
        idx.y = idx.y + 1;
        if idx.y > max_height {
            return true;
        }
        let actual_tile = map.get_cell(idx).tile_type;
        if actual_tile != expected_tile {
            return false;
        }
        remaining = remaining - 1;
    }
    true
}

/// Whether looking up the column (as `column_above_is` does) only reads cells of the map.
pub fn column_readable(expected_tile: TileType, levels: i32, cell_index: CellIndex, map: &WorldMap) -> (result: bool)
    requires
        map.wf(),
    ensures
        result == spec_column_readable(map@, map.spec_max_cell().y as int, expected_tile, cell_index, levels as int),
{
    let max_height = map.max_cell().y;
    let mut idx = cell_index;
    let mut remaining = levels;
    loop
        invariant
            map.wf(),
            max_height == map.spec_max_cell().y,
            spec_column_readable(map@, max_height as int, expected_tile, cell_index, levels as int)
                == spec_column_readable(map@, max_height as int, expected_tile, idx, remaining as int),
        decreases remaining,
    {
        if remaining <= 0 {
            return true;
        }
        if idx.y == i32::MAX {
            return false;
        }
        if idx.y + 1 > max_height {
            return true;
        }
        let next = CellIndex { y: idx.y + 1, ..idx };
        match map.get_cell_optional(next) {
            None => {
                return false;
            },
            Some(cell) => {
                if cell.tile_type != expected_tile {
                    return true;
                }
            },
        }
        idx = next;
        remaining = remaining - 1;
    }
}

/// Whether the cell above can be read.
pub fn above_readable(map: &WorldMap, idx: CellIndex) -> (result: bool)
    requires
        map.wf(),
    ensures
        result == spec_above_readable(map, idx),
{
    if idx.y == i32::MAX {
        false
    } else if idx.y + 1 <= map.max_cell().y {
        map.in_range(CellIndex { y: idx.y + 1, ..idx })
    } else {
        true
    }
}

/// Whether the cell below can be read.
pub fn below_readable(map: &WorldMap, idx: CellIndex) -> (result: bool)
    requires
        map.wf(),
    ensures
        result == spec_below_readable(map, idx),
{
    if idx.y == i32::MIN {
        false
    } else if idx.y - 1 >= map.min_cell().y {
        map.in_range(CellIndex { y: idx.y - 1, ..idx })
    } else {
        true
    }
}

/// Whether `allowed_transformations` can look at these cells: each is in the map, is not
/// `Unset`, and its column up to 20 levels above can be read.
pub fn transformable(cells: &CellSet, map: &WorldMap) -> (result: bool)
    requires
        map.wf(),
        cells.wf(),
    ensures
        result == spec_transformable(map, cells.spec_seq()),
{
    let n = cells.len();
    proof {
        cells.lemma_seq();
    }
    let mut k: usize = 0;
    while k < n
        invariant
            map.wf(),
            cells.wf(),
            n == cells.spec_seq().len(),
            k <= n,
            spec_transformable(map, cells.spec_seq().take(k as int)),
        decreases n - k,
    {
        let c = cells.get(k);
        proof {
            assert(cells.spec_seq().take(k + 1) =~= cells.spec_seq().take(k as int).push(c));
        }
        match map.get_cell_optional(c) {
            None => {
                proof {
                    assert(cells.spec_seq()[k as int] == c);
                }
                return false;
            },
            Some(cell) => {
                if cell.tile_type == TileType::Unset || !column_readable(TileType::Air, 20, c, map) {
                    proof {
                        assert(cells.spec_seq()[k as int] == c);
                    }
                    return false;
                }
            },
        }
        proof {
            assert forall|j: int| 0 <= j < k + 1 implies {
                let d = #[trigger] cells.spec_seq().take(k + 1)[j];
                &&& map@.dom().contains(d)
                &&& map@[d].tile_type != TileType::Unset
                &&& spec_column_readable(map@, map.spec_max_cell().y as int, TileType::Air, d, 20)
            } by {
                if j < k {
                    assert(cells.spec_seq().take(k + 1)[j] == cells.spec_seq().take(k as int)[j]);
                }
            }
        }
        k = k + 1;
    }
    assert(cells.spec_seq().take(n as int) =~= cells.spec_seq());
    true
}

/// Looking one level up only reads the cell above.
pub proof fn lemma_one_level_readable(map: &WorldMap, expected_tile: TileType, idx: CellIndex)
    requires
        spec_above_readable(map, idx),
    ensures
        spec_column_readable(map@, map.spec_max_cell().y as int, expected_tile, idx, 1),
{
    reveal_with_fuel(spec_column_readable, 2);
}

/// Whether the cell right above `cell_index` has type `expected`.
pub fn above_is(expected_tile: TileType, cell_index: CellIndex, map: &WorldMap) -> (result: bool)
    requires
        map.wf(),
        spec_column_readable(map@, map.spec_max_cell().y as int, expected_tile, cell_index, 1),
    ensures
        result == spec_column_above_is(map@, map.spec_max_cell().y as int, expected_tile, cell_index, 1),
{
    column_above_is(expected_tile, 1, cell_index, map)
}

/// The cell above, or `None` above the top of the map.
pub open spec fn spec_above(m: Map<CellIndex, Cell>, max_y: int, idx: CellIndex) -> Option<Cell> {
    if idx.y + 1 > max_y {
        None
    } else {
        Some(m[CellIndex { y: (idx.y + 1) as i32, ..idx }])
    }
}

/// The cell below, or `None` below the bottom of the map.
pub open spec fn spec_below(m: Map<CellIndex, Cell>, min_y: int, idx: CellIndex) -> Option<Cell> {
    if idx.y - 1 < min_y {
        None
    } else {
        Some(m[CellIndex { y: (idx.y - 1) as i32, ..idx }])
    }
}

/// Whether the cell above can be read: it is in the map, or above its top.
pub open spec fn spec_above_readable(map: &WorldMap, idx: CellIndex) -> bool {
    idx.y < i32::MAX && (idx.y + 1 <= map.spec_max_cell().y ==> map@.dom().contains(
        CellIndex { y: (idx.y + 1) as i32, ..idx },
    ))
}

/// Whether the cell below can be read: it is in the map, or below its bottom.
pub open spec fn spec_below_readable(map: &WorldMap, idx: CellIndex) -> bool {
    idx.y > i32::MIN && (idx.y - 1 >= map.spec_min_cell().y ==> map@.dom().contains(
        CellIndex { y: (idx.y - 1) as i32, ..idx },
    ))
}

/// Whether the tile above satisfies the predicate. Above the top of the map counts as
/// satisfying it.
pub fn above(predicate: impl Fn(TileType) -> bool, cell_index: CellIndex, map: &WorldMap) -> (result: bool)
    requires
        map.wf(),
        spec_above_readable(map, cell_index),
        forall|t: TileType| predicate.requires((t,)),
    ensures
        match spec_above(map@, map.spec_max_cell().y as int, cell_index) {
            None => result,
            Some(c) => predicate.ensures((c.tile_type,), result),
        },
{
    let neighbour = CellIndex { x: cell_index.x, y: cell_index.y + 1, z: cell_index.z };
    if neighbour.y > map.max_cell().y {
        true
    } else {
        predicate(map.get_cell(neighbour).tile_type)
    }
}

/// Whether the tile below satisfies the predicate. Below the bottom of the map counts as
/// satisfying it.
pub fn below(predicate: impl Fn(TileType) -> bool, cell_index: CellIndex, map: &WorldMap) -> (result: bool)
    requires
        map.wf(),
        spec_below_readable(map, cell_index),
        forall|t: TileType| predicate.requires((t,)),
    ensures
        match spec_below(map@, map.spec_min_cell().y as int, cell_index) {
            None => result,
            Some(c) => predicate.ensures((c.tile_type,), result),
        },
{
    let neighbour = CellIndex { x: cell_index.x, y: cell_index.y - 1, z: cell_index.z };
    if neighbour.y < map.min_cell().y {
        true
    } else {
        predicate(map.get_cell(neighbour).tile_type)
    }
}

/// Whether the tile below has type `expected`. Below the bottom of the map counts as matching.
pub fn below_is(expected_tile: TileType, cell_index: CellIndex, map: &WorldMap) -> (result: bool)
    requires
        map.wf(),
        spec_below_readable(map, cell_index),
    ensures
        match spec_below(map@, map.spec_min_cell().y as int, cell_index) {
            None => result,
            Some(c) => result == (c.tile_type == expected_tile),
        },
{
    let neighbour = CellIndex { x: cell_index.x, y: cell_index.y - 1, z: cell_index.z };
    if neighbour.y < map.min_cell().y {
        true
    } else {
        map.get_cell(neighbour).tile_type == expected_tile
    }
}

/// Whether a solar panel at `cell_index` would have only air above it for enough levels.
pub fn solar_allowed(cell_index: &CellIndex, map: &WorldMap) -> (result: bool)
    requires
        map.wf(),
        spec_column_readable(map@, map.spec_max_cell().y as int, TileType::Air, *cell_index, 20),
    ensures
        result == spec_column_above_is(map@, map.spec_max_cell().y as int, TileType::Air, *cell_index, 20),
{
    column_above_is(TileType::Air, AIR_LEVELS_FOR_ALLOWING_SOLAR, *cell_index, map)
}

/// The transformations that a cell may undergo, in the order they are offered.
pub fn allowed_transformations_of_cell(cell: &Cell, cell_index: &CellIndex, map: &WorldMap) -> (result: Vec<Transformation>)
    requires
        map.wf(),
        cell.tile_type != TileType::Unset,
        spec_column_readable(map@, map.spec_max_cell().y as int, TileType::Air, *cell_index, 20),
    ensures
        result@ == spec_allowed_transformations_of_cell(
            cell.tile_type,
            spec_column_above_is(map@, map.spec_max_cell().y as int, TileType::Air, *cell_index, 20),
        ),
{
    let solar = solar_allowed(cell_index, map);
    let mut new_tiles: Vec<TileType> = Vec::new();
    new_tiles.push(TileType::MachineAirCleaner);
    new_tiles.push(TileType::Wire);
    new_tiles.push(TileType::MachineStorage);
    if solar {
        new_tiles.push(TileType::MachineSolarPanel);
    }
    let ghost machines = new_tiles@;
    assert(machines =~= spec_machines(solar));
    match cell.tile_type {
        TileType::Unset => {},
        TileType::WallRock | TileType::WallDirt | TileType::FloorRock => {
            new_tiles.push(TileType::TreeHealthy);
        },
        TileType::FloorDirt | TileType::Stairs => {
            new_tiles.push(TileType::FloorRock);
            new_tiles.push(TileType::TreeHealthy);
        },
        TileType::Air => {
            new_tiles.push(TileType::WallRock);
            new_tiles.push(TileType::TreeHealthy);
        },
        TileType::Wire | TileType::MachineAssembler | TileType::MachineAirCleaner
        | TileType::MachineDrill | TileType::MachineSolarPanel | TileType::MachineStorage
        | TileType::MachineShip => {
            new_tiles.push(TileType::WallRock);
            new_tiles.push(TileType::TreeHealthy);
        },
        TileType::TreeHealthy | TileType::TreeSparse | TileType::TreeDying | TileType::TreeDead => {
            new_tiles.push(TileType::WallRock);
        },
    }
    assert(new_tiles@ =~= spec_machines(solar) + spec_extra_tiles(cell.tile_type));
    new_tiles.push(cell.tile_type);
    if cell.tile_type != TileType::Air && cell.tile_type != TileType::MachineShip {
        new_tiles.push(TileType::Air);
    }
    assert(new_tiles@ =~= spec_allowed_tiles(cell.tile_type, solar));
    let mut result: Vec<Transformation> = Vec::new();
    let mut i: usize = 0;
    while i < new_tiles.len()
        invariant
            i <= new_tiles@.len(),
            result@ == new_tiles@.take(i as int).map_values(|t: TileType| Transformation::spec_to(t)),
        decreases new_tiles@.len() - i,
    {
        result.push(Transformation::to(new_tiles[i]));
        i = i + 1;
        assert(result@ =~= new_tiles@.take(i as int).map_values(|t: TileType| Transformation::spec_to(t)));
    }
    assert(new_tiles@.take(new_tiles@.len() as int) =~= new_tiles@);
    result
}

/// Keeps the transformations that would not turn a cell into what it already is, when all the
/// cells are of one type.
pub open spec fn spec_remove_identity(tiles: Set<TileType>, common: Seq<Transformation>) -> Seq<Transformation> {
    if tiles.len() == 1 {
        spec_without_tiles(common, tiles)
    } else {
        common
    }
}

/// The transformations whose new tile is not in `tiles`, in order.
pub open spec fn spec_without_tiles(common: Seq<Transformation>, tiles: Set<TileType>) -> Seq<Transformation>
    decreases common.len(),
{
    if common.len() == 0 {
        common
    } else {
        let rest = spec_without_tiles(common.drop_last(), tiles);
        if tiles.contains(common.last().new_tile_type) {
            rest
        } else {
            rest.push(common.last())
        }
    }
}

/// When all the selected cells have one type, turning them into that type is no change at all,
/// so that transformation is not offered.
pub fn remove_identity_if_only_one_type(distinct_tiles: &Vec<TileType>, common: Vec<Transformation>) -> (result: Vec<Transformation>)
    requires
        distinct_tiles@.no_duplicates(),
    ensures
        result@ == spec_remove_identity(distinct_tiles@.to_set(), common@),
{
    proof {
        distinct_tiles@.unique_seq_to_set();
    }
    if distinct_tiles.len() == 1 {
        let only_tile_selected = distinct_tiles[0];
        assert(distinct_tiles@.to_set() =~= set![only_tile_selected]) by {
            assert forall|t: TileType| distinct_tiles@.contains(t) == (t == only_tile_selected) by {
                if distinct_tiles@.contains(t) {
                    let k = choose|k: int| 0 <= k < distinct_tiles@.len() && distinct_tiles@[k] == t;
                }
                if t == only_tile_selected {
                    assert(distinct_tiles@[0] == t);
                }
            }
        }
        let mut result: Vec<Transformation> = Vec::new();
        let mut i: usize = 0;
        while i < common.len()
            invariant
                i <= common@.len(),
                distinct_tiles@.to_set() == set![only_tile_selected],
                result@ == spec_without_tiles(common@.take(i as int), distinct_tiles@.to_set()),
            decreases common@.len() - i,
        {
            let t = common[i];
            proof {
                assert(common@.take(i + 1).drop_last() =~= common@.take(i as int));
                assert(common@.take(i + 1).last() == t);
            }
            if t.new_tile_type != only_tile_selected {
                result.push(t);
            }
            i = i + 1;
        }
        assert(common@.take(common@.len() as int) =~= common@);
        result
    } else {
        common
    }
}

/// The transformations allowed on all the given cells: those allowed on each of them, without
/// the one that changes nothing when all the cells have the same type.
pub open spec fn spec_allowed_transformations(m: Map<CellIndex, Cell>, max_y: int, cells: Seq<CellIndex>) -> Seq<Transformation> {
    let lists = cells.map_values(
        |c: CellIndex|
            spec_allowed_transformations_of_cell(
                m[c].tile_type,
                spec_column_above_is(m, max_y, TileType::Air, c, 20),
            ),
    );
    spec_remove_identity(
        cells.map_values(|c: CellIndex| m[c].tile_type).to_set(),
        spec_set_intersection(lists),
    )
}

/// Dropping the transformations into `tiles` keeps exactly those into other tiles.
pub proof fn lemma_without_tiles_contains(common: Seq<Transformation>, tiles: Set<TileType>, x: Transformation)
    ensures
        spec_without_tiles(common, tiles).contains(x) == (common.contains(x) && !tiles.contains(
            x.new_tile_type,
        )),
    decreases common.len(),
{
    if common.len() > 0 {
        let rest = spec_without_tiles(common.drop_last(), tiles);
        lemma_without_tiles_contains(common.drop_last(), tiles, x);
        if common.contains(x) && x != common.last() {
            let k = choose|k: int| 0 <= k < common.len() && common[k] == x;
            assert(common.drop_last()[k] == x);
        }
        if common.drop_last().contains(x) {
            let k = choose|k: int| 0 <= k < common.drop_last().len() && common.drop_last()[k] == x;
            assert(common[k] == x);
        }
        if !tiles.contains(common.last().new_tile_type) {
            let r2 = rest.push(common.last());
            if r2.contains(x) {
                let k = choose|k: int| 0 <= k < r2.len() && r2[k] == x;
                if k < rest.len() {
                    assert(rest[k] == x);
                }
            }
            if rest.contains(x) {
                let k = choose|k: int| 0 <= k < rest.len() && rest[k] == x;
                assert(r2[k] == x);
            }
            assert(r2[rest.len() as int] == common.last());
        }
        assert(common[common.len() - 1] == common.last());
    }
}

/// A tree, whatever its health, can always be turned into a rock wall, whether or not a solar
/// panel could be built there.
pub proof fn lemma_tree_can_become_rock(tile: TileType, solar: bool)
    requires
        spec_is_tree(tile),
    ensures
        spec_allowed_transformations_of_cell(tile, solar).contains(
            Transformation::spec_to(TileType::WallRock),
        ),
{
    let tiles = spec_allowed_tiles(tile, solar);
    let i = spec_machines(solar).len() as int;
    assert(tiles[i] == TileType::WallRock);
    let ts = spec_allowed_transformations_of_cell(tile, solar);
    assert(ts[i] == Transformation::spec_to(TileType::WallRock));
}

/// A selection made only of trees is always offered to become rock walls.
pub proof fn lemma_trees_selection_offers_rock(m: Map<CellIndex, Cell>, max_y: int, cells: Seq<CellIndex>)
    requires
        cells.len() > 0,
        forall|k: int| 0 <= k < cells.len() ==> spec_is_tree(#[trigger] m[cells[k]].tile_type),
    ensures
        spec_allowed_transformations(m, max_y, cells).contains(
            Transformation::spec_to(TileType::WallRock),
        ),
{
    let rock = Transformation::spec_to(TileType::WallRock);
    let lists = cells.map_values(
        |c: CellIndex|
            spec_allowed_transformations_of_cell(
                m[c].tile_type,
                spec_column_above_is(m, max_y, TileType::Air, c, 20),
            ),
    );
    assert forall|k: int| 0 <= k < lists.len() implies #[trigger] lists[k].contains(rock) by {
        assert(spec_is_tree(m[cells[k]].tile_type));
        lemma_tree_can_become_rock(
            m[cells[k]].tile_type,
            spec_column_above_is(m, max_y, TileType::Air, cells[k], 20),
        );
    }
    lemma_set_intersection(lists);
    let common = spec_set_intersection(lists);
    assert(common.contains(rock));
    let tiles = cells.map_values(|c: CellIndex| m[c].tile_type).to_set();
    assert(!tiles.contains(TileType::WallRock)) by {
        if tiles.contains(TileType::WallRock) {
            let ts = cells.map_values(|c: CellIndex| m[c].tile_type);
            let k = choose|k: int| 0 <= k < ts.len() && ts[k] == TileType::WallRock;
            assert(spec_is_tree(m[cells[k]].tile_type));
        }
    }
    lemma_without_tiles_contains(common, tiles, rock);
}

/// Whether the transformations of each of these cells can be computed: they are in the map,
/// set, and what is above them can be looked at.
pub open spec fn spec_transformable(map: &WorldMap, cells: Seq<CellIndex>) -> bool {
    forall|k: int|
        0 <= k < cells.len() ==> {
            let c = #[trigger] cells[k];
            &&& map@.dom().contains(c)
            &&& map@[c].tile_type != TileType::Unset
            &&& spec_column_readable(map@, map.spec_max_cell().y as int, TileType::Air, c, 20)
        }
}

/// The transformations that can be applied to all the selected cells at once.
pub fn allowed_transformations(cells: &CellSet, map: &WorldMap) -> (result: Vec<Transformation>)
    requires
        map.wf(),
        cells.wf(),
        spec_transformable(map, cells.spec_seq()),
    ensures
        result@ == spec_allowed_transformations(map@, map.spec_max_cell().y as int, cells.spec_seq()),
{
    let ghost seq = cells.spec_seq();
    let ghost max_y = map.spec_max_cell().y as int;
    let ghost m = map@;
    let mut allowed: Vec<Vec<Transformation>> = Vec::new();
    let mut distinct_tiles: Vec<TileType> = Vec::new();
    let n = cells.len();
    proof {
        cells.lemma_seq();
    }
    let mut i: usize = 0;
    while i < n
        invariant
            map.wf(),
            cells.wf(),
            seq == cells.spec_seq(),
            n == seq.len(),
            m == map@,
            max_y == map.spec_max_cell().y,
            spec_transformable(map, seq),
            i <= n,
            allowed@.len() == i,
            forall|k: int| 0 <= k < i ==> (#[trigger] allowed@[k])@ == spec_allowed_transformations_of_cell(
                m[seq[k]].tile_type,
                spec_column_above_is(m, max_y, TileType::Air, seq[k], 20),
            ),
            distinct_tiles@.no_duplicates(),
            distinct_tiles@.to_set() == seq.take(i as int).map_values(|c: CellIndex| m[c].tile_type).to_set(),
        decreases n - i,
    {
        let cell_index = cells.get(i);
        let cell = map.get_cell(cell_index);
        let tile = cell.tile_type;
        let ghost before_tiles = distinct_tiles@;
        let mut known = false;
        let mut k: usize = 0;
        while k < distinct_tiles.len()
            invariant
                k <= distinct_tiles@.len(),
                known == exists|j: int| 0 <= j < k && distinct_tiles@[j] == tile,
            decreases distinct_tiles@.len() - k,
        {
            if distinct_tiles[k] == tile {
                known = true;
            }
            k = k + 1;
        }
        if !known {
            distinct_tiles.push(tile);
        }
        proof {
            let tiles_of = |c: CellIndex| m[c].tile_type;
            assert(seq.take(i + 1).map_values(tiles_of) =~= seq.take(i as int).map_values(tiles_of) + seq![tile]);
            Seq::lemma_to_set_insert_commutes(seq.take(i as int).map_values(tiles_of), tile);
            if !known {
                assert(distinct_tiles@ =~= before_tiles + seq![tile]);
                Seq::lemma_to_set_insert_commutes(before_tiles, tile);
            } else {
                let j = choose|j: int| 0 <= j < before_tiles.len() && before_tiles[j] == tile;
                assert(before_tiles.to_set().contains(tile));
                assert(before_tiles.to_set().insert(tile) =~= before_tiles.to_set());
            }
        }
        allowed.push(allowed_transformations_of_cell(cell, &cell_index, map));
        i = i + 1;
    }
    proof {
        assert(seq.take(n as int) =~= seq);
        let lists = seq.map_values(
            |c: CellIndex|
                spec_allowed_transformations_of_cell(
                    m[c].tile_type,
                    spec_column_above_is(m, max_y, TileType::Air, c, 20),
                ),
        );
        assert(allowed@.map_values(|v: Vec<Transformation>| v@) =~= lists);
    }
    proof {
        reveal(vstd::laws_eq::obeys_concrete_eq);
    }
    let common = set_intersection(allowed);
    remove_identity_if_only_one_type(&distinct_tiles, common)
}

} // verus!
