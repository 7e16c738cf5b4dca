use vstd::prelude::*;
use crate::world::world_map::cell::{is_networkable, spec_is_networkable, TileType};
use crate::world::world_map::cell_index::{fits_i32, CellIndex};
use crate::world::world_map::cell_set::CellSet;
use crate::world::world_map::transform_cells::TransformationFailure;
use crate::screen::gui::format_units::{format_unit, spec_format_unit};

verus! {

/// A machine (or wire) of a network, and where it stands.
#[derive(Copy, Clone, Debug, PartialEq, Eq, Structural)]
pub struct Node {
    pub position: CellIndex,
    pub tile: TileType,
}

impl Node {
    pub fn new(position: CellIndex, tile: TileType) -> (result: Node)
        ensures
            result == (Node { position, tile }),
    {
        Node { position, tile }
    }
}

/// What came of replacing the machine at a position of a network.
#[derive(Copy, Clone, Debug, PartialEq, Eq, Structural)]
pub enum Replacement {
    /// The machine was replaced.
    Regular,
    SplitNetwork,
    Forbidden,
    NotEnoughMaterial,
    NotEnoughStorage,
    /// The network has no machine at that position.
    NotPresent,
}

/// What came of adding a machine to a network.
#[derive(Copy, Clone, Debug, PartialEq, Eq, Structural)]
pub enum Addition {
    /// The machine was added.
    Added,
    NotEnoughMaterial,
    NotEnoughStorage,
}

/// Mass, in grams.
pub type Grams = i64;

/// Power, in watts.
pub type Watts = i64;

/// Volume, in liters.
pub type Liters = i64;

pub const POWER_PER_SOLAR_PANEL: Watts = 1000;

pub const POWER_CONSUMED_PER_MACHINE: Watts = POWER_PER_SOLAR_PANEL;

pub const AIR_CLEANED_PER_CLEANER_PER_UPDATE: Liters = 1;

pub const MATERIAL_NEEDED_FOR_A_MACHINE: Grams = 100_000;

pub const MAX_STORAGE_PER_SPACESHIP: Grams = 1_000_000;

pub const SPACESHIP_INITIAL_STORAGE: Grams = 500_000;

pub const MAX_STORAGE_PER_MACHINE: Grams = 1_000_000;

pub const MAX_STORAGE_PER_STORAGE_MACHINE: Grams = 10_000_000;

pub const WALL_WEIGHT: Grams = 10_000_000;

/// Most nodes a network can hold for its accounts to fit in 64 bits.
pub const MAX_NETWORK_NODES: usize = 1_000_000_000;

/// Largest amount of material, stored or owed, that a network's accounts hold.
pub const MAX_STORED_AMOUNT: Grams = 1_000_000_000_000_000_000;

/// Machines (and wires) joined by adjacency, with the material they have stored.
#[derive(Debug)]
pub struct Network {
    pub nodes: Vec<Node>,
    pub stored_resources: Grams,
}

/// What a network produced in one update.
pub struct NetworkUpdate {
    pub air_cleaned: Liters,
}

/// A network as the contracts see it: its nodes in order and the material it has stored.
pub struct NetworkView {
    pub nodes: Seq<Node>,
    pub stored_resources: int,
}

impl View for Network {
    type V = NetworkView;

    open spec fn view(&self) -> NetworkView {
        NetworkView { nodes: self.nodes@, stored_resources: self.stored_resources as int }
    }
}

/// Whether the game knows how much material a tile is made of and can store.
pub open spec fn spec_has_amounts(tile: TileType) -> bool {
    !(tile == TileType::Unset || tile == TileType::FloorRock || tile == TileType::FloorDirt
        || tile == TileType::Stairs)
}

/// Whether the game knows how much material a tile is made of and can store.
pub fn has_amounts(tile: TileType) -> (result: bool)
    ensures
        result == spec_has_amounts(tile),
{
    !(tile == TileType::Unset || tile == TileType::FloorRock || tile == TileType::FloorDirt
        || tile == TileType::Stairs)
}

/// The material that building a tile takes, and that taking it apart gives back.
pub open spec fn spec_material_composition(tile: TileType) -> int {
    match tile {
        TileType::WallRock | TileType::WallDirt => WALL_WEIGHT as int,
        TileType::Air | TileType::Unset | TileType::FloorRock | TileType::FloorDirt
        | TileType::Stairs => 0,
        _ => MATERIAL_NEEDED_FOR_A_MACHINE as int,
    }
}

/// The material a tile can store.
pub open spec fn spec_storage_capacity(tile: TileType) -> int {
    match tile {
        TileType::Wire | TileType::MachineAssembler | TileType::MachineAirCleaner
        | TileType::MachineDrill | TileType::MachineSolarPanel => MAX_STORAGE_PER_MACHINE as int,
        TileType::MachineShip => MAX_STORAGE_PER_SPACESHIP as int,
        TileType::MachineStorage => MAX_STORAGE_PER_STORAGE_MACHINE as int,
        _ => 0,
    }
}

/// Whether `k` is the place of the first node that stands on `cell`.
pub open spec fn first_at(nodes: Seq<Node>, cell: CellIndex, k: int) -> bool {
    &&& 0 <= k < nodes.len()
    &&& nodes[k].position == cell
    &&& forall|i: int| 0 <= i < k ==> #[trigger] nodes[i].position != cell
}

/// The place of the first node that stands on `cell`, or the number of nodes if none does.
pub open spec fn position_index(nodes: Seq<Node>, cell: CellIndex) -> int {
    if exists|k: int| first_at(nodes, cell, k) {
        choose|k: int| first_at(nodes, cell, k)
    } else {
        nodes.len() as int
    }
}

/// Only one place is the first on a cell.
pub proof fn lemma_first_at_unique(nodes: Seq<Node>, cell: CellIndex, k: int)
    requires
        first_at(nodes, cell, k),
    ensures
        position_index(nodes, cell) == k,
{
    let j = position_index(nodes, cell);
    assert(first_at(nodes, cell, j));
    if j < k {
        assert(nodes[j].position != cell);
    } else if k < j {
        assert(nodes[k].position != cell);
    }
}

/// With no node on the cell, its place is past the last node.
pub proof fn lemma_position_index_absent(nodes: Seq<Node>, cell: CellIndex)
    requires
        forall|i: int| 0 <= i < nodes.len() ==> #[trigger] nodes[i].position != cell,
    ensures
        position_index(nodes, cell) == nodes.len(),
{
    assert(!exists|k: int| first_at(nodes, cell, k)) by {
        if exists|k: int| first_at(nodes, cell, k) {
            let k = choose|k: int| first_at(nodes, cell, k);
            assert(nodes[k].position != cell);
        }
    }
}

impl NetworkView {
    /// Number of nodes whose tile is one of `tiles`.
    pub open spec fn count(self, tiles: Seq<TileType>) -> int {
        spec_count_tiles(self.nodes, tiles) as int
    }

    /// The material the network can store: by storage machine, by ship and by other node.
    pub open spec fn storage_capacity(self) -> int {
        let storage = self.count(seq![TileType::MachineStorage]);
        let ships = self.count(seq![TileType::MachineShip]);
        storage * MAX_STORAGE_PER_STORAGE_MACHINE + ships * MAX_STORAGE_PER_SPACESHIP + (
        self.nodes.len() - storage - ships) * MAX_STORAGE_PER_MACHINE
    }

    /// The power the solar panels generate.
    pub open spec fn power_generated(self) -> int {
        self.count(seq![TileType::MachineSolarPanel]) * POWER_PER_SOLAR_PANEL
    }

    /// The power the machines consume.
    pub open spec fn power_required(self) -> int {
        self.count(
            seq![
                TileType::MachineDrill,
                TileType::MachineAssembler,
                TileType::MachineAirCleaner,
                TileType::MachineStorage,
            ],
        ) * POWER_CONSUMED_PER_MACHINE
    }

    pub open spec fn power_satisfied(self) -> bool {
        self.power_generated() >= self.power_required()
    }

    /// The air the cleaners clean in one update, if they have the power they need.
    pub open spec fn air_cleaned_speed(self) -> int {
        if self.power_satisfied() {
            self.count(seq![TileType::MachineAirCleaner]) * AIR_CLEANED_PER_CLEANER_PER_UPDATE
        } else {
            0
        }
    }

    /// The material stored after `old_tile` gives way to `new_machine` (a new ship brings
    /// its own).
    pub open spec fn future_storage(self, new_machine: TileType, old_tile: TileType) -> int {
        self.stored_resources + spec_material_composition(old_tile) - spec_material_composition(
            new_machine,
        ) + if new_machine == TileType::MachineShip {
            SPACESHIP_INITIAL_STORAGE as int
        } else {
            0
        }
    }

    /// The capacity after `old_tile` gives way to `new_machine`.
    pub open spec fn future_capacity(self, new_machine: TileType, old_tile: TileType) -> int {
        self.storage_capacity() + spec_storage_capacity(new_machine) - spec_storage_capacity(
            old_tile,
        )
    }

    /// The network after adding a node, spending its material.
    pub open spec fn added(self, node: Node) -> NetworkView {
        NetworkView {
            nodes: if spec_is_networkable(node.tile) {
                self.nodes.push(node)
            } else {
                self.nodes
            },
            stored_resources: self.stored_resources - spec_material_composition(node.tile),
        }
    }

    /// Building `node` where `old_tile` was, if the material and the room for it suffice.
    pub open spec fn tried_add(self, node: Node, old_tile: TileType) -> (NetworkView, Addition) {
        let storage = self.future_storage(node.tile, old_tile);
        if storage < 0 {
            (self, Addition::NotEnoughMaterial)
        } else if storage > self.future_capacity(node.tile, old_tile) {
            (self, Addition::NotEnoughStorage)
        } else {
            (
                NetworkView {
                    stored_resources: self.added(node).stored_resources
                        + spec_material_composition(old_tile),
                    ..self.added(node)
                },
                Addition::Added,
            )
        }
    }

    /// Putting `new_machine` in place of the first node on `cell`: taking a machine away
    /// (when `new_machine` is no machine) must leave the rest connected, the ship stays, and
    /// the material and the room for it must suffice.
    pub open spec fn replaced(self, cell: CellIndex, new_machine: TileType) -> (
        NetworkView,
        Replacement,
    ) {
        let k = position_index(self.nodes, cell);
        if k >= self.nodes.len() {
            (self, Replacement::NotPresent)
        } else {
            let old_tile = self.nodes[k].tile;
            let storage = self.future_storage(new_machine, old_tile);
            let stored = self.stored_resources + spec_material_composition(old_tile)
                - spec_material_composition(new_machine);
            if old_tile == TileType::MachineShip {
                (self, Replacement::Forbidden)
            } else if storage > self.future_capacity(new_machine, old_tile) {
                (self, Replacement::NotEnoughStorage)
            } else if storage < 0 {
                (self, Replacement::NotEnoughMaterial)
            } else if spec_is_networkable(new_machine) {
                (
                    NetworkView {
                        nodes: self.nodes.update(k, Node { position: cell, tile: new_machine }),
                        stored_resources: stored,
                    },
                    Replacement::Regular,
                )
            } else {
                let remaining = self.nodes.update(k, self.nodes.last()).drop_last();
                if spec_network_connected(positions_of(remaining)) {
                    (NetworkView { nodes: remaining, stored_resources: stored }, Replacement::Regular)
                } else {
                    (
                        NetworkView { nodes: remaining.push(self.nodes[k]), ..self },
                        Replacement::SplitNetwork,
                    )
                }
            }
        }
    }
}

/// Whether two cells share a face: they differ by one along exactly one axis.
pub open spec fn spec_is_adjacent(a: CellIndex, b: CellIndex) -> bool {
    let dx = a.x - b.x;
    let dy = a.y - b.y;
    let dz = a.z - b.z;
    ||| (dx == 1 || dx == -1) && dy == 0 && dz == 0
    ||| dx == 0 && (dy == 1 || dy == -1) && dz == 0
    ||| dx == 0 && dy == 0 && (dz == 1 || dz == -1)
}

/// Whether two cells share a face.
pub fn is_adjacent(a: CellIndex, b: CellIndex) -> (result: bool)
    ensures
        result == spec_is_adjacent(a, b),
{
    let dx: i64 = a.x as i64 - b.x as i64;
    let dy: i64 = a.y as i64 - b.y as i64;
    let dz: i64 = a.z as i64 - b.z as i64;
    ((dx == 1 || dx == -1) && dy == 0 && dz == 0) || (dx == 0 && (dy == 1 || dy == -1) && dz
        == 0) || (dx == 0 && dy == 0 && (dz == 1 || dz == -1))
}

/// The six steps to the cells that share a face with a cell.
pub open spec fn spec_adjacent_positions() -> Seq<CellIndex> {
    seq![
        CellIndex { x: 1, y: 0, z: 0 },
        CellIndex { x: -1i32, y: 0, z: 0 },
        CellIndex { x: 0, y: 1, z: 0 },
        CellIndex { x: 0, y: -1i32, z: 0 },
        CellIndex { x: 0, y: 0, z: 1 },
        CellIndex { x: 0, y: 0, z: -1i32 },
    ]
}

/// The six steps to the cells that share a face with a cell.
pub fn adjacent_positions() -> (result: [CellIndex; 6])
    ensures
        result@ == spec_adjacent_positions(),
{
    [
        CellIndex { x: 1, y: 0, z: 0 },
        CellIndex { x: -1, y: 0, z: 0 },
        CellIndex { x: 0, y: 1, z: 0 },
        CellIndex { x: 0, y: -1, z: 0 },
        CellIndex { x: 0, y: 0, z: 1 },
        CellIndex { x: 0, y: 0, z: -1 },
    ]
}

/// The six cells that share a face with `a`, in the order of `adjacent_positions`.
pub fn neighbours(a: CellIndex) -> (result: [CellIndex; 6])
    requires
        fits_i32(a.x + 1) && fits_i32(a.x - 1),
        fits_i32(a.y + 1) && fits_i32(a.y - 1),
        fits_i32(a.z + 1) && fits_i32(a.z - 1),
    ensures
        forall|i: int| 0 <= i < 6 ==> Some(#[trigger] result@[i]) == a.offset_spec(
            spec_adjacent_positions()[i].x as int,
            spec_adjacent_positions()[i].y as int,
            spec_adjacent_positions()[i].z as int,
        ),
        forall|i: int| 0 <= i < 6 ==> spec_is_adjacent(a, #[trigger] result@[i]),
{
    [
        CellIndex { x: a.x + 1, y: a.y, z: a.z },
        CellIndex { x: a.x - 1, y: a.y, z: a.z },
        CellIndex { x: a.x, y: a.y + 1, z: a.z },
        CellIndex { x: a.x, y: a.y - 1, z: a.z },
        CellIndex { x: a.x, y: a.y, z: a.z + 1 },
        CellIndex { x: a.x, y: a.y, z: a.z - 1 },
    ]
}

/// Where the nodes stand, in order.
pub open spec fn positions_of(nodes: Seq<Node>) -> Seq<CellIndex> {
    nodes.map_values(|n: Node| n.position)
}

/// Whether the step from the `i`-th to the next node of a path joins adjacent cells.
pub open spec fn step_ok(ps: Seq<CellIndex>, path: Seq<int>, i: int) -> bool {
    spec_is_adjacent(ps[path[i]], ps[path[i + 1]])
}

/// Whether `path` lists nodes (by their place in `ps`), each adjacent to the next.
pub open spec fn spec_is_path(ps: Seq<CellIndex>, path: Seq<int>) -> bool {
    &&& path.len() >= 1
    &&& forall|i: int| 0 <= i < path.len() ==> 0 <= #[trigger] path[i] < ps.len()
    &&& forall|i: int| 0 <= i < path.len() - 1 ==> #[trigger] step_ok(ps, path, i)
}

/// Whether node `k` can be reached from the first node going from node to adjacent node.
pub open spec fn spec_reachable(ps: Seq<CellIndex>, k: int) -> bool {
    exists|path: Seq<int>| #[trigger] spec_is_path(ps, path) && path[0] == 0 && path.last() == k
}

/// Whether every node can be reached from the first, and no two nodes stand on the same cell.
pub open spec fn spec_network_connected(ps: Seq<CellIndex>) -> bool {
    ps.len() == 0 || (ps.no_duplicates() && forall|k: int| 0 <= k < ps.len() ==> #[trigger] spec_reachable(ps, k))
}

/// Whether every node adjacent to cell `q` stands on a cell of `r`.
pub open spec fn spec_closed(ps: Seq<CellIndex>, q: CellIndex, r: Set<CellIndex>) -> bool {
    forall|j: int| 0 <= j < ps.len() && #[trigger] spec_is_adjacent(q, ps[j]) ==> r.contains(ps[j])
}

/// Whether cell `q` is where a node stands that can be reached from the first.
pub open spec fn spec_reached(ps: Seq<CellIndex>, q: CellIndex) -> bool {
    exists|k: int| 0 <= k < ps.len() && ps[k] == q && #[trigger] spec_reachable(ps, k)
}

/// A set that holds the first node's cell and, with each of its cells, the cells of the nodes
/// adjacent to it, holds the cell of every node at the end of a path from the first.
proof fn lemma_path_stays_in_closed_set(ps: Seq<CellIndex>, r: Set<CellIndex>, path: Seq<int>)
    requires
        spec_is_path(ps, path),
        r.contains(ps[path[0]]),
        forall|q: CellIndex| #[trigger] r.contains(q) ==> spec_closed(ps, q, r),
    ensures
        r.contains(ps[path.last()]),
    decreases path.len(),
{
    if path.len() > 1 {
        let prefix = path.drop_last();
        assert forall|i: int| 0 <= i < prefix.len() - 1 implies #[trigger] step_ok(ps, prefix, i) by {
            assert(step_ok(ps, path, i));
        }
        assert(0 <= path[path.len() - 2] < ps.len());
        lemma_path_stays_in_closed_set(ps, r, prefix);
        assert(step_ok(ps, path, path.len() - 2));
        assert(0 <= path[path.len() - 1] < ps.len());
        assert(spec_closed(ps, ps[prefix.last()], r));
    }
}

/// A node adjacent to a reachable node is reachable.
proof fn lemma_extend_reach(ps: Seq<CellIndex>, k: int, j: int)
    requires
        0 <= k < ps.len(),
        0 <= j < ps.len(),
        spec_reachable(ps, k),
        spec_is_adjacent(ps[k], ps[j]),
    ensures
        spec_reachable(ps, j),
{
    let path = choose|path: Seq<int>| #[trigger] spec_is_path(ps, path) && path[0] == 0 && path.last() == k;
    let longer = path.push(j);
    assert forall|i: int| 0 <= i < longer.len() - 1 implies #[trigger] step_ok(ps, longer, i) by {
        if i < path.len() - 1 {
            assert(step_ok(ps, path, i));
        }
    }
    assert(spec_is_path(ps, longer));
}

/// Number of the nodes whose tile is one of `tiles`.
pub open spec fn spec_count_tiles(nodes: Seq<Node>, tiles: Seq<TileType>) -> nat
    decreases nodes.len(),
{
    if nodes.len() == 0 {
        0
    } else {
        spec_count_tiles(nodes.drop_last(), tiles) + if tiles.contains(nodes.last().tile) {
            1nat
        } else {
            0nat
        }
    }
}

/// No more nodes have a tile among `tiles` than there are nodes.
pub proof fn lemma_count_tiles_bounded(nodes: Seq<Node>, tiles: Seq<TileType>)
    ensures
        spec_count_tiles(nodes, tiles) <= nodes.len(),
    decreases nodes.len(),
{
    if nodes.len() > 0 {
        lemma_count_tiles_bounded(nodes.drop_last(), tiles);
    }
}

/// The nodes that are machines or wires, in order.
pub open spec fn networkable_nodes(nodes: Seq<Node>) -> Seq<Node> {
    nodes.filter(|n: Node| spec_is_networkable(n.tile))
}

/// The cells adjacent to `p`, where their coordinates fit.
spec fn spec_candidates(p: CellIndex) -> Set<CellIndex> {
    set![
        CellIndex { x: (p.x + 1) as i32, y: p.y, z: p.z },
        CellIndex { x: (p.x - 1) as i32, y: p.y, z: p.z },
        CellIndex { x: p.x, y: (p.y + 1) as i32, z: p.z },
        CellIndex { x: p.x, y: (p.y - 1) as i32, z: p.z },
        CellIndex { x: p.x, y: p.y, z: (p.z + 1) as i32 },
        CellIndex { x: p.x, y: p.y, z: (p.z - 1) as i32 },
    ]
}

/// A cell has at most six adjacent cells: six of them are all of them.
proof fn lemma_six_adjacent_are_all(p: CellIndex, found: Set<CellIndex>)
    requires
        found.finite(),
        found.len() >= 6,
        forall|q: CellIndex| #[trigger] found.contains(q) ==> spec_is_adjacent(p, q),
    ensures
        forall|q: CellIndex| #[trigger] spec_is_adjacent(p, q) ==> found.contains(q),
{
    let c = spec_candidates(p);
    assert forall|q: CellIndex| spec_is_adjacent(p, q) implies #[trigger] c.contains(q) by {
        if q.x - p.x == 1 {
            assert(q == CellIndex { x: (p.x + 1) as i32, y: p.y, z: p.z });
        } else if q.x - p.x == -1 {
            assert(q == CellIndex { x: (p.x - 1) as i32, y: p.y, z: p.z });
        } else if q.y - p.y == 1 {
            assert(q == CellIndex { x: p.x, y: (p.y + 1) as i32, z: p.z });
        } else if q.y - p.y == -1 {
            assert(q == CellIndex { x: p.x, y: (p.y - 1) as i32, z: p.z });
        } else if q.z - p.z == 1 {
            assert(q == CellIndex { x: p.x, y: p.y, z: (p.z + 1) as i32 });
        } else {
            assert(q == CellIndex { x: p.x, y: p.y, z: (p.z - 1) as i32 });
        }
    }
    assert(found.subset_of(c));
    assert(c.finite() && c.len() <= 6) by {
        broadcast use vstd::set::group_set_axioms;
    }
    vstd::set_lib::lemma_len_subset(found, c);
    vstd::set_lib::lemma_subset_equality(found, c);
}

impl Network {
    /// Whether a node of the network stands next to the cell.
    pub fn is_adjacent(&self, cell_index: CellIndex) -> (result: bool)
        ensures
            result == exists|k: int| 0 <= k < self.nodes@.len() && #[trigger] spec_is_adjacent(self.nodes@[k].position, cell_index),
    {
        let mut k: usize = 0;
        while k < self.nodes.len()
            invariant
                k <= self.nodes@.len(),
                forall|i: int| 0 <= i < k ==> !#[trigger] spec_is_adjacent(self.nodes@[i].position, cell_index),
            decreases self.nodes@.len() - k,
        {
            if is_adjacent(self.nodes[k].position, cell_index) {
                assert(spec_is_adjacent(self.nodes@[k as int].position, cell_index));
                return true;
            }
            k = k + 1;
        }
        false
    }

    /// The first node that stands on the cell, if any.
    pub fn get_node(&self, cell_index: CellIndex) -> (result: Option<Node>)
        ensures
            match result {
                Some(node) => exists|k: int| first_at(self.nodes@, cell_index, k) && self.nodes@[k] == node,
                None => forall|i: int| 0 <= i < self.nodes@.len() ==> #[trigger] self.nodes@[i].position != cell_index,
            },
    {
        let mut k: usize = 0;
        while k < self.nodes.len()
            invariant
                k <= self.nodes@.len(),
                forall|i: int| 0 <= i < k ==> #[trigger] self.nodes@[i].position != cell_index,
            decreases self.nodes@.len() - k,
        {
            if self.nodes[k].position == cell_index {
                assert(first_at(self.nodes@, cell_index, k as int));
                return Some(self.nodes[k]);
            }
            k = k + 1;
        }
        None
    }

    /// Number of the nodes whose tile is one of `tiles`.
    fn count_tiles_of_type_in(&self, tiles: &Vec<TileType>) -> (result: usize)
        ensures
            result == spec_count_tiles(self.nodes@, tiles@),
            result <= self.nodes@.len(),
    {
        let mut count: usize = 0;
        let mut k: usize = 0;
        while k < self.nodes.len()
            invariant
                k <= self.nodes@.len(),
                count == spec_count_tiles(self.nodes@.subrange(0, k as int), tiles@),
                count <= k,
            decreases self.nodes@.len() - k,
        {
            let tile = self.nodes[k].tile;
            let mut found = false;
            let mut t: usize = 0;
            while t < tiles.len()
                invariant
                    t <= tiles@.len(),
                    found == exists|i: int| 0 <= i < t && tiles@[i] == tile,
                decreases tiles@.len() - t,
            {
                if tiles[t] == tile {
                    found = true;
                }
                t = t + 1;
            }
            assert(self.nodes@.subrange(0, k + 1).drop_last() =~= self.nodes@.subrange(0, k as int));
            if found {
                count = count + 1;
            }
            k = k + 1;
        }
        assert(self.nodes@.subrange(0, self.nodes@.len() as int) =~= self.nodes@);
        count
    }

    /// Whether the nodes form one network: every node can be reached from the first going from
    /// node to adjacent node, and no two nodes stand on the same cell (no nodes at all count as
    /// connected).
    pub fn is_connected(&self) -> (result: bool)
        ensures
            result == spec_network_connected(positions_of(self.nodes@)),
    {
        let nodes = &self.nodes;
        let ghost ps = positions_of(nodes@);
        let n = nodes.len();
        if n == 0 {
            return true;
        }
        let mut reachable = CellSet::new();
        let mut queue: Vec<CellIndex> = Vec::new();
        let first_position = nodes[0].position;
        queue.push(first_position);
        reachable.insert(first_position);
        proof {
            let path = seq![0int];
            assert(spec_is_path(ps, path));
            assert(spec_reachable(ps, 0));
            assert forall|a: CellIndex| #[trigger] queue@.to_set().contains(a) == reachable@.contains(a) by {
                if a == first_position {
                    assert(queue@[0] == a);
                }
            }
            assert(queue@.to_set() =~= reachable@);
            ps.lemma_cardinality_of_set();
            ps.lemma_cardinality_of_empty_set_is_0();
            assert(ps.to_set().contains(ps[0]));
        }
        let mut head: usize = 0;
        while head < queue.len()
            invariant
                n == nodes@.len(),
                n >= 1,
                ps == positions_of(nodes@),
                reachable.wf(),
                reachable@ == queue@.to_set(),
                queue@.no_duplicates(),
                queue@.len() <= ps.to_set().len(),
                ps.to_set().len() <= n,
                reachable@.subset_of(ps.to_set()),
                forall|q: CellIndex| #[trigger] reachable@.contains(q) ==> spec_reached(ps, q),
                reachable@.contains(ps[0]),
                head <= queue@.len(),
                forall|i: int| 0 <= i < head ==> spec_closed(ps, #[trigger] queue@[i], reachable@),
            decreases n - head,
        {
            let position = queue[head];
            proof {
                assert(queue@.to_set().contains(queue@[head as int]));
            }
            head = head + 1;
            let mut neighbours_found: usize = 0;
            let ghost mut found: Set<CellIndex> = Set::empty();
            let mut j: usize = 0;
            while j < n
                invariant_except_break
                    neighbours_found < 6,
                    forall|i: int| 0 <= i < j && #[trigger] spec_is_adjacent(position, ps[i]) ==> reachable@.contains(ps[i]),
                invariant
                    n == nodes@.len(),
                    n >= 1,
                    ps == positions_of(nodes@),
                    reachable.wf(),
                    reachable@ == queue@.to_set(),
                    queue@.no_duplicates(),
                    queue@.len() <= ps.to_set().len(),
                    ps.to_set().len() <= n,
                    reachable@.subset_of(ps.to_set()),
                    forall|q: CellIndex| #[trigger] reachable@.contains(q) ==> spec_reached(ps, q),
                    reachable@.contains(ps[0]),
                    reachable@.contains(position),
                    1 <= head <= queue@.len(),
                    position == queue@[head - 1],
                    forall|i: int| 0 <= i < head - 1 ==> spec_closed(ps, #[trigger] queue@[i], reachable@),
                    j <= n,
                    found.finite(),
                    found.len() == neighbours_found,
                    found.subset_of(reachable@),
                    forall|q: CellIndex| #[trigger] found.contains(q) ==> spec_is_adjacent(position, q),
                ensures
                    spec_closed(ps, position, reachable@),
                decreases n - j,
            {
                let other = nodes[j].position;
                if !reachable.contains(&other) && is_adjacent(position, other) {
                    proof {
                        assert(ps[j as int] == other);
                        assert(ps.to_set().contains(other));
                        let k = choose|k: int| 0 <= k < ps.len() && ps[k] == position && #[trigger] spec_reachable(ps, k);
                        lemma_extend_reach(ps, k, j as int);
                        assert(spec_reached(ps, other));
                        vstd::set_lib::lemma_len_subset(queue@.push(other).to_set(), ps.to_set());
                        queue@.lemma_push_to_set_commute(other);
                        assert(queue@.push(other).no_duplicates()) by {
                            assert forall|a: int, b: int| 0 <= a < b < queue@.len() + 1 implies queue@.push(other)[a]
                                != queue@.push(other)[b] by {
                                if b == queue@.len() {
                                    assert(queue@.to_set().contains(queue@[a]));
                                }
                            }
                        }
                        queue@.push(other).unique_seq_to_set();
                    }
                    let ghost q0 = queue@;
                    let ghost r0 = reachable@;
                    queue.push(other);
                    reachable.insert(other);
                    proof {
                        found = found.insert(other);
                        assert forall|i: int| 0 <= i < head - 1 implies spec_closed(ps, #[trigger] queue@[i], reachable@) by {
                            assert(queue@[i] == q0[i]);
                            assert(spec_closed(ps, q0[i], r0));
                        }
                    }
                    neighbours_found = neighbours_found + 1;
                    if neighbours_found == 6 {
                        proof {
                            lemma_six_adjacent_are_all(position, found);
                        }
                        break;
                    }
                }
                j = j + 1;
            }
        }
        proof {
            assert forall|q: CellIndex| #[trigger] reachable@.contains(q) implies spec_closed(ps, q, reachable@) by {
                assert(queue@.to_set().contains(q));
                let i = choose|i: int| 0 <= i < queue@.len() && queue@[i] == q;
                assert(spec_closed(ps, queue@[i], reachable@));
            }
            assert forall|k: int| 0 <= k < ps.len() && #[trigger] spec_reachable(ps, k) implies reachable@.contains(ps[k]) by {
                let path = choose|path: Seq<int>| #[trigger] spec_is_path(ps, path) && path[0] == 0 && path.last() == k;
                lemma_path_stays_in_closed_set(ps, reachable@, path);
            }
            vstd::set_lib::lemma_len_subset(reachable@, ps.to_set());
            ps.lemma_cardinality_of_set();
            if reachable@.len() == n {
                vstd::set_lib::lemma_subset_equality(reachable@, ps.to_set());
                ps.lemma_no_dup_set_cardinality();
                assert forall|k: int| 0 <= k < ps.len() implies #[trigger] spec_reachable(ps, k) by {
                    assert(ps.to_set().contains(ps[k]));
                    assert(spec_reached(ps, ps[k]));
                    let k2 = choose|k2: int| 0 <= k2 < ps.len() && ps[k2] == ps[k] && #[trigger] spec_reachable(ps, k2);
                }
            } else if spec_network_connected(ps) {
                ps.unique_seq_to_set();
                assert forall|q: CellIndex| ps.to_set().contains(q) implies #[trigger] reachable@.contains(q) by {
                    let k = choose|k: int| 0 <= k < ps.len() && ps[k] == q;
                    assert(spec_reachable(ps, k));
                }
                assert(reachable@ =~= ps.to_set());
            }
        }
        reachable.len() == n
    }
}

/// Nodes of one tile and nodes of another are together no more than all the nodes.
pub proof fn lemma_count_two_tiles_bounded(nodes: Seq<Node>, a: TileType, b: TileType)
    requires
        a != b,
    ensures
        spec_count_tiles(nodes, seq![a]) + spec_count_tiles(nodes, seq![b]) <= nodes.len(),
    decreases nodes.len(),
{
    if nodes.len() > 0 {
        lemma_count_two_tiles_bounded(nodes.drop_last(), a, b);
        lemma_contains_single(a, nodes.last().tile);
        lemma_contains_single(b, nodes.last().tile);
    }
}

/// The capacity of a network lies between nothing and what its nodes could all store.
pub proof fn lemma_capacity_bounded(v: NetworkView)
    requires
        v.nodes.len() <= MAX_NETWORK_NODES,
    ensures
        0 <= v.storage_capacity() <= MAX_NETWORK_NODES * (MAX_STORAGE_PER_STORAGE_MACHINE
            + MAX_STORAGE_PER_SPACESHIP),
{
    lemma_count_tiles_bounded(v.nodes, seq![TileType::MachineStorage]);
    lemma_count_tiles_bounded(v.nodes, seq![TileType::MachineShip]);
    lemma_count_two_tiles_bounded(v.nodes, TileType::MachineStorage, TileType::MachineShip);
}

/// The material that building a tile takes, and that taking it apart gives back.
pub fn material_composition(tile: TileType) -> (result: Grams)
    requires
        spec_has_amounts(tile),
    ensures
        result == spec_material_composition(tile),
{
    match tile {
        TileType::WallRock | TileType::WallDirt => WALL_WEIGHT,
        TileType::Air => 0,
        _ => MATERIAL_NEEDED_FOR_A_MACHINE,
    }
}

/// The material a tile can store.
pub fn storage_capacity(tile: TileType) -> (result: Grams)
    requires
        spec_has_amounts(tile),
    ensures
        result == spec_storage_capacity(tile),
{
    match tile {
        TileType::Wire | TileType::MachineAssembler | TileType::MachineAirCleaner
        | TileType::MachineDrill | TileType::MachineSolarPanel => MAX_STORAGE_PER_MACHINE,
        TileType::MachineShip => MAX_STORAGE_PER_SPACESHIP,
        TileType::MachineStorage => MAX_STORAGE_PER_STORAGE_MACHINE,
        _ => 0,
    }
}

impl Network {
    /// Whether the network is small enough, and its store far enough from the limits of
    /// 64 bits, for its accounts to be exact.
    pub open spec fn within_limits(&self) -> bool {
        &&& self.nodes@.len() <= MAX_NETWORK_NODES
        &&& -MAX_STORED_AMOUNT <= self.stored_resources <= MAX_STORED_AMOUNT
    }

    /// An empty network with nothing stored.
    pub fn new() -> (result: Network)
        ensures
            result@.nodes == Seq::<Node>::empty(),
            result@.stored_resources == 0,
    {
        Network { nodes: Vec::new(), stored_resources: 0 }
    }

    /// An empty network with `initial_storage` stored.
    pub fn new_with_storage(initial_storage: Grams) -> (result: Network)
        ensures
            result@.nodes == Seq::<Node>::empty(),
            result@.stored_resources == initial_storage,
    {
        Network { nodes: Vec::new(), stored_resources: initial_storage }
    }

    /// What the network produces in one update: the air its cleaners clean, if the solar
    /// panels power all the machines.
    pub fn update(&mut self) -> (result: NetworkUpdate)
        requires
            old(self).within_limits(),
        ensures
            *final(self) == *old(self),
            result.air_cleaned == old(self)@.air_cleaned_speed(),
    {
        NetworkUpdate { air_cleaned: self.get_air_cleaned_speed() }
    }

    pub fn len(&self) -> (result: usize)
        ensures
            result == self.nodes@.len(),
    {
        self.nodes.len()
    }

    fn get_power_generated(&self) -> (result: Watts)
        requires
            self.within_limits(),
        ensures
            result == self@.power_generated(),
    {
        let tiles = vec![TileType::MachineSolarPanel];
        assert(tiles@ =~= seq![TileType::MachineSolarPanel]);
        let solar_panels_count = self.count_tiles_of_type_in(&tiles);
        solar_panels_count as i64 * POWER_PER_SOLAR_PANEL
    }

    fn get_power_required(&self) -> (result: Watts)
        requires
            self.within_limits(),
        ensures
            result == self@.power_required(),
    {
        let tiles = vec![
            TileType::MachineDrill,
            TileType::MachineAssembler,
            TileType::MachineAirCleaner,
            TileType::MachineStorage,
        ];
        assert(tiles@ =~= seq![
            TileType::MachineDrill,
            TileType::MachineAssembler,
            TileType::MachineAirCleaner,
            TileType::MachineStorage,
        ]);
        let machines_count = self.count_tiles_of_type_in(&tiles);
        machines_count as i64 * POWER_CONSUMED_PER_MACHINE
    }

    /// The power the solar panels generate, as the game shows it.
    pub fn get_power_generated_str(&self) -> (result: String)
        requires
            self.within_limits(),
        ensures
            result@ == spec_format_unit(self@.power_generated(), "W"@),
    {
        format_unit(self.get_power_generated(), "W")
    }

    /// The power the machines consume, as the game shows it.
    pub fn get_power_required_str(&self) -> (result: String)
        requires
            self.within_limits(),
        ensures
            result@ == spec_format_unit(self@.power_required(), "W"@),
    {
        format_unit(self.get_power_required(), "W")
    }

    /// Whether the solar panels generate at least the power the machines consume.
    pub fn is_power_satisfied(&self) -> (result: bool)
        requires
            self.within_limits(),
        ensures
            result == self@.power_satisfied(),
    {
        self.get_power_generated() >= self.get_power_required()
    }

    pub fn get_air_cleaned_speed(&self) -> (result: Liters)
        requires
            self.within_limits(),
        ensures
            result == self@.air_cleaned_speed(),
    {
        if self.is_power_satisfied() {
            let tiles = vec![TileType::MachineAirCleaner];
            assert(tiles@ =~= seq![TileType::MachineAirCleaner]);
            let air_cleaners_count = self.count_tiles_of_type_in(&tiles);
            air_cleaners_count as i64 * AIR_CLEANED_PER_CLEANER_PER_UPDATE
        } else {
            0
        }
    }

    /// The air cleaned in one update, as the game shows it.
    pub fn get_air_cleaned_speed_str(&self) -> (result: String)
        requires
            self.within_limits(),
        ensures
            result@ == spec_format_unit(self@.air_cleaned_speed(), "L/s"@),
    {
        format_unit(self.get_air_cleaned_speed(), "L/s")
    }

    pub fn get_stored_resources(&self) -> (result: Grams)
        ensures
            result == self.stored_resources,
    {
        self.stored_resources
    }

    /// The material stored, as the game shows it.
    pub fn get_stored_resources_str(&self) -> (result: String)
        ensures
            result@ == spec_format_unit(self.stored_resources as int, "g"@),
    {
        format_unit(self.get_stored_resources(), "g")
    }

    /// The material the network can store.
    pub fn get_storage_capacity(&self) -> (result: Grams)
        requires
            self.within_limits(),
        ensures
            result == self@.storage_capacity(),
            0 <= result <= MAX_NETWORK_NODES * (MAX_STORAGE_PER_STORAGE_MACHINE
                + MAX_STORAGE_PER_SPACESHIP),
    {
        let storage_tiles = vec![TileType::MachineStorage];
        assert(storage_tiles@ =~= seq![TileType::MachineStorage]);
        let storage_count = self.count_tiles_of_type_in(&storage_tiles);
        let ship_tiles = vec![TileType::MachineShip];
        assert(ship_tiles@ =~= seq![TileType::MachineShip]);
        let ships = self.count_tiles_of_type_in(&ship_tiles);
        storage_count as i64 * MAX_STORAGE_PER_STORAGE_MACHINE + ships as i64
            * MAX_STORAGE_PER_SPACESHIP + (self.len() as i64 - storage_count as i64 - ships as i64)
            * MAX_STORAGE_PER_MACHINE
    }

    /// The material the network can store, as the game shows it.
    pub fn get_storage_capacity_str(&self) -> (result: String)
        requires
            self.within_limits(),
        ensures
            result@ == spec_format_unit(self@.storage_capacity(), "g"@),
    {
        format_unit(self.get_storage_capacity(), "g")
    }
}

impl Network {
    /// Stores `resources`, up to the capacity; returns what did not fit.
    pub fn try_add_resources(&mut self, resources: Grams) -> (result: Grams)
        requires
            old(self).within_limits(),
            -MAX_STORED_AMOUNT <= old(self).stored_resources + resources <= MAX_STORED_AMOUNT,
        ensures
            final(self).nodes@ == old(self).nodes@,
            final(self).within_limits(),
            ({
                let total = old(self).stored_resources + resources;
                let capacity = old(self)@.storage_capacity();
                if total > capacity {
                    final(self).stored_resources == capacity && result == total - capacity
                } else {
                    final(self).stored_resources == total && result == 0
                }
            }),
    {
        self.stored_resources = self.stored_resources + resources;
        let overflow = self.stored_resources - self.get_storage_capacity();
        if overflow > 0 {
            self.stored_resources = self.stored_resources - overflow;
            overflow
        } else {
            0
        }
    }

    /// The material regained from `old_tile`, the material spent on `new_machine`, and the
    /// material stored and the capacity of `network` once one has replaced the other.
    pub fn predict_storage(new_machine: TileType, old_tile: TileType, network: &Network) -> (result: (
        Grams,
        Grams,
        Grams,
        Grams,
    ))
        requires
            network.within_limits(),
            spec_has_amounts(new_machine),
            spec_has_amounts(old_tile),
        ensures
            result.0 == spec_material_composition(old_tile),
            result.1 == spec_material_composition(new_machine),
            result.2 == network@.future_storage(new_machine, old_tile),
            result.3 == network@.future_capacity(new_machine, old_tile),
    {
        let old_material_regained = material_composition(old_tile);
        let new_material_spent = material_composition(new_machine);
        let extra_storage_in_ship = if new_machine == TileType::MachineShip {
            SPACESHIP_INITIAL_STORAGE
        } else {
            0
        };
        let future_storage = network.get_stored_resources() + old_material_regained
            - new_material_spent + extra_storage_in_ship;
        let future_capacity = network.get_storage_capacity() + storage_capacity(new_machine)
            - storage_capacity(old_tile);
        (old_material_regained, new_material_spent, future_storage, future_capacity)
    }

    /// Puts `new_machine` in place of the first node on `cell_index`, if the network has one;
    /// see `NetworkView::replaced` for when it refuses.
    pub fn replace_if_present(&mut self, cell_index: CellIndex, new_machine: TileType) -> (result:
        Replacement)
        requires
            old(self).within_limits(),
            spec_has_amounts(new_machine),
            forall|i: int|
                0 <= i < old(self).nodes@.len() && old(self).nodes@[i].position == cell_index
                    ==> spec_has_amounts(#[trigger] old(self).nodes@[i].tile),
        ensures
            (final(self)@, result) == old(self)@.replaced(cell_index, new_machine),
            final(self).within_limits(),
    {
        proof {
            lemma_capacity_bounded(self@);
        }
        let mut k: usize = 0;
        while k < self.nodes.len() && self.nodes[k].position != cell_index
            invariant
                k <= self.nodes@.len(),
                forall|i: int| 0 <= i < k ==> #[trigger] self.nodes@[i].position != cell_index,
            decreases self.nodes@.len() - k,
        {
            k = k + 1;
        }
        if k == self.nodes.len() {
            proof {
                lemma_position_index_absent(self.nodes@, cell_index);
            }
            return Replacement::NotPresent;
        }
        proof {
            lemma_first_at_unique(self.nodes@, cell_index, k as int);
        }
        let old_tile = self.nodes[k].tile;
        if old_tile == TileType::MachineShip {
            return Replacement::Forbidden;
        }
        let (old_material_regained, new_material_spent, future_storage, future_capacity) =
            Self::predict_storage(new_machine, old_tile, self);
        if future_storage > future_capacity {
            return Replacement::NotEnoughStorage;
        } else if future_storage < 0 {
            return Replacement::NotEnoughMaterial;
        }
        let replacement_is_really_a_removal = !is_networkable(new_machine);
        if replacement_is_really_a_removal {
            let removed = self.nodes.swap_remove(k);
            if !self.is_connected() {
                self.nodes.push(removed);
                return Replacement::SplitNetwork;
            }
        } else {
            self.nodes.set(k, Node { position: cell_index, tile: new_machine });
        }
        self.stored_resources = self.stored_resources + old_material_regained;
        self.stored_resources = self.stored_resources - new_material_spent;
        Replacement::Regular
    }

    /// Adds `node` if it is a machine or a wire, and spends its material.
    pub fn add(&mut self, node: Node)
        requires
            old(self).within_limits(),
            old(self).nodes@.len() < MAX_NETWORK_NODES,
            spec_has_amounts(node.tile),
            old(self).stored_resources - spec_material_composition(node.tile) >= -MAX_STORED_AMOUNT,
        ensures
            final(self)@ == old(self)@.added(node),
            final(self).within_limits(),
    {
        if is_networkable(node.tile) {
            self.nodes.push(node);
        }
        self.stored_resources = self.stored_resources - material_composition(node.tile);
    }

    /// Adds `node` if it is a machine or a wire, spending nothing.
    pub fn add_no_spend(&mut self, node: Node)
        requires
            old(self).nodes@.len() < MAX_NETWORK_NODES,
        ensures
            final(self).nodes@ == if spec_is_networkable(node.tile) {
                old(self).nodes@.push(node)
            } else {
                old(self).nodes@
            },
            final(self).stored_resources == old(self).stored_resources,
    {
        if is_networkable(node.tile) {
            self.nodes.push(node);
        }
    }

    /// Builds `node` where `old_tile` was, if the material and the room for it suffice.
    pub fn try_add(&mut self, node: Node, old_tile: TileType) -> (result: Addition)
        requires
            old(self).within_limits(),
            old(self).nodes@.len() < MAX_NETWORK_NODES,
            spec_has_amounts(node.tile),
            spec_has_amounts(old_tile),
        ensures
            (final(self)@, result) == old(self)@.tried_add(node, old_tile),
            final(self).within_limits(),
    {
        proof {
            lemma_capacity_bounded(self@);
        }
        let (old_material_regained, new_material_spent, future_storage, future_capacity) =
            Self::predict_storage(node.tile, old_tile, self);
        if future_storage < 0 {
            Addition::NotEnoughMaterial
        } else if future_storage > future_capacity {
            Addition::NotEnoughStorage
        } else {
            if is_networkable(node.tile) {
                self.nodes.push(node);
            }
            self.stored_resources = self.stored_resources - new_material_spent;
            self.stored_resources = self.stored_resources + old_material_regained;
            Addition::Added
        }
    }

    /// Builds `node` where `old_tile` was; the material and the room for it must suffice.
    pub fn add_or_panic(&mut self, node: Node, old_tile: TileType)
        requires
            old(self).within_limits(),
            old(self).nodes@.len() < MAX_NETWORK_NODES,
            spec_has_amounts(node.tile),
            spec_has_amounts(old_tile),
            old(self)@.tried_add(node, old_tile).1 == Addition::Added,
        ensures
            final(self)@ == old(self)@.tried_add(node, old_tile).0,
            final(self).within_limits(),
    {
        self.try_add(node, old_tile);
    }

    /// Takes in the machines and wires of `other`, without its store.
    pub fn join(&mut self, other: Network)
        requires
            old(self).nodes@.len() + other.nodes@.len() <= MAX_NETWORK_NODES,
        ensures
            final(self).nodes@ == old(self).nodes@ + networkable_nodes(other.nodes@),
            final(self).stored_resources == old(self).stored_resources,
    {
        let ghost start = self.nodes@;
        let mut i: usize = 0;
        while i < other.nodes.len()
            invariant
                i <= other.nodes@.len(),
                old(self).nodes@.len() + other.nodes@.len() <= MAX_NETWORK_NODES,
                start == old(self).nodes@,
                self.stored_resources == old(self).stored_resources,
                self.nodes@ == start + networkable_nodes(other.nodes@.subrange(0, i as int)),
            decreases other.nodes@.len() - i,
        {
            let node = other.nodes[i];
            proof {
                let sub = other.nodes@.subrange(0, i as int);
                assert(other.nodes@.subrange(0, i + 1) =~= sub.push(node));
                sub.lemma_filter_push(node, |n: Node| spec_is_networkable(n.tile));
                sub.filter_lemma(|n: Node| spec_is_networkable(n.tile));
            }
            self.add_no_spend(node);
            i = i + 1;
        }
        assert(other.nodes@.subrange(0, other.nodes@.len() as int) =~= other.nodes@);
    }
}

impl Default for Network {
    fn default() -> (result: Network)
        ensures
            result@.nodes == Seq::<Node>::empty(),
            result@.stored_resources == 0,
    {
        Network::new()
    }
}

/// A sequence of one tile contains that tile and no other.
proof fn lemma_contains_single(x: TileType, t: TileType)
    ensures
        seq![x].contains(t) == (x == t),
{
    if x == t {
        assert(seq![x][0] == t);
    }
}

/// Adding a node counts it once among the tiles it is one of.
pub proof fn lemma_count_tiles_push(nodes: Seq<Node>, node: Node, tiles: Seq<TileType>)
    ensures
        spec_count_tiles(nodes.push(node), tiles) == spec_count_tiles(nodes, tiles) + if tiles.contains(
            node.tile,
        ) {
            1int
        } else {
            0int
        },
{
    assert(nodes.push(node).drop_last() =~= nodes);
}

/// Building a machine on empty ground (where there was air) and taking it away again leaves a
/// connected network, whose store is within its capacity, as it was: the same nodes in the
/// same order and the same material stored.
pub proof fn lemma_build_then_remove_restores(v: NetworkView, node: Node)
    requires
        forall|i: int| 0 <= i < v.nodes.len() ==> #[trigger] v.nodes[i].position != node.position,
        spec_is_networkable(node.tile),
        node.tile != TileType::MachineShip,
        spec_network_connected(positions_of(v.nodes)),
        0 <= v.stored_resources <= v.storage_capacity(),
        v.tried_add(node, TileType::Air).1 == Addition::Added,
    ensures
        ({
            let built = v.tried_add(node, TileType::Air).0;
            built.replaced(node.position, TileType::Air) == (v, Replacement::Regular)
        }),
{
    let built = v.tried_add(node, TileType::Air).0;
    let k = v.nodes.len() as int;
    assert(built.nodes == v.nodes.push(node));
    assert(first_at(built.nodes, node.position, k));
    lemma_first_at_unique(built.nodes, node.position, k);
    lemma_count_tiles_push(v.nodes, node, seq![TileType::MachineStorage]);
    lemma_count_tiles_push(v.nodes, node, seq![TileType::MachineShip]);
    lemma_contains_single(TileType::MachineStorage, node.tile);
    lemma_contains_single(TileType::MachineShip, node.tile);
    assert(built.future_capacity(TileType::Air, node.tile) == v.storage_capacity());
    assert(built.nodes.update(k, built.nodes.last()).drop_last() =~= v.nodes);
}

/// Whether a tile is one of the machines that draw power: drills, assemblers, air cleaners
/// and storage machines.
pub open spec fn spec_consumes_power(tile: TileType) -> bool {
    tile == TileType::MachineDrill || tile == TileType::MachineAssembler || tile
        == TileType::MachineAirCleaner || tile == TileType::MachineStorage
}

/// Every drill, assembler, air cleaner and storage machine added to a network raises the power
/// it requires by what one machine consumes and leaves the power it generates as it was; any
/// other tile leaves the power required as it was.
pub proof fn lemma_power_required_per_machine(v: NetworkView, node: Node)
    ensures
        spec_consumes_power(node.tile) ==> v.added(node).power_required() == v.power_required()
            + POWER_CONSUMED_PER_MACHINE,
        spec_consumes_power(node.tile) ==> v.added(node).power_generated()
            == v.power_generated(),
        !spec_consumes_power(node.tile) ==> v.added(node).power_required()
            == v.power_required(),
{
    let consumers = seq![
        TileType::MachineDrill,
        TileType::MachineAssembler,
        TileType::MachineAirCleaner,
        TileType::MachineStorage,
    ];
    assert(consumers.contains(node.tile) == spec_consumes_power(node.tile)) by {
        if spec_consumes_power(node.tile) {
            if node.tile == TileType::MachineDrill {
                assert(consumers[0] == node.tile);
            } else if node.tile == TileType::MachineAssembler {
                assert(consumers[1] == node.tile);
            } else if node.tile == TileType::MachineAirCleaner {
                assert(consumers[2] == node.tile);
            } else {
                assert(consumers[3] == node.tile);
            }
        }
    }
    lemma_contains_single(TileType::MachineSolarPanel, node.tile);
    lemma_count_tiles_push(v.nodes, node, consumers);
    lemma_count_tiles_push(v.nodes, node, seq![TileType::MachineSolarPanel]);
}

/// A storage machine draws power like any other machine: added to a network whose solar panels
/// generate just the power its machines require, it leaves the network short of power, and the
/// network's air cleaners then clean no air.
pub proof fn lemma_storage_machine_needs_power(v: NetworkView, position: CellIndex)
    requires
        v.power_generated() == v.power_required(),
    ensures
        !v.added(Node { position, tile: TileType::MachineStorage }).power_satisfied(),
        v.added(Node { position, tile: TileType::MachineStorage }).air_cleaned_speed() == 0,
{
    lemma_power_required_per_machine(v, Node { position, tile: TileType::MachineStorage });
}

/// Adjacency goes both ways, and no cell is adjacent to itself.
pub proof fn lemma_adjacency_symmetric(a: CellIndex, b: CellIndex)
    ensures
        spec_is_adjacent(a, b) == spec_is_adjacent(b, a),
        !spec_is_adjacent(a, a),
{
}


} // verus!
