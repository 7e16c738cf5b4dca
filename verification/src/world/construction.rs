use vstd::prelude::*;
use std::collections::VecDeque;
use crate::world::networks::network::{has_amounts, spec_has_amounts};
use crate::world::networks::network::NetworkView;
use crate::world::networks::{adjacent_to, fits, spec_add, Networks, NetworksView};
use crate::world::world_map::cell::{ages, spec_ages};
use crate::world::world_map::cell::{Cell, TileType};
use crate::world::world_map::cell_index::CellIndex;
use crate::world::world_map::cell_set::CellSet;
use crate::world::world_map::transform_cells::{Transformation, TransformationFailure};
use crate::world::world_map::transformation_rules::{
    reads_inside, spec_forbidden_in, spec_reads_inside, TransformationRules,
};
use crate::world::world_map::WorldMap;
use crate::world::{Task, TransformationTask};

verus! {

/// Builds the transformation on one cell if the networks take it (see `spec_add`): the cell
/// then takes its new tile, and is counted among the aging and the living cells if its tile ages,
/// or taken out of them if it does not. If the networks refuse, the map and the cells counted
/// stay as they were. Says why the networks refused, if they did.
pub fn try_update_network(
    networks: &mut Networks,
    map: &mut WorldMap,
    aging_tiles: &mut CellSet,
    life: &mut CellSet,
    transformation: Transformation,
    position: CellIndex,
) -> (result: Option<TransformationFailure>)
    requires
        old(map).wf(),
        old(map)@.dom().contains(position),
        old(aging_tiles).wf(),
        old(life).wf(),
        fits(old(networks)@, 1),
        spec_has_amounts(old(map)@[position].tile_type),
        spec_has_amounts(transformation.spec_apply(old(map)@[position]).tile_type),
    ensures
        ({
            let cell = old(map)@[position];
            let built = transformation.spec_apply(cell);
            let outcome = spec_add(old(networks)@, position, built.tile_type, cell.tile_type);
            &&& final(networks)@ == outcome.0
            &&& result == outcome.1
            &&& final(map).wf()
            &&& final(aging_tiles).wf()
            &&& final(life).wf()
            &&& final(map).spec_min_cell() == old(map).spec_min_cell()
            &&& final(map).spec_max_cell() == old(map).spec_max_cell()
            &&& result is None ==> {
                &&& final(map)@ == old(map)@.insert(position, built)
                &&& final(aging_tiles)@ == if spec_ages(built.tile_type) {
                    old(aging_tiles)@.insert(position)
                } else {
                    old(aging_tiles)@.remove(position)
                }
                &&& final(life)@ == if spec_ages(built.tile_type) {
                    old(life)@.insert(position)
                } else {
                    old(life)@.remove(position)
                }
            }
            &&& result is Some ==> {
                &&& final(map)@ == old(map)@
                &&& final(aging_tiles)@ == old(aging_tiles)@
                &&& final(life)@ == old(life)@
            }
        }),
{
    let cell = *map.get_cell_optional(position).unwrap();
    let mut built = cell;
    transformation.apply(&mut built);
    let failure = networks.add_with_reason(position, built.tile_type, cell.tile_type);
    if failure.is_none() {
        map.set_cell(position, built);
        if ages(built.tile_type) {
            aging_tiles.insert(position);
            life.insert(position);
        } else {
            aging_tiles.remove(&position);
            life.remove(&position);
        }
    }
    failure
}

/// Whether a cell stands next to the ship's network.
pub open spec fn reached_by(ship: NetworkView) -> spec_fn(CellIndex) -> bool {
    |p: CellIndex| adjacent_to(ship, p)
}

/// Whether a cell stands away from the ship's network.
pub open spec fn unreached_by(ship: NetworkView) -> spec_fn(CellIndex) -> bool {
    |p: CellIndex| !adjacent_to(ship, p)
}

/// The cells next to the ship's network, in order, and the set of the others.
fn partition_by_reach(networks: &Networks, positions: &CellSet) -> (result: (Vec<CellIndex>, CellSet))
    requires
        positions.wf(),
    ensures
        result.0@ == positions.spec_seq().filter(reached_by(networks@.ship_network)),
        result.1.wf(),
        result.1@ == positions.spec_seq().filter(unreached_by(networks@.ship_network)).to_set(),
{
    let ghost ps = positions.spec_seq();
    let ghost near_f = reached_by(networks@.ship_network);
    let ghost far_f = unreached_by(networks@.ship_network);
    proof {
        positions.lemma_seq();
    }
    let n = positions.len();
    let mut near: Vec<CellIndex> = Vec::new();
    let mut far = CellSet::new();
    let mut i: usize = 0;
    proof {
        assert(ps.take(0) =~= Seq::<CellIndex>::empty());
        assert(ps.take(0).filter(near_f) =~= Seq::<CellIndex>::empty());
        assert(ps.take(0).filter(far_f).to_set() =~= Set::<CellIndex>::empty());
    }
    while i < n
        invariant
            n == ps.len(),
            ps == positions.spec_seq(),
            positions.wf(),
            near_f == reached_by(networks@.ship_network),
            far_f == unreached_by(networks@.ship_network),
            i <= n,
            near@ == ps.take(i as int).filter(near_f),
            far.wf(),
            far@ == ps.take(i as int).filter(far_f).to_set(),
        decreases n - i,
    {
        let p = positions.get(i);
        proof {
            assert(ps.take(i + 1) =~= ps.take(i as int).push(p));
            ps.take(i as int).lemma_filter_push(p, near_f);
            ps.take(i as int).lemma_filter_push(p, far_f);
        }
        if networks.is_adjacent_to_ship_network(p) {
            near.push(p);
        } else {
            far.insert(p);
            proof {
                ps.take(i as int).filter(far_f).lemma_push_to_set_commute(p);
            }
        }
        i = i + 1;
    }
    proof {
        assert(ps.take(n as int) =~= ps);
    }
    (near, far)
}

/// Keeping some of the items of a sequence with no duplicates keeps it without duplicates.
proof fn lemma_filter_unique(s: Seq<CellIndex>, f: spec_fn(CellIndex) -> bool)
    requires
        s.no_duplicates(),
    ensures
        s.filter(f).no_duplicates(),
        forall|j: int| 0 <= j < s.filter(f).len() ==> s.contains(#[trigger] s.filter(f)[j]),
    decreases s.len(),
{
    s.filter_lemma(f);
    if s.len() > 0 {
        let rest = s.drop_last();
        assert(rest.push(s.last()) =~= s);
        assert forall|i: int, j: int| 0 <= i < j < rest.len() implies rest[i] != rest[j] by {
            assert(rest[i] == s[i] && rest[j] == s[j]);
        }
        lemma_filter_unique(rest, f);
        rest.lemma_filter_push(s.last(), f);
        rest.filter_lemma(f);
        if f(s.last()) {
            let fr = rest.filter(f);
            assert(!fr.contains(s.last())) by {
                if fr.contains(s.last()) {
                    let j = choose|j: int| 0 <= j < fr.len() && fr[j] == s.last();
                    assert(rest.contains(fr[j]));
                    let i = choose|i: int| 0 <= i < rest.len() && rest[i] == s.last();
                    assert(s[i] == s[s.len() - 1]);
                }
            }
            assert forall|i: int, j: int| 0 <= i < j < fr.push(s.last()).len() implies fr.push(s.last())[i]
                != fr.push(s.last())[j] by {
                if j == fr.len() {
                    assert(fr.push(s.last())[i] == fr[i]);
                    assert(fr.contains(fr[i]));
                } else {
                    assert(fr.push(s.last())[i] == fr[i] && fr.push(s.last())[j] == fr[j]);
                }
            }
        }
    }
}

/// Adds `reason` to the reasons, unless they hold it already.
fn add_reason(reasons: &mut Vec<TransformationFailure>, reason: TransformationFailure)
    requires
        old(reasons)@.no_duplicates(),
    ensures
        final(reasons)@.no_duplicates(),
        final(reasons)@.to_set() == old(reasons)@.to_set().insert(reason),
{
    let mut k: usize = 0;
    while k < reasons.len()
        invariant
            k <= reasons@.len(),
            reasons@.no_duplicates(),
            forall|i: int| 0 <= i < k ==> reasons@[i] != reason,
        decreases reasons@.len() - k,
    {
        if reasons[k] == reason {
            proof {
                assert(reasons@.to_set().insert(reason) =~= reasons@.to_set());
            }
            return;
        }
        k = k + 1;
    }
    let ghost before = reasons@;
    reasons.push(reason);
    proof {
        before.lemma_push_to_set_commute(reason);
        assert forall|i: int, j: int| 0 <= i < j < reasons@.len() implies reasons@[i] != reasons@[j] by {
            if j < before.len() {
                assert(reasons@[i] == before[i] && reasons@[j] == before[j]);
            }
        }
    }
}

/// What building a transformation has done so far: the networks, the cells of the map, the
/// aging and the living cells, and the cells left to build and why.
pub struct BuildState {
    pub networks: NetworksView,
    pub cells: Map<CellIndex, Cell>,
    pub aging: Set<CellIndex>,
    pub life: Set<CellIndex>,
    pub remaining: Set<CellIndex>,
    pub reasons: Set<TransformationFailure>,
}

/// The state with the cell left to build, for `reason` if there is one.
pub open spec fn left(s: BuildState, pos: CellIndex, reason: Option<TransformationFailure>) -> BuildState {
    BuildState {
        remaining: s.remaining.insert(pos),
        reasons: match reason {
            Some(r) => s.reasons.insert(r),
            None => s.reasons,
        },
        ..s
    }
}

/// The cells counted after the cell at `pos` took `tile`: with it if the tile ages, without it
/// if not.
pub open spec fn recounted(cells: Set<CellIndex>, pos: CellIndex, tile: TileType) -> Set<CellIndex> {
    if spec_ages(tile) {
        cells.insert(pos)
    } else {
        cells.remove(pos)
    }
}

/// Building on one cell next to the ship's network: refused if it breaks a rule of the map
/// (see `spec_forbidden_in`); left for later, with no reason, while the networks have no room
/// left within the limits that keep their accounts exact; else built if the networks take it
/// (see `spec_add`), and refused with their reason if not.
pub open spec fn spec_build_step(s: BuildState, min_y: int, max_y: int, t: Transformation, pos: CellIndex) -> BuildState {
    match spec_forbidden_in(s.cells, min_y, max_y, pos, t.new_tile_type) {
        Some(reason) => left(s, pos, Some(reason)),
        None => if !fits(s.networks, 1) {
            left(s, pos, None)
        } else {
            let cell = s.cells[pos];
            let built = t.spec_apply(cell);
            let outcome = spec_add(s.networks, pos, built.tile_type, cell.tile_type);
            match outcome.1 {
                Some(reason) => left(BuildState { networks: outcome.0, ..s }, pos, Some(reason)),
                None => BuildState {
                    networks: outcome.0,
                    cells: s.cells.insert(pos, built),
                    aging: recounted(s.aging, pos, built.tile_type),
                    life: recounted(s.life, pos, built.tile_type),
                    ..s
                },
            }
        },
    }
}

/// Building on the cells one by one, in order.
pub open spec fn spec_build_steps(s: BuildState, min_y: int, max_y: int, t: Transformation, ps: Seq<CellIndex>) -> BuildState
    decreases ps.len(),
{
    if ps.len() == 0 {
        s
    } else {
        spec_build_step(spec_build_steps(s, min_y, max_y, t, ps.drop_last()), min_y, max_y, t, ps.last())
    }
}

/// Building a transformation on the cells: those away from the ship's network are left, out of
/// its reach; the others are built one by one, in order (see `spec_build_step`).
pub open spec fn spec_try_build(
    networks: NetworksView,
    cells: Map<CellIndex, Cell>,
    aging: Set<CellIndex>,
    life: Set<CellIndex>,
    min_y: int,
    max_y: int,
    t: Transformation,
    ps: Seq<CellIndex>,
) -> BuildState {
    let far = ps.filter(unreached_by(networks.ship_network));
    let start = BuildState {
        networks,
        cells,
        aging,
        life,
        remaining: far.to_set(),
        reasons: if far.len() > 0 {
            set![TransformationFailure::OutOfShipReach]
        } else {
            Set::empty()
        },
    };
    spec_build_steps(start, min_y, max_y, t, ps.filter(reached_by(networks.ship_network)))
}

/// Whether the map holds every cell of the task, the amounts of material of their tiles and of
/// the new tile are known, and the rules can judge each cell by reading only cells of the map.
pub open spec fn spec_buildable(map: WorldMap, task: TransformationTask) -> bool {
    &&& spec_has_amounts(task.transformation.new_tile_type)
    &&& forall|i: int| 0 <= i < task.to_transform.spec_seq().len() ==> {
        let p = #[trigger] task.to_transform.spec_seq()[i];
        &&& map@.dom().contains(p)
        &&& spec_has_amounts(map@[p].tile_type)
        &&& spec_reads_inside(
            map@.dom(),
            map.spec_min_cell().y as int,
            map.spec_max_cell().y as int,
            p,
            task.transformation.new_tile_type,
        )
    }
}

/// Whether the task can be built on the map; see `spec_buildable`.
pub fn buildable(map: &WorldMap, task: &TransformationTask) -> (result: bool)
    requires
        map.wf(),
        task.to_transform.wf(),
    ensures
        result == spec_buildable(*map, *task),
{
    let tile = task.transformation.new_tile_type;
    if !has_amounts(tile) {
        return false;
    }
    let ghost ps = task.to_transform.spec_seq();
    proof {
        task.to_transform.lemma_seq();
    }
    let n = task.to_transform.len();
    let mut i: usize = 0;
    while i < n
        invariant
            n == ps.len(),
            ps == task.to_transform.spec_seq(),
            task.to_transform.wf(),
            map.wf(),
            tile == task.transformation.new_tile_type,
            i <= n,
            forall|j: int| 0 <= j < i ==> {
                let p = #[trigger] ps[j];
                &&& map@.dom().contains(p)
                &&& spec_has_amounts(map@[p].tile_type)
                &&& spec_reads_inside(map@.dom(), map.spec_min_cell().y as int, map.spec_max_cell().y as int, p, tile)
            },
        decreases n - i,
    {
        let p = task.to_transform.get(i);
        match map.get_cell_optional(p) {
            None => {
                return false;
            },
            Some(cell) => {
                if !has_amounts(cell.tile_type) || !reads_inside(map, p, tile) {
                    return false;
                }
            },
        }
        i = i + 1;
    }
    true
}

/// Builds the task's transformation on its cells, as far as the rules and the networks let it
/// (see `spec_try_build`); returns the task for the cells left, with the reasons, if any is left.
pub fn try_build(
    networks: &mut Networks,
    map: &mut WorldMap,
    aging_tiles: &mut CellSet,
    life: &mut CellSet,
    task: TransformationTask,
) -> (result: Option<Task>)
    requires
        old(map).wf(),
        old(aging_tiles).wf(),
        old(life).wf(),
        task.to_transform.wf(),
        spec_buildable(*old(map), task),
    ensures
        ({
            let s = spec_try_build(
                old(networks)@,
                old(map)@,
                old(aging_tiles)@,
                old(life)@,
                old(map).spec_min_cell().y as int,
                old(map).spec_max_cell().y as int,
                task.transformation,
                task.to_transform.spec_seq(),
            );
            &&& final(networks)@ == s.networks
            &&& final(map)@ == s.cells
            &&& final(aging_tiles)@ == s.aging
            &&& final(life)@ == s.life
            &&& final(map).wf()
            &&& final(aging_tiles).wf()
            &&& final(life).wf()
            &&& final(map).spec_min_cell() == old(map).spec_min_cell()
            &&& final(map).spec_max_cell() == old(map).spec_max_cell()
            &&& match result {
                None => s.remaining == Set::<CellIndex>::empty(),
                Some(Task::Transform(rest)) => {
                    &&& s.remaining.len() > 0
                    &&& rest.to_transform.wf()
                    &&& rest.to_transform@ == s.remaining
                    &&& rest.transformation == task.transformation
                    &&& rest.blocked_because matches Some(rs) && rs@.no_duplicates() && rs@.to_set() == s.reasons
                },
                Some(Task::Movement(_)) => false,
            }
        }),
{
    proof {
        assert forall|i: int| 0 <= i < task.to_transform.spec_seq().len() implies {
            let p = #[trigger] task.to_transform.spec_seq()[i];
            &&& old(map)@.dom().contains(p)
            &&& spec_has_amounts(old(map)@[p].tile_type)
            &&& spec_reads_inside(
                old(map)@.dom(),
                old(map).spec_min_cell().y as int,
                old(map).spec_max_cell().y as int,
                p,
                task.transformation.new_tile_type,
            )
        } by {}
    }
    let transformation = task.transformation;
    let ghost t = transformation;
    let ghost ps = task.to_transform.spec_seq();
    let ghost m0 = map@;
    let ghost min_cell = map.spec_min_cell();
    let ghost max_cell = map.spec_max_cell();
    let ghost min_y = map.spec_min_cell().y as int;
    let ghost max_y = map.spec_max_cell().y as int;
    let ghost ship = networks@.ship_network;
    let (near, mut remaining) = partition_by_reach(networks, &task.to_transform);
    let mut reasons: Vec<TransformationFailure> = Vec::new();
    if remaining.len() > 0 {
        reasons.push(TransformationFailure::OutOfShipReach);
    }
    let ghost far = ps.filter(unreached_by(ship));
    proof {
        task.to_transform.lemma_seq();
        remaining.lemma_seq();
        if far.len() == 0 {
            assert(far.to_set() =~= Set::<CellIndex>::empty());
        } else {
            assert(far.contains(far[0]));
            assert(remaining@.contains(far[0]));
            assert(remaining@.remove(far[0]).len() + 1 == remaining@.len());
        }
        if far.len() > 0 {
            assert(reasons@.len() == 1 && reasons@[0] == TransformationFailure::OutOfShipReach);
            assert(reasons@.to_set() =~= set![TransformationFailure::OutOfShipReach]) by {
                assert(reasons@.contains(TransformationFailure::OutOfShipReach));
            }
        } else {
            assert(reasons@.to_set() =~= Set::<TransformationFailure>::empty());
        }
    }
    let ghost start = BuildState {
        networks: networks@,
        cells: map@,
        aging: aging_tiles@,
        life: life@,
        remaining: remaining@,
        reasons: reasons@.to_set(),
    };
    proof {
        lemma_filter_unique(ps, reached_by(ship));
    }
    let mut k: usize = 0;
    while k < near.len()
        invariant
            k <= near@.len(),
            near@.no_duplicates(),
            forall|j: int| 0 <= j < near@.len() ==> ps.contains(#[trigger] near@[j]),
            forall|i: int| 0 <= i < ps.len() ==> {
                let p = #[trigger] ps[i];
                &&& m0.dom().contains(p)
                &&& spec_has_amounts(m0[p].tile_type)
                &&& spec_reads_inside(m0.dom(), min_y, max_y, p, t.new_tile_type)
            },
            spec_has_amounts(t.new_tile_type),
            transformation == t,
            map.wf(),
            aging_tiles.wf(),
            life.wf(),
            remaining.wf(),
            reasons@.no_duplicates(),
            map.spec_min_cell() == min_cell,
            map.spec_max_cell() == max_cell,
            min_y == min_cell.y,
            max_y == max_cell.y,
            map@.dom() == m0.dom(),
            forall|j: int| k <= j < near@.len() ==> map@[#[trigger] near@[j]] == m0[near@[j]],
            (BuildState {
                networks: networks@,
                cells: map@,
                aging: aging_tiles@,
                life: life@,
                remaining: remaining@,
                reasons: reasons@.to_set(),
            }) == spec_build_steps(start, min_y, max_y, t, near@.take(k as int)),
        decreases near@.len() - k,
    {
        let p = near[k];
        let ghost before = BuildState {
            networks: networks@,
            cells: map@,
            aging: aging_tiles@,
            life: life@,
            remaining: remaining@,
            reasons: reasons@.to_set(),
        };
        proof {
            assert(near@.take(k + 1).drop_last() =~= near@.take(k as int));
            assert(ps.contains(p));
            let i = choose|i: int| 0 <= i < ps.len() && ps[i] == p;
            assert(m0.dom().contains(ps[i]));
        }
        let forbidden = {
            let rules = TransformationRules::new(p, transformation.new_tile_type, map);
            proof {
                rules.lemma_reads_inside();
                rules.lemma_forbidden_in();
            }
            rules.is_forbidden()
        };
        match forbidden {
            Some(reason) => {
                remaining.insert(p);
                add_reason(&mut reasons, reason);
            },
            None => {
                if !networks.has_room() {
                    remaining.insert(p);
                } else {
                    let failure = try_update_network(networks, map, aging_tiles, life, transformation, p);
                    match failure {
                        Some(reason) => {
                            remaining.insert(p);
                            add_reason(&mut reasons, reason);
                        },
                        None => {
                            proof {
                                assert(map@.dom() =~= m0.dom());
                            }
                        },
                    }
                }
            },
        }
        proof {
            assert forall|j: int| k + 1 <= j < near@.len() implies map@[#[trigger] near@[j]] == m0[near@[j]] by {
                assert(near@[j] != near@[k as int]);
            }
        }
        k = k + 1;
    }
    proof {
        assert(near@.take(near@.len() as int) =~= near@);
        assert(start.remaining == far.to_set());
        assert(spec_try_build(
            old(networks)@,
            m0,
            old(aging_tiles)@,
            old(life)@,
            min_y,
            max_y,
            t,
            ps,
        ) == spec_build_steps(start, min_y, max_y, t, near@));
    }
    if remaining.len() > 0 {
        Some(Task::Transform(TransformationTask::new_with_reason(remaining, transformation, Some(reasons))))
    } else {
        proof {
            remaining.lemma_seq();
            remaining@.lemma_len0_is_empty();
        }
        None
    }
}

/// The queue of tasks once the task asked to be cancelled is gone (if there is one at that
/// place) and the task asked for is at the back.
pub open spec fn spec_queued(queue: Seq<Task>, cancel_task: Option<usize>, selected: Option<TransformationTask>) -> Seq<Task> {
    let kept = match cancel_task {
        Some(i) => if i < queue.len() {
            queue.remove(i as int)
        } else {
            queue
        },
        None => queue,
    };
    match selected {
        Some(t) => kept.push(Task::Transform(t)),
        None => kept,
    }
}

/// Whether every transformation of the queue has a well-formed set of cells.
pub open spec fn tasks_wf(queue: Seq<Task>) -> bool {
    forall|i: int| 0 <= i < queue.len() ==> (#[trigger] queue[i] matches Task::Transform(t) ==> t.to_transform.wf())
}

/// What the frame's work on the queue of tasks makes of the queue `q0`, the networks, the map
/// and the aging and living cells: the queue `q1`, the networks `networks1`, the cells `cells1`
/// and the cells `aging1` and `life1` (see `update_task_queue`).
pub open spec fn spec_queue_updated(
    q0: Seq<Task>,
    cancel_task: Option<usize>,
    selected: Option<TransformationTask>,
    advance: bool,
    networks: NetworksView,
    map: WorldMap,
    aging: Set<CellIndex>,
    life: Set<CellIndex>,
    q1: Seq<Task>,
    networks1: NetworksView,
    cells1: Map<CellIndex, Cell>,
    aging1: Set<CellIndex>,
    life1: Set<CellIndex>,
) -> bool {
        let q = spec_queued(q0, cancel_task, selected);
        if !advance || q.len() == 0 {
            &&& q1 == q
            &&& networks1 == networks
            &&& cells1 == map@
            &&& aging1 == aging
            &&& life1 == life
        } else {
            match q.last() {
                Task::Movement(_) => {
                    &&& q1 == q.drop_last()
                    &&& networks1 == networks
                    &&& cells1 == map@
                    &&& aging1 == aging
                    &&& life1 == life
                },
                Task::Transform(t) => {
                    let s = spec_try_build(
                        networks,
                        map@,
                        aging,
                        life,
                        map.spec_min_cell().y as int,
                        map.spec_max_cell().y as int,
                        t.transformation,
                        t.to_transform.spec_seq(),
                    );
                    &&& networks1 == s.networks
                    &&& cells1 == s.cells
                    &&& aging1 == s.aging
                    &&& life1 == s.life
                    &&& if s.remaining == Set::<CellIndex>::empty() {
                        q1 == q.drop_last()
                    } else {
                        &&& q1.len() == q.len()
                        &&& q1.drop_last() == q.drop_last()
                        &&& q1.last() matches Task::Transform(rest) && rest.to_transform@
                            == s.remaining && rest.to_transform.wf() && rest.transformation
                            == t.transformation && (rest.blocked_because matches Some(rs)
                            && rs@.no_duplicates() && rs@.to_set() == s.reasons)
                    }
                },
            }
        }
}

/// The frame's work on the queue of tasks: the task asked to be cancelled goes, the task asked
/// for joins at the back (see `spec_queued`); then, if the robots move this frame, the task at the
/// back is taken: a movement is done with, and a transformation is built (see `spec_try_build`)
/// and comes back to the back for the cells left, if any is left.
pub fn update_task_queue(
    queue: &mut VecDeque<Task>,
    cancel_task: Option<usize>,
    selected: Option<TransformationTask>,
    advance: bool,
    networks: &mut Networks,
    map: &mut WorldMap,
    aging_tiles: &mut CellSet,
    life: &mut CellSet,
)
    requires
        old(map).wf(),
        old(aging_tiles).wf(),
        old(life).wf(),
        tasks_wf(old(queue)@),
        selected matches Some(t) ==> t.to_transform.wf(),
        advance && spec_queued(old(queue)@, cancel_task, selected).len() > 0 ==> (spec_queued(
            old(queue)@,
            cancel_task,
            selected,
        ).last() matches Task::Transform(t) ==> spec_buildable(*old(map), t)),
    ensures
        spec_queue_updated(
            old(queue)@,
            cancel_task,
            selected,
            advance,
            old(networks)@,
            *old(map),
            old(aging_tiles)@,
            old(life)@,
            final(queue)@,
            final(networks)@,
            final(map)@,
            final(aging_tiles)@,
            final(life)@,
        ),
        final(map).wf(),
        final(aging_tiles).wf(),
        final(life).wf(),
        final(map).spec_min_cell() == old(map).spec_min_cell(),
        final(map).spec_max_cell() == old(map).spec_max_cell(),
        tasks_wf(final(queue)@),
{
    let ghost q0 = queue@;
    if let Some(i) = cancel_task {
        let _ = queue.remove(i);
    }
    proof {
        assert forall|i: int| 0 <= i < queue@.len() implies (#[trigger] queue@[i] matches Task::Transform(t)
            ==> t.to_transform.wf()) by {
            if queue@ != q0 {
                let c = cancel_task.unwrap() as int;
                if i < c {
                    assert(queue@[i] == q0[i]);
                } else {
                    assert(queue@[i] == q0[i + 1]);
                }
            }
        }
    }
    if let Some(task) = selected {
        queue.push_back(Task::Transform(task));
    }
    let ghost q = queue@;
    assert(q == spec_queued(q0, cancel_task, selected));
    proof {
        assert forall|i: int| 0 <= i < q.len() implies (#[trigger] q[i] matches Task::Transform(t)
            ==> t.to_transform.wf()) by {
            if i < q.len() - 1 || selected is None {
            }
        }
    }
    if !advance {
        return;
    }
    match queue.pop_back() {
        None => {},
        Some(Task::Movement(_)) => {
            proof {
                assert(queue@ =~= q.drop_last());
            }
        },
        Some(Task::Transform(task)) => {
            proof {
                assert(queue@ =~= q.drop_last());
                assert(q.last() == Task::Transform(task));
            }
            let left = try_build(networks, map, aging_tiles, life, task);
            if let Some(rest) = left {
                let ghost before = queue@;
                queue.push_back(rest);
                proof {
                    assert(queue@.drop_last() =~= before);
                }
            }
        },
    }
    proof {
        assert forall|i: int| 0 <= i < queue@.len() implies (#[trigger] queue@[i] matches Task::Transform(t)
            ==> t.to_transform.wf()) by {
            if i < q.len() - 1 {
                assert(queue@[i] == q[i]);
            }
        }
    }
}

/// Building on some cells changes no other cell, and leaves the cells left to build among them
/// or among those left before.
proof fn lemma_steps_touch_only_their_cells(
    s: BuildState,
    min_y: int,
    max_y: int,
    t: Transformation,
    ps: Seq<CellIndex>,
    p: CellIndex,
)
    ensures
        !ps.contains(p) ==> {
            let r = spec_build_steps(s, min_y, max_y, t, ps);
            &&& r.cells.dom().contains(p) == s.cells.dom().contains(p)
            &&& r.cells[p] == s.cells[p]
            &&& r.remaining.contains(p) == s.remaining.contains(p)
        },
        s.remaining.subset_of(spec_build_steps(s, min_y, max_y, t, ps).remaining),
    decreases ps.len(),
{
    if ps.len() > 0 {
        let rest = ps.drop_last();
        lemma_steps_touch_only_their_cells(s, min_y, max_y, t, rest, p);
        if !ps.contains(p) {
            assert(!rest.contains(p)) by {
                if rest.contains(p) {
                    let i = choose|i: int| 0 <= i < rest.len() && rest[i] == p;
                    assert(ps[i] == p);
                }
            }
            assert(ps.last() != p) by {
                assert(ps[ps.len() - 1] == ps.last());
            }
        }
    }
}

/// Building a transformation changes no cell of the map but those of the task.
pub proof fn lemma_try_build_touches_only_the_task(
    networks: NetworksView,
    cells: Map<CellIndex, Cell>,
    aging: Set<CellIndex>,
    life: Set<CellIndex>,
    min_y: int,
    max_y: int,
    t: Transformation,
    ps: Seq<CellIndex>,
    p: CellIndex,
)
    requires
        !ps.contains(p),
    ensures
        spec_try_build(networks, cells, aging, life, min_y, max_y, t, ps).cells.dom().contains(p)
            == cells.dom().contains(p),
        spec_try_build(networks, cells, aging, life, min_y, max_y, t, ps).cells[p] == cells[p],
{
    let near = ps.filter(reached_by(networks.ship_network));
    ps.filter_lemma(reached_by(networks.ship_network));
    assert(!near.contains(p)) by {
        if near.contains(p) {
            ps.lemma_filter_contains_rev(reached_by(networks.ship_network), p);
        }
    }
    let far = ps.filter(unreached_by(networks.ship_network));
    let start = BuildState {
        networks,
        cells,
        aging,
        life,
        remaining: far.to_set(),
        reasons: if far.len() > 0 {
            set![TransformationFailure::OutOfShipReach]
        } else {
            Set::empty()
        },
    };
    lemma_steps_touch_only_their_cells(start, min_y, max_y, t, near, p);
}

/// Building on cells, each once, either builds each cell (from what it held) or leaves it to
/// build.
proof fn lemma_steps_build_or_leave(
    s: BuildState,
    min_y: int,
    max_y: int,
    t: Transformation,
    ps: Seq<CellIndex>,
    k: int,
)
    requires
        ps.no_duplicates(),
        0 <= k < ps.len(),
    ensures
        ({
            let r = spec_build_steps(s, min_y, max_y, t, ps);
            r.remaining.contains(ps[k]) || r.cells[ps[k]] == t.spec_apply(s.cells[ps[k]])
        }),
    decreases ps.len(),
{
    let rest = ps.drop_last();
    let p = ps[k];
    assert forall|i: int, j: int| 0 <= i < j < rest.len() implies rest[i] != rest[j] by {
        assert(rest[i] == ps[i] && rest[j] == ps[j]);
    }
    let before = spec_build_steps(s, min_y, max_y, t, rest);
    if k < ps.len() - 1 {
        lemma_steps_build_or_leave(s, min_y, max_y, t, rest, k);
        assert(rest[k] == p);
        assert(ps.last() != p) by {
            assert(ps[ps.len() - 1] == ps.last());
        }
        lemma_steps_touch_only_their_cells(before, min_y, max_y, t, seq![ps.last()], p);
        assert(seq![ps.last()].drop_last() =~= Seq::<CellIndex>::empty());
        assert(!seq![ps.last()].contains(p));
    } else {
        assert(!rest.contains(p)) by {
            if rest.contains(p) {
                let i = choose|i: int| 0 <= i < rest.len() && rest[i] == p;
                assert(ps[i] == ps[k]);
            }
        }
        lemma_steps_touch_only_their_cells(s, min_y, max_y, t, rest, p);
    }
}

/// Building a transformation on a task's cells, each listed once: each cell of the task is
/// either left to build or holds what the transformation made of it.
pub proof fn lemma_try_build_builds_or_leaves(
    networks: NetworksView,
    cells: Map<CellIndex, Cell>,
    aging: Set<CellIndex>,
    life: Set<CellIndex>,
    min_y: int,
    max_y: int,
    t: Transformation,
    ps: Seq<CellIndex>,
    k: int,
)
    requires
        ps.no_duplicates(),
        0 <= k < ps.len(),
    ensures
        ({
            let r = spec_try_build(networks, cells, aging, life, min_y, max_y, t, ps);
            r.remaining.contains(ps[k]) || r.cells[ps[k]] == t.spec_apply(cells[ps[k]])
        }),
{
    let p = ps[k];
    let near_f = reached_by(networks.ship_network);
    let far_f = unreached_by(networks.ship_network);
    let near = ps.filter(near_f);
    let far = ps.filter(far_f);
    let start = BuildState {
        networks,
        cells,
        aging,
        life,
        remaining: far.to_set(),
        reasons: if far.len() > 0 {
            set![TransformationFailure::OutOfShipReach]
        } else {
            Set::empty()
        },
    };
    ps.filter_lemma(near_f);
    ps.filter_lemma(far_f);
    if adjacent_to(networks.ship_network, p) {
        assert(near_f(p));
        assert(near.contains(p));
        let j = choose|j: int| 0 <= j < near.len() && near[j] == p;
        lemma_filter_unique(ps, near_f);
        lemma_steps_build_or_leave(start, min_y, max_y, t, near, j);
    } else {
        assert(far_f(p));
        assert(far.contains(p));
        assert(start.remaining.contains(p));
        lemma_steps_touch_only_their_cells(start, min_y, max_y, t, near, p);
    }
}

} // verus!
