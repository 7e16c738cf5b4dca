pub mod construction;
pub mod frame;
pub mod fluids;
pub mod game_state;
pub mod networks;
pub mod world_map;

use vstd::prelude::*;
use crate::world::world_map::cell::{spec_transition_aging_tile, transition_aging_tile, Cell, TileType};
use crate::world::world_map::cell_index::CellIndex;
use crate::world::world_map::cell_set::CellSet;
use crate::world::world_map::transform_cells::{Transformation, TransformationFailure};
use crate::world::world_map::WorldMap;
use crate::world::game_state::{GameState, GOAL_AIR_CLEANED};
use crate::world::networks::{nodes_in, Networks, NetworksView};

verus! {

/// Age of the world, in game minutes.
pub type AgeInMinutes = i64;

/// How many living cells finish the game once production was reached.
pub const LIFE_COUNT_REQUIRED_FOR_WINNING: usize = 50;

/// A job for the robots.
#[derive(Clone)]
pub enum Task {
    Transform(TransformationTask),
    Movement(CellIndex),
}

/// Cells to transform, and why the last attempt left some of them untransformed, if it did.
#[derive(Clone)]
pub struct TransformationTask {
    pub to_transform: CellSet,
    pub transformation: Transformation,
    pub blocked_because: Option<Vec<TransformationFailure>>,
}

impl TransformationTask {
    /// A task that was not tried yet.
    pub fn new(to_transform: CellSet, transformation: Transformation) -> (result: TransformationTask)
        ensures
            result.to_transform == to_transform,
            result.transformation == transformation,
            result.blocked_because is None,
    {
        TransformationTask { to_transform, transformation, blocked_because: None }
    }

    /// A task with the reasons why it is blocked, if it is.
    pub fn new_with_reason(
        to_transform: CellSet,
        transformation: Transformation,
        blocked_because: Option<Vec<TransformationFailure>>,
    ) -> (result: TransformationTask)
        ensures
            result.to_transform == to_transform,
            result.transformation == transformation,
            result.blocked_because == blocked_because,
    {
        TransformationTask { to_transform, transformation, blocked_because }
    }
}

/// How far the player is in the goals of the game.
#[derive(Copy, Clone, Eq, PartialEq, Debug, Structural)]
pub enum GameGoalState {
    InitialDialog,
    Started,
    ReachedProduction,
    Finished(AgeInMinutes),
    PostFinished,
}

/// The goal state that follows `current`: production is reached once enough air was cleaned;
/// the game is finished, at age `age`, once production was reached, every machine but the
/// ship is dismantled and enough cells live.
pub open spec fn spec_next_goal_state(
    current: GameGoalState,
    reached_air_goal: bool,
    non_ship_machine_count: int,
    life_count: int,
    age: AgeInMinutes,
) -> GameGoalState {
    if current == GameGoalState::Started && reached_air_goal {
        GameGoalState::ReachedProduction
    } else if current == GameGoalState::ReachedProduction && non_ship_machine_count == 0
        && life_count >= LIFE_COUNT_REQUIRED_FOR_WINNING {
        GameGoalState::Finished(age)
    } else {
        current
    }
}

/// Moves the goal state forward where its condition is met: production is reached once the
/// networks cleaned the air of the goal; the game is finished once, besides, every machine but
/// the ship is dismantled and enough cells live.
pub fn transition_goal_state(current: &mut GameGoalState, networks: &Networks, life_count: usize, age: AgeInMinutes)
    ensures
        *final(current) == spec_next_goal_state(
            *old(current),
            networks.air_cleaned >= GOAL_AIR_CLEANED,
            networks@.ship_network.nodes.len() + nodes_in(networks@.unconnected) - 1,
            life_count as int,
            age,
        ),
{
    if *current == GameGoalState::Started {
        if networks.get_total_air_cleaned() >= GOAL_AIR_CLEANED {
            *current = GameGoalState::ReachedProduction;
        }
    } else if *current == GameGoalState::ReachedProduction {
        if networks.only_ship_left() && life_count >= LIFE_COUNT_REQUIRED_FOR_WINNING {
            *current = GameGoalState::Finished(age);
        }
    }
}

/// The cell after one aging step: while the game is started (the air is dirty) it loses one
/// health, and degrades once its health is gone; otherwise it does not change.
pub open spec fn spec_aged_cell(cell: Cell, goal_state: GameGoalState) -> Cell {
    if goal_state == GameGoalState::Started {
        let hurt = Cell { health: (cell.health - 1) as i16, ..cell };
        if hurt.health <= 0 {
            spec_transition_aging_tile(hurt)
        } else {
            hurt
        }
    } else {
        cell
    }
}

/// Ages the cell one step. Returns whether it is dead.
pub fn age_tile(cell: &mut Cell, goal_state: GameGoalState) -> (died: bool)
    requires
        goal_state == GameGoalState::Started ==> old(cell).health > i16::MIN,
    ensures
        *final(cell) == spec_aged_cell(*old(cell), goal_state),
        died == (final(cell).tile_type == TileType::TreeDead),
{
    match goal_state {
        GameGoalState::Started => {
            cell.health = cell.health - 1;
            if cell.health <= 0 {
                transition_aging_tile(cell);
            }
        },
        _ => {},
    }
    cell.tile_type == TileType::TreeDead
}

/// The cells after every cell of `aging` aged one step.
pub open spec fn spec_aged_map(m: Map<CellIndex, Cell>, aging: Set<CellIndex>, goal_state: GameGoalState) -> Map<CellIndex, Cell> {
    Map::new(
        |idx: CellIndex| m.dom().contains(idx),
        |idx: CellIndex|
            if aging.contains(idx) {
                spec_aged_cell(m[idx], goal_state)
            } else {
                m[idx]
            },
    )
}

/// Whether the cell at `idx` dies when the cells of `aging` age one step.
pub open spec fn spec_dies(m: Map<CellIndex, Cell>, aging: Set<CellIndex>, goal_state: GameGoalState, idx: CellIndex) -> bool {
    aging.contains(idx) && spec_aged_cell(m[idx], goal_state).tile_type == TileType::TreeDead
}

/// Ages every aging cell one step, and forgets the living cells that died.
pub fn age_tiles(map: &mut WorldMap, aging_tiles: &CellSet, life: &mut CellSet, goal_state: GameGoalState)
    requires
        old(map).wf(),
        aging_tiles.wf(),
        old(life).wf(),
        forall|idx: CellIndex| #[trigger] aging_tiles@.contains(idx) ==> old(map)@.dom().contains(idx)
            && (goal_state == GameGoalState::Started ==> old(map)@[idx].health > i16::MIN),
    ensures
        final(map).wf(),
        final(map)@ == spec_aged_map(old(map)@, aging_tiles@, goal_state),
        final(life).wf(),
        final(life)@ == old(life)@.filter(|idx: CellIndex| !spec_dies(old(map)@, aging_tiles@, goal_state, idx)),
        final(map).spec_min_cell() == old(map).spec_min_cell(),
        final(map).spec_max_cell() == old(map).spec_max_cell(),
        final(map).spec_ship_position() == old(map).spec_ship_position(),
        final(map).spec_map_type() == old(map).spec_map_type(),
{
    let ghost m0 = map@;
    let ghost life0 = life@;
    let ghost aging = aging_tiles@;
    let ghost order = aging_tiles.spec_seq();
    proof {
        aging_tiles.lemma_seq();
    }
    let n = aging_tiles.len();
    let mut k: usize = 0;
    while k < n
        invariant
            n == order.len(),
            order.no_duplicates(),
            order.to_set() == aging,
            aging == aging_tiles@,
            order == aging_tiles.spec_seq(),
            aging_tiles.wf(),
            k <= n,
            map.wf(),
            life.wf(),
            forall|idx: CellIndex| #[trigger] aging.contains(idx) ==> m0.dom().contains(idx)
                && (goal_state == GameGoalState::Started ==> m0[idx].health > i16::MIN),
            map@.dom() == m0.dom(),
            forall|idx: CellIndex| #[trigger] map@.dom().contains(idx) ==> map@[idx] == if order.take(k as int).contains(idx) {
                spec_aged_cell(m0[idx], goal_state)
            } else {
                m0[idx]
            },
            life@ == life0.filter(|idx: CellIndex| !(order.take(k as int).contains(idx) && spec_aged_cell(m0[idx], goal_state).tile_type == TileType::TreeDead)),
            map.spec_min_cell() == old(map).spec_min_cell(),
            map.spec_max_cell() == old(map).spec_max_cell(),
            map.spec_ship_position() == old(map).spec_ship_position(),
            map.spec_map_type() == old(map).spec_map_type(),
        decreases n - k,
    {
        let cell_index = aging_tiles.get(k);
        proof {
            assert(order.to_set().contains(order[k as int]));
            assert(!order.take(k as int).contains(cell_index)) by {
                if order.take(k as int).contains(cell_index) {
                    let j = choose|j: int| 0 <= j < k && #[trigger] order.take(k as int)[j] == cell_index;
                    assert(order[j] == order[k as int]);
                }
            }
            assert(order.take(k + 1) =~= order.take(k as int).push(cell_index));
        }
        let ghost before_life = life@;
        let cell = map.get_cell_mut(cell_index);
        let died = age_tile(cell, goal_state);
        if died {
            life.remove(&cell_index);
        }
        proof {
            assert forall|idx: CellIndex| #[trigger] life@.contains(idx) == life0.filter(|idx: CellIndex| !(order.take(k + 1).contains(idx) && spec_aged_cell(m0[idx], goal_state).tile_type == TileType::TreeDead)).contains(idx) by {
                lemma_take_next_contains(order, k as int, idx);
            }
            assert(life@ =~= life0.filter(|idx: CellIndex| !(order.take(k + 1).contains(idx) && spec_aged_cell(m0[idx], goal_state).tile_type == TileType::TreeDead)));
            assert forall|idx: CellIndex| #[trigger] map@.dom().contains(idx) implies map@[idx] == if order.take(k + 1).contains(idx) {
                spec_aged_cell(m0[idx], goal_state)
            } else {
                m0[idx]
            } by {
                lemma_take_next_contains(order, k as int, idx);
            }
        }
        k = k + 1;
    }
    proof {
        assert(order.take(n as int) =~= order);
        assert(map@ =~= spec_aged_map(m0, aging, goal_state));
        assert(life@ =~= life0.filter(|idx: CellIndex| !spec_dies(m0, aging, goal_state, idx)));
    }
}

/// The first `k + 1` items hold what the first `k` hold, and item `k`.
proof fn lemma_take_next_contains(order: Seq<CellIndex>, k: int, idx: CellIndex)
    requires
        0 <= k < order.len(),
    ensures
        order.take(k + 1).contains(idx) == (order.take(k).contains(idx) || idx == order[k]),
{
    if order.take(k).contains(idx) {
        let j = choose|j: int| 0 <= j < k && #[trigger] order.take(k)[j] == idx;
        assert(order.take(k + 1)[j] == idx);
    }
    if idx == order[k] {
        assert(order.take(k + 1)[k] == idx);
    }
    if order.take(k + 1).contains(idx) && idx != order[k] {
        let j = choose|j: int| 0 <= j < k + 1 && #[trigger] order.take(k + 1)[j] == idx;
        assert(order.take(k)[j] == idx);
    }
}

/// Goes to the next frame; the world is one minute older every 60 frames.
pub fn advance_frame(game_state: &mut GameState, age_in_minutes: &mut AgeInMinutes)
    requires
        old(game_state).wf(),
        *old(age_in_minutes) < AgeInMinutes::MAX,
    ensures
        final(game_state).wf(),
        final(game_state).frame_index == (old(game_state).frame_index + 1) % 3600,
        *final(age_in_minutes) == *old(age_in_minutes) + if final(game_state).frame_index % 60 == 0 {
            1int
        } else {
            0int
        },
        final(game_state).profile == old(game_state).profile,
        final(game_state).spec_advancing_fluids() == old(game_state).spec_advancing_fluids(),
        final(game_state).spec_single_step() == old(game_state).spec_single_step(),
        final(game_state).spec_fluid_period() == old(game_state).spec_fluid_period(),
        final(game_state).spec_robots_period() == old(game_state).spec_robots_period(),
        final(game_state).spec_aging_period() == old(game_state).spec_aging_period(),
{
    game_state.advance_frame();
    if game_state.frame_index % 60 == 0 {
        *age_in_minutes = *age_in_minutes + 1;
    }
}

/// How far along the goals a state is.
pub open spec fn goal_rank(state: GameGoalState) -> int {
    match state {
        GameGoalState::InitialDialog => 0,
        GameGoalState::Started => 1,
        GameGoalState::ReachedProduction => 2,
        GameGoalState::Finished(_) => 3,
        GameGoalState::PostFinished => 4,
    }
}

/// The goals only move forward: a transition keeps the state or moves it one step on, and a
/// finished game keeps the age at which it finished.
pub proof fn lemma_goal_state_moves_forward(
    current: GameGoalState,
    reached_air_goal: bool,
    non_ship_machine_count: int,
    life_count: int,
    age: AgeInMinutes,
)
    ensures
        ({
            let next = spec_next_goal_state(current, reached_air_goal, non_ship_machine_count, life_count, age);
            &&& next == current || goal_rank(next) == goal_rank(current) + 1
            &&& (current matches GameGoalState::Finished(a) ==> next == GameGoalState::Finished(a))
        }),
{
}

/// The game is finished only once production was reached, every machine but the ship is
/// dismantled and enough cells live: while any machine besides the ship stands, a game that
/// reached production stays there.
pub proof fn lemma_finished_only_when_dismantled(
    current: GameGoalState,
    reached_air_goal: bool,
    non_ship_machine_count: int,
    life_count: int,
    age: AgeInMinutes,
)
    ensures
        ({
            let next = spec_next_goal_state(current, reached_air_goal, non_ship_machine_count, life_count, age);
            &&& (next is Finished && !(current is Finished)) ==> {
                &&& current == GameGoalState::ReachedProduction
                &&& non_ship_machine_count == 0
                &&& life_count >= LIFE_COUNT_REQUIRED_FOR_WINNING
                &&& next == GameGoalState::Finished(age)
            }
            &&& (current == GameGoalState::ReachedProduction && non_ship_machine_count != 0)
                ==> next == GameGoalState::ReachedProduction
        }),
{
}

/// With a machine besides the ship left in the networks, the goal state that
/// `transition_goal_state` moves to from `ReachedProduction` is `ReachedProduction` again,
/// however many cells live.
pub proof fn lemma_machines_left_keep_production(
    networks: NetworksView,
    reached_air_goal: bool,
    life_count: int,
    age: AgeInMinutes,
)
    requires
        networks.ship_network.nodes.len() + nodes_in(networks.unconnected) > 1,
    ensures
        spec_next_goal_state(
            GameGoalState::ReachedProduction,
            reached_air_goal,
            networks.ship_network.nodes.len() + nodes_in(networks.unconnected) - 1,
            life_count,
            age,
        ) == GameGoalState::ReachedProduction,
{
    lemma_finished_only_when_dismantled(
        GameGoalState::ReachedProduction,
        reached_air_goal,
        networks.ship_network.nodes.len() + nodes_in(networks.unconnected) - 1,
        life_count,
        age,
    );
}

/// A dead tree stays dead however it ages, and a cell that does not age is left as it is.
pub proof fn lemma_dead_stays_dead(cell: Cell, goal_state: GameGoalState)
    ensures
        cell.tile_type == TileType::TreeDead ==> spec_aged_cell(cell, goal_state).tile_type == TileType::TreeDead,
        goal_state != GameGoalState::Started ==> spec_aged_cell(cell, goal_state) == cell,
{
}

/// A robot, where it stands.
#[derive(Copy, Clone, Debug, PartialEq, Eq, Structural)]
pub struct Robot {
    pub position: CellIndex,
}

/// The robots of a fresh world: one at the ship, if there is a ship.
pub fn reset_robots(ship_position: Option<CellIndex>) -> (result: Vec<Robot>)
    ensures
        match ship_position {
            Some(position) => result@ == seq![Robot { position }],
            None => result@.len() == 0,
        },
{
    match ship_position {
        None => Vec::new(),
        Some(position) => {
            let mut robots = Vec::new();
            robots.push(Robot { position });
            assert(robots@ =~= seq![Robot { position }]);
            robots
        },
    }
}

} // verus!
