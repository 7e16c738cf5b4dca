use vstd::prelude::*;
use std::collections::VecDeque;
use crate::scene::GameLoopState;
use crate::screen::gui::gui_actions::GuiActions;
use crate::world::construction::{spec_buildable, spec_queue_updated, spec_queued, tasks_wf, update_task_queue};
use crate::world::fluids::{
    spec_advance_fluid, spec_fluid_bounded, spec_next_fluid_stage, spec_stage_map, FluidMode, Fluids,
};
use crate::world::game_state::{
    spec_on_phase, GameState, DEFAULT_ADVANCING_FLUIDS, DEFAULT_PROFILE_ENABLED, GOAL_AIR_CLEANED,
    PHASE_AGING, PHASE_FLUIDS, PHASE_ROBOTS,
};
use crate::world::networks::{air_cleaned_in, fits, nodes_in, Networks, NetworksView, MAX_NETWORKS_NODES};
use crate::world::world_map::cell_index::CellIndex;
use crate::world::world_map::cell_set::CellSet;
use crate::world::world_map::generation::ColumnHeights;
use crate::world::world_map::{MapType, WorldMap};
use crate::world::{
    TransformationTask, advance_frame, age_tiles, reset_robots, spec_aged_map, spec_dies, spec_next_goal_state,
    transition_goal_state, AgeInMinutes, GameGoalState, Robot, Task,
};

verus! {

/// The world of a game: the map, its fluids, the robots and their tasks, the networks of
/// machines, the aging and the living cells, and how far the game is.
pub struct World {
    pub map: WorldMap,
    pub fluids: Fluids,
    pub robots: Vec<Robot>,
    pub task_queue: VecDeque<Task>,
    pub networks: Networks,
    pub aging_tiles: CellSet,
    pub life: CellSet,
    pub game_state: GameState,
    pub goal_state: GameGoalState,
    pub age_in_minutes: AgeInMinutes,
}

impl World {
    /// The parts of the world are well formed.
    pub open spec fn wf(&self) -> bool {
        &&& self.map.wf()
        &&& self.aging_tiles.wf()
        &&& self.life.wf()
        &&& tasks_wf(self.task_queue@)
        &&& self.game_state.wf()
    }

    /// A world on `map`, whose ship must have landed: the fluids advance in stages, one robot
    /// waits at the ship, the ship's network holds the ship, nothing ages or lives yet, and the
    /// game waits at its first dialog.
    pub fn new_with_map(profile: bool, fluids: bool, map: WorldMap) -> (result: World)
        requires
            map.wf(),
            map.spec_ship_position() is Some,
        ensures
            result.wf(),
            result.map == map,
            result.fluids.spec_mode() == FluidMode::InStages,
            result.fluids.spec_profile() == profile,
            result.game_state.profile == profile,
            result.game_state.spec_advancing_fluids() == fluids,
            result.game_state.frame_index == 0,
            result.robots@ == seq![Robot { position: map.spec_ship_position()->0 }],
            result.task_queue@ == Seq::<Task>::empty(),
            result.networks@ == Networks::new_spec(map.spec_ship_position()->0),
            result.aging_tiles@ == Set::<CellIndex>::empty(),
            result.life@ == Set::<CellIndex>::empty(),
            result.goal_state == GameGoalState::InitialDialog,
            result.age_in_minutes == 0,
    {
        let mut game_state = GameState::new(fluids);
        game_state.profile = profile;
        let ship_position = map.get_ship_position();
        let mut world_fluids = Fluids::new(FluidMode::InStages);
        world_fluids.set_profile(profile);
        let networks = Networks::new(ship_position.unwrap());
        World {
            robots: reset_robots(ship_position),
            networks,
            map,
            fluids: world_fluids,
            task_queue: VecDeque::new(),
            aging_tiles: CellSet::new(),
            life: CellSet::new(),
            game_state,
            goal_state: GameGoalState::InitialDialog,
            age_in_minutes: 0,
        }
    }

    /// A world on a generated island, with the default options.
    pub fn new() -> (result: World)
        ensures
            result.wf(),
            result.map.spec_map_type() == MapType::Island,
            result.game_state.profile == DEFAULT_PROFILE_ENABLED,
            result.game_state.spec_advancing_fluids() == DEFAULT_ADVANCING_FLUIDS,
            result.task_queue@ == Seq::<Task>::empty(),
            result.goal_state == GameGoalState::InitialDialog,
            result.age_in_minutes == 0,
    {
        let no_heights = ColumnHeights::new(0, 0, 0, 0, Vec::new()).unwrap();
        let map = WorldMap::new_generated(MapType::Island, &no_heights).unwrap();
        Self::new_with_map(DEFAULT_PROFILE_ENABLED, DEFAULT_ADVANCING_FLUIDS, map)
    }
}

/// Whether the robots work on the frame of `game_state`.
pub open spec fn spec_robots_work(game_state: GameState) -> bool {
    spec_on_phase(game_state.frame_index as int, game_state.spec_robots_period(), PHASE_ROBOTS as int)
}

/// Whether the fluids advance on the frame of `game_state`: on a single step, or on their
/// phase while they advance.
pub open spec fn spec_fluids_flow(game_state: GameState) -> bool {
    game_state.spec_single_step() || (game_state.spec_advancing_fluids() && spec_on_phase(
        game_state.frame_index as int,
        game_state.spec_fluid_period(),
        PHASE_FLUIDS as int,
    ))
}

/// Whether the aging cells age on the frame of `game_state`.
pub open spec fn spec_cells_age(game_state: GameState) -> bool {
    spec_on_phase(game_state.frame_index as int, game_state.spec_aging_period(), PHASE_AGING as int)
}

/// Whether every aging cell is in the map, and (while the game is started, when aging hurts)
/// has health left to lose.
pub open spec fn spec_aging_ready(map: WorldMap, aging: Set<CellIndex>, goal_state: GameGoalState) -> bool {
    forall|idx: CellIndex| #[trigger] aging.contains(idx) ==> map@.dom().contains(idx) && (goal_state
        == GameGoalState::Started ==> map@[idx].health > i16::MIN)
}

/// The frame's settings: profiling switched if asked (in the game state and the fluids), and
/// the fluids switched on or off, and stepped once, as asked. Nothing else changes.
pub open spec fn spec_settings_applied(
    w: World,
    s: World,
    toggle_profiling: bool,
    toggle_fluids: bool,
    single_fluid: bool,
) -> bool {
    let profile = if toggle_profiling {
        !w.game_state.profile
    } else {
        w.game_state.profile
    };
    &&& s.game_state.wf()
    &&& s.game_state.profile == profile
    &&& s.game_state.frame_index == w.game_state.frame_index
    &&& s.game_state.spec_advancing_fluids() == (w.game_state.spec_advancing_fluids() != toggle_fluids)
    &&& s.game_state.spec_single_step() == single_fluid
    &&& s.game_state.spec_fluid_period() == w.game_state.spec_fluid_period()
    &&& s.game_state.spec_robots_period() == w.game_state.spec_robots_period()
    &&& s.game_state.spec_aging_period() == w.game_state.spec_aging_period()
    &&& s.fluids.spec_profile() == if toggle_profiling {
        profile
    } else {
        w.fluids.spec_profile()
    }
    &&& s.fluids.spec_mode() == w.fluids.spec_mode()
    &&& s.fluids.spec_next_stage() == w.fluids.spec_next_stage()
    &&& s.map == w.map
    &&& s.robots == w.robots
    &&& s.task_queue == w.task_queue
    &&& s.networks == w.networks
    &&& s.aging_tiles == w.aging_tiles
    &&& s.life == w.life
    &&& s.goal_state == w.goal_state
    &&& s.age_in_minutes == w.age_in_minutes
}

/// The frame's work on the queue of tasks (see `spec_queue_updated`), on a robots' frame.
pub open spec fn spec_queue_stage(
    w: World,
    s: World,
    cancel_task: Option<usize>,
    selected: Option<TransformationTask>,
) -> bool {
    &&& spec_queue_updated(
        w.task_queue@,
        cancel_task,
        selected,
        spec_robots_work(w.game_state),
        w.networks@,
        w.map,
        w.aging_tiles@,
        w.life@,
        s.task_queue@,
        s.networks@,
        s.map@,
        s.aging_tiles@,
        s.life@,
    )
    &&& s.map.wf()
    &&& s.aging_tiles.wf()
    &&& s.life.wf()
    &&& tasks_wf(s.task_queue@)
    &&& s.map.spec_min_cell() == w.map.spec_min_cell()
    &&& s.map.spec_max_cell() == w.map.spec_max_cell()
    &&& s.fluids == w.fluids
    &&& s.robots == w.robots
    &&& s.game_state == w.game_state
    &&& s.goal_state == w.goal_state
    &&& s.age_in_minutes == w.age_in_minutes
}

/// On a fluids' frame the fluids advance (a whole step, or the next stage), unless some
/// pressure is too high for their accounts to stay exact, and then nothing moves.
pub open spec fn spec_fluids_stage(w: World, s: World) -> bool {
    &&& if spec_fluids_flow(w.game_state) {
        let advanced = spec_fluid_bounded(w.map@, i32::MAX - 20int);
        &&& s.map.wf()
        &&& advanced ==> s.map@ == match w.fluids.spec_mode() {
            FluidMode::AllTogether => spec_advance_fluid(w.map@),
            FluidMode::InStages => spec_stage_map(w.map@, w.fluids.spec_next_stage()),
        }
        &&& advanced ==> s.fluids.spec_next_stage() == match w.fluids.spec_mode() {
            FluidMode::AllTogether => w.fluids.spec_next_stage(),
            FluidMode::InStages => spec_next_fluid_stage(w.fluids.spec_next_stage()),
        }
        &&& !advanced ==> s.map@ == w.map@ && s.fluids.spec_next_stage() == w.fluids.spec_next_stage()
        &&& s.fluids.spec_mode() == w.fluids.spec_mode()
        &&& s.fluids.spec_profile() == w.fluids.spec_profile()
        &&& s.map.spec_min_cell() == w.map.spec_min_cell()
        &&& s.map.spec_max_cell() == w.map.spec_max_cell()
        &&& s.map.spec_ship_position() == w.map.spec_ship_position()
        &&& s.map.spec_map_type() == w.map.spec_map_type()
    } else {
        s.map == w.map && s.fluids == w.fluids
    }
    &&& s.robots == w.robots
    &&& s.task_queue == w.task_queue
    &&& s.networks == w.networks
    &&& s.aging_tiles == w.aging_tiles
    &&& s.life == w.life
    &&& s.game_state == w.game_state
    &&& s.goal_state == w.goal_state
    &&& s.age_in_minutes == w.age_in_minutes
}

/// Asked to regenerate the map, the world takes the regenerated map, drops the networks not
/// connected to the ship and the count of the air cleaned, puts the robots back at the new
/// ship and forgets the tasks; the camera is to be placed again. Else the game goes on unless
/// asked to quit.
pub open spec fn spec_regeneration_stage(
    w: World,
    s: World,
    regenerate_map: bool,
    quit: bool,
    regenerated: Option<WorldMap>,
    result: GameLoopState,
) -> bool {
    &&& if regenerate_map {
        let map = regenerated->0;
        &&& s.map == map
        &&& s.networks@ == (NetworksView { unconnected: Seq::empty(), air_cleaned: 0, ..w.networks@ })
        &&& match map.spec_ship_position() {
            Some(position) => s.robots@ == seq![Robot { position }],
            None => s.robots@.len() == 0,
        }
        &&& s.task_queue@ == Seq::<Task>::empty()
        &&& result == GameLoopState::ShouldRepositionCamera
    } else {
        &&& s.map == w.map
        &&& s.networks == w.networks
        &&& s.robots == w.robots
        &&& s.task_queue == w.task_queue
        &&& result == if quit {
            GameLoopState::ShouldFinish
        } else {
            GameLoopState::ShouldContinue
        }
    }
    &&& s.fluids == w.fluids
    &&& s.aging_tiles == w.aging_tiles
    &&& s.life == w.life
    &&& s.game_state == w.game_state
    &&& s.goal_state == w.goal_state
    &&& s.age_in_minutes == w.age_in_minutes
}

/// The networks count the air they clean in the frame, unless they left the limits that keep
/// their accounts exact, and then the count stays.
pub open spec fn spec_air_stage(w: World, s: World) -> bool {
    &&& if fits(w.networks@, 1) && w.networks.air_cleaned + MAX_NETWORKS_NODES <= i64::MAX {
        s.networks@ == (NetworksView {
            air_cleaned: w.networks@.air_cleaned + w.networks@.ship_network.air_cleaned_speed()
                + air_cleaned_in(w.networks@.unconnected),
            ..w.networks@
        })
    } else {
        s.networks == w.networks
    }
    &&& s.map == w.map
    &&& s.fluids == w.fluids
    &&& s.robots == w.robots
    &&& s.task_queue == w.task_queue
    &&& s.aging_tiles == w.aging_tiles
    &&& s.life == w.life
    &&& s.game_state == w.game_state
    &&& s.goal_state == w.goal_state
    &&& s.age_in_minutes == w.age_in_minutes
}

/// On an aging frame the aging cells age one step and the living cells that die are forgotten
/// (see `age_tiles`), when every aging cell is in the map and can lose health; else nothing ages.
pub open spec fn spec_aging_stage(w: World, s: World) -> bool {
    &&& if spec_cells_age(w.game_state) && spec_aging_ready(w.map, w.aging_tiles@, w.goal_state) {
        &&& s.map.wf()
        &&& s.life.wf()
        &&& s.map@ == spec_aged_map(w.map@, w.aging_tiles@, w.goal_state)
        &&& s.life@ == w.life@.filter(|idx: CellIndex| !spec_dies(w.map@, w.aging_tiles@, w.goal_state, idx))
        &&& s.map.spec_min_cell() == w.map.spec_min_cell()
        &&& s.map.spec_max_cell() == w.map.spec_max_cell()
        &&& s.map.spec_ship_position() == w.map.spec_ship_position()
        &&& s.map.spec_map_type() == w.map.spec_map_type()
    } else {
        s.map == w.map && s.life == w.life
    }
    &&& s.fluids == w.fluids
    &&& s.robots == w.robots
    &&& s.task_queue == w.task_queue
    &&& s.networks == w.networks
    &&& s.aging_tiles == w.aging_tiles
    &&& s.game_state == w.game_state
    &&& s.goal_state == w.goal_state
    &&& s.age_in_minutes == w.age_in_minutes
}

/// The goals: resetting the quantities drops the count of the air cleaned and the age and goes
/// back to the first dialog; a goal state asked for is taken; then the goal state moves forward
/// where its condition is met (see `spec_next_goal_state`).
pub open spec fn spec_goal_stage(
    w: World,
    s: World,
    reset: bool,
    next_game_goal_state: Option<GameGoalState>,
) -> bool {
    let networks = if reset {
        NetworksView { air_cleaned: 0, ..w.networks@ }
    } else {
        w.networks@
    };
    let age: AgeInMinutes = if reset {
        0
    } else {
        w.age_in_minutes
    };
    let chosen = match next_game_goal_state {
        Some(state) => state,
        None => if reset {
            GameGoalState::InitialDialog
        } else {
            w.goal_state
        },
    };
    &&& s.networks@ == networks
    &&& s.age_in_minutes == age
    &&& s.goal_state == spec_next_goal_state(
        chosen,
        networks.air_cleaned >= GOAL_AIR_CLEANED,
        networks.ship_network.nodes.len() + nodes_in(networks.unconnected) - 1,
        w.life@.len() as int,
        age,
    )
    &&& s.map == w.map
    &&& s.fluids == w.fluids
    &&& s.robots == w.robots
    &&& s.task_queue == w.task_queue
    &&& s.aging_tiles == w.aging_tiles
    &&& s.life == w.life
    &&& s.game_state == w.game_state
}

/// The next frame: its index moves on in the cycle, and the age grows by a minute every sixty
/// frames.
pub open spec fn spec_frame_advanced(w: World, s: World) -> bool {
    &&& s.game_state.wf()
    &&& s.game_state.frame_index == (w.game_state.frame_index + 1) % 3600
    &&& s.age_in_minutes == w.age_in_minutes + if s.game_state.frame_index % 60 == 0 {
        1int
    } else {
        0int
    }
    &&& s.game_state.profile == w.game_state.profile
    &&& s.game_state.spec_advancing_fluids() == w.game_state.spec_advancing_fluids()
    &&& s.game_state.spec_single_step() == w.game_state.spec_single_step()
    &&& s.game_state.spec_fluid_period() == w.game_state.spec_fluid_period()
    &&& s.game_state.spec_robots_period() == w.game_state.spec_robots_period()
    &&& s.game_state.spec_aging_period() == w.game_state.spec_aging_period()
    &&& s.map == w.map
    &&& s.fluids == w.fluids
    &&& s.robots == w.robots
    &&& s.task_queue == w.task_queue
    &&& s.networks == w.networks
    &&& s.aging_tiles == w.aging_tiles
    &&& s.life == w.life
    &&& s.goal_state == w.goal_state
}

/// Whether the world `s` is what one frame makes of `w`, through the states `w1` to `w7` that
/// its steps go through, in order: the settings, the queue of tasks, the fluids, the
/// regeneration of the map, the air cleaned, the aging, the goals and the frame count.
pub open spec fn spec_frame(
    w: World,
    w1: World,
    w2: World,
    w3: World,
    w4: World,
    w5: World,
    w6: World,
    w7: World,
    s: World,
    g: GuiActions,
    regenerated: Option<WorldMap>,
    result: GameLoopState,
) -> bool {
    &&& spec_settings_applied(w, w1, g.toggle_profiling, g.toggle_fluids, g.single_fluid)
    &&& spec_queue_stage(w1, w2, g.cancel_task, g.selected_cell_transformation)
    &&& spec_fluids_stage(w2, w3)
    &&& spec_regeneration_stage(w3, w4, g.regenerate_map, g.quit, regenerated, result)
    &&& spec_air_stage(w4, w5)
    &&& spec_aging_stage(w5, w6)
    &&& spec_goal_stage(w6, w7, g.reset_quantities, g.next_game_goal_state)
    &&& spec_frame_advanced(w7, s)
}

/// Whether every aging cell is in the map and can lose health; see `spec_aging_ready`.
pub fn aging_ready(map: &WorldMap, aging: &CellSet, goal_state: GameGoalState) -> (result: bool)
    requires
        map.wf(),
        aging.wf(),
    ensures
        result == spec_aging_ready(*map, aging@, goal_state),
{
    proof {
        aging.lemma_seq();
    }
    let ghost order = aging.spec_seq();
    let n = aging.len();
    let mut i: usize = 0;
    while i < n
        invariant
            n == order.len(),
            order == aging.spec_seq(),
            order.to_set() == aging@,
            aging.wf(),
            map.wf(),
            i <= n,
            forall|j: int| 0 <= j < i ==> {
                let idx = #[trigger] order[j];
                map@.dom().contains(idx) && (goal_state == GameGoalState::Started ==> map@[idx].health
                    > i16::MIN)
            },
        decreases n - i,
    {
        let idx = aging.get(i);
        match map.get_cell_optional(idx) {
            None => {
                proof {
                    assert(order.contains(order[i as int]));
                    assert(aging@.contains(order[i as int]));
                }
                return false;
            },
            Some(cell) => {
                if goal_state == GameGoalState::Started && cell.health == i16::MIN {
                    proof {
                        assert(order.contains(order[i as int]));
                        assert(aging@.contains(order[i as int]));
                    }
                    return false;
                }
            },
        }
        i = i + 1;
    }
    proof {
        assert forall|idx: CellIndex| #[trigger] aging@.contains(idx) implies map@.dom().contains(idx) && (
        goal_state == GameGoalState::Started ==> map@[idx].health > i16::MIN) by {
            assert(order.to_set().contains(idx));
            let j = choose|j: int| 0 <= j < order.len() && order[j] == idx;
            assert(order[j] == idx);
        }
    }
    true
}

impl World {
    /// The frame's settings; see `spec_settings_applied`.
    fn apply_settings(&mut self, toggle_profiling: bool, toggle_fluids: bool, single_fluid: bool)
        requires
            old(self).game_state.wf(),
        ensures
            spec_settings_applied(*old(self), *final(self), toggle_profiling, toggle_fluids, single_fluid),
    {
        if toggle_profiling {
            let profile = !self.game_state.profile;
            self.game_state.profile = profile;
            self.fluids.set_profile(profile);
        }
        self.game_state.update_with_gui_actions(toggle_fluids, single_fluid);
    }

    /// The frame's work on the queue of tasks; see `spec_queue_stage`.
    fn work_on_tasks(&mut self, cancel_task: Option<usize>, selected: Option<TransformationTask>)
        requires
            old(self).wf(),
            selected matches Some(t) ==> t.to_transform.wf(),
            spec_robots_work(old(self).game_state) && spec_queued(old(self).task_queue@, cancel_task, selected).len()
                > 0 ==> (spec_queued(old(self).task_queue@, cancel_task, selected).last() matches Task::Transform(
                t,
            ) ==> spec_buildable(old(self).map, t)),
        ensures
            spec_queue_stage(*old(self), *final(self), cancel_task, selected),
            final(self).wf(),
    {
        let advance = self.game_state.should_advance_robots_this_frame();
        update_task_queue(
            &mut self.task_queue,
            cancel_task,
            selected,
            advance,
            &mut self.networks,
            &mut self.map,
            &mut self.aging_tiles,
            &mut self.life,
        );
    }

    /// The frame's flow of fluids; see `spec_fluids_stage`.
    fn flow_fluids(&mut self)
        requires
            old(self).wf(),
        ensures
            spec_fluids_stage(*old(self), *final(self)),
            final(self).wf(),
    {
        if self.game_state.should_advance_fluids_this_frame() {
            let _ = self.fluids.try_advance(&mut self.map);
        }
    }

    /// The regeneration of the map, if asked for; see `spec_regeneration_stage`.
    fn maybe_regenerate(&mut self, regenerate_map: bool, quit: bool, regenerated: Option<WorldMap>) -> (result:
        GameLoopState)
        requires
            old(self).wf(),
            regenerate_map ==> (regenerated matches Some(map) && map.wf()),
        ensures
            spec_regeneration_stage(*old(self), *final(self), regenerate_map, quit, regenerated, result),
            final(self).wf(),
    {
        if regenerate_map {
            match regenerated {
                Some(map) => {
                    self.map = map;
                },
                None => {},
            }
            self.networks.clear();
            self.robots = reset_robots(self.map.get_ship_position());
            self.task_queue.clear();
            GameLoopState::ShouldRepositionCamera
        } else if quit {
            GameLoopState::ShouldFinish
        } else {
            GameLoopState::ShouldContinue
        }
    }

    /// The air cleaned in the frame; see `spec_air_stage`.
    fn count_air(&mut self)
        requires
            old(self).wf(),
        ensures
            spec_air_stage(*old(self), *final(self)),
            final(self).wf(),
    {
        if self.networks.has_room() && self.networks.air_cleaned <= i64::MAX - MAX_NETWORKS_NODES as i64 {
            self.networks.update();
        }
    }

    /// The aging of the frame; see `spec_aging_stage`.
    fn age_cells(&mut self)
        requires
            old(self).wf(),
        ensures
            spec_aging_stage(*old(self), *final(self)),
            final(self).wf(),
    {
        if self.game_state.should_age_this_frame() && aging_ready(&self.map, &self.aging_tiles, self.goal_state) {
            age_tiles(&mut self.map, &self.aging_tiles, &mut self.life, self.goal_state);
        }
    }

    /// The goals of the frame; see `spec_goal_stage`.
    fn update_goal_state(&mut self, reset_quantities: bool, next_game_goal_state: Option<GameGoalState>)
        requires
            old(self).wf(),
        ensures
            spec_goal_stage(*old(self), *final(self), reset_quantities, next_game_goal_state),
            final(self).wf(),
    {
        if reset_quantities {
            self.networks.reset_production();
            self.age_in_minutes = 0;
            self.goal_state = GameGoalState::InitialDialog;
        }
        if let Some(state) = next_game_goal_state {
            self.goal_state = state;
        }
        let life_count = self.life.len();
        transition_goal_state(&mut self.goal_state, &self.networks, life_count, self.age_in_minutes);
    }

    /// Plays one frame of the game (see `spec_frame`); `regenerated` is the map to take when the
    /// user asks to regenerate it. Returns what the game loop does next.
    pub fn update(&mut self, gui_actions: GuiActions, regenerated: Option<WorldMap>) -> (result: GameLoopState)
        requires
            old(self).wf(),
            old(self).age_in_minutes < AgeInMinutes::MAX,
            gui_actions.regenerate_map ==> (regenerated matches Some(map) && map.wf()),
            gui_actions.selected_cell_transformation matches Some(t) ==> t.to_transform.wf(),
            spec_robots_work(old(self).game_state) && spec_queued(
                old(self).task_queue@,
                gui_actions.cancel_task,
                gui_actions.selected_cell_transformation,
            ).len() > 0 ==> (spec_queued(
                old(self).task_queue@,
                gui_actions.cancel_task,
                gui_actions.selected_cell_transformation,
            ).last() matches Task::Transform(t) ==> spec_buildable(old(self).map, t)),
        ensures
            final(self).wf(),
            exists|w1: World, w2: World, w3: World, w4: World, w5: World, w6: World, w7: World|
                #[trigger] spec_frame(
                    *old(self),
                    w1,
                    w2,
                    w3,
                    w4,
                    w5,
                    w6,
                    w7,
                    *final(self),
                    gui_actions,
                    regenerated,
                    result,
                ),
    {
        let ghost w0 = *self;
        let ghost g = gui_actions;
        let GuiActions {
            quit,
            regenerate_map,
            toggle_profiling,
            toggle_fluids,
            single_fluid,
            reset_quantities,
            cancel_task,
            selected_cell_transformation,
            next_game_goal_state,
            ..
        } = gui_actions;
        self.apply_settings(toggle_profiling, toggle_fluids, single_fluid);
        let ghost w1 = *self;
        self.work_on_tasks(cancel_task, selected_cell_transformation);
        let ghost w2 = *self;
        self.flow_fluids();
        let ghost w3 = *self;
        let result = self.maybe_regenerate(regenerate_map, quit, regenerated);
        let ghost w4 = *self;
        self.count_air();
        let ghost w5 = *self;
        self.age_cells();
        let ghost w6 = *self;
        self.update_goal_state(reset_quantities, next_game_goal_state);
        let ghost w7 = *self;
        advance_frame(&mut self.game_state, &mut self.age_in_minutes);
        assert(spec_frame_advanced(w7, *self));
        assert(spec_frame(w0, w1, w2, w3, w4, w5, w6, w7, *self, g, regenerated, result));
        result
    }
}

} // verus!
