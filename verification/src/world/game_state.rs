use vstd::prelude::*;
use crate::screen::gui::format_units::{format_unit, spec_format_unit};

verus! {

pub const DEFAULT_PROFILE_ENABLED: bool = false;

pub const DEFAULT_ADVANCING_FLUIDS: bool = false;

pub const DEFAULT_ADVANCE_FLUID_EVERY_N_FRAMES: i32 = 10;

pub const DEFAULT_ADVANCE_ROBOTS_EVERY_N_FRAMES: i32 = 15;

pub const DEFAULT_AGING_EVERY_N_FRAMES: i32 = 15;

/// Number of frames after which the frame index starts again from 0.
pub const FRAME_CYCLE: i32 = 3600;

/// Offset of each kind of work inside its period, so that they fall on different frames.
pub const PHASE_ROBOTS: i32 = 0;

pub const PHASE_FLUIDS: i32 = 1;

pub const PHASE_AGING: i32 = 2;

/// Which kinds of work the game does on the current frame.
pub struct GameState {
    pub frame_index: i32,
    pub profile: bool,
    pub advancing_fluids: bool,
    pub advancing_fluids_single_step: bool,
    pub advance_fluid_every_n_frames: i32,
    pub advance_robots_every_n_frames: i32,
    pub age_every_n_frames: i32,
}

/// Whether work with period `every_n` and offset `phase` is done on frame `frame`.
pub open spec fn spec_on_phase(frame: int, every_n: int, phase: int) -> bool {
    (frame + every_n - phase) % every_n == 0
}

fn on_phase(frame: i32, every_n: i32, phase: i32) -> (result: bool)
    requires
        0 <= frame < FRAME_CYCLE,
        1 <= every_n <= FRAME_CYCLE,
        0 <= phase <= 2,
    ensures
        result == spec_on_phase(frame as int, every_n as int, phase as int),
{
    let shifted: i64 = frame as i64 + every_n as i64 - phase as i64 + 2 * every_n as i64;
    assert(((shifted as int) - 2 * (every_n as int)) % (every_n as int) == (shifted as int) % (every_n as int)) by (nonlinear_arith)
        requires
            every_n >= 1,
    ;
    shifted % (every_n as i64) == 0
}

impl GameState {
    pub open spec fn spec_advancing_fluids(&self) -> bool {
        self.advancing_fluids
    }

    pub open spec fn spec_single_step(&self) -> bool {
        self.advancing_fluids_single_step
    }

    pub open spec fn spec_fluid_period(&self) -> int {
        self.advance_fluid_every_n_frames as int
    }

    pub open spec fn spec_robots_period(&self) -> int {
        self.advance_robots_every_n_frames as int
    }

    pub open spec fn spec_aging_period(&self) -> int {
        self.age_every_n_frames as int
    }

    /// The frame index is inside its cycle and every period is at least one frame.
    pub open spec fn wf(&self) -> bool {
        &&& 0 <= self.frame_index < FRAME_CYCLE
        &&& 1 <= self.spec_fluid_period() <= FRAME_CYCLE
        &&& 1 <= self.spec_robots_period() <= FRAME_CYCLE
        &&& 1 <= self.spec_aging_period() <= FRAME_CYCLE
    }

    /// The state of the first frame: fluids advance if `fluids`, every 10 frames; robots and
    /// aging every 15.
    pub fn new(fluids: bool) -> (result: GameState)
        ensures
            result.wf(),
            result.frame_index == 0,
            result.profile == DEFAULT_PROFILE_ENABLED,
            result.spec_advancing_fluids() == fluids,
            !result.spec_single_step(),
            result.spec_fluid_period() == DEFAULT_ADVANCE_FLUID_EVERY_N_FRAMES,
            result.spec_robots_period() == DEFAULT_ADVANCE_ROBOTS_EVERY_N_FRAMES,
            result.spec_aging_period() == DEFAULT_AGING_EVERY_N_FRAMES,
    {
        GameState {
            frame_index: 0,
            advancing_fluids: fluids,
            advancing_fluids_single_step: false,
            advance_fluid_every_n_frames: DEFAULT_ADVANCE_FLUID_EVERY_N_FRAMES,
            advance_robots_every_n_frames: DEFAULT_ADVANCE_ROBOTS_EVERY_N_FRAMES,
            profile: DEFAULT_PROFILE_ENABLED,
            age_every_n_frames: DEFAULT_AGING_EVERY_N_FRAMES,
        }
    }

    /// Toggles whether fluids advance, and sets whether they advance by one step this frame.
    pub fn update_with_gui_actions(&mut self, toggle_fluids: bool, single_fluid: bool)
        ensures
            final(self).spec_advancing_fluids() == (old(self).spec_advancing_fluids() != toggle_fluids),
            final(self).spec_single_step() == single_fluid,
            final(self).frame_index == old(self).frame_index,
            final(self).profile == old(self).profile,
            final(self).spec_fluid_period() == old(self).spec_fluid_period(),
            final(self).spec_robots_period() == old(self).spec_robots_period(),
            final(self).spec_aging_period() == old(self).spec_aging_period(),
    {
        if toggle_fluids {
            self.advancing_fluids = !self.advancing_fluids;
        }
        self.advancing_fluids_single_step = single_fluid;
    }

    /// Whether the robots work on this frame.
    pub fn should_advance_robots_this_frame(&self) -> (result: bool)
        requires
            self.wf(),
        ensures
            result == spec_on_phase(self.frame_index as int, self.spec_robots_period(), PHASE_ROBOTS as int),
    {
        on_phase(self.frame_index, self.advance_robots_every_n_frames, PHASE_ROBOTS)
    }

    /// Whether fluids advance on this frame: on a single step, or on their phase while they
    /// advance.
    pub fn should_advance_fluids_this_frame(&self) -> (result: bool)
        requires
            self.wf(),
        ensures
            result == (self.spec_single_step() || (self.spec_advancing_fluids() && spec_on_phase(
                self.frame_index as int,
                self.spec_fluid_period(),
                PHASE_FLUIDS as int,
            ))),
    {
        if self.advancing_fluids_single_step {
            true
        } else if self.advancing_fluids {
            on_phase(self.frame_index, self.advance_fluid_every_n_frames, PHASE_FLUIDS)
        } else {
            false
        }
    }

    /// Whether the living cells age on this frame.
    pub fn should_age_this_frame(&self) -> (result: bool)
        requires
            self.wf(),
        ensures
            result == spec_on_phase(self.frame_index as int, self.spec_aging_period(), PHASE_AGING as int),
    {
        on_phase(self.frame_index, self.age_every_n_frames, PHASE_AGING)
    }

    /// Makes every kind of work happen on every frame.
    pub fn set_advance_every_frame(&mut self)
        ensures
            final(self).spec_fluid_period() == 1,
            final(self).spec_robots_period() == 1,
            final(self).spec_aging_period() == 1,
            final(self).frame_index == old(self).frame_index,
            final(self).profile == old(self).profile,
            final(self).spec_advancing_fluids() == old(self).spec_advancing_fluids(),
            final(self).spec_single_step() == old(self).spec_single_step(),
    {
        self.advance_robots_every_n_frames = 1;
        self.advance_fluid_every_n_frames = 1;
        self.age_every_n_frames = 1;
    }

    /// Goes to the next frame, back to 0 after `FRAME_CYCLE` frames.
    pub fn advance_frame(&mut self)
        requires
            old(self).wf(),
        ensures
            final(self).wf(),
            final(self).frame_index == (old(self).frame_index + 1) % FRAME_CYCLE as int,
            final(self).profile == old(self).profile,
            final(self).spec_advancing_fluids() == old(self).spec_advancing_fluids(),
            final(self).spec_single_step() == old(self).spec_single_step(),
            final(self).spec_fluid_period() == old(self).spec_fluid_period(),
            final(self).spec_robots_period() == old(self).spec_robots_period(),
            final(self).spec_aging_period() == old(self).spec_aging_period(),
    {
        self.frame_index = (self.frame_index + 1) % FRAME_CYCLE;
    }
}

/// Work with a period comes back every period: it is done on a frame exactly when it is done
/// `every_n` frames later.
pub proof fn lemma_on_phase_period(frame: int, every_n: int, phase: int)
    requires
        every_n >= 1,
    ensures
        spec_on_phase(frame, every_n, phase) == spec_on_phase(frame + every_n, every_n, phase),
{
    assert((frame + every_n - phase) % every_n == (frame + every_n + every_n - phase) % every_n) by (nonlinear_arith)
        requires
            every_n >= 1,
    ;
}

/// Liters of air the networks have to clean to reach production.
pub const GOAL_AIR_CLEANED: i64 = 100_000;

/// The goal of cleaned air, written as the game shows amounts ("100 KL").
pub fn get_goal_air_cleaned_str() -> (result: String)
    ensures
        result@ == spec_format_unit(GOAL_AIR_CLEANED as int, "L"@),
{
    format_unit(GOAL_AIR_CLEANED, "L")
}

} // verus!
