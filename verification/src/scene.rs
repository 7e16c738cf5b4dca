use vstd::prelude::*;

verus! {

/// What the game loop does after a frame.
#[derive(Eq, PartialEq, Copy, Clone, Debug, Structural)]
pub enum GameLoopState {
    ShouldContinue,
    ShouldFinish,
    /// Go on, with the camera moved back to the ship.
    ShouldRepositionCamera,
}

impl GameLoopState {
    /// Whether the game goes on.
    pub fn should_continue(&self) -> (result: bool)
        ensures
            result == (*self != GameLoopState::ShouldFinish),
    {
        *self != GameLoopState::ShouldFinish
    }
}

/// A screen of the game, drawn one frame at a time.
pub trait Scene {
    /// Draws one frame and says whether the game goes on.
    fn frame(&mut self) -> GameLoopState;
}

} // verus!
