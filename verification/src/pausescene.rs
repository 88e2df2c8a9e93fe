use vstd::prelude::*;

use crate::input::InputState;
use crate::state::Transition;

verus! {

/// The pause overlay: it freezes the game beneath it (which stays visible
/// through `draws_beneath`) and waits for the confirm key to pop itself.
#[derive(Clone, Copy, Debug, PartialEq, Eq, Structural)]
pub struct PauseScene;

impl PauseScene {
    pub fn new() -> (s: PauseScene)
        ensures
            s == PauseScene,
    {
        PauseScene
    }

    /// On confirm, pop this overlay and resume the scene beneath it;
    /// otherwise stay.
    pub fn update(&self, input: &InputState) -> (t: Transition)
        ensures
            t == (if input.confirm {
                Transition::Pop
            } else {
                Transition::Stay
            }),
    {
        if input.confirm {
            Transition::Pop
        } else {
            Transition::Stay
        }
    }
}

} // verus!
