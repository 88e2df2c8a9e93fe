use vstd::prelude::*;

use crate::input::InputState;
use crate::mainscene::{is_fresh_game, MainScene};
use crate::state::{State, Transition};

verus! {

/// The title screen: it waits for the confirm key and then replaces itself
/// with a fresh game.
#[derive(Clone, Copy, Debug, PartialEq, Eq, Structural)]
pub struct IntroScene;

impl IntroScene {
    pub fn new() -> (s: IntroScene)
        ensures
            s == IntroScene,
    {
        IntroScene
    }

    /// On confirm, switch to a fresh game; otherwise stay.
    pub fn update(&self, input: &InputState) -> (t: Transition)
        ensures
            intro_update_rel(*input, t),
    {
        if input.confirm {
            Transition::Switch(State::Main(MainScene::new()))
        } else {
            Transition::Stay
        }
    }
}

/// The intro switches to some fresh game exactly on confirm (which game is
/// up to the bag shuffle), and otherwise changes nothing.
pub open spec fn intro_update_rel(input: InputState, t: Transition) -> bool {
    if input.confirm {
        t matches Transition::Switch(State::Main(m)) && is_fresh_game(m)
    } else {
        t == Transition::Stay
    }
}

} // verus!
