use vstd::prelude::*;

verus! {

/// The logical keys the game reads, as "currently held" flags. The caller
/// polls its input source once per frame and hands the sampled flags to the
/// scene updates together with the elapsed milliseconds.
#[derive(Clone, Copy, Debug, PartialEq, Eq, Structural)]
pub struct InputState {
    /// Move the active piece one column to the left.
    pub left: bool,
    /// Move the active piece one column to the right.
    pub right: bool,
    /// Soft drop: while held, gravity fires at the short interval.
    pub down: bool,
    /// Rotate the active piece one quarter-turn, with wall kicks.
    pub rotate: bool,
    /// Hard drop: project the piece to its lowest legal row and lock it.
    pub hard_drop: bool,
    /// Confirm / start (the Enter key).
    pub confirm: bool,
    /// Open the pause overlay.
    pub pause: bool,
}

} // verus!
