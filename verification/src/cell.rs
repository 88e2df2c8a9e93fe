use vstd::prelude::*;

verus! {

/// Edge length in pixels of one board cell; a block is drawn inset by one
/// pixel on each side, so the visible block is `CELL_SIZE - 2` pixels wide.
pub const CELL_SIZE: i32 = 16;

/// One cell of the board: empty, or filled with a block.
///
/// The payload of `Full` is a palette index in `[0, 7)`, one per piece kind;
/// the renderer outside this crate maps it to an actual color.
#[derive(Clone, Copy, Debug, PartialEq, Eq, Structural)]
pub enum Cell {
    Empty,
    Full(u8),
}

impl Cell {
    /// True exactly when the cell holds a block.
    pub fn is_full(&self) -> (r: bool)
        ensures
            r == (*self is Full),
    {
        match *self {
            Cell::Full(_) => true,
            _ => false,
        }
    }
}

} // verus!
