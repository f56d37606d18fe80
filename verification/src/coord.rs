//! Board positions.

use vstd::prelude::*;

verus! {

/// A cell of the board: `y` is the row, `x` the column.
#[derive(PartialEq, Eq, Structural, Clone, Copy, Debug)]
pub struct Coord {
    pub y: i64,
    pub x: i64,
}

impl Default for Coord {
    /// The top-left corner.
    fn default() -> (c: Self)
        ensures
            c.y == 0,
            c.x == 0,
    {
        Self { y: 0, x: 0 }
    }
}

} // verus!
