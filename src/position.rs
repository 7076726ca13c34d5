use vstd::prelude::*;

use crate::layout::interior;

verus! {

/// A grid cell, identified by its column `x` and row `y`.
#[derive(Clone, Copy, Debug, PartialEq, Eq, Hash, Structural)]
pub struct Position {
    pub x: i32,
    pub y: i32,
}

impl Position {
    pub fn new(x: i32, y: i32) -> (r: Position)
        ensures
            r.x == x,
            r.y == y,
    {
        Position { x, y }
    }

    /// The key under which this cell is stored.
    pub open spec fn cell(self) -> (i32, i32) {
        (self.x, self.y)
    }

    /// Both coordinates leave room for a neighbour on every side.
    pub open spec fn is_interior(self) -> bool {
        interior(self.cell())
    }

    /// The cell shifted by `dx` columns and `dy` rows.
    pub fn add(&self, dx: i32, dy: i32) -> (r: Position)
        requires
            i32::MIN <= self.x + dx <= i32::MAX,
            i32::MIN <= self.y + dy <= i32::MAX,
        ensures
            r.x == self.x + dx,
            r.y == self.y + dy,
    {
        Position { x: self.x + dx, y: self.y + dy }
    }
}

} // verus!
