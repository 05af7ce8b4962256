//! Tile positions and per-tile visibility.

use vstd::prelude::*;

verus! {

/// The position of a tile on the map: column `x`, row `y`.
#[derive(Clone, Copy, Debug, PartialEq, Eq, Structural)]
pub struct Pos {
    pub x: u32,
    pub y: u32,
}

impl Pos {
    pub fn new(x: u32, y: u32) -> (pos: Pos)
        ensures
            pos.x == x,
            pos.y == y,
    {
        Pos { x, y }
    }

    /// The position as a pair, the form in which positions key the
    /// pathfinder's tables.
    pub open spec fn key(self) -> (u32, u32) {
        (self.x, self.y)
    }
}

/// How much of a tile the player can see.
#[derive(Clone, Copy, Debug, PartialEq, Eq, Structural)]
pub enum Visibility {
    /// Never seen.
    Hidden,
    /// Seen before, but not currently in sight.
    Fogged,
    /// Currently in sight.
    Visible,
}

/// A position that lies outside the map.
#[derive(Clone, Copy, Debug, PartialEq, Eq, Structural)]
pub struct OutOfBounds {
    pub x: u32,
    pub y: u32,
}

} // verus!
