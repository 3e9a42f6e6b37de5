//! World positions and the rectangular placement zone.

use vstd::prelude::*;

verus! {

/// A position in world coordinates.
#[derive(Clone, Copy, PartialEq, Eq, Structural, Debug)]
pub struct Pos {
    pub x: i64,
    pub y: i64,
}

impl Pos {
    pub fn new(x: i64, y: i64) -> (p: Pos)
        ensures
            p.x == x,
            p.y == y,
    {
        Pos { x, y }
    }
}

/// A rectangular region of world positions; the upper bounds are exclusive.
#[derive(Clone, Copy, PartialEq, Eq, Structural, Debug)]
pub struct Zone {
    pub x_min: i64,
    pub x_max: i64,
    pub y_min: i64,
    pub y_max: i64,
}

impl Zone {
    pub open spec fn contains_spec(self, p: Pos) -> bool {
        &&& self.x_min <= p.x < self.x_max
        &&& self.y_min <= p.y < self.y_max
    }

    /// Whether `p` lies inside the zone.
    pub fn contains(&self, p: Pos) -> (r: bool)
        ensures
            r == self.contains_spec(p),
    {
        self.x_min <= p.x && p.x < self.x_max && self.y_min <= p.y && p.y < self.y_max
    }
}

/// The zone in which the game permits placement.
pub open spec fn placement_zone() -> Zone {
    Zone { x_min: -200i64, x_max: 300i64, y_min: -100i64, y_max: 250i64 }
}

/// Builds the game's placement zone.
pub fn default_placement_zone() -> (z: Zone)
    ensures
        z == placement_zone(),
{
    Zone { x_min: -200, x_max: 300, y_min: -100, y_max: 250 }
}

} // verus!
