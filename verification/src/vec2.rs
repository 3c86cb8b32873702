//! Points and extents in the plane.

use crate::fixed::Fixed;
use vstd::prelude::*;

verus! {

/// A point of the plane, or an extent along both axes.
#[derive(Clone, Copy, Debug, PartialEq, Eq, Structural)]
pub struct Vec2 {
    pub x: Fixed,
    pub y: Fixed,
}

impl View for Vec2 {
    type V = (int, int);

    /// The two raw values.
    open spec fn view(&self) -> (int, int) {
        (self.x@, self.y@)
    }
}

impl Vec2 {
    /// The point with the given coordinates.
    pub fn new(x: Fixed, y: Fixed) -> (r: Vec2)
        ensures
            r@ == (x@, y@),
    {
        Vec2 { x, y }
    }
}

} // verus!
