use vstd::prelude::*;

use crate::grid::IVec2;

verus! {

/// A rectangular region described by its first cell and the first cell past
/// it on each axis, with the outermost ring counted as wall.
pub struct Room {
    pub start: IVec2,
    pub end: IVec2,
}

impl Room {
    pub fn new(start: IVec2, end: IVec2) -> (r: Room)
        ensures
            r.start == start,
            r.end == end,
    {
        Room { start, end }
    }

    pub open spec fn is_wall_spec(self, coords: IVec2) -> bool {
        ||| self.start.x == coords.x
        ||| self.end.x - 1 == coords.x
        ||| self.start.y == coords.y
        ||| self.end.y - 1 == coords.y
    }

    /// A cell on the region's outermost ring.
    pub fn is_wall(&self, coords: IVec2) -> (r: bool)
        requires
            self.end.x > i32::MIN,
            self.end.y > i32::MIN,
        ensures
            r == self.is_wall_spec(coords),
    {
        self.start.x == coords.x || self.end.x - 1 == coords.x || self.start.y == coords.y
            || self.end.y - 1 == coords.y
    }
}

} // verus!
