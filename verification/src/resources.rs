use vstd::prelude::*;

use crate::grid::IVec2;

verus! {

/// World-generation configuration handed in at startup.
pub struct Settings {
    pub floor_count: usize,
    pub room_count: usize,
    pub room_size: IVec2,
    pub tile_size: IVec2,
}

/// Which floor of the dungeon is being simulated.
pub struct Floor {
    pub current: usize,
}

} // verus!
