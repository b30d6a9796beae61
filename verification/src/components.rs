use vstd::prelude::*;

use crate::grid::IVec2;
use crate::store::EntityId;
use crate::timer::Timer;

verus! {

/// Marker for the player-controlled character.
pub struct Controllable;

/// Marker for wandering AI characters.
pub struct Roamer;

/// A cell-to-cell movement animation: its endpoints and the clock that
/// paces it.
pub struct MoveTween {
    pub start: IVec2,
    pub end: IVec2,
    pub timer: Timer,
}

/// Logical cell of a board object.
#[derive(Clone, Copy, PartialEq, Eq, Structural, Debug, Hash)]
pub struct Coords(pub IVec2);

/// Marker for tiles that block movement.
pub struct Solid;

/// A tile's record of the character standing on it, if any.
pub struct HasCharacter {
    pub entity: EntityId,
}

} // verus!
