use vstd::prelude::*;

use crate::action::{Action, Actions};
use crate::grid::{ortho_step, IVec2};
use crate::store::EntityId;

verus! {

/// Marker for the player-controlled entity.
pub struct Controllable;

/// Map one frame of resolved player input to a turn intent.
///
/// The input arrives already resolved: one of the five movement vectors
/// (the four orthogonal unit steps or zero) plus attack and wait flags.
/// While the scheduler is locked every intent is rejected and nothing
/// changes. Otherwise, pressing toward the faced direction queues a move
/// and locks; pressing another direction queues a turn-in-place and locks;
/// the attack flag queues a player attack and locks; the wait flag queues
/// a wait and locks. Returns whether an intent was accepted.
pub fn input(
    acts: &mut Actions,
    entity: EntityId,
    facing: IVec2,
    direction: IVec2,
    attack: bool,
    wait: bool,
) -> (accepted: bool)
    requires
        old(acts).wf(),
        ortho_step(direction),
    ensures
        final(acts).wf(),
        final(acts).timer_spec() == old(acts).timer_spec(),
        old(acts).locked() ==> !accepted && *final(acts) == *old(acts),
        !old(acts).locked() ==> {
            let zero = direction.x == 0 && direction.y == 0;
            if !zero && facing == direction {
                &&& accepted
                &&& final(acts).locked()
                &&& final(acts).queue_seq() == old(acts).queue_seq().push(
                    Action::Move(entity, direction),
                ).push(Action::Tick)
            } else if !zero {
                &&& accepted
                &&& final(acts).locked()
                &&& final(acts).queue_seq() == old(acts).queue_seq().push(
                    Action::Face(entity, direction),
                )
            } else if attack {
                &&& accepted
                &&& final(acts).locked()
                &&& final(acts).queue_seq() == old(acts).queue_seq().push(
                    Action::PlayerAttack(entity),
                ).push(Action::Tick)
            } else if wait {
                &&& accepted
                &&& final(acts).locked()
                &&& final(acts).queue_seq() == old(acts).queue_seq().push(Action::Wait).push(
                    Action::Tick,
                )
            } else {
                &&& !accepted
                &&& *final(acts) == *old(acts)
            }
        },
{
    if acts.is_locked() {
        return false;
    }
    let zero = direction.x == 0 && direction.y == 0;
    if !zero && facing == direction {
        acts.queue(Action::Move(entity, direction));
        acts.lock_and_tick();
        true
    } else if !zero {
        acts.queue(Action::Face(entity, direction));
        acts.lock();
        true
    } else if attack {
        acts.queue(Action::PlayerAttack(entity));
        acts.lock_and_tick();
        true
    } else if wait {
        acts.queue(Action::Wait);
        acts.lock_and_tick();
        true
    } else {
        false
    }
}

/// Resolve pressed movement keys into one direction, first match winning:
/// up, then down, then right, then left; none pressed gives zero.
pub fn get_input_direction(up: bool, down: bool, right: bool, left: bool) -> (r: IVec2)
    ensures
        r == if up {
            IVec2 { x: 0i32, y: 1i32 }
        } else if down {
            IVec2 { x: 0i32, y: -1i32 }
        } else if right {
            IVec2 { x: 1i32, y: 0i32 }
        } else if left {
            IVec2 { x: -1i32, y: 0i32 }
        } else {
            IVec2 { x: 0i32, y: 0i32 }
        },
        ortho_step(r),
{
    let mut direction = IVec2 { x: 0, y: 0 };
    if up {
        direction.y = direction.y + 1;
    } else if down {
        direction.y = direction.y - 1;
    } else if right {
        direction.x = direction.x + 1;
    } else if left {
        direction.x = direction.x - 1;
    }
    direction
}

/// Resolve pressed movement keys by summing axes; a diagonal combination
/// cancels to zero, so the result is always orthogonal or zero.
pub fn get_direction(up: bool, down: bool, left: bool, right: bool) -> (r: IVec2)
    ensures
        ortho_step(r),
        ({
            let x = (if left { -1int } else { 0int }) + (if right { 1int } else { 0int });
            let y = (if up { 1int } else { 0int }) + (if down { -1int } else { 0int });
            r == if x != 0 && y != 0 {
                IVec2 { x: 0i32, y: 0i32 }
            } else {
                IVec2 { x: x as i32, y: y as i32 }
            }
        }),
{
    let mut direction = IVec2 { x: 0, y: 0 };
    direction.y = direction.y + if up { 1 } else { 0 };
    direction.y = direction.y + if down { -1 } else { 0 };
    direction.x = direction.x + if left { -1 } else { 0 };
    direction.x = direction.x + if right { 1 } else { 0 };

    if direction.x != 0 && direction.y != 0 {
        direction = IVec2 { x: 0, y: 0 };
    }
    direction
}

} // verus!
