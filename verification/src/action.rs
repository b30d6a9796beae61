use vstd::prelude::*;

use crate::damage::{AttackState, DamageEvent};
use crate::grid::{step_vec, vec_add, IVec2};
use crate::physics::MoveEvent;
use crate::store::{
    lemma_seq_index_unique, seq_ent_of, seq_has, seq_index_of, DesyncError, Ent, EntityId, Store,
};
use crate::timer::Timer;

verus! {

/// One turn action, consumed exactly once by the scheduler's drain.
#[derive(Clone, Copy, PartialEq, Eq, Structural, Debug)]
pub enum Action {
    /// Advance the turn counter; consumed by the AI.
    Tick,
    /// Set an entity's facing direction.
    Face(EntityId, IVec2),
    /// A player attack: expands to `Attack` followed by a pacing `Delay`.
    PlayerAttack(EntityId),
    /// Resolve an attack from an entity toward the cell it faces.
    Attack(EntityId),
    /// A one-step move intent for an entity.
    Move(EntityId, IVec2),
    /// Consume a turn slot doing nothing.
    Wait,
    /// Reset the pacing timer.
    Delay,
}

/// Directions carried by queued actions are single-cell steps.
pub open spec fn action_wf(a: Action) -> bool {
    match a {
        Action::Face(_, d) => step_vec(d),
        Action::Move(_, d) => step_vec(d),
        _ => true,
    }
}

/// Termination measure of one queued action: how much queue weight its
/// dispatch can leave behind (front-insertions included).
pub open spec fn action_weight(a: Action) -> nat {
    match a {
        Action::PlayerAttack(_) => 3,
        Action::Face(_, _) => 2,
        _ => 1,
    }
}

pub open spec fn queue_weight(q: Seq<Action>) -> nat
    decreases q.len(),
{
    if q.len() == 0 {
        0
    } else {
        action_weight(q[0]) + queue_weight(q.drop_first())
    }
}

/// The centerpiece: an ordered action queue with a lock flag and the pacing
/// timer that gates when the queue drains.
pub struct Actions {
    queue: Vec<Action>,
    timer: Timer,
    is_locked: bool,
}

impl Actions {
    pub closed spec fn queue_seq(self) -> Seq<Action> {
        self.queue@
    }

    pub closed spec fn timer_spec(self) -> Timer {
        self.timer
    }

    pub closed spec fn locked(self) -> bool {
        self.is_locked
    }

    pub open spec fn wf(self) -> bool {
        &&& self.timer_spec().wf()
        &&& forall|i: int|
            0 <= i < self.queue_seq().len() ==> action_wf(#[trigger] self.queue_seq()[i])
    }

    /// Engage the lock and append a turn-advance signal for the AI.
    pub fn lock_and_tick(&mut self)
        requires
            old(self).wf(),
        ensures
            final(self).wf(),
            final(self).locked(),
            final(self).queue_seq() == old(self).queue_seq().push(Action::Tick),
            final(self).timer_spec() == old(self).timer_spec(),
    {
        self.lock();
        self.queue(Action::Tick);
    }

    /// Engage the lock; queued actions and the timer are untouched.
    pub fn lock(&mut self)
        requires
            old(self).wf(),
        ensures
            final(self).wf(),
            final(self).locked(),
            final(self).queue_seq() == old(self).queue_seq(),
            final(self).timer_spec() == old(self).timer_spec(),
    {
        self.is_locked = true;
        proof {
            assert forall|i: int|
                0 <= i < self.queue_seq().len() implies action_wf(
                #[trigger] self.queue_seq()[i],
            ) by {
                assert(action_wf(old(self).queue_seq()[i]));
            }
        }
    }

    /// Append an action at the back of the queue (first-in, first-out).
    pub fn queue(&mut self, action: Action)
        requires
            old(self).wf(),
            action_wf(action),
        ensures
            final(self).wf(),
            final(self).locked() == old(self).locked(),
            final(self).queue_seq() == old(self).queue_seq().push(action),
            final(self).timer_spec() == old(self).timer_spec(),
    {
        self.queue.push(action);
        proof {
            assert forall|i: int|
                0 <= i < self.queue_seq().len() implies action_wf(
                #[trigger] self.queue_seq()[i],
            ) by {
                if i < old(self).queue_seq().len() {
                    assert(self.queue_seq()[i] == old(self).queue_seq()[i]);
                    assert(action_wf(old(self).queue_seq()[i]));
                } else {
                    assert(self.queue_seq()[i] == action);
                }
            }
        }
    }

    /// Insert an action at the front, displacing everything queued: it will
    /// run before anything already waiting.
    pub fn push(&mut self, action: Action)
        requires
            old(self).wf(),
            action_wf(action),
        ensures
            final(self).wf(),
            final(self).locked() == old(self).locked(),
            final(self).queue_seq() == seq![action] + old(self).queue_seq(),
            final(self).timer_spec() == old(self).timer_spec(),
    {
        self.queue.insert(0, action);
        proof {
            assert(self.queue@ =~= seq![action] + old(self).queue_seq());
            assert forall|i: int|
                0 <= i < self.queue_seq().len() implies action_wf(
                #[trigger] self.queue_seq()[i],
            ) by {
                if i == 0 {
                    assert(self.queue_seq()[i] == action);
                } else {
                    assert(self.queue_seq()[i] == old(self).queue_seq()[i - 1]);
                    assert(action_wf(old(self).queue_seq()[i - 1]));
                }
            }
        }
    }

    /// How many actions are waiting in the queue.
    pub fn queue_len(&self) -> (r: usize)
        ensures
            r == self.queue_seq().len(),
    {
        self.queue.len()
    }

    /// A copy of the queued actions, front first.
    pub fn queued_actions(&self) -> (r: Vec<Action>)
        ensures
            r@ == self.queue_seq(),
    {
        let n = self.queue.len();
        let mut r: Vec<Action> = Vec::new();
        let mut i: usize = 0;
        while i < n
            invariant
                n == self.queue_seq().len(),
                0 <= i <= n,
                r@ == self.queue_seq().take(i as int),
            decreases n - i,
        {
            r.push(self.queue[i]);
            proof {
                assert(r@ =~= self.queue_seq().take(i as int + 1));
            }
            i = i + 1;
        }
        proof {
            assert(self.queue_seq().take(n as int) =~= self.queue_seq());
        }
        r
    }

    pub fn is_locked(&self) -> (r: bool)
        ensures
            r == self.locked(),
    {
        self.is_locked
    }

    fn unlock(&mut self)
        requires
            old(self).wf(),
        ensures
            final(self).wf(),
            !final(self).locked(),
            final(self).queue_seq() == old(self).queue_seq(),
            final(self).timer_spec() == old(self).timer_spec(),
    {
        self.is_locked = false;
        proof {
            assert forall|i: int|
                0 <= i < self.queue_seq().len() implies action_wf(
                #[trigger] self.queue_seq()[i],
            ) by {
                assert(action_wf(old(self).queue_seq()[i]));
            }
        }
    }
}

impl Default for Actions {
    /// Unlocked, with an empty queue and a fresh pacing period.
    fn default() -> (r: Actions)
        ensures
            r.wf(),
            !r.locked(),
            r.queue_seq().len() == 0,
            r.timer_spec().elapsed() == 0,
            r.timer_spec().duration() == 200,
    {
        Actions { queue: Vec::new(), timer: Timer::from_millis(200), is_locked: false }
    }
}

/// Everything one full drain produced: the entity state left behind (only
/// facings change), the emitted events, and how many pacing delays ran.
pub ghost struct DrainOut {
    pub ents: Seq<Ent>,
    pub moves: Seq<MoveEvent>,
    pub damages: Seq<DamageEvent>,
    pub ticks: nat,
    pub delays: nat,
}

/// Events a drain emitted, in dispatch order, plus the turn-advance count.
#[derive(Debug)]
pub struct SchedulerOutput {
    pub moves: Vec<MoveEvent>,
    pub damages: Vec<DamageEvent>,
    pub ticks: usize,
    pub delays: usize,
}

/// Dispatch semantics of a full drain, action by action from the front.
///
/// `PlayerAttack(e)` front-inserts `Delay` then `Attack(e)`, so the attack
/// runs immediately and the pacing delay after it; here that expansion is
/// written out directly. `Attack(e)` reads the attacker's cell and facing,
/// and emits a damage event if the faced cell has an indexed target (an
/// empty cell is a no-op, not an error). `Face` turns the entity at once.
/// An action naming an entity the store does not hold aborts the drain:
/// the occupancy state is corrupted.
pub open spec fn drain_rec(q: Seq<Action>, ents: Seq<Ent>, att: AttackState) -> Option<DrainOut>
    decreases q.len(),
{
    if q.len() == 0 {
        Some(
            DrainOut {
                ents,
                moves: Seq::empty(),
                damages: Seq::empty(),
                ticks: 0,
                delays: 0,
            },
        )
    } else {
        let rest = q.drop_first();
        match q[0] {
            Action::Tick => match drain_rec(rest, ents, att) {
                Some(o) => Some(DrainOut { ticks: o.ticks + 1, ..o }),
                None => None,
            },
            Action::Wait => drain_rec(rest, ents, att),
            Action::Delay => match drain_rec(rest, ents, att) {
                Some(o) => Some(DrainOut { delays: o.delays + 1, ..o }),
                None => None,
            },
            Action::Move(e, d) => match drain_rec(rest, ents, att) {
                Some(o) => Some(
                    DrainOut {
                        moves: seq![MoveEvent { entity: e, direction: d }] + o.moves,
                        ..o
                    },
                ),
                None => None,
            },
            Action::Attack(e) => {
                if seq_has(ents, e) {
                    let ent = seq_ent_of(ents, e);
                    let t = vec_add(ent.coords, ent.facing);
                    match drain_rec(rest, ents, att) {
                        Some(o) => match att.target_at(t) {
                            Some(tgt) => Some(
                                DrainOut {
                                    damages: seq![DamageEvent { source: e, target: tgt }]
                                        + o.damages,
                                    ..o
                                },
                            ),
                            None => Some(o),
                        },
                        None => None,
                    }
                } else {
                    None
                }
            },
            Action::PlayerAttack(e) => {
                if seq_has(ents, e) {
                    let ent = seq_ent_of(ents, e);
                    let t = vec_add(ent.coords, ent.facing);
                    match drain_rec(rest, ents, att) {
                        Some(o) => match att.target_at(t) {
                            Some(tgt) => Some(
                                DrainOut {
                                    damages: seq![DamageEvent { source: e, target: tgt }]
                                        + o.damages,
                                    delays: o.delays + 1,
                                    ..o
                                },
                            ),
                            None => Some(DrainOut { delays: o.delays + 1, ..o }),
                        },
                        None => None,
                    }
                } else {
                    None
                }
            },
            Action::Face(e, d) => {
                if seq_has(ents, e) {
                    let i = seq_index_of(ents, e);
                    match drain_rec(rest, ents.update(i, Ent { facing: d, ..ents[i] }), att) {
                        Some(o) => Some(DrainOut { delays: o.delays + 1, ..o }),
                        None => None,
                    }
                } else {
                    None
                }
            },
        }
    }
}

/// Front-inserting `Delay` then `Attack(e)` and draining on is the same as
/// the player-attack dispatch written out directly.
proof fn lemma_player_attack_unfold(e: EntityId, rest: Seq<Action>, ents: Seq<Ent>, att: AttackState)
    ensures
        drain_rec(seq![Action::PlayerAttack(e)] + rest, ents, att) == drain_rec(
            seq![Action::Attack(e), Action::Delay] + rest,
            ents,
            att,
        ),
{
    let l = seq![Action::PlayerAttack(e)] + rest;
    let r2 = seq![Action::Attack(e), Action::Delay] + rest;
    assert(l[0] == Action::PlayerAttack(e));
    assert(l.drop_first() =~= rest);
    assert(r2[0] == Action::Attack(e));
    assert(r2.drop_first() =~= seq![Action::Delay] + rest);
    let dr = seq![Action::Delay] + rest;
    assert(dr[0] == Action::Delay);
    assert(dr.drop_first() =~= rest);
    lemma_delay_unfold(rest, ents, att);
    if seq_has(ents, e) {
        let ent = seq_ent_of(ents, e);
        let t = vec_add(ent.coords, ent.facing);
        match drain_rec(rest, ents, att) {
            Some(o) => {
                assert(drain_rec(dr, ents, att) == Some(DrainOut { delays: o.delays + 1, ..o }));
                let od = DrainOut { delays: o.delays + 1, ..o };
                match att.target_at(t) {
                    Some(tgt) => {
                        assert(drain_rec(r2, ents, att) == Some(
                            DrainOut {
                                damages: seq![DamageEvent { source: e, target: tgt }]
                                    + od.damages,
                                ..od
                            },
                        ));
                        assert(drain_rec(l, ents, att) == Some(
                            DrainOut {
                                damages: seq![DamageEvent { source: e, target: tgt }]
                                    + o.damages,
                                delays: o.delays + 1,
                                ..o
                            },
                        ));
                    },
                    None => {
                        assert(drain_rec(r2, ents, att) == Some(od));
                        assert(drain_rec(l, ents, att) == Some(
                            DrainOut { delays: o.delays + 1, ..o },
                        ));
                    },
                }
            },
            None => {
                assert(drain_rec(dr, ents, att) is None);
                assert(drain_rec(r2, ents, att) is None);
                assert(drain_rec(l, ents, att) is None);
            },
        }
    } else {
        assert(drain_rec(l, ents, att) is None);
        assert(drain_rec(r2, ents, att) is None);
    }
}

/// Front-inserting `Delay` and draining on counts one pacing delay.
proof fn lemma_delay_unfold(rest: Seq<Action>, ents: Seq<Ent>, att: AttackState)
    ensures
        drain_rec(seq![Action::Delay] + rest, ents, att) == match drain_rec(rest, ents, att) {
            Some(o) => Some(DrainOut { delays: o.delays + 1, ..o }),
            None => None::<DrainOut>,
        },
{
    let dr = seq![Action::Delay] + rest;
    assert(dr[0] == Action::Delay);
    assert(dr.drop_first() =~= rest);
}

/// Relation the drain loop maintains: what the full drain yields equals the
/// events accumulated so far plus whatever draining the remaining queue
/// yields, and a failing remainder means the full drain fails.
pub open spec fn drain_inv(
    full: Option<DrainOut>,
    cur: Option<DrainOut>,
    moves: Seq<MoveEvent>,
    damages: Seq<DamageEvent>,
    ticks: int,
    delays: int,
) -> bool {
    match cur {
        Some(o) => full matches Some(fo) && fo.ents == o.ents && fo.moves == moves + o.moves
            && fo.damages == damages + o.damages && fo.ticks == ticks + o.ticks && fo.delays
            == delays + o.delays,
        None => full is None,
    }
}

/// Queue weight is at most three per queued action.
pub proof fn lemma_weight_bound(q: Seq<Action>)
    ensures
        queue_weight(q) <= 3 * q.len(),
    decreases q.len(),
{
    if q.len() > 0 {
        lemma_weight_bound(q.drop_first());
    }
}

/// Run the scheduler for one frame, advancing the pacing timer by
/// `delta_ms` of real time.
///
/// While the period has not elapsed nothing is drained and nothing changes
/// but the timer. On the frame the period completes and finds the queue
/// empty, the lock clears -- that is the only way it ever clears. Once the
/// period has elapsed, the whole queue drains within this single call, as
/// `drain_rec` describes: facings are applied to the store, move, damage
/// and tick events are emitted in dispatch order, and each dispatched
/// `Delay` winds the pacing timer back to the start of a fresh period.
/// An action naming a missing entity aborts with a desync error.
pub fn actions(
    delta_ms: u32,
    acts: &mut Actions,
    attack_state: &AttackState,
    store: &mut Store,
) -> (r: Result<SchedulerOutput, DesyncError>)
    requires
        old(acts).wf(),
        old(store).wf(),
        old(acts).queue_seq().len() <= 0x10000000,
    ensures
        final(acts).wf(),
        final(store).wf(),
        ({
            let t0 = old(acts).timer_spec();
            let adv = t0.advanced(delta_ms as int);
            if adv < t0.duration() {
                &&& (r matches Ok(o) && o.moves@.len() == 0 && o.damages@.len() == 0 && o.ticks
                    == 0 && o.delays == 0)
                &&& final(acts).queue_seq() == old(acts).queue_seq()
                &&& final(acts).locked() == old(acts).locked()
                &&& final(acts).timer_spec().duration() == t0.duration()
                &&& final(acts).timer_spec().elapsed() == adv
                &&& *final(store) == *old(store)
            } else {
                let lock1 = old(acts).locked() && !(!t0.spec_finished() && old(
                    acts,
                ).queue_seq().len() == 0);
                match drain_rec(old(acts).queue_seq(), old(store).s(), *attack_state) {
                    Some(o) => {
                        &&& (r matches Ok(out) && out.moves@ == o.moves && out.damages@
                            == o.damages && out.ticks == o.ticks && out.delays == o.delays)
                        &&& final(store).s() == o.ents
                        &&& final(acts).queue_seq().len() == 0
                        &&& final(acts).locked() == lock1
                        &&& final(acts).timer_spec().duration() == t0.duration()
                        &&& final(acts).timer_spec().elapsed() == if o.delays > 0 {
                            0int
                        } else {
                            t0.duration()
                        }
                    },
                    None => {
                        // The drain aborted on a corrupted index. The lock
                        // is exactly where the completion check left it and
                        // the pacing period is unchanged; the queue and
                        // store are abandoned mid-cycle.
                        &&& r is Err
                        &&& final(acts).locked() == lock1
                        &&& final(acts).timer_spec().duration() == t0.duration()
                    },
                }
            }
        }),
{
    let was_finished = acts.timer.finished();
    acts.timer.tick(delta_ms);
    if !acts.timer.finished() {
        return Ok(
            SchedulerOutput { moves: Vec::new(), damages: Vec::new(), ticks: 0, delays: 0 },
        );
    }
    if !was_finished && acts.queue.len() == 0 {
        acts.unlock();
    }

    let ghost q0 = acts.queue_seq();
    let ghost ents0 = store.s();
    let ghost full = drain_rec(q0, ents0, *attack_state);
    let ghost lock1 = acts.locked();
    let ghost dur = acts.timer_spec().duration();
    let ghost w0 = queue_weight(q0);
    proof {
        lemma_weight_bound(q0);
    }

    let mut moves: Vec<MoveEvent> = Vec::new();
    let mut damages: Vec<DamageEvent> = Vec::new();
    let mut ticks: usize = 0;
    let mut delays: usize = 0;

    while acts.queue.len() != 0
        invariant
            acts.wf(),
            store.wf(),
            q0 == old(acts).queue_seq(),
            ents0 == old(store).s(),
            dur == old(acts).timer_spec().duration(),
            old(acts).timer_spec().advanced(delta_ms as int) == dur,
            lock1 == (old(acts).locked() && !(!old(acts).timer_spec().spec_finished() && old(
                acts,
            ).queue_seq().len() == 0)),
            acts.locked() == lock1,
            acts.timer_spec().duration() == dur,
            1 <= dur <= crate::timer::MAX_DURATION_MS,
            acts.timer_spec().elapsed() == if delays > 0 {
                0int
            } else {
                dur
            },
            w0 <= 0x30000000,
            ticks + delays + queue_weight(acts.queue_seq()) <= w0,
            full == drain_rec(q0, ents0, *attack_state),
            drain_inv(
                full,
                drain_rec(acts.queue_seq(), store.s(), *attack_state),
                moves@,
                damages@,
                ticks as int,
                delays as int,
            ),
        decreases queue_weight(acts.queue_seq()),
    {
        let ghost qpre = acts.queue_seq();
        let ghost entspre = store.s();
        let a = acts.queue.remove(0);
        proof {
            assert(a == qpre[0]);
            assert(action_wf(a));
            assert(acts.queue_seq() =~= qpre.drop_first());
            assert(queue_weight(qpre) == action_weight(a) + queue_weight(qpre.drop_first()));
        }
        let ghost rest = qpre.drop_first();
        match a {
            Action::PlayerAttack(e) => {
                acts.push(Action::Delay);
                acts.push(Action::Attack(e));
                proof {
                    assert(acts.queue_seq() =~= seq![Action::Attack(e), Action::Delay] + rest);
                    lemma_player_attack_unfold(e, rest, entspre, *attack_state);
                    let nq = acts.queue_seq();
                    assert(nq[0] == Action::Attack(e));
                    assert(nq.drop_first() =~= seq![Action::Delay] + rest);
                    assert((seq![Action::Delay] + rest)[0] == Action::Delay);
                    assert((seq![Action::Delay] + rest).drop_first() =~= rest);
                    assert(queue_weight(nq) == 1 + queue_weight(seq![Action::Delay] + rest));
                    assert(queue_weight(seq![Action::Delay] + rest) == 1 + queue_weight(rest));
                    assert(drain_inv(
                        full,
                        drain_rec(acts.queue_seq(), store.s(), *attack_state),
                        moves@,
                        damages@,
                        ticks as int,
                        delays as int,
                    ));
                }
            },
            Action::Attack(e) => {
                match store.find_index(e) {
                    Some(i) => {
                        proof {
                            lemma_seq_index_unique(store.s(), i as int);
                        }
                        let ent = store.ents[i];
                        let t = ent.coords.plus(ent.facing);
                        match attack_state.get(t) {
                            Some(tgt) => {
                                let ev = DamageEvent { source: e, target: *tgt };
                                let ghost dpre = damages@;
                                damages.push(ev);
                                proof {
                                    if drain_rec(rest, entspre, *attack_state) is Some {
                                        let o = drain_rec(rest, entspre, *attack_state)->Some_0;
                                        assert(dpre + (seq![ev] + o.damages) =~= damages@
                                            + o.damages);
                                    }
                                    assert(drain_inv(
                                        full,
                                        drain_rec(acts.queue_seq(), store.s(), *attack_state),
                                        moves@,
                                        damages@,
                                        ticks as int,
                                        delays as int,
                                    ));
                                }
                            },
                            None => {
                                proof {
                                    assert(drain_inv(
                                        full,
                                        drain_rec(acts.queue_seq(), store.s(), *attack_state),
                                        moves@,
                                        damages@,
                                        ticks as int,
                                        delays as int,
                                    ));
                                }
                            },
                        }
                    },
                    None => {
                        proof {
                            assert(drain_rec(qpre, entspre, *attack_state) is None);
                        }
                        return Err(DesyncError { entity: e });
                    },
                }
            },
            Action::Move(e, d) => {
                let ev = MoveEvent { entity: e, direction: d };
                let ghost mpre = moves@;
                moves.push(ev);
                proof {
                    if drain_rec(rest, entspre, *attack_state) is Some {
                        let o = drain_rec(rest, entspre, *attack_state)->Some_0;
                        assert(mpre + (seq![ev] + o.moves) =~= moves@ + o.moves);
                    }
                    assert(drain_inv(
                        full,
                        drain_rec(acts.queue_seq(), store.s(), *attack_state),
                        moves@,
                        damages@,
                        ticks as int,
                        delays as int,
                    ));
                }
            },
            Action::Tick => {
                ticks = ticks + 1;
                proof {
                    assert(drain_inv(
                        full,
                        drain_rec(acts.queue_seq(), store.s(), *attack_state),
                        moves@,
                        damages@,
                        ticks as int,
                        delays as int,
                    ));
                }
            },
            Action::Wait => {
                proof {
                    assert(drain_inv(
                        full,
                        drain_rec(acts.queue_seq(), store.s(), *attack_state),
                        moves@,
                        damages@,
                        ticks as int,
                        delays as int,
                    ));
                }
            },
            Action::Delay => {
                acts.timer.reset();
                delays = delays + 1;
                proof {
                    assert(drain_inv(
                        full,
                        drain_rec(acts.queue_seq(), store.s(), *attack_state),
                        moves@,
                        damages@,
                        ticks as int,
                        delays as int,
                    ));
                }
            },
            Action::Face(e, d) => {
                match store.find_index(e) {
                    Some(i) => {
                        proof {
                            lemma_seq_index_unique(store.s(), i as int);
                        }
                        let mut e2 = store.ents[i];
                        e2.facing = d;
                        store.set_at(i, e2);
                        acts.push(Action::Delay);
                        proof {
                            assert(store.s() == entspre.update(i as int, e2));
                            assert(e2 == Ent { facing: d, ..entspre[i as int] });
                            lemma_delay_unfold(rest, store.s(), *attack_state);
                            assert(acts.queue_seq() =~= seq![Action::Delay] + rest);
                            assert((seq![Action::Delay] + rest)[0] == Action::Delay);
                            assert((seq![Action::Delay] + rest).drop_first() =~= rest);
                            assert(queue_weight(acts.queue_seq()) == 1 + queue_weight(rest));
                            assert(drain_inv(
                                full,
                                drain_rec(acts.queue_seq(), store.s(), *attack_state),
                                moves@,
                                damages@,
                                ticks as int,
                                delays as int,
                            ));
                        }
                    },
                    None => {
                        proof {
                            assert(drain_rec(qpre, entspre, *attack_state) is None);
                        }
                        return Err(DesyncError { entity: e });
                    },
                }
            },
        }
    }
    proof {
        assert(drain_rec(acts.queue_seq(), store.s(), *attack_state) == Some(
            DrainOut {
                ents: store.s(),
                moves: Seq::empty(),
                damages: Seq::empty(),
                ticks: 0,
                delays: 0,
            },
        ));
        if full is Some {
            let fo = full->Some_0;
            assert(fo.moves == moves@ + Seq::<MoveEvent>::empty());
            assert(moves@ + Seq::<MoveEvent>::empty() =~= moves@);
            assert(fo.damages == damages@ + Seq::<DamageEvent>::empty());
            assert(damages@ + Seq::<DamageEvent>::empty() =~= damages@);
        }
    }
    Ok(SchedulerOutput { moves, damages, ticks, delays })
}

} // verus!
