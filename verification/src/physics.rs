use vstd::prelude::*;

use crate::assoc::{elems_distinct, lemma_push_contains, lemma_remove_contains};
use crate::grid::{cell_bounded, vec_add, IVec2, CELL_BOUND};
use crate::store::{DesyncError, Ent, EntityId, Store};

verus! {

/// A one-step move intent for an entity, emitted by the scheduler.
#[derive(Clone, Copy, PartialEq, Eq, Structural, Debug)]
pub struct MoveEvent {
    pub entity: EntityId,
    pub direction: IVec2,
}

/// Notification that a move was resolved and the entity's cell changed.
#[derive(Clone, Copy, PartialEq, Eq, Structural, Debug)]
pub struct MoveCommitted {
    pub entity: EntityId,
    pub coords: IVec2,
}

/// Marker for entities that take part in solid-body collision.
pub struct Solid;

/// Pending single-step velocity the physics resolver consumes.
#[derive(Clone, Copy, PartialEq, Eq, Structural, Debug)]
pub struct Velocity(pub IVec2);

impl Default for Velocity {
    fn default() -> (r: Velocity)
        ensures
            r.0 == (IVec2 { x: 0i32, y: 0i32 }),
    {
        Velocity(IVec2 { x: 0, y: 0 })
    }
}

/// The components a collision-resolved moving body is spawned with.
pub struct KinematicBodyBundle {
    pub velocity: Velocity,
    pub body: Solid,
}

impl Default for KinematicBodyBundle {
    fn default() -> (r: KinematicBodyBundle)
        ensures
            r.velocity.0 == (IVec2 { x: 0i32, y: 0i32 }),
    {
        KinematicBodyBundle { velocity: Velocity(IVec2 { x: 0, y: 0 }), body: Solid }
    }
}

/// Snapshot of the cells claimed by solid entities during one physics cycle.
pub struct PhysicsState {
    set: Vec<IVec2>,
}

impl PhysicsState {
    pub closed spec fn cells(self) -> Seq<IVec2> {
        self.set@
    }

    pub open spec fn blocked(self, c: IVec2) -> bool {
        self.cells().contains(c)
    }

    pub closed spec fn inv(self) -> bool {
        elems_distinct(self.set@)
    }

    pub fn new() -> (r: PhysicsState)
        ensures
            r.inv(),
            forall|c: IVec2| !r.blocked(c),
    {
        PhysicsState { set: Vec::new() }
    }

    pub fn is_blocked(&self, coords: IVec2) -> (r: bool)
        ensures
            r == self.blocked(coords),
    {
        let n = self.set.len();
        let mut i: usize = 0;
        while i < n
            invariant
                n == self.set@.len(),
                0 <= i <= n,
                forall|m: int| 0 <= m < i ==> self.set@[m] != coords,
            decreases n - i,
        {
            if self.set[i] == coords {
                return true;
            }
            i = i + 1;
        }
        false
    }

    /// Claim a cell (a no-op if it is already claimed).
    pub(crate) fn block(&mut self, coords: IVec2)
        requires
            old(self).inv(),
        ensures
            final(self).inv(),
            forall|c: IVec2| final(self).blocked(c) == (old(self).blocked(c) || c == coords),
    {
        if !self.is_blocked(coords) {
            let ghost s = self.set@;
            self.set.push(coords);
            proof {
                assert forall|c: IVec2| self.blocked(c) == (s.contains(c) || c == coords) by {
                    lemma_push_contains(s, coords, c);
                }
                assert(forall|p: int| 0 <= p < s.len() ==> self.set@[p] == s[p]);
            }
        }
    }

    /// Release a cell (a no-op if it is not claimed).
    pub(crate) fn unblock(&mut self, coords: IVec2)
        requires
            old(self).inv(),
        ensures
            final(self).inv(),
            forall|c: IVec2| final(self).blocked(c) == (old(self).blocked(c) && c != coords),
    {
        let ghost s = self.set@;
        let n = self.set.len();
        let mut i: usize = 0;
        while i < n
            invariant
                self.set@ == s,
                s == old(self).set@,
                elems_distinct(s),
                n == s.len(),
                0 <= i <= n,
                forall|m: int| 0 <= m < i ==> s[m] != coords,
            decreases n - i,
        {
            if self.set[i] == coords {
                self.set.remove(i);
                proof {
                    assert forall|c: IVec2| self.blocked(c) == (s.contains(c) && c != coords) by {
                        lemma_remove_contains(s, i as int, c);
                        if c != coords && s.contains(c) {
                            let j = choose|j: int| 0 <= j < s.len() && s[j] == c;
                            assert(j != i && s[j] == c);
                        }
                        if c == coords {
                            if exists|j: int| 0 <= j < s.len() && j != i && s[j] == c {
                                let j = choose|j: int| 0 <= j < s.len() && j != i && s[j] == c;
                                assert(s[j] == s[i as int]);
                            }
                        }
                    }
                    assert(elems_distinct(s.remove(i as int))) by {
                        assert(forall|p: int|
                            0 <= p < i ==> s.remove(i as int)[p] == s[p]);
                        assert(forall|p: int|
                            i <= p < s.remove(i as int).len() ==> s.remove(i as int)[p] == s[p
                                + 1]);
                    }
                }
                return ;
            }
            i = i + 1;
        }
        proof {
            if s.contains(coords) {
                let j = choose|j: int| 0 <= j < s.len() && s[j] == coords;
                assert(s[j] == coords);
            }
        }
    }

    /// Forget every claimed cell.
    pub(crate) fn clear(&mut self)
        ensures
            final(self).inv(),
            forall|c: IVec2| !final(self).blocked(c),
    {
        self.set = Vec::new();
    }
}

/// Cells currently claimed by solid entities.
pub open spec fn solid_cells(ents: Seq<Ent>) -> Set<IVec2> {
    Set::new(
        |c: IVec2|
            exists|i: int| 0 <= i < ents.len() && ents[i].solid && ents[i].coords == c,
    )
}

/// No two solid entities stand on the same cell.
pub open spec fn solids_distinct(ents: Seq<Ent>) -> bool {
    forall|i: int, j: int|
        0 <= i < j < ents.len() && ents[i].solid && ents[j].solid ==> ents[i].coords
            != ents[j].coords
}

/// The entity with its pending move consumed and left in place.
pub open spec fn stays_put(e: Ent) -> Ent {
    Ent { velocity: IVec2 { x: 0, y: 0 }, ..e }
}

/// The entity with its pending move consumed and committed.
pub open spec fn steps_to(e: Ent) -> Ent {
    Ent { coords: vec_add(e.coords, e.velocity), velocity: IVec2 { x: 0, y: 0 }, ..e }
}

/// The collision resolution of one physics cycle, entity by entity in
/// creation order: a solid kinematic entity steps to its target cell exactly
/// when that cell is on the board and unclaimed at its turn, releasing its
/// old cell and claiming the new one; otherwise the move is dropped. Either
/// way the pending velocity is consumed.
pub open spec fn resolve_rec(ents: Seq<Ent>, blocked: Set<IVec2>, i: int) -> (
    Seq<Ent>,
    Set<IVec2>,
    Seq<MoveCommitted>,
)
    decreases ents.len() - i,
{
    if i < 0 || i >= ents.len() {
        (ents, blocked, Seq::empty())
    } else {
        let e = ents[i];
        if e.solid && e.kinematic {
            let t = vec_add(e.coords, e.velocity);
            if cell_bounded(t) && !blocked.contains(t) {
                let r = resolve_rec(
                    ents.update(i, steps_to(e)),
                    blocked.remove(e.coords).insert(t),
                    i + 1,
                );
                (r.0, r.1, seq![MoveCommitted { entity: e.id, coords: t }] + r.2)
            } else {
                resolve_rec(ents.update(i, stays_put(e)), blocked, i + 1)
            }
        } else {
            resolve_rec(ents, blocked, i + 1)
        }
    }
}

/// Collision resolution never lets two solid entities share a cell: provided
/// every solid entity's cell is claimed and no two coincide when resolution
/// starts, both still hold of the result.
pub proof fn lemma_resolve_solids_distinct(ents: Seq<Ent>, blocked: Set<IVec2>, i: int)
    requires
        0 <= i <= ents.len(),
        solids_distinct(ents),
        forall|p: int|
            0 <= p < ents.len() && ents[p].solid ==> blocked.contains(#[trigger] ents[p].coords),
    ensures
        solids_distinct(resolve_rec(ents, blocked, i).0),
        forall|p: int|
            0 <= p < resolve_rec(ents, blocked, i).0.len() && resolve_rec(ents, blocked, i).0[p].solid
                ==> resolve_rec(ents, blocked, i).1.contains(
                #[trigger] resolve_rec(ents, blocked, i).0[p].coords,
            ),
    decreases ents.len() - i,
{
    if i >= ents.len() {
    } else {
        let e = ents[i];
        if e.solid && e.kinematic {
            let t = vec_add(e.coords, e.velocity);
            if cell_bounded(t) && !blocked.contains(t) {
                let ents2 = ents.update(i, steps_to(e));
                let blocked2 = blocked.remove(e.coords).insert(t);
                assert(solids_distinct(ents2)) by {
                    assert(forall|p: int|
                        0 <= p < ents.len() && p != i ==> ents2[p] == ents[p]);
                    assert(ents2[i].coords == t);
                    assert(forall|p: int|
                        0 <= p < ents.len() && p != i && ents[p].solid ==> blocked.contains(
                            #[trigger] ents[p].coords,
                        ));
                }
                assert(forall|p: int|
                    0 <= p < ents2.len() && ents2[p].solid ==> blocked2.contains(
                        #[trigger] ents2[p].coords,
                    )) by {
                    assert forall|p: int|
                        0 <= p < ents2.len() && ents2[p].solid implies blocked2.contains(
                        ents2[p].coords,
                    ) by {
                        if p == i {
                            assert(blocked2.contains(t));
                        } else {
                            assert(ents2[p] == ents[p]);
                            assert(blocked.contains(ents[p].coords));
                            if ents[p].coords == e.coords {
                                assert(ents[p].solid && e.solid);
                                assert(ents[p].coords != ents[i].coords);
                            }
                            assert(blocked2.contains(ents[p].coords));
                        }
                    }
                }
                lemma_resolve_solids_distinct(ents2, blocked2, i + 1);
            } else {
                let ents2 = ents.update(i, stays_put(e));
                assert(forall|p: int|
                    0 <= p < ents.len() && p != i ==> ents2[p] == ents[p]);
                assert(ents2[i].coords == ents[i].coords && ents2[i].solid == ents[i].solid);
                assert(solids_distinct(ents2));
                assert(forall|p: int|
                    0 <= p < ents2.len() && ents2[p].solid ==> blocked.contains(
                        #[trigger] ents2[p].coords,
                    ));
                lemma_resolve_solids_distinct(ents2, blocked, i + 1);
            }
        } else {
            lemma_resolve_solids_distinct(ents, blocked, i + 1);
        }
    }
}

/// Set pending velocities from this cycle's move intents. An intent naming
/// an entity that is not a solid kinematic body signals a corrupted index.
pub open spec fn apply_moves_rec(ents: Seq<Ent>, evs: Seq<MoveEvent>) -> Option<Seq<Ent>>
    decreases evs.len(),
{
    if evs.len() == 0 {
        Some(ents)
    } else {
        let ev = evs[0];
        if crate::store::seq_has(ents, ev.entity) && crate::store::seq_ent_of(
            ents,
            ev.entity,
        ).solid && crate::store::seq_ent_of(ents, ev.entity).kinematic {
            apply_moves_rec(
                ents.update(
                    crate::store::seq_index_of(ents, ev.entity),
                    Ent { velocity: ev.direction, ..crate::store::seq_ent_of(ents, ev.entity) },
                ),
                evs.drop_first(),
            )
        } else {
            None
        }
    }
}

/// Record each move intent as its entity's pending velocity.
///
/// Succeeds exactly when every intent names a solid kinematic entity of the
/// store; the first intent that does not is returned as a desync error.
pub fn move_event(events: &Vec<MoveEvent>, store: &mut Store) -> (r: Result<(), DesyncError>)
    requires
        old(store).wf(),
        forall|k: int|
            0 <= k < events@.len() ==> crate::grid::step_vec(#[trigger] events@[k].direction),
    ensures
        final(store).wf(),
        match r {
            Ok(_) => {
                &&& apply_moves_rec(old(store).s(), events@) == Some(final(store).s())
            },
            Err(de) => {
                &&& apply_moves_rec(old(store).s(), events@) is None
            },
        },
{
    let n = events.len();
    proof {
        assert(events@.skip(0) == events@);
    }
    let mut k: usize = 0;
    while k < n
        invariant
            store.wf(),
            n == events@.len(),
            0 <= k <= n,
            forall|m: int|
                0 <= m < events@.len() ==> crate::grid::step_vec(#[trigger] events@[m].direction),
            apply_moves_rec(old(store).s(), events@) == apply_moves_rec(
                store.s(),
                events@.skip(k as int),
            ),
        decreases n - k,
    {
        let ev = events[k];
        proof {
            assert(events@.skip(k as int)[0] == events@[k as int]);
            assert(events@.skip(k as int).drop_first() == events@.skip(k as int + 1));
        }
        match store.find_index(ev.entity) {
            Some(i) => {
                let e = store.ents[i];
                if e.solid && e.kinematic {
                    proof {
                        crate::store::lemma_seq_index_unique(store.s(), i as int);
                    }
                    let mut e2 = e;
                    e2.velocity = ev.direction;
                    store.set_at(i, e2);
                } else {
                    proof {
                        crate::store::lemma_seq_index_unique(store.s(), i as int);
                    }
                    return Err(DesyncError { entity: ev.entity });
                }
            },
            None => {
                return Err(DesyncError { entity: ev.entity });
            },
        }
        k = k + 1;
    }
    proof {
        assert(events@.skip(n as int) == Seq::<MoveEvent>::empty());
    }
    Ok(())
}

/// Resolve one physics cycle: snapshot every solid entity's cell, then
/// commit or drop each pending move in creation order, clearing velocities.
/// Returns one move-committed event per entity whose cell changed.
///
/// A step whose target cell leaves the playable range (`CELL_BOUND` on
/// each axis) is dropped exactly like a blocked one: the range is the
/// board's rim, and keeping every cell inside it is what keeps the
/// coordinate arithmetic overflow-free.
pub fn update(state: &mut PhysicsState, store: &mut Store) -> (events: Vec<MoveCommitted>)
    requires
        old(store).wf(),
    ensures
        final(store).wf(),
        final(state).inv(),
        final(store).s() == resolve_rec(old(store).s(), solid_cells(old(store).s()), 0).0,
        forall|c: IVec2|
            final(state).blocked(c) == resolve_rec(
                old(store).s(),
                solid_cells(old(store).s()),
                0,
            ).1.contains(c),
        events@ == resolve_rec(old(store).s(), solid_cells(old(store).s()), 0).2,
        solids_distinct(old(store).s()) ==> solids_distinct(final(store).s()),
{
    state.clear();
    let n = store.len();

    let mut i: usize = 0;
    while i < n
        invariant
            store == old(store),
            store.wf(),
            n == store.s().len(),
            0 <= i <= n,
            state.inv(),
            forall|c: IVec2|
                state.blocked(c) == exists|p: int|
                    0 <= p < i && store.s()[p].solid && store.s()[p].coords == c,
        decreases n - i,
    {
        let e = store.ents[i];
        if e.solid {
            state.block(e.coords);
        }
        proof {
            assert forall|c: IVec2|
                state.blocked(c) == exists|p: int|
                    0 <= p < i + 1 && store.s()[p].solid && store.s()[p].coords == c by {
                if state.blocked(c) {
                    if e.solid && c == e.coords {
                        assert(store.s()[i as int].solid && store.s()[i as int].coords == c);
                    }
                }
                if exists|p: int| 0 <= p < i + 1 && store.s()[p].solid && store.s()[p].coords
                    == c {
                    let p = choose|p: int|
                        0 <= p < i + 1 && store.s()[p].solid && store.s()[p].coords == c;
                    if p < i {
                        assert(exists|q: int|
                            0 <= q < i && store.s()[q].solid && store.s()[q].coords == c);
                    }
                }
            }
        }
        i = i + 1;
    }
    proof {
        assert forall|c: IVec2| state.blocked(c) == solid_cells(store.s()).contains(c) by {}
    }

    let ghost orig = store.s();
    let ghost b0 = solid_cells(orig);
    let ghost full = resolve_rec(orig, b0, 0);
    let ghost mut bcur = b0;

    let mut events: Vec<MoveCommitted> = Vec::new();
    let mut i: usize = 0;
    while i < n
        invariant
            store.wf(),
            n == store.s().len(),
            0 <= i <= n,
            state.inv(),
            forall|c: IVec2| state.blocked(c) == bcur.contains(c),
            full == resolve_rec(orig, b0, 0),
            full.0 == resolve_rec(store.s(), bcur, i as int).0,
            full.1 == resolve_rec(store.s(), bcur, i as int).1,
            full.2 == events@ + resolve_rec(store.s(), bcur, i as int).2,
        decreases n - i,
    {
        let e = store.ents[i];
        if e.solid && e.kinematic {
            let t = e.coords.plus(e.velocity);
            let in_board = t.x >= -CELL_BOUND && t.x <= CELL_BOUND && t.y >= -CELL_BOUND && t.y
                <= CELL_BOUND;
            if in_board && !state.is_blocked(t) {
                let ghost pre = store.s();
                state.unblock(e.coords);
                state.block(t);
                let mut e2 = e;
                e2.coords = t;
                e2.velocity = IVec2 { x: 0, y: 0 };
                store.set_at(i, e2);
                events.push(MoveCommitted { entity: e.id, coords: t });
                proof {
                    assert(e2 == steps_to(e));
                    bcur = bcur.remove(e.coords).insert(t);
                    assert(store.s() == pre.update(i as int, steps_to(e)));
                    assert(events@.last() == MoveCommitted { entity: e.id, coords: t });
                }
            } else {
                let ghost pre = store.s();
                let mut e2 = e;
                e2.velocity = IVec2 { x: 0, y: 0 };
                store.set_at(i, e2);
                proof {
                    assert(e2 == stays_put(e));
                    assert(store.s() == pre.update(i as int, stays_put(e)));
                }
            }
        }
        i = i + 1;
    }
    proof {
        assert(resolve_rec(store.s(), bcur, n as int).2 == Seq::<MoveCommitted>::empty());
        assert(full.2 == events@ + Seq::<MoveCommitted>::empty());
        assert(full.2 == events@);
        if solids_distinct(orig) {
            assert(forall|p: int|
                0 <= p < orig.len() && orig[p].solid ==> b0.contains(#[trigger] orig[p].coords));
            lemma_resolve_solids_distinct(orig, b0, 0);
        }
    }
    events
}

} // verus!
