use vstd::prelude::*;

use crate::assoc::{
    has_key, keys_distinct, lemma_lookup_none, lemma_lookup_push, lemma_lookup_remove,
    lemma_lookup_skip, lemma_lookup_update, lookup,
};
use crate::bob::SpatialMap;
use crate::grid::{world_of, Grid, IVec2};
use crate::store::{
    lemma_seq_index_unique, seq_ent_of, seq_has, seq_index_of, Ent, EntityId, Store,
};
use crate::timer::Timer;
use crate::tween::{Tween, TweenMode, Vec3i};

verus! {

/// A request to resolve an attack against whatever occupies a cell.
#[derive(Clone, Copy, PartialEq, Eq, Structural, Debug)]
pub struct AttackEvent {
    pub entity: EntityId,
    pub position: IVec2,
}

/// A pending hit from `source` against `target`.
#[derive(Clone, Copy, PartialEq, Eq, Structural, Debug)]
pub struct DamageEvent {
    pub source: EntityId,
    pub target: EntityId,
}

/// Notification that a hit landed, carrying the power that was applied.
#[derive(Clone, Copy, PartialEq, Eq, Structural, Debug)]
pub struct DamageApplied {
    pub source: EntityId,
    pub target: EntityId,
    pub amount: i32,
}

/// Attack power of an entity that can deal damage.
#[derive(Clone, Copy, PartialEq, Eq, Structural, Debug)]
pub struct Damage {
    pub amount: i32,
}

impl Damage {
    pub fn new(amount: i32) -> (r: Damage)
        requires
            amount >= 0,
        ensures
            r.amount == amount,
    {
        Damage { amount }
    }
}

/// Current health after subtracting `d`, floored at zero.
pub open spec fn damaged(current: int, d: int) -> int {
    if current - d <= 0 {
        0
    } else {
        current - d
    }
}

/// Current health after adding `a`, ceiled at `max`.
pub open spec fn recovered(current: int, max: int, a: int) -> int {
    if current + a > max {
        max
    } else {
        current + a
    }
}

/// Maximum health after subtracting `a`, floored at one.
pub open spec fn reduced_max(max: int, a: int) -> int {
    if max - a < 1 {
        1
    } else {
        max - a
    }
}

/// Health of an entity: a current value clamped into `[0, max]`.
#[derive(Clone, Copy, PartialEq, Eq, Structural, Debug)]
pub struct Damageable {
    pub max: i32,
    pub current: i32,
}

impl Damageable {
    pub open spec fn current_val(self) -> int {
        self.current as int
    }

    pub open spec fn max_val(self) -> int {
        self.max as int
    }

    pub open spec fn wf(self) -> bool {
        0 <= self.current_val() <= self.max_val()
    }

    pub fn new(health: i32) -> (r: Damageable)
        requires
            health >= 0,
        ensures
            r.current_val() == health,
            r.max_val() == health,
            r.wf(),
    {
        Damageable { max: health, current: health }
    }

    pub fn current(&self) -> (r: i32)
        ensures
            r == self.current_val(),
    {
        self.current
    }

    pub fn max(&self) -> (r: i32)
        ensures
            r == self.max_val(),
    {
        self.max
    }

    /// Subtract `damage` from current health, flooring at zero.
    pub fn damage(&mut self, damage: i32)
        requires
            old(self).wf(),
            damage >= 0,
        ensures
            final(self).wf(),
            final(self).max_val() == old(self).max_val(),
            final(self).current_val() == damaged(old(self).current_val(), damage as int),
    {
        if damage >= self.current {
            self.current = 0;
        } else {
            self.current = self.current - damage;
        }
    }

    /// Add `amount` to current health, ceiling at the maximum.
    pub fn recover(&mut self, amount: i32)
        requires
            old(self).wf(),
            amount >= 0,
        ensures
            final(self).wf(),
            final(self).max_val() == old(self).max_val(),
            final(self).current_val() == recovered(
                old(self).current_val(),
                old(self).max_val(),
                amount as int,
            ),
    {
        if amount >= self.max - self.current {
            self.current = self.max;
        } else {
            self.current = self.current + amount;
        }
    }

    /// Raise the maximum; current health is unchanged.
    pub fn extend(&mut self, amount: i32)
        requires
            old(self).wf(),
            amount >= 0,
            old(self).max_val() + amount <= i32::MAX,
        ensures
            final(self).wf(),
            final(self).max_val() == old(self).max_val() + amount,
            final(self).current_val() == old(self).current_val(),
    {
        self.max = self.max + amount;
    }

    /// Lower the maximum, flooring at one; current health is clamped down to
    /// the new maximum so it never exceeds it.
    pub fn reduce(&mut self, amount: i32)
        requires
            old(self).wf(),
            amount >= 0,
        ensures
            final(self).wf(),
            final(self).max_val() == reduced_max(old(self).max_val(), amount as int),
            final(self).current_val() == if old(self).current_val() <= final(self).max_val() {
                old(self).current_val()
            } else {
                final(self).max_val()
            },
    {
        if amount >= self.max - 1 {
            self.max = 1;
        } else {
            self.max = self.max - amount;
        }
        if self.current > self.max {
            self.current = self.max;
        }
    }

    /// Refill current health to the maximum.
    pub fn restore(&mut self)
        requires
            old(self).wf(),
        ensures
            final(self).wf(),
            final(self).max_val() == old(self).max_val(),
            final(self).current_val() == old(self).max_val(),
    {
        self.current = self.max;
    }

    /// Drop current health to zero.
    pub fn raze(&mut self)
        requires
            old(self).wf(),
        ensures
            final(self).wf(),
            final(self).max_val() == old(self).max_val(),
            final(self).current_val() == 0,
    {
        self.current = 0;
    }

    pub fn is_full(&self) -> (r: bool)
        ensures
            r == (self.current_val() == self.max_val()),
    {
        self.current == self.max
    }

    pub fn is_empty(&self) -> (r: bool)
        ensures
            r == (self.current_val() == 0),
    {
        self.current == 0
    }
}

/// Damaging and then recovering the same amount restores the prior health,
/// whenever the damage did not floor at zero (so nothing was clamped away).
pub proof fn lemma_damage_then_recover(current: int, max: int, amount: int)
    requires
        0 <= current <= max,
        0 <= amount <= current,
    ensures
        recovered(damaged(current, amount), max, amount) == current,
{
}

/// Cell-to-target index used to resolve attacks: rebuilt once per combat
/// cycle from the damageable entities' cells, intentionally one cycle stale.
pub struct AttackState {
    map: Vec<(IVec2, EntityId)>,
}

impl AttackState {
    /// The target an attack into `c` hits, if any.
    pub closed spec fn target_at(self, c: IVec2) -> Option<EntityId> {
        lookup(self.map@, c)
    }

    pub closed spec fn inv(self) -> bool {
        keys_distinct(self.map@)
    }

    pub fn new() -> (r: AttackState)
        ensures
            r.inv(),
            forall|c: IVec2| r.target_at(c) is None,
    {
        AttackState { map: Vec::new() }
    }

    pub fn has(&self, coords: IVec2) -> (r: bool)
        ensures
            r == (self.target_at(coords) is Some),
    {
        self.get(coords).is_some()
    }

    pub fn get(&self, coords: IVec2) -> (r: Option<&EntityId>)
        ensures
            match r {
                Some(e) => self.target_at(coords) == Some(*e),
                None => self.target_at(coords) is None,
            },
    {
        let n = self.map.len();
        let mut i: usize = 0;
        while i < n
            invariant
                n == self.map@.len(),
                0 <= i <= n,
                forall|m: int| 0 <= m < i ==> self.map@[m].0 != coords,
            decreases n - i,
        {
            if self.map[i].0 == coords {
                proof {
                    lemma_lookup_skip(self.map@, coords, i as int);
                    assert(self.map@.skip(i as int)[0] == self.map@[i as int]);
                }
                return Some(&self.map[i].1);
            }
            i = i + 1;
        }
        proof {
            lemma_lookup_skip(self.map@, coords, n as int);
            assert(self.map@.skip(n as int) == Seq::<(IVec2, EntityId)>::empty());
        }
        None
    }

    /// Register (or replace) the target standing at `coords`.
    pub(crate) fn insert(&mut self, coords: IVec2, entity: EntityId)
        requires
            old(self).inv(),
        ensures
            final(self).inv(),
            forall|c: IVec2|
                final(self).target_at(c) == if c == coords {
                    Some(entity)
                } else {
                    old(self).target_at(c)
                },
    {
        let ghost s = self.map@;
        let n = self.map.len();
        let mut i: usize = 0;
        while i < n
            invariant
                self.map@ == s,
                s == old(self).map@,
                keys_distinct(s),
                n == s.len(),
                0 <= i <= n,
                forall|m: int| 0 <= m < i ==> s[m].0 != coords,
            decreases n - i,
        {
            if self.map[i].0 == coords {
                self.map.set(i, (coords, entity));
                proof {
                    assert(s[i as int].0 == coords);
                    assert forall|c: IVec2|
                        self.target_at(c) == if c == coords {
                            Some(entity)
                        } else {
                            lookup(s, c)
                        } by {
                        lemma_lookup_update(s, i as int, entity, c);
                    }
                }
                return ;
            }
            i = i + 1;
        }
        proof {
            lemma_lookup_skip(s, coords, n as int);
            assert(s.skip(n as int) == Seq::<(IVec2, EntityId)>::empty());
            assert(!has_key(s, coords));
        }
        self.map.push((coords, entity));
        proof {
            assert forall|c: IVec2|
                self.target_at(c) == if c == coords {
                    Some(entity)
                } else {
                    lookup(s, c)
                } by {
                lemma_lookup_push(s, coords, entity, c);
            }
            assert(keys_distinct(s.push((coords, entity)))) by {
                lemma_lookup_none(s, coords);
                assert(forall|p: int| 0 <= p < s.len() ==> s.push((coords, entity))[p] == s[p]);
            }
        }
    }

    /// Clear whatever target stands at `coords`.
    pub(crate) fn remove(&mut self, coords: IVec2)
        requires
            old(self).inv(),
        ensures
            final(self).inv(),
            forall|c: IVec2|
                final(self).target_at(c) == if c == coords {
                    None::<EntityId>
                } else {
                    old(self).target_at(c)
                },
    {
        let ghost s = self.map@;
        let n = self.map.len();
        let mut i: usize = 0;
        while i < n
            invariant
                self.map@ == s,
                s == old(self).map@,
                keys_distinct(s),
                n == s.len(),
                0 <= i <= n,
                forall|m: int| 0 <= m < i ==> s[m].0 != coords,
            decreases n - i,
        {
            if self.map[i].0 == coords {
                self.map.remove(i);
                proof {
                    assert(s[i as int].0 == coords);
                    assert forall|c: IVec2|
                        self.target_at(c) == if c == coords {
                            None::<EntityId>
                        } else {
                            lookup(s, c)
                        } by {
                        lemma_lookup_remove(s, i as int, c);
                    }
                }
                return ;
            }
            i = i + 1;
        }
        proof {
            lemma_lookup_skip(s, coords, n as int);
            assert(s.skip(n as int) == Seq::<(IVec2, EntityId)>::empty());
        }
    }

    /// Forget every target.
    pub(crate) fn clear(&mut self)
        ensures
            final(self).inv(),
            forall|c: IVec2| final(self).target_at(c) is None,
    {
        self.map = Vec::new();
    }
}

/// The attack-lunge tween one landed hit starts on its source: animating
/// from the attacker's world position toward the defender's and back.
pub open spec fn lunge_tween(g: Grid, src: Ent, dst: Ent) -> Tween {
    Tween {
        from: Vec3i {
            x: world_of(g, src.coords).x as i64,
            y: world_of(g, src.coords).y as i64,
            z: src.layer as i64,
        },
        to: Vec3i {
            x: world_of(g, dst.coords).x as i64,
            y: world_of(g, dst.coords).y as i64,
            z: dst.layer as i64,
        },
        timer: Timer { elapsed_ms: 0, duration_ms: 200 },
        mode: TweenMode::Attack,
    }
}

/// One damage event applied to the store: if the target can take damage and
/// the source can deal it, the target's health drops by the source's power
/// (floored at zero) and the source's tween restarts in lunge mode toward
/// the target; otherwise nothing happens (expected absence, not an error).
pub open spec fn damage_step(g: Grid, ents: Seq<Ent>, ev: DamageEvent) -> (
    Seq<Ent>,
    Option<DamageApplied>,
) {
    if seq_has(ents, ev.target) && seq_ent_of(ents, ev.target).health is Some && seq_has(
        ents,
        ev.source,
    ) && seq_ent_of(ents, ev.source).power is Some {
        let ti = seq_index_of(ents, ev.target);
        let si = seq_index_of(ents, ev.source);
        let p = seq_ent_of(ents, ev.source).power->Some_0;
        let h = ents[ti].health->Some_0;
        let ents1 = ents.update(
            ti,
            Ent {
                health: Some(
                    Damageable { max: h.max, current: damaged(h.current as int, p as int) as i32 },
                ),
                ..ents[ti]
            },
        );
        let ents2 = ents1.update(
            si,
            Ent { tween: lunge_tween(g, ents1[si], ents1[ti]), ..ents1[si] },
        );
        (ents2, Some(DamageApplied { source: ev.source, target: ev.target, amount: p }))
    } else {
        (ents, None)
    }
}

/// All of one cycle's damage events applied in order, with the notification
/// each landed hit emits.
pub open spec fn damage_rec(g: Grid, ents: Seq<Ent>, evs: Seq<DamageEvent>) -> (
    Seq<Ent>,
    Seq<DamageApplied>,
)
    decreases evs.len(),
{
    if evs.len() == 0 {
        (ents, Seq::empty())
    } else {
        let st = damage_step(g, ents, evs[0]);
        let r = damage_rec(g, st.0, evs.drop_first());
        (
            r.0,
            match st.1 {
                Some(a) => seq![a] + r.1,
                None => r.1,
            },
        )
    }
}

/// Apply one cycle's queued damage events, strictly in order. Health changes
/// are visible to the following events of the same cycle. Returns one
/// damage-applied notification per landed hit, in order.
#[verifier::rlimit(80)]
pub fn damage(g: &Grid, events: &Vec<DamageEvent>, store: &mut Store) -> (applied: Vec<
    DamageApplied,
>)
    requires
        g.wf(),
        old(store).wf(),
    ensures
        final(store).wf(),
        final(store).s() == damage_rec(*g, old(store).s(), events@).0,
        applied@ == damage_rec(*g, old(store).s(), events@).1,
{
    let ghost ents0 = store.s();
    let ghost full = damage_rec(*g, ents0, events@);
    let mut applied: Vec<DamageApplied> = Vec::new();
    let n = events.len();
    proof {
        assert(events@.skip(0) == events@);
    }
    let mut k: usize = 0;
    while k < n
        invariant
            store.wf(),
            g.wf(),
            n == events@.len(),
            0 <= k <= n,
            full == damage_rec(*g, ents0, events@),
            full.0 == damage_rec(*g, store.s(), events@.skip(k as int)).0,
            full.1 == applied@ + damage_rec(*g, store.s(), events@.skip(k as int)).1,
        decreases n - k,
    {
        let ev = events[k];
        let ghost pre = store.s();
        let ghost st = damage_step(*g, pre, ev);
        proof {
            assert(events@.skip(k as int)[0] == events@[k as int]);
            assert(events@.skip(k as int).drop_first() =~= events@.skip(k as int + 1));
        }
        let mut landed = false;
        match store.find_index(ev.target) {
            Some(ti) => {
                if store.ents[ti].health.is_some() {
                    match store.find_index(ev.source) {
                        Some(si) => {
                            if store.ents[si].power.is_some() {
                                proof {
                                    lemma_seq_index_unique(pre, ti as int);
                                    lemma_seq_index_unique(pre, si as int);
                                }
                                let p = store.ents[si].power.unwrap();
                                let mut tgt = store.ents[ti];
                                let mut h = tgt.health.unwrap();
                                h.damage(p);
                                tgt.health = Some(h);
                                store.set_at(ti, tgt);
                                let ghost ents1s = pre.update(
                                    ti as int,
                                    Ent {
                                        health: Some(
                                            Damageable {
                                                max: pre[ti as int].health->Some_0.max,
                                                current: damaged(
                                                    pre[ti as int].health->Some_0.current as int,
                                                    p as int,
                                                ) as i32,
                                            },
                                        ),
                                        ..pre[ti as int]
                                    },
                                );
                                proof {
                                    assert(h == (Damageable {
                                        max: pre[ti as int].health->Some_0.max,
                                        current: damaged(
                                            pre[ti as int].health->Some_0.current as int,
                                            p as int,
                                        ) as i32,
                                    }));
                                    assert(store.s() == ents1s);
                                    lemma_seq_index_unique(store.s(), si as int);
                                    lemma_seq_index_unique(store.s(), ti as int);
                                }
                                let src = store.ents[si];
                                let dfd = store.ents[ti];
                                let wf2 = g.map_to_world(src.coords);
                                let wt2 = g.map_to_world(dfd.coords);
                                let mut src2 = src;
                                let mut tw = src.tween;
                                tw.from = Vec3i {
                                    x: wf2.x as i64,
                                    y: wf2.y as i64,
                                    z: src.layer as i64,
                                };
                                tw.to = Vec3i {
                                    x: wt2.x as i64,
                                    y: wt2.y as i64,
                                    z: dfd.layer as i64,
                                };
                                tw.start(200, TweenMode::Attack);
                                src2.tween = tw;
                                store.set_at(si, src2);
                                let ghost apre = applied@;
                                applied.push(
                                    DamageApplied {
                                        source: ev.source,
                                        target: ev.target,
                                        amount: p,
                                    },
                                );
                                landed = true;
                                proof {
                                    assert(src == ents1s[si as int]);
                                    assert(dfd == ents1s[ti as int]);
                                    assert(tw == lunge_tween(*g, src, dfd));
                                    assert(src2 == (Ent {
                                        tween: lunge_tween(*g, src, dfd),
                                        ..src
                                    }));
                                    assert(store.s() == ents1s.update(si as int, src2));
                                    assert(store.s() == st.0);
                                    assert(st.1 == Some(
                                        DamageApplied {
                                            source: ev.source,
                                            target: ev.target,
                                            amount: p,
                                        },
                                    ));
                                    let r = damage_rec(*g, st.0, events@.skip(k as int + 1));
                                    assert(damage_rec(*g, pre, events@.skip(k as int)).0 == r.0);
                                    assert(damage_rec(*g, pre, events@.skip(k as int)).1 == seq![
                                        st.1->Some_0,
                                    ] + r.1);
                                    assert(apre + (seq![st.1->Some_0] + r.1) =~= applied@ + r.1);
                                }
                            }
                        },
                        None => {},
                    }
                }
            },
            None => {},
        }
        proof {
            if !landed {
                assert(st.0 == pre);
                assert(st.1 is None);
            }
        }
        k = k + 1;
    }
    proof {
        assert(events@.skip(n as int) =~= Seq::<DamageEvent>::empty());
        assert(full.1 =~= applied@ + Seq::<DamageApplied>::empty());
    }
    applied
}

/// The target an attack into `c` should hit after a rebuild: the damageable
/// entity standing on `c` that was registered last, in creation order.
pub open spec fn target_for(ents: Seq<Ent>, c: IVec2) -> Option<EntityId>
    decreases ents.len(),
{
    if ents.len() == 0 {
        None
    } else if ents.last().health is Some && ents.last().coords == c {
        Some(ents.last().id)
    } else {
        target_for(ents.drop_last(), c)
    }
}

/// Rebuild the attack-target index from every damageable entity's current
/// cell, in creation order (so on a shared cell the newest entry wins).
pub fn update_state(state: &mut AttackState, store: &Store)
    ensures
        final(state).inv(),
        forall|c: IVec2| final(state).target_at(c) == target_for(store.s(), c),
{
    state.clear();
    let n = store.ents.len();
    proof {
        assert(store.s().take(0) =~= Seq::<Ent>::empty());
    }
    let mut i: usize = 0;
    while i < n
        invariant
            state.inv(),
            n == store.s().len(),
            0 <= i <= n,
            forall|c: IVec2| state.target_at(c) == target_for(store.s().take(i as int), c),
        decreases n - i,
    {
        let e = store.ents[i];
        proof {
            assert(store.s().take(i as int + 1).drop_last() =~= store.s().take(i as int));
            assert(store.s().take(i as int + 1).last() == store.s()[i as int]);
        }
        if e.health.is_some() {
            state.insert(e.coords, e.id);
        }
        i = i + 1;
    }
    proof {
        assert(store.s().take(n as int) =~= store.s());
    }
}

/// An entity whose health has reached zero and must be destroyed.
pub open spec fn is_dead(e: Ent) -> bool {
    e.health matches Some(h) && h.current == 0
}

/// Filtering keeps handles distinct: every kept entity is an entity of the
/// original sequence, and no two kept entities coincide.
proof fn lemma_filter_subseq_ids(s: Seq<Ent>, pred: spec_fn(Ent) -> bool)
    requires
        crate::store::seq_ids_distinct(s),
    ensures
        crate::store::seq_ids_distinct(s.filter(pred)),
    decreases s.len(),
{
    reveal_with_fuel(Seq::filter, 2);
    if s.len() > 0 {
        assert(forall|p: int, q: int|
            0 <= p < q < s.drop_last().len() ==> s.drop_last()[p].id != s.drop_last()[q].id);
        lemma_filter_subseq_ids(s.drop_last(), pred);
        let f = s.filter(pred);
        let fd = s.drop_last().filter(pred);
        if pred(s.last()) {
            assert(f == fd.push(s.last()));
            assert forall|p: int, q: int| 0 <= p < q < f.len() implies f[p].id != f[q].id by {
                if q == f.len() - 1 {
                    crate::assoc::lemma_filter_elem_of(s.drop_last(), pred, p);
                    let m = choose|m: int|
                        0 <= m < s.drop_last().len() && s.drop_last()[m] == fd[p];
                    assert(s[m] == fd[p]);
                    assert(s[m].id != s.last().id);
                }
            }
        }
    }
}

/// Destroy every entity whose health has reached zero: it leaves the store,
/// is purged from both sides of the occupancy map, and the attack-target
/// index is rebuilt from the survivors, all within this call. Returns the
/// destroyed handles in creation order.
pub fn death(store: &mut Store, map: &mut SpatialMap, state: &mut AttackState) -> (destroyed: Vec<
    EntityId,
>)
    requires
        old(store).wf(),
        old(map).inv(),
    ensures
        final(store).wf(),
        final(map).inv(),
        final(state).inv(),
        final(store).s() == old(store).s().filter(|e: Ent| !is_dead(e)),
        destroyed@ == old(store).s().filter(|e: Ent| is_dead(e)).map_values(|e: Ent| e.id),
        forall|k: int|
            0 <= k < destroyed@.len() ==> final(map).cell_of(#[trigger] destroyed@[k]) is None,
        forall|e2: EntityId|
            !destroyed@.contains(e2) ==> final(map).cell_of(e2) == old(map).cell_of(e2),
        forall|c: IVec2| final(state).target_at(c) == target_for(final(store).s(), c),
{
    let ghost s0 = store.s();
    let n = store.ents.len();
    let mut survivors: Vec<Ent> = Vec::new();
    let mut destroyed: Vec<EntityId> = Vec::new();
    proof {
        assert(s0.take(0) =~= Seq::<Ent>::empty());
        assert(Seq::<Ent>::empty().filter(|e: Ent| !is_dead(e)) =~= Seq::<Ent>::empty());
        assert(Seq::<Ent>::empty().filter(|e: Ent| is_dead(e)) =~= Seq::<Ent>::empty());
    }
    let mut i: usize = 0;
    while i < n
        invariant
            store.wf(),
            s0 == store.s(),
            n == s0.len(),
            0 <= i <= n,
            survivors@ == s0.take(i as int).filter(|e: Ent| !is_dead(e)),
            destroyed@ == s0.take(i as int).filter(|e: Ent| is_dead(e)).map_values(|e: Ent| e.id),
        decreases n - i,
    {
        let e = store.ents[i];
        proof {
            assert(s0.take(i as int + 1).drop_last() =~= s0.take(i as int));
            assert(s0.take(i as int + 1).last() == s0[i as int]);
            reveal_with_fuel(Seq::filter, 2);
        }
        let dead = match &e.health {
            Some(h) => h.is_empty(),
            None => false,
        };
        if dead {
            destroyed.push(e.id);
            proof {
                assert(s0.take(i as int + 1).filter(|e: Ent| is_dead(e)) =~= s0.take(
                    i as int,
                ).filter(|e: Ent| is_dead(e)).push(s0[i as int]));
                assert(destroyed@ =~= s0.take(i as int + 1).filter(|e: Ent| is_dead(e)).map_values(
                    |e: Ent| e.id,
                ));
            }
        } else {
            survivors.push(e);
        }
        i = i + 1;
    }
    proof {
        assert(s0.take(n as int) =~= s0);
    }
    store.ents = survivors;
    proof {
        let live = s0.filter(|e: Ent| !is_dead(e));
        assert(store.s() == live);
        assert(store.wf()) by {
            assert forall|p: int|
                0 <= p < live.len() implies crate::store::ent_wf(#[trigger] live[p]) by {
                crate::assoc::lemma_filter_elem_of(s0, |e: Ent| !is_dead(e), p);
                let m = choose|m: int| 0 <= m < s0.len() && s0[m] == live[p];
                assert(crate::store::ent_wf(s0[m]));
            }
            assert(crate::store::seq_ids_distinct(live)) by {
                lemma_filter_subseq_ids(s0, |e: Ent| !is_dead(e));
            }
        }
    }
    let nd = destroyed.len();
    let mut j: usize = 0;
    while j < nd
        invariant
            map.inv(),
            nd == destroyed@.len(),
            0 <= j <= nd,
            forall|m: int| 0 <= m < j ==> map.cell_of(#[trigger] destroyed@[m]) is None,
            forall|e2: EntityId|
                (forall|m: int| 0 <= m < j ==> destroyed@[m] != e2) ==> map.cell_of(e2) == old(
                    map,
                ).cell_of(e2),
        decreases nd - j,
    {
        map.purge(destroyed[j]);
        j = j + 1;
    }
    proof {
        assert forall|e2: EntityId|
            !destroyed@.contains(e2) implies map.cell_of(e2) == old(map).cell_of(e2) by {
            assert(forall|m: int| 0 <= m < nd ==> destroyed@[m] != e2);
        }
    }
    update_state(state, store);
    destroyed
}

} // verus!
