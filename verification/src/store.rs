use vstd::prelude::*;

use crate::damage::Damageable;
use crate::grid::{cell_bounded, step_vec, IVec2};
use crate::tween::Tween;

verus! {

/// Opaque stable handle to a simulated actor or tile.
pub type EntityId = u64;

/// An index lookup expected an entity that is absent: the occupancy state is
/// corrupted and the affected cycle must abort.
#[derive(Clone, Copy, PartialEq, Eq, Structural, Debug)]
pub struct DesyncError {
    pub entity: EntityId,
}

/// One simulated board object with its components. Components the entity
/// does not carry are `None` or `false`.
#[derive(Clone, Copy)]
pub struct Ent {
    pub id: EntityId,
    /// Logical cell the entity stands on.
    pub coords: IVec2,
    /// Direction the entity faces; a single-cell step vector.
    pub facing: IVec2,
    /// Render layer, the z coordinate handed to the animator.
    pub layer: i32,
    /// Health, for entities that can take damage.
    pub health: Option<Damageable>,
    /// Attack power, for entities that can deal damage.
    pub power: Option<i32>,
    /// Takes part in solid-body collision.
    pub solid: bool,
    /// Carries a velocity that the physics resolver consumes.
    pub kinematic: bool,
    /// Pending single-step move, consumed each physics cycle.
    pub velocity: IVec2,
    /// Player-controlled.
    pub controllable: bool,
    /// AI-controlled.
    pub goblin: bool,
    /// Interpolation state smoothing this entity's cell changes.
    pub tween: Tween,
}

pub open spec fn ent_wf(e: Ent) -> bool {
    &&& cell_bounded(e.coords)
    &&& step_vec(e.facing)
    &&& step_vec(e.velocity)
    &&& -1000 <= e.layer <= 1000
    &&& (e.health matches Some(h) ==> h.wf())
    &&& (e.power matches Some(p) ==> p >= 0)
    &&& e.tween.wf()
}

/// The simulation's entity store. Entities keep their creation order, which
/// is the deterministic order every per-cycle iteration follows.
pub struct Store {
    pub ents: Vec<Ent>,
}

/// Some entity of the sequence carries handle `id`.
pub open spec fn seq_has(ents: Seq<Ent>, id: EntityId) -> bool {
    exists|i: int| 0 <= i < ents.len() && ents[i].id == id
}

/// The index of the entity carrying handle `id` (unique when handles are).
pub open spec fn seq_index_of(ents: Seq<Ent>, id: EntityId) -> int {
    choose|i: int| 0 <= i < ents.len() && ents[i].id == id
}

pub open spec fn seq_ent_of(ents: Seq<Ent>, id: EntityId) -> Ent {
    ents[seq_index_of(ents, id)]
}

pub open spec fn seq_ids_distinct(ents: Seq<Ent>) -> bool {
    forall|i: int, j: int| 0 <= i < j < ents.len() ==> ents[i].id != ents[j].id
}

impl Store {
    pub open spec fn s(self) -> Seq<Ent> {
        self.ents@
    }

    pub open spec fn ids_distinct(self) -> bool {
        seq_ids_distinct(self.s())
    }

    pub open spec fn wf(self) -> bool {
        &&& self.ids_distinct()
        &&& forall|i: int| 0 <= i < self.s().len() ==> ent_wf(#[trigger] self.s()[i])
    }

    pub open spec fn has_ent(self, id: EntityId) -> bool {
        seq_has(self.s(), id)
    }

    pub open spec fn index_of(self, id: EntityId) -> int {
        seq_index_of(self.s(), id)
    }

    pub open spec fn ent_of(self, id: EntityId) -> Ent {
        seq_ent_of(self.s(), id)
    }

    pub fn new() -> (r: Store)
        ensures
            r.s().len() == 0,
            r.wf(),
    {
        Store { ents: Vec::new() }
    }

    pub fn len(&self) -> (r: usize)
        ensures
            r == self.s().len(),
    {
        self.ents.len()
    }

    /// Add a fresh entity; its handle must not already be in use.
    pub fn spawn(&mut self, ent: Ent)
        requires
            old(self).wf(),
            ent_wf(ent),
            !old(self).has_ent(ent.id),
        ensures
            final(self).s() == old(self).s().push(ent),
            final(self).wf(),
            final(self).has_ent(ent.id),
            final(self).ent_of(ent.id) == ent,
    {
        self.ents.push(ent);
        proof {
            let s = self.s();
            let n = s.len() - 1;
            assert(forall|i: int| 0 <= i < n ==> s[i] == old(self).s()[i]);
            assert(s[n] == ent);
            assert(forall|i: int| 0 <= i < n ==> s[i].id != ent.id);
            assert(s[n].id == ent.id);
            assert(self.index_of(ent.id) == n || old(self).has_ent(ent.id));
        }
    }

    /// Index of the entity with handle `id` in creation order, if present.
    pub fn find_index(&self, id: EntityId) -> (r: Option<usize>)
        ensures
            match r {
                Some(i) => i < self.s().len() && self.s()[i as int].id == id,
                None => !self.has_ent(id),
            },
    {
        let n = self.ents.len();
        let mut i: usize = 0;
        while i < n
            invariant
                n == self.s().len(),
                0 <= i <= n,
                forall|m: int| 0 <= m < i ==> self.s()[m].id != id,
            decreases n - i,
        {
            if self.ents[i].id == id {
                return Some(i);
            }
            i = i + 1;
        }
        None
    }

    pub fn get(&self, id: EntityId) -> (r: Option<&Ent>)
        requires
            self.ids_distinct(),
        ensures
            match r {
                Some(e) => self.has_ent(id) && *e == self.ent_of(id),
                None => !self.has_ent(id),
            },
    {
        match self.find_index(id) {
            Some(i) => Some(&self.ents[i]),
            None => None,
        }
    }

    /// Replace the entity at index `i`, keeping its handle.
    pub fn set_at(&mut self, i: usize, ent: Ent)
        requires
            old(self).wf(),
            i < old(self).s().len(),
            ent_wf(ent),
            ent.id == old(self).s()[i as int].id,
        ensures
            final(self).s() == old(self).s().update(i as int, ent),
            final(self).wf(),
    {
        self.ents.set(i, ent);
    }
}

/// With distinct handles, the entity found at any index is the one that
/// handle lookups name.
pub proof fn lemma_seq_index_unique(ents: Seq<Ent>, i: int)
    requires
        seq_ids_distinct(ents),
        0 <= i < ents.len(),
    ensures
        seq_has(ents, ents[i].id),
        seq_index_of(ents, ents[i].id) == i,
        seq_ent_of(ents, ents[i].id) == ents[i],
{
    let id = ents[i].id;
    assert(seq_has(ents, id));
    let j = seq_index_of(ents, id);
    assert(0 <= j < ents.len() && ents[j].id == id);
    if i != j {
        assert(ents[i].id != ents[j].id);
    }
}

/// Replacing the entity at one index, keeping its handle, changes what that
/// handle names and nothing else.
pub proof fn lemma_update_keeps_lookups(pre: Seq<Ent>, i: int, e2: Ent, id: EntityId)
    requires
        seq_ids_distinct(pre),
        0 <= i < pre.len(),
        e2.id == pre[i].id,
    ensures
        seq_ids_distinct(pre.update(i, e2)),
        seq_has(pre.update(i, e2), id) == seq_has(pre, id),
        id != pre[i].id && seq_has(pre, id) ==> seq_ent_of(pre.update(i, e2), id) == seq_ent_of(
            pre,
            id,
        ),
        id == pre[i].id ==> seq_ent_of(pre.update(i, e2), id) == e2,
{
    let post = pre.update(i, e2);
    assert(forall|p: int| 0 <= p < pre.len() ==> post[p].id == pre[p].id);
    if seq_has(pre, id) {
        let j = seq_index_of(pre, id);
        assert(post[j].id == id);
        assert(seq_has(post, id));
    }
    if seq_has(post, id) {
        let j = seq_index_of(post, id);
        assert(pre[j].id == id);
        assert(seq_has(pre, id));
    }
    if id != pre[i].id && seq_has(pre, id) {
        let j = seq_index_of(pre, id);
        assert(0 <= j < pre.len() && pre[j].id == id);
        assert(j != i);
        assert(post[j] == pre[j]);
        lemma_seq_index_unique(post, j);
    }
    if id == pre[i].id {
        lemma_seq_index_unique(post, i);
    }
}

} // verus!
