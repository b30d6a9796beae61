use vstd::prelude::*;

use crate::assoc::{
    elems_distinct, keys_distinct, lemma_lookup_none, lemma_lookup_push,
    lemma_lookup_remove, lemma_lookup_skip, lemma_lookup_some_index, lemma_lookup_update,
    lemma_remove_elem_absent, lemma_remove_elem_at, lemma_remove_elem_props, lookup, remove_elem,
};
use crate::grid::{world_of, Grid, IVec2};
use crate::physics::MoveCommitted;
use crate::store::{lemma_seq_index_unique, DesyncError, Ent, EntityId, Store};
use crate::timer::Timer;
use crate::tween::{lemma_tween_value_bounded, Tween, TweenMode, Vec3i};

verus! {

/// Logical cell a board object stands on.
pub struct Position(pub IVec2);

/// Direction a board object faces.
pub struct Facing {
    pub direction: IVec2,
}

/// Render layer of a board object: its z coordinate.
pub struct Layer(pub i32);

impl Position {
    /// The four orthogonal neighbours, paired with the step that reaches
    /// them, in the fixed scan order: up, down, right, left.
    pub fn get_neighbors(&self) -> (r: [(IVec2, Position); 4])
        requires
            self.0.x - 1 >= i32::MIN,
            self.0.x + 1 <= i32::MAX,
            self.0.y - 1 >= i32::MIN,
            self.0.y + 1 <= i32::MAX,
        ensures
            r@[0].0 == (IVec2 { x: 0, y: 1 }) && r@[0].1.0 == (IVec2 {
                x: self.0.x,
                y: (self.0.y + 1) as i32,
            }),
            r@[1].0 == (IVec2 { x: 0i32, y: -1i32 }) && r@[1].1.0 == (IVec2 {
                x: self.0.x,
                y: (self.0.y - 1) as i32,
            }),
            r@[2].0 == (IVec2 { x: 1, y: 0 }) && r@[2].1.0 == (IVec2 {
                x: (self.0.x + 1) as i32,
                y: self.0.y,
            }),
            r@[3].0 == (IVec2 { x: -1i32, y: 0i32 }) && r@[3].1.0 == (IVec2 {
                x: (self.0.x - 1) as i32,
                y: self.0.y,
            }),
    {
        [
            (IVec2 { x: 0, y: 1 }, Position(IVec2 { x: self.0.x, y: self.0.y + 1 })),
            (IVec2 { x: 0, y: -1 }, Position(IVec2 { x: self.0.x, y: self.0.y - 1 })),
            (IVec2 { x: 1, y: 0 }, Position(IVec2 { x: self.0.x + 1, y: self.0.y })),
            (IVec2 { x: -1, y: 0 }, Position(IVec2 { x: self.0.x - 1, y: self.0.y })),
        ]
    }
}

/// The components every board object is spawned with.
pub struct BoardObjectBundle {
    pub coords: Position,
    pub facing: Facing,
    pub layer: Layer,
    pub tween: Tween,
}

impl Default for BoardObjectBundle {
    /// At the origin, facing down, on the base layer, with a settled tween.
    fn default() -> (r: BoardObjectBundle)
        ensures
            r.coords.0 == (IVec2 { x: 0, y: 0 }),
            r.facing.direction == (IVec2 { x: 0i32, y: -1i32 }),
            r.layer.0 == 0,
            r.tween.wf(),
    {
        BoardObjectBundle {
            coords: Position(IVec2 { x: 0, y: 0 }),
            facing: Facing { direction: IVec2 { x: 0, y: -1 } },
            layer: Layer(0),
            tween: Tween::default(),
        }
    }
}

/// Bidirectional occupancy index: which entities stand on each cell, and on
/// which cell each entity stands. The two views always agree.
pub struct SpatialMap {
    entities: Vec<(IVec2, Vec<EntityId>)>,
    coords: Vec<(EntityId, IVec2)>,
}

impl SpatialMap {
    pub closed spec fn fwd(self) -> Seq<(IVec2, Vec<EntityId>)> {
        self.entities@
    }

    pub closed spec fn rev(self) -> Seq<(EntityId, IVec2)> {
        self.coords@
    }

    /// The cell an entity is indexed under, if any.
    pub open spec fn cell_of(self, e: EntityId) -> Option<IVec2> {
        lookup(self.rev(), e)
    }

    /// The entities indexed under a cell, oldest arrival first.
    pub open spec fn occupants(self, c: IVec2) -> Seq<EntityId> {
        match lookup(self.fwd(), c) {
            Some(v) => v@,
            None => Seq::empty(),
        }
    }

    /// Consistency of the two views: each side's entries are distinct, every
    /// reverse entry appears in its cell's occupant list, and every occupant
    /// list entry is indexed back to that same cell.
    pub open spec fn inv(self) -> bool {
        &&& keys_distinct(self.fwd())
        &&& keys_distinct(self.rev())
        &&& (forall|i: int|
            0 <= i < self.fwd().len() ==> elems_distinct(#[trigger] self.fwd()[i].1@))
        &&& (forall|j: int|
            0 <= j < self.rev().len() ==> self.occupants(#[trigger] self.rev()[j].1).contains(
                self.rev()[j].0,
            ))
        &&& (forall|i: int, k: int|
            0 <= i < self.fwd().len() && 0 <= k < self.fwd()[i].1@.len() ==> self.cell_of(
                #[trigger] self.fwd()[i].1@[k],
            ) == Some(self.fwd()[i].0))
    }

    pub fn new() -> (r: SpatialMap)
        ensures
            r.inv(),
            forall|e: EntityId| r.cell_of(e) is None,
            forall|c: IVec2| r.occupants(c) == Seq::<EntityId>::empty(),
    {
        SpatialMap { entities: Vec::new(), coords: Vec::new() }
    }

    /// First forward entry for cell `c`, with everything a caller needs to
    /// relate it to the spec-level lookup.
    fn fwd_index(&self, c: IVec2) -> (r: Option<usize>)
        ensures
            match r {
                Some(i) => i < self.fwd().len() && self.fwd()[i as int].0 == c && (forall|m: int|
                    0 <= m < i ==> self.fwd()[m].0 != c) && lookup(self.fwd(), c) == Some(
                    self.fwd()[i as int].1,
                ),
                None => lookup(self.fwd(), c) is None,
            },
    {
        let n = self.entities.len();
        let mut i: usize = 0;
        while i < n
            invariant
                n == self.fwd().len(),
                0 <= i <= n,
                forall|m: int| 0 <= m < i ==> self.fwd()[m].0 != c,
            decreases n - i,
        {
            if self.entities[i].0 == c {
                proof {
                    lemma_lookup_skip(self.fwd(), c, i as int);
                    assert(self.fwd().skip(i as int)[0] == self.fwd()[i as int]);
                }
                return Some(i);
            }
            i = i + 1;
        }
        proof {
            lemma_lookup_skip(self.fwd(), c, n as int);
            assert(self.fwd().skip(n as int) == Seq::<(IVec2, Vec<EntityId>)>::empty());
        }
        None
    }

    /// First reverse entry for entity `e`.
    fn rev_index(&self, e: EntityId) -> (r: Option<usize>)
        ensures
            match r {
                Some(j) => j < self.rev().len() && self.rev()[j as int].0 == e && (forall|m: int|
                    0 <= m < j ==> self.rev()[m].0 != e) && self.cell_of(e) == Some(
                    self.rev()[j as int].1,
                ),
                None => self.cell_of(e) is None,
            },
    {
        let n = self.coords.len();
        let mut i: usize = 0;
        while i < n
            invariant
                n == self.rev().len(),
                0 <= i <= n,
                forall|m: int| 0 <= m < i ==> self.rev()[m].0 != e,
            decreases n - i,
        {
            if self.coords[i].0 == e {
                proof {
                    lemma_lookup_skip(self.rev(), e, i as int);
                    assert(self.rev().skip(i as int)[0] == self.rev()[i as int]);
                }
                return Some(i);
            }
            i = i + 1;
        }
        proof {
            lemma_lookup_skip(self.rev(), e, n as int);
            assert(self.rev().skip(n as int) == Seq::<(EntityId, IVec2)>::empty());
        }
        None
    }

    /// The entities standing on `position`, if any are indexed there.
    pub fn get(&self, position: &IVec2) -> (r: Option<&Vec<EntityId>>)
        ensures
            match r {
                Some(v) => v@ == self.occupants(*position) && lookup(self.fwd(), *position)
                    == Some(*v),
                None => self.occupants(*position) == Seq::<EntityId>::empty() && lookup(
                    self.fwd(),
                    *position,
                ) is None,
            },
    {
        match self.fwd_index(*position) {
            Some(i) => Some(&self.entities[i].1),
            None => None,
        }
    }
}

/// First index of `e` in an occupant list.
fn list_index(v: &Vec<EntityId>, e: EntityId) -> (r: Option<usize>)
    ensures
        match r {
            Some(k) => k < v@.len() && v@[k as int] == e && forall|m: int|
                0 <= m < k ==> v@[m] != e,
            None => !v@.contains(e),
        },
{
    let n = v.len();
    let mut k: usize = 0;
    while k < n
        invariant
            n == v@.len(),
            0 <= k <= n,
            forall|m: int| 0 <= m < k ==> v@[m] != e,
        decreases n - k,
    {
        if v[k] == e {
            return Some(k);
        }
        k = k + 1;
    }
    proof {
        if v@.contains(e) {
            let m = choose|m: int| 0 <= m < v@.len() && v@[m] == e;
            assert(v@[m] != e);
        }
    }
    None
}

impl SpatialMap {
    /// Occupant lists of a consistent map never hold duplicates.
    proof fn lemma_occupants_distinct(self, c: IVec2)
        requires
            self.inv(),
        ensures
            elems_distinct(self.occupants(c)),
    {
        if lookup(self.fwd(), c) is Some {
            lemma_lookup_some_index(self.fwd(), c);
            let i = choose|i: int|
                0 <= i < self.fwd().len() && self.fwd()[i].0 == c && self.fwd()[i].1 == lookup(
                    self.fwd(),
                    c,
                )->Some_0;
            assert(elems_distinct(self.fwd()[i].1@));
        }
    }

    /// Remove an entity from both views, atomically; a no-op if it is not
    /// indexed. Every other entity's cell and every other occupant stays.
    pub fn purge(&mut self, e: EntityId)
        requires
            old(self).inv(),
        ensures
            final(self).inv(),
            forall|e2: EntityId|
                final(self).cell_of(e2) == if e2 == e {
                    None::<IVec2>
                } else {
                    old(self).cell_of(e2)
                },
            forall|c2: IVec2|
                final(self).occupants(c2) == remove_elem(old(self).occupants(c2), e),
    {
        let ghost m0 = *self;
        match self.rev_index(e) {
            None => {
                proof {
                    assert forall|c2: IVec2|
                        self.occupants(c2) == remove_elem(self.occupants(c2), e) by {
                        lemma_indices_agree(*self, e, c2);
                        lemma_remove_elem_absent(self.occupants(c2), e);
                    }
                }
            },
            Some(j) => {
                let prev = self.coords[j].1;
                self.coords.remove(j);
                proof {
                    assert(self.fwd() == m0.fwd());
                    assert(m0.rev()[j as int].0 == e);
                    assert forall|e2: EntityId|
                        lookup(self.rev(), e2) == if e2 == e {
                            None::<IVec2>
                        } else {
                            lookup(m0.rev(), e2)
                        } by {
                        lemma_lookup_remove(m0.rev(), j as int, e2);
                    }
                }
                match self.fwd_index(prev) {
                    Some(fi) => {
                        let ghost ee = m0.fwd();
                        let ghost oldlist = m0.fwd()[fi as int].1@;
                        let mut pair = self.entities.remove(fi);
                        proof {
                            lemma_indices_agree(m0, e, prev);
                            assert(m0.occupants(prev).contains(e));
                            assert(m0.occupants(prev) == oldlist);
                        }
                        match list_index(&pair.1, e) {
                            Some(k) => {
                                pair.1.remove(k);
                                proof {
                                    lemma_remove_elem_at(oldlist, k as int);
                                }
                            },
                            None => {
                                proof {
                                    assert(pair.1@ == oldlist);
                                    assert(false);
                                }
                            },
                        }
                        let ghost newlist = pair.1@;
                        let ghost pair2 = pair.1;
                        self.entities.insert(fi, pair);
                        proof {
                            let fwd2 = ee.update(fi as int, (prev, pair2));
                            assert(self.fwd() =~= fwd2);
                            assert(newlist == remove_elem(oldlist, e));

                            assert forall|c2: IVec2|
                                lookup(self.fwd(), c2) == if c2 == prev {
                                    Some(pair2)
                                } else {
                                    lookup(ee, c2)
                                } by {
                                lemma_lookup_update(ee, fi as int, pair2, c2);
                                assert(ee[fi as int].0 == prev);
                            }

                            assert forall|c2: IVec2|
                                self.occupants(c2) == remove_elem(m0.occupants(c2), e) by {
                                if c2 == prev {
                                } else {
                                    lemma_indices_agree(m0, e, c2);
                                    assert(m0.cell_of(e) == Some(prev));
                                    assert(!m0.occupants(c2).contains(e));
                                    lemma_remove_elem_absent(m0.occupants(c2), e);
                                }
                            }

                            assert(keys_distinct(self.fwd())) by {
                                lemma_lookup_update(ee, fi as int, pair2, prev);
                            }
                            assert(keys_distinct(self.rev())) by {
                                lemma_lookup_remove(m0.rev(), j as int, e);
                            }

                            assert forall|i2: int|
                                0 <= i2 < self.fwd().len() implies elems_distinct(
                                #[trigger] self.fwd()[i2].1@,
                            ) by {
                                if i2 == fi {
                                    m0.lemma_occupants_distinct(prev);
                                    lemma_remove_elem_props(oldlist, e, e);
                                } else {
                                    assert(self.fwd()[i2] == ee[i2]);
                                    assert(elems_distinct(ee[i2].1@));
                                }
                            }

                            assert forall|j2: int|
                                0 <= j2 < self.rev().len() implies self.occupants(
                                #[trigger] self.rev()[j2].1,
                            ).contains(self.rev()[j2].0) by {
                                let p = if j2 < j { j2 } else { j2 + 1 };
                                assert(self.rev()[j2] == m0.rev()[p]);
                                let e2 = m0.rev()[p].0;
                                let c2 = m0.rev()[p].1;
                                assert(e2 != e) by {
                                    if p != j {
                                        assert(m0.rev()[p].0 != m0.rev()[j as int].0);
                                    }
                                }
                                assert(m0.occupants(c2).contains(e2));
                                m0.lemma_occupants_distinct(c2);
                                lemma_remove_elem_props(m0.occupants(c2), e, e2);
                                assert(self.occupants(c2) == remove_elem(m0.occupants(c2), e));
                            }

                            assert forall|i2: int, k2: int|
                                0 <= i2 < self.fwd().len() && 0 <= k2
                                    < self.fwd()[i2].1@.len() implies self.cell_of(
                                #[trigger] self.fwd()[i2].1@[k2],
                            ) == Some(self.fwd()[i2].0) by {
                                let x = self.fwd()[i2].1@[k2];
                                if i2 == fi {
                                    assert(self.fwd()[i2].1@ == newlist);
                                    m0.lemma_occupants_distinct(prev);
                                    lemma_remove_elem_props(oldlist, e, x);
                                    assert(!newlist.contains(e));
                                    assert(newlist.contains(x));
                                    assert(x != e);
                                    assert(oldlist.contains(x));
                                    let qq = choose|m: int|
                                        0 <= m < oldlist.len() && oldlist[m] == x;
                                    assert(m0.cell_of(ee[fi as int].1@[qq]) == Some(
                                        ee[fi as int].0,
                                    ));
                                    assert(m0.cell_of(x) == Some(prev));
                                } else {
                                    assert(self.fwd()[i2] == ee[i2]);
                                    assert(m0.cell_of(ee[i2].1@[k2]) == Some(ee[i2].0));
                                    assert(x != e) by {
                                        if x == e {
                                            assert(m0.cell_of(e) == Some(ee[i2].0));
                                            assert(m0.cell_of(e) == Some(prev));
                                            assert(ee[i2].0 == prev);
                                            assert(ee[fi as int].0 == prev);
                                            if i2 < fi {
                                                assert(ee[i2].0 != ee[fi as int].0);
                                            } else {
                                                assert(ee[fi as int].0 != ee[i2].0);
                                            }
                                        }
                                    }
                                }
                            }
                        }
                    },
                    None => {
                        proof {
                            lemma_indices_agree(m0, e, prev);
                            assert(m0.occupants(prev).contains(e));
                            assert(false);
                        }
                    },
                }
            },
        }
    }
}

impl SpatialMap {
    /// Index entity `e` under cell `c`; it must not be indexed anywhere yet.
    fn attach(&mut self, e: EntityId, c: IVec2)
        requires
            old(self).inv(),
            old(self).cell_of(e) is None,
        ensures
            final(self).inv(),
            forall|e2: EntityId|
                final(self).cell_of(e2) == if e2 == e {
                    Some(c)
                } else {
                    old(self).cell_of(e2)
                },
            forall|c2: IVec2|
                final(self).occupants(c2) == if c2 == c {
                    old(self).occupants(c).push(e)
                } else {
                    old(self).occupants(c2)
                },
    {
        let ghost m0 = *self;
        proof {
            lemma_lookup_none(m0.rev(), e);
        }
        self.coords.push((e, c));
        proof {
            assert(self.fwd() == m0.fwd());
            assert forall|e2: EntityId|
                lookup(self.rev(), e2) == if e2 == e {
                    Some(c)
                } else {
                    lookup(m0.rev(), e2)
                } by {
                lemma_lookup_push(m0.rev(), e, c, e2);
            }
            assert(keys_distinct(self.rev())) by {
                assert(forall|p: int|
                    0 <= p < m0.rev().len() ==> self.rev()[p] == m0.rev()[p]);
                assert(self.rev()[m0.rev().len() as int] == (e, c));
            }
        }
        let ghost rev2 = self.rev();
        match self.fwd_index(c) {
            Some(fi) => {
                let ghost ee = m0.fwd();
                let ghost oldlist = m0.fwd()[fi as int].1@;
                let mut pair = self.entities.remove(fi);
                pair.1.push(e);
                let ghost newlist = pair.1@;
                let ghost pair2 = pair.1;
                self.entities.insert(fi, pair);
                proof {
                    assert(self.rev() == rev2);
                    let fwd2 = ee.update(fi as int, (c, pair2));
                    assert(self.fwd() =~= fwd2);
                    assert(newlist == oldlist.push(e));

                    assert forall|c2: IVec2|
                        lookup(self.fwd(), c2) == if c2 == c {
                            Some(pair2)
                        } else {
                            lookup(ee, c2)
                        } by {
                        lemma_lookup_update(ee, fi as int, pair2, c2);
                        assert(ee[fi as int].0 == c);
                    }
                    assert(m0.occupants(c) == oldlist);
                    assert(keys_distinct(self.fwd())) by {
                        lemma_lookup_update(ee, fi as int, pair2, c);
                    }

                    assert(!oldlist.contains(e)) by {
                        lemma_indices_agree(m0, e, c);
                    }

                    assert forall|i2: int|
                        0 <= i2 < self.fwd().len() implies elems_distinct(
                        #[trigger] self.fwd()[i2].1@,
                    ) by {
                        if i2 == fi {
                            assert(elems_distinct(oldlist));
                            assert(forall|p: int|
                                0 <= p < oldlist.len() ==> newlist[p] == oldlist[p]);
                            assert(newlist[oldlist.len() as int] == e);
                            assert forall|p: int, q: int|
                                0 <= p < q < newlist.len() implies newlist[p] != newlist[q] by {
                                if q == oldlist.len() {
                                    assert(oldlist[p] != e) by {
                                        if oldlist[p] == e {
                                            assert(oldlist.contains(e));
                                        }
                                    }
                                }
                            }
                        } else {
                            assert(self.fwd()[i2] == ee[i2]);
                            assert(elems_distinct(ee[i2].1@));
                        }
                    }

                    assert forall|j2: int|
                        0 <= j2 < self.rev().len() implies self.occupants(
                        #[trigger] self.rev()[j2].1,
                    ).contains(self.rev()[j2].0) by {
                        if j2 == m0.rev().len() {
                            assert(self.rev()[j2] == (e, c));
                            assert(self.occupants(c) == newlist);
                            assert(newlist[oldlist.len() as int] == e);
                        } else {
                            assert(self.rev()[j2] == m0.rev()[j2]);
                            let e2 = m0.rev()[j2].0;
                            let c2 = m0.rev()[j2].1;
                            assert(m0.occupants(c2).contains(e2));
                            if c2 == c {
                                let q = choose|q: int|
                                    0 <= q < oldlist.len() && oldlist[q] == e2;
                                assert(newlist[q] == e2);
                            }
                        }
                    }

                    assert forall|i2: int, k2: int|
                        0 <= i2 < self.fwd().len() && 0 <= k2
                            < self.fwd()[i2].1@.len() implies self.cell_of(
                        #[trigger] self.fwd()[i2].1@[k2],
                    ) == Some(self.fwd()[i2].0) by {
                        let x = self.fwd()[i2].1@[k2];
                        if i2 == fi {
                            if k2 == oldlist.len() {
                                assert(x == e);
                            } else {
                                assert(x == oldlist[k2]);
                                assert(m0.cell_of(ee[fi as int].1@[k2]) == Some(
                                    ee[fi as int].0,
                                ));
                                assert(x != e) by {
                                    if x == e {
                                        assert(oldlist.contains(e));
                                    }
                                }
                            }
                        } else {
                            assert(self.fwd()[i2] == ee[i2]);
                            assert(m0.cell_of(ee[i2].1@[k2]) == Some(ee[i2].0));
                            assert(x != e) by {
                                if x == e {
                                    assert(m0.cell_of(e) is Some);
                                }
                            }
                        }
                    }
                }
            },
            None => {
                let ghost ee = m0.fwd();
                let mut v: Vec<EntityId> = Vec::new();
                v.push(e);
                let ghost v2 = v;
                self.entities.push((c, v));
                proof {
                    assert(self.rev() == rev2);
                    assert(v2@ =~= seq![e]);
                    assert(m0.occupants(c) == Seq::<EntityId>::empty());
                    assert(m0.occupants(c).push(e) =~= v2@);

                    assert forall|c2: IVec2|
                        lookup(self.fwd(), c2) == if c2 == c {
                            Some(v2)
                        } else {
                            lookup(ee, c2)
                        } by {
                        lemma_lookup_push(ee, c, v2, c2);
                    }
                    assert(keys_distinct(self.fwd())) by {
                        lemma_lookup_none(ee, c);
                        assert(forall|p: int|
                            0 <= p < ee.len() ==> self.fwd()[p] == ee[p]);
                        assert(self.fwd()[ee.len() as int] == (c, v2));
                    }

                    assert forall|i2: int|
                        0 <= i2 < self.fwd().len() implies elems_distinct(
                        #[trigger] self.fwd()[i2].1@,
                    ) by {
                        if i2 == ee.len() {
                            assert(self.fwd()[i2].1@ == v2@);
                        } else {
                            assert(self.fwd()[i2] == ee[i2]);
                            assert(elems_distinct(ee[i2].1@));
                        }
                    }

                    assert forall|j2: int|
                        0 <= j2 < self.rev().len() implies self.occupants(
                        #[trigger] self.rev()[j2].1,
                    ).contains(self.rev()[j2].0) by {
                        if j2 == m0.rev().len() {
                            assert(self.rev()[j2] == (e, c));
                            assert(self.occupants(c) == v2@);
                            assert(v2@[0] == e);
                        } else {
                            assert(self.rev()[j2] == m0.rev()[j2]);
                            let e2 = m0.rev()[j2].0;
                            let c2 = m0.rev()[j2].1;
                            assert(m0.occupants(c2).contains(e2));
                            assert(c2 != c) by {
                                if c2 == c {
                                    assert(m0.occupants(c).contains(e2));
                                }
                            }
                        }
                    }

                    assert forall|i2: int, k2: int|
                        0 <= i2 < self.fwd().len() && 0 <= k2
                            < self.fwd()[i2].1@.len() implies self.cell_of(
                        #[trigger] self.fwd()[i2].1@[k2],
                    ) == Some(self.fwd()[i2].0) by {
                        let x = self.fwd()[i2].1@[k2];
                        if i2 == ee.len() {
                            assert(x == e);
                        } else {
                            assert(self.fwd()[i2] == ee[i2]);
                            assert(m0.cell_of(ee[i2].1@[k2]) == Some(ee[i2].0));
                            assert(x != e) by {
                                if x == e {
                                    assert(m0.cell_of(e) is Some);
                                }
                            }
                        }
                    }
                }
            },
        }
    }

    /// Move entity `e` to cell `c`: it is removed from wherever it was
    /// indexed and appended to `c`'s occupant list, atomically on both views.
    pub fn set_position(&mut self, e: EntityId, c: IVec2)
        requires
            old(self).inv(),
        ensures
            final(self).inv(),
            forall|e2: EntityId|
                final(self).cell_of(e2) == if e2 == e {
                    Some(c)
                } else {
                    old(self).cell_of(e2)
                },
            forall|c2: IVec2|
                final(self).occupants(c2) == if c2 == c {
                    remove_elem(old(self).occupants(c2), e).push(e)
                } else {
                    remove_elem(old(self).occupants(c2), e)
                },
    {
        self.purge(e);
        self.attach(e, c);
    }
}

/// Bring the occupancy map in line with one cycle's outcome: purge the
/// entities removed from the simulation, then re-index each entity whose
/// cell changed. The named entities must be distinct, and no entity may be
/// both removed and moved.
/// The occupant list of cell `c` after one cycle's resync: each removed
/// entity stripped, then each moved entity stripped from wherever it stood
/// and appended at the tail of its new cell's list, in diff order.
pub open spec fn occupants_after(
    occ: Seq<EntityId>,
    c: IVec2,
    removed: Seq<EntityId>,
    changed: Seq<crate::physics::MoveCommitted>,
) -> Seq<EntityId>
    decreases removed.len() + changed.len(),
{
    if removed.len() > 0 {
        occupants_after(remove_elem(occ, removed[0]), c, removed.drop_first(), changed)
    } else if changed.len() > 0 {
        let e = changed[0].entity;
        let stepped = if changed[0].coords == c {
            remove_elem(occ, e).push(e)
        } else {
            remove_elem(occ, e)
        };
        occupants_after(stepped, c, removed, changed.drop_first())
    } else {
        occ
    }
}

pub fn update_spatial_map(
    map: &mut SpatialMap,
    changed: &Vec<crate::physics::MoveCommitted>,
    removed: &Vec<EntityId>,
)
    requires
        old(map).inv(),
        forall|p: int, q: int|
            0 <= p < q < changed@.len() ==> changed@[p].entity != changed@[q].entity,
        forall|p: int, q: int| 0 <= p < q < removed@.len() ==> removed@[p] != removed@[q],
        forall|p: int, q: int|
            0 <= p < changed@.len() && 0 <= q < removed@.len() ==> changed@[p].entity
                != removed@[q],
    ensures
        final(map).inv(),
        forall|q: int|
            0 <= q < removed@.len() ==> final(map).cell_of(#[trigger] removed@[q]) is None,
        forall|p: int|
            0 <= p < changed@.len() ==> final(map).cell_of(#[trigger] changed@[p].entity)
                == Some(changed@[p].coords),
        forall|e2: EntityId|
            (forall|q: int| 0 <= q < removed@.len() ==> removed@[q] != e2) && (forall|p: int|
                0 <= p < changed@.len() ==> changed@[p].entity != e2) ==> final(map).cell_of(e2)
                == old(map).cell_of(e2),
        forall|c: IVec2|
            final(map).occupants(c) == occupants_after(
                old(map).occupants(c),
                c,
                removed@,
                changed@,
            ),
{
    let ghost full = |c: IVec2| occupants_after(old(map).occupants(c), c, removed@, changed@);
    proof {
        assert(removed@.skip(0) =~= removed@);
        assert(changed@.skip(0) =~= changed@);
    }
    let nr = removed.len();
    let mut q: usize = 0;
    while q < nr
        invariant
            map.inv(),
            nr == removed@.len(),
            0 <= q <= nr,
            forall|m: int| 0 <= m < q ==> map.cell_of(#[trigger] removed@[m]) is None,
            forall|e2: EntityId|
                (forall|m: int| 0 <= m < q ==> removed@[m] != e2) ==> map.cell_of(e2) == old(
                    map,
                ).cell_of(e2),
            forall|c: IVec2|
                occupants_after(map.occupants(c), c, removed@.skip(q as int), changed@)
                    == full(c),
        decreases nr - q,
    {
        let ghost mpre = *map;
        map.purge(removed[q]);
        proof {
            assert(removed@.skip(q as int)[0] == removed@[q as int]);
            assert(removed@.skip(q as int).drop_first() =~= removed@.skip(q as int + 1));
            assert forall|c: IVec2|
                occupants_after(map.occupants(c), c, removed@.skip(q as int + 1), changed@)
                    == full(c) by {
                assert(map.occupants(c) == remove_elem(mpre.occupants(c), removed@[q as int]));
                assert(occupants_after(mpre.occupants(c), c, removed@.skip(q as int), changed@)
                    == occupants_after(
                    remove_elem(mpre.occupants(c), removed@[q as int]),
                    c,
                    removed@.skip(q as int + 1),
                    changed@,
                ));
            }
        }
        q = q + 1;
    }
    proof {
        assert(removed@.skip(nr as int) =~= Seq::<EntityId>::empty());
    }
    let nc = changed.len();
    let mut p: usize = 0;
    while p < nc
        invariant
            map.inv(),
            nc == changed@.len(),
            nr == removed@.len(),
            0 <= p <= nc,
            forall|p2: int, q2: int|
                0 <= p2 < q2 < changed@.len() ==> changed@[p2].entity != changed@[q2].entity,
            forall|p2: int, q2: int|
                0 <= p2 < changed@.len() && 0 <= q2 < removed@.len() ==> changed@[p2].entity
                    != removed@[q2],
            forall|m: int| 0 <= m < nr ==> map.cell_of(#[trigger] removed@[m]) is None,
            forall|m: int|
                0 <= m < p ==> map.cell_of(#[trigger] changed@[m].entity) == Some(
                    changed@[m].coords,
                ),
            forall|e2: EntityId|
                (forall|m: int| 0 <= m < nr ==> removed@[m] != e2) && (forall|m: int|
                    0 <= m < p ==> changed@[m].entity != e2) ==> map.cell_of(e2) == old(
                    map,
                ).cell_of(e2),
            forall|c: IVec2|
                occupants_after(
                    map.occupants(c),
                    c,
                    Seq::<EntityId>::empty(),
                    changed@.skip(p as int),
                ) == full(c),
        decreases nc - p,
    {
        let ev = changed[p];
        let ghost mpre = *map;
        map.set_position(ev.entity, ev.coords);
        proof {
            assert(changed@.skip(p as int)[0] == changed@[p as int]);
            assert(changed@.skip(p as int).drop_first() =~= changed@.skip(p as int + 1));
            assert forall|c: IVec2|
                occupants_after(
                    map.occupants(c),
                    c,
                    Seq::<EntityId>::empty(),
                    changed@.skip(p as int + 1),
                ) == full(c) by {
                let stepped = if ev.coords == c {
                    remove_elem(mpre.occupants(c), ev.entity).push(ev.entity)
                } else {
                    remove_elem(mpre.occupants(c), ev.entity)
                };
                assert(map.occupants(c) == stepped);
                assert(occupants_after(
                    mpre.occupants(c),
                    c,
                    Seq::<EntityId>::empty(),
                    changed@.skip(p as int),
                ) == occupants_after(
                    stepped,
                    c,
                    Seq::<EntityId>::empty(),
                    changed@.skip(p as int + 1),
                ));
            }
        }
        p = p + 1;
    }
    proof {
        assert(changed@.skip(nc as int) =~= Seq::<crate::physics::MoveCommitted>::empty());
        assert forall|c: IVec2| map.occupants(c) == full(c) by {
            assert(occupants_after(
                map.occupants(c),
                c,
                Seq::<EntityId>::empty(),
                Seq::<crate::physics::MoveCommitted>::empty(),
            ) == map.occupants(c));
        }
    }
}

/// The slide tween a committed cell change starts: from the position the
/// entity is currently rendered at, toward its new cell's world position on
/// its render layer.
pub open spec fn slide_tween(g: Grid, e: Ent) -> Tween {
    Tween {
        from: e.tween.value_spec(),
        to: Vec3i {
            x: world_of(g, e.coords).x as i64,
            y: world_of(g, e.coords).y as i64,
            z: e.layer as i64,
        },
        timer: Timer { elapsed_ms: 0, duration_ms: 200 },
        mode: TweenMode::Move,
    }
}

/// Observe the committed cell changes of one cycle: each named entity's
/// tween restarts in slide mode toward its (already committed) new cell.
/// An event naming an absent entity signals a corrupted index.
pub fn update_position(grid: &Grid, store: &mut Store, changed: &Vec<MoveCommitted>) -> (r: Result<
    (),
    DesyncError,
>)
    requires
        grid.wf(),
        old(store).wf(),
        forall|p: int, q: int|
            0 <= p < q < changed@.len() ==> changed@[p].entity != changed@[q].entity,
    ensures
        final(store).wf(),
        final(store).s().len() == old(store).s().len(),
        match r {
            Ok(_) => {
                &&& forall|k: int|
                    0 <= k < changed@.len() ==> old(store).has_ent(#[trigger] changed@[k].entity)
                &&& forall|k: int|
                    0 <= k < changed@.len() ==> final(store).ent_of(#[trigger] changed@[k].entity)
                        == (Ent {
                        tween: slide_tween(*grid, old(store).ent_of(changed@[k].entity)),
                        ..old(store).ent_of(changed@[k].entity)
                    })
                &&& forall|e2: EntityId|
                    (forall|k: int| 0 <= k < changed@.len() ==> changed@[k].entity != e2) ==> (
                    final(store).has_ent(e2) == old(store).has_ent(e2) && (final(store).has_ent(e2)
                        ==> final(store).ent_of(e2) == old(store).ent_of(e2)))
            },
            Err(de) => {
                &&& !old(store).has_ent(de.entity)
                &&& exists|k: int|
                    0 <= k < changed@.len() && (#[trigger] changed@[k]).entity == de.entity
            },
        },
{
    let n = changed.len();
    let mut k: usize = 0;
    while k < n
        invariant
            grid.wf(),
            store.wf(),
            n == changed@.len(),
            0 <= k <= n,
            forall|p: int, q: int|
                0 <= p < q < changed@.len() ==> changed@[p].entity != changed@[q].entity,
            store.s().len() == old(store).s().len(),
            forall|m: int|
                0 <= m < store.s().len() ==> (#[trigger] store.s()[m]).id == old(store).s()[m].id,
            forall|j: int|
                0 <= j < k ==> old(store).has_ent(#[trigger] changed@[j].entity),
            forall|j: int| 0 <= j < k ==> store.has_ent(#[trigger] changed@[j].entity),
            forall|j: int|
                0 <= j < k ==> store.ent_of(#[trigger] changed@[j].entity) == (Ent {
                    tween: slide_tween(*grid, old(store).ent_of(changed@[j].entity)),
                    ..old(store).ent_of(changed@[j].entity)
                }),
            forall|e2: EntityId|
                (forall|j: int| 0 <= j < k ==> changed@[j].entity != e2) ==> (store.has_ent(e2)
                    == old(store).has_ent(e2) && (store.has_ent(e2) ==> store.ent_of(e2) == old(
                    store,
                ).ent_of(e2))),
            old(store).wf(),
        decreases n - k,
    {
        let ev = changed[k];
        match store.find_index(ev.entity) {
            Some(i) => {
                proof {
                    lemma_seq_index_unique(store.s(), i as int);
                    lemma_seq_index_unique(old(store).s(), i as int);
                }
                let e = store.ents[i];
                let v = e.tween.value();
                let w = grid.map_to_world(e.coords);
                let mut e2 = e;
                let mut tw = e.tween;
                tw.from = v;
                tw.to = Vec3i { x: w.x as i64, y: w.y as i64, z: e.layer as i64 };
                tw.start(200, TweenMode::Move);
                e2.tween = tw;
                let ghost pre = store.s();
                proof {
                    lemma_tween_value_bounded(e.tween);
                    assert(e == store.ent_of(ev.entity));
                    assert(store.ent_of(ev.entity) == old(store).ent_of(ev.entity));
                    assert(tw == slide_tween(*grid, old(store).ent_of(ev.entity)));
                }
                store.set_at(i, e2);
                proof {
                    assert forall|id: EntityId| true implies (crate::store::seq_has(
                        store.s(),
                        id,
                    ) == crate::store::seq_has(pre, id) && (id != ev.entity
                        && crate::store::seq_has(pre, id) ==> crate::store::seq_ent_of(
                        store.s(),
                        id,
                    ) == crate::store::seq_ent_of(pre, id)) && (id == ev.entity
                        ==> crate::store::seq_ent_of(store.s(), id) == e2)) by {
                        crate::store::lemma_update_keeps_lookups(pre, i as int, e2, id);
                    }
                }
            },
            None => {
                proof {
                    assert(changed@[k as int].entity == ev.entity);
                }
                return Err(DesyncError { entity: ev.entity });
            },
        }
        k = k + 1;
    }
    Ok(())
}

/// The forward and reverse views of a consistent occupancy map agree: an
/// entity is indexed under a cell exactly when it appears in that cell's
/// occupant list.
pub proof fn lemma_indices_agree(m: SpatialMap, e: EntityId, c: IVec2)
    requires
        m.inv(),
    ensures
        m.cell_of(e) == Some(c) <==> m.occupants(c).contains(e),
{
    if m.cell_of(e) == Some(c) {
        lemma_lookup_some_index(m.rev(), e);
        let j = choose|j: int|
            0 <= j < m.rev().len() && m.rev()[j].0 == e && m.rev()[j].1 == lookup(
                m.rev(),
                e,
            )->Some_0;
        assert(m.occupants(m.rev()[j].1).contains(m.rev()[j].0));
    }
    if m.occupants(c).contains(e) {
        assert(lookup(m.fwd(), c) is Some);
        lemma_lookup_some_index(m.fwd(), c);
        let i = choose|i: int|
            0 <= i < m.fwd().len() && m.fwd()[i].0 == c && m.fwd()[i].1 == lookup(
                m.fwd(),
                c,
            )->Some_0;
        let v = m.fwd()[i].1;
        assert(v@ == m.occupants(c));
        let k = choose|k: int| 0 <= k < v@.len() && v@[k] == e;
        assert(m.cell_of(m.fwd()[i].1@[k]) == Some(m.fwd()[i].0));
    }
}

} // verus!
