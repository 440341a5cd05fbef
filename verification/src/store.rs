//! The entity store: every live particle's components, under stable ids.
//!
//! Components live in dense parallel vectors; a map takes each live id to
//! its slot. The id-to-slot map is a bijection between live ids and valid
//! slots, and removal works in constant time: the removed slot is
//! overwritten with the tail slot's data and the tail owner's map entry is
//! fixed up. Ids count up a 32-bit counter, wrapping at its end; an id is
//! never reused while it is still live, so a create whose candidate id is
//! still taken refuses rather than corrupt an unrelated entity.

use vstd::prelude::*;

use std::collections::BTreeMap;

use crate::components::{
    spec_update, wf_behaviour, wf_body, Behaviour, Body,
};
use crate::units::{DT_MAX, T_MAX};

verus! {

broadcast use vstd::std_specs::btree::group_btree_axioms, vstd::laws_cmp::group_laws_cmp;

/// The store of live entities: parallel component columns and the live-id
/// index over them.
pub struct EntityStore {
    next_entity: u32,
    index: BTreeMap<u32, usize>,
    ids: Vec<u32>,
    bodies: Vec<Body>,
    behaviours: Vec<Behaviour>,
}

impl EntityStore {
    /// The live-id-to-slot map.
    pub closed spec fn slot_map(self) -> Map<u32, usize> {
        self.index@
    }

    /// The owners of the slots, in slot order.
    pub closed spec fn ids_seq(self) -> Seq<u32> {
        self.ids@
    }

    /// The bodies, in slot order.
    pub closed spec fn bodies_seq(self) -> Seq<Body> {
        self.bodies@
    }

    /// The behaviours, in slot order.
    pub closed spec fn behaviours_seq(self) -> Seq<Behaviour> {
        self.behaviours@
    }

    /// The id the next created entity receives.
    pub closed spec fn next_id(self) -> u32 {
        self.next_entity
    }

    /// Whether an id is live.
    pub open spec fn live(self, id: u32) -> bool {
        self.slot_map().contains_key(id)
    }

    /// The number of live entities.
    pub open spec fn count(self) -> int {
        self.ids_seq().len() as int
    }

    /// The store's invariant: the parallel columns share one length, the
    /// id map is a bijection between live ids and valid slots, and every
    /// component is well-formed.
    pub open spec fn wf(self) -> bool {
        &&& self.bodies_seq().len() == self.ids_seq().len()
        &&& self.behaviours_seq().len() == self.ids_seq().len()
        &&& forall|id: u32|
            #[trigger] self.slot_map().contains_key(id) ==> {
                &&& self.slot_map()[id] < self.ids_seq().len()
                &&& self.ids_seq()[self.slot_map()[id] as int] == id
            }
        &&& forall|i: int|
            0 <= i < self.ids_seq().len() ==> {
                &&& self.slot_map().contains_key(#[trigger] self.ids_seq()[i])
                &&& self.slot_map()[self.ids_seq()[i]] == i
            }
        &&& forall|i: int|
            0 <= i < self.ids_seq().len() ==> wf_body(#[trigger] self.bodies_seq()[i]@)
        &&& forall|i: int|
            0 <= i < self.ids_seq().len() ==> wf_behaviour(#[trigger] self.behaviours_seq()[i])
    }

    /// Whether the id counter still runs ahead of every live id, as it does
    /// until it wraps: then every upcoming candidate id is free.
    pub open spec fn ids_compact(self) -> bool {
        forall|id: u32| #[trigger] self.live(id) ==> id < self.next_id()
    }

    /// What the store holds: each live id's body and behaviour.
    pub open spec fn contents(self) -> Map<u32, (Body, Behaviour)> {
        Map::new(
            |id: u32| self.slot_map().contains_key(id),
            |id: u32|
                (
                    self.bodies_seq()[self.slot_map()[id] as int],
                    self.behaviours_seq()[self.slot_map()[id] as int],
                ),
        )
    }

    /// An empty store, counting ids from zero.
    pub fn new() -> (s: EntityStore)
        ensures
            s.wf(),
            s.count() == 0,
            s.contents() =~= Map::<u32, (Body, Behaviour)>::empty(),
            s.next_id() == 0,
    {
        EntityStore {
            next_entity: 0,
            index: BTreeMap::new(),
            ids: Vec::new(),
            bodies: Vec::new(),
            behaviours: Vec::new(),
        }
    }

    /// The number of live entities.
    pub fn len(&self) -> (n: usize)
        ensures
            n == self.count(),
    {
        self.ids.len()
    }

    /// The id owning slot `i`.
    pub fn id_at(&self, i: usize) -> (id: u32)
        requires
            i < self.count(),
        ensures
            id == self.ids_seq()[i as int],
    {
        self.ids[i]
    }

    /// The body in slot `i`.
    pub fn body_at(&self, i: usize) -> (b: Body)
        requires
            self.wf(),
            i < self.count(),
        ensures
            b == self.bodies_seq()[i as int],
    {
        self.bodies[i]
    }

    /// The behaviour in slot `i`.
    pub fn behaviour_at(&self, i: usize) -> (b: &Behaviour)
        requires
            self.wf(),
            i < self.count(),
        ensures
            b == &self.behaviours_seq()[i as int],
    {
        &self.behaviours[i]
    }

    /// Appends an entity under the next id. The id counter always advances,
    /// wrapping at the end of its range; if the candidate id is still live
    /// — it could only be after four billion creations — nothing is stored
    /// and no id is handed out, so a live entity is never aliased.
    pub fn create(&mut self, body: Body, behaviour: Behaviour) -> (r: Option<u32>)
        requires
            old(self).wf(),
            wf_body(body@),
            wf_behaviour(behaviour),
        ensures
            final(self).wf(),
            final(self).next_id() == old(self).next_id().wrapping_add(1),
            old(self).ids_compact() && old(self).next_id() < u32::MAX ==> r is Some
                && final(self).ids_compact(),
            match r {
                Some(id) => {
                    &&& id == old(self).next_id()
                    &&& !old(self).live(id)
                    &&& final(self).contents() =~= old(self).contents().insert(
                        id,
                        (body, behaviour),
                    )
                    &&& final(self).count() == old(self).count() + 1
                    &&& final(self).ids_seq() == old(self).ids_seq().push(id)
                    &&& final(self).bodies_seq() == old(self).bodies_seq().push(body)
                    &&& final(self).behaviours_seq() == old(self).behaviours_seq().push(
                        behaviour,
                    )
                    &&& final(self).slot_map() == old(self).slot_map().insert(
                        id,
                        old(self).ids_seq().len() as usize,
                    )
                },
                None => {
                    &&& old(self).live(old(self).next_id())
                    &&& final(self).contents() == old(self).contents()
                    &&& final(self).ids_seq() == old(self).ids_seq()
                    &&& final(self).bodies_seq() == old(self).bodies_seq()
                    &&& final(self).behaviours_seq() == old(self).behaviours_seq()
                    &&& final(self).slot_map() == old(self).slot_map()
                },
            },
    {
        let id = self.next_entity;
        self.next_entity = self.next_entity.wrapping_add(1);
        if self.index.contains_key(&id) {
            proof {
                assert(self.slot_map() == old(self).slot_map());
                assert(self.ids_seq() == old(self).ids_seq());
                assert(self.bodies_seq() == old(self).bodies_seq());
                assert(self.behaviours_seq() == old(self).behaviours_seq());
                assert(self.contents() =~= old(self).contents());
                if old(self).ids_compact() && old(self).next_id() < u32::MAX {
                    assert(old(self).live(id));
                    assert(false);
                }
            }
            return None;
        }
        let i = self.ids.len();
        self.ids.push(id);
        self.bodies.push(body);
        self.behaviours.push(behaviour);
        self.index.insert(id, i);
        proof {
            assert forall|id2: u32| #[trigger]
                self.slot_map().contains_key(id2) implies {
                &&& self.slot_map()[id2] < self.ids_seq().len()
                &&& self.ids_seq()[self.slot_map()[id2] as int] == id2
            } by {
                if id2 != id {
                    assert(old(self).slot_map().contains_key(id2));
                }
            }
            assert(self.contents() =~= old(self).contents().insert(id, (body, behaviour)));
            assert(self.slot_map() =~= old(self).slot_map().insert(
                id,
                old(self).ids_seq().len() as usize,
            ));
            if old(self).ids_compact() && old(self).next_id() < u32::MAX {
                assert forall|id2: u32| #[trigger] self.live(id2) implies id2 < self.next_id() by {
                    if id2 != id {
                        assert(old(self).live(id2));
                    }
                }
            }
        }
        Some(id)
    }

    /// Removes an id in constant time: the tail slot's data overwrites the
    /// freed slot and the tail owner's map entry is fixed up. An id that is
    /// not live is tolerated as a no-op, never acted out on another slot.
    pub fn remove_id(&mut self, id: u32)
        requires
            old(self).wf(),
        ensures
            final(self).wf(),
            final(self).contents() =~= old(self).contents().remove(id),
            final(self).next_id() == old(self).next_id(),
            final(self).count() == if old(self).live(id) {
                old(self).count() - 1
            } else {
                old(self).count()
            },
            !final(self).live(id),
            forall|id2: u32| #[trigger]
                final(self).live(id2) <==> (old(self).live(id2) && id2 != id),
            old(self).ids_compact() ==> final(self).ids_compact(),
            // the removal mechanism itself: the tail slot's data overwrites
            // the freed slot, and the tail owner's map entry moves there
            old(self).live(id) ==> ({
                let i = old(self).slot_map()[id] as int;
                let n = old(self).ids_seq().len() as int;
                &&& final(self).ids_seq() == old(self).ids_seq().update(
                    i,
                    old(self).ids_seq().last(),
                ).drop_last()
                &&& final(self).bodies_seq() == old(self).bodies_seq().update(
                    i,
                    old(self).bodies_seq().last(),
                ).drop_last()
                &&& final(self).behaviours_seq() == old(self).behaviours_seq().update(
                    i,
                    old(self).behaviours_seq().last(),
                ).drop_last()
                &&& final(self).slot_map() == if i < n - 1 {
                    old(self).slot_map().remove(id).insert(
                        old(self).ids_seq().last(),
                        old(self).slot_map()[id],
                    )
                } else {
                    old(self).slot_map().remove(id)
                }
            }),
            // an absent id is a complete no-op, slot for slot
            !old(self).live(id) ==> {
                &&& final(self).ids_seq() == old(self).ids_seq()
                &&& final(self).bodies_seq() == old(self).bodies_seq()
                &&& final(self).behaviours_seq() == old(self).behaviours_seq()
                &&& final(self).slot_map() == old(self).slot_map()
            },
    {
        let oi = self.index.remove(&id);
        let i = match oi {
            None => {
                proof {
                    assert(self.slot_map() =~= old(self).slot_map());
                    assert(self.contents() =~= old(self).contents().remove(id));
                    if old(self).ids_compact() {
                        assert forall|id2: u32| #[trigger] self.live(id2) implies id2
                            < self.next_id() by {
                            assert(old(self).live(id2));
                        }
                    }
                }
                return ;
            },
            Some(i) => i,
        };
        proof {
            assert(old(self).slot_map().contains_key(id) && old(self).slot_map()[id] == i);
            assert(i < old(self).ids_seq().len());
            assert(self.slot_map() == old(self).slot_map().remove(id));
        }
        let last = self.ids.len() - 1;
        if i < last {
            let last_id = self.ids[last];
            self.index.insert(last_id, i);
        }
        self.ids.swap_remove(i);
        self.bodies.swap_remove(i);
        self.behaviours.swap_remove(i);
        proof {
            let pre = *old(self);
            let post = *self;
            let li: int = last as int;
            let lid = pre.ids_seq()[li];
            // The tail owner differs from the removed id unless the removed
            // slot was the tail itself.
            assert(i < last ==> lid != id);
            assert forall|id2: u32| #[trigger]
                post.slot_map().contains_key(id2) implies {
                &&& post.slot_map()[id2] < post.ids_seq().len()
                &&& post.ids_seq()[post.slot_map()[id2] as int] == id2
            } by {
                assert(pre.slot_map().contains_key(id2));
                if i < last && id2 == lid {
                } else {
                    assert(post.slot_map()[id2] == pre.slot_map()[id2]);
                    assert(pre.slot_map()[id2] != i);
                    assert(pre.slot_map()[id2] != last);
                }
            }
            assert forall|j: int| 0 <= j < post.ids_seq().len() implies {
                &&& post.slot_map().contains_key(#[trigger] post.ids_seq()[j])
                &&& post.slot_map()[post.ids_seq()[j]] == j
            } by {
                if j == i as int && i < last {
                    assert(post.ids_seq()[j] == lid);
                } else {
                    assert(post.ids_seq()[j] == pre.ids_seq()[j]);
                    assert(pre.slot_map()[pre.ids_seq()[j]] == j);
                }
            }
            assert(post.contents() =~= pre.contents().remove(id)) by {
                assert forall|id2: u32| #[trigger]
                    post.contents().contains_key(id2) implies post.contents()[id2]
                    == pre.contents()[id2] by {
                    if i < last && id2 == lid {
                        assert(post.bodies_seq()[i as int] == pre.bodies_seq()[li]);
                        assert(post.behaviours_seq()[i as int] == pre.behaviours_seq()[li]);
                    } else {
                        let j = pre.slot_map()[id2];
                        assert(j != i && j != last);
                        assert(post.bodies_seq()[j as int] == pre.bodies_seq()[j as int]);
                        assert(post.behaviours_seq()[j as int] == pre.behaviours_seq()[
                            j as int]);
                    }
                }
            }
            if pre.ids_compact() {
                assert forall|id2: u32| #[trigger] post.live(id2) implies id2
                    < post.next_id() by {
                    assert(pre.live(id2));
                }
            }
        }
    }

    /// The body of a live id; nothing for a stale one.
    pub fn get_body(&self, id: u32) -> (r: Option<Body>)
        requires
            self.wf(),
        ensures
            match r {
                Some(b) => self.live(id) && b == self.contents()[id].0,
                None => !self.live(id),
            },
    {
        match self.index.get(&id) {
            Some(i) => {
                proof {
                    assert(self.slot_map().contains_key(id) && self.slot_map()[id] == *i);
                }
                Some(self.bodies[*i])
            },
            None => None,
        }
    }

    /// The behaviour of a live id; nothing for a stale one.
    pub fn get_behaviour(&self, id: u32) -> (r: Option<&Behaviour>)
        requires
            self.wf(),
        ensures
            match r {
                Some(b) => self.live(id) && b == &self.contents()[id].1,
                None => !self.live(id),
            },
    {
        match self.index.get(&id) {
            Some(i) => {
                proof {
                    assert(self.slot_map().contains_key(id) && self.slot_map()[id] == *i);
                }
                Some(&self.behaviours[*i])
            },
            None => None,
        }
    }

    /// Swaps a live id's behaviour for another, handing the old one back;
    /// nothing happens for a stale id.
    pub fn replace_behaviour(&mut self, id: u32, behaviour: Behaviour) -> (r: Option<Behaviour>)
        requires
            old(self).wf(),
            wf_behaviour(behaviour),
        ensures
            final(self).wf(),
            final(self).next_id() == old(self).next_id(),
            final(self).ids_seq() == old(self).ids_seq(),
            final(self).slot_map() == old(self).slot_map(),
            final(self).bodies_seq() == old(self).bodies_seq(),
            match r {
                Some(b) => {
                    &&& old(self).live(id)
                    &&& b == old(self).contents()[id].1
                    &&& final(self).contents() =~= old(self).contents().insert(
                        id,
                        (old(self).contents()[id].0, behaviour),
                    )
                },
                None => {
                    &&& !old(self).live(id)
                    &&& final(self).contents() == old(self).contents()
                    &&& final(self).behaviours_seq() == old(self).behaviours_seq()
                },
            },
    {
        let i = match self.index.get(&id) {
            Some(i) => *i,
            None => {
                return None;
            },
        };
        proof {
            assert(self.slot_map().contains_key(id) && self.slot_map()[id] == i);
        }
        let mut old_b = behaviour;
        core::mem::swap(&mut self.behaviours[i], &mut old_b);
        proof {
            assert(self.contents() =~= old(self).contents().insert(
                id,
                (old(self).contents()[id].0, behaviour),
            ));
        }
        Some(old_b)
    }

    /// Clears every entity; the id counter keeps its place.
    pub fn clear(&mut self)
        ensures
            final(self).wf(),
            final(self).count() == 0,
            final(self).contents() =~= Map::<u32, (Body, Behaviour)>::empty(),
            final(self).next_id() == old(self).next_id(),
    {
        self.index.clear();
        self.ids.clear();
        self.bodies.clear();
        self.behaviours.clear();
    }

    /// Integrates every live body by one frame: each body becomes the
    /// physics update of itself under its own behaviour; ids, slots and
    /// behaviours stay as they were.
    pub fn step_physics(&mut self, dt: u64, time: u64)
        requires
            old(self).wf(),
            dt <= DT_MAX,
            time <= T_MAX,
        ensures
            final(self).wf(),
            final(self).next_id() == old(self).next_id(),
            final(self).ids_seq() == old(self).ids_seq(),
            final(self).slot_map() == old(self).slot_map(),
            final(self).behaviours_seq() == old(self).behaviours_seq(),
            final(self).bodies_seq().len() == old(self).bodies_seq().len(),
            forall|i: int|
                0 <= i < old(self).bodies_seq().len() ==> (#[trigger] final(self).bodies_seq()[
                    i])@ == spec_update(
                    old(self).bodies_seq()[i]@,
                    old(self).behaviours_seq()[i],
                    dt as int,
                    time as int,
                ),
            forall|id: u32| #[trigger]
                final(self).live(id) ==> final(self).contents()[id] == (
                    final(self).bodies_seq()[final(self).slot_map()[id] as int],
                    old(self).contents()[id].1,
                ),
    {
        let n = self.bodies.len();
        let mut i: usize = 0;
        while i < n
            invariant
                self.wf(),
                n == self.bodies_seq().len(),
                i <= n,
                dt <= DT_MAX,
                time <= T_MAX,
                self.next_id() == old(self).next_id(),
                self.ids_seq() == old(self).ids_seq(),
                self.slot_map() == old(self).slot_map(),
                self.behaviours_seq() == old(self).behaviours_seq(),
                self.bodies_seq().len() == old(self).bodies_seq().len(),
                forall|j: int|
                    i <= j < n ==> #[trigger] self.bodies_seq()[j] == old(self).bodies_seq()[j],
                forall|j: int|
                    0 <= j < i ==> (#[trigger] self.bodies_seq()[j])@ == spec_update(
                        old(self).bodies_seq()[j]@,
                        old(self).behaviours_seq()[j],
                        dt as int,
                        time as int,
                    ),
            decreases n - i,
        {
            let mut b = self.bodies[i];
            b.update(&self.behaviours[i], dt, time);
            self.bodies[i] = b;
            i = i + 1;
        }
    }
}

/// An id is live exactly when the contents map holds it.
pub proof fn lemma_live_iff_contents(s: EntityStore)
    ensures
        forall|id: u32| #[trigger] s.live(id) <==> s.contents().contains_key(id),
{
    assert forall|id: u32| #[trigger] s.live(id) <==> s.contents().contains_key(id) by {
        assert(s.contents().contains_key(id) == s.slot_map().contains_key(id));
    }
}

/// The store bijection: under the invariant, every live id maps to a valid
/// slot that maps back to it, two distinct live ids never share a slot, and
/// all component columns share one length.
pub proof fn lemma_store_bijection(s: EntityStore)
    requires
        s.wf(),
    ensures
        s.bodies_seq().len() == s.ids_seq().len(),
        s.behaviours_seq().len() == s.ids_seq().len(),
        forall|id: u32| #[trigger]
            s.live(id) ==> s.slot_map()[id] < s.count() && s.ids_seq()[s.slot_map()[id] as int]
                == id,
        forall|a: u32, b: u32|
            s.live(a) && s.live(b) && a != b ==> #[trigger] s.slot_map()[a] != #[trigger] s
                .slot_map()[b],
        forall|i: int| 0 <= i < s.count() ==> s.live(#[trigger] s.ids_seq()[i]),
{
    assert forall|a: u32, b: u32| s.live(a) && s.live(b) && a != b implies #[trigger] s
        .slot_map()[a] != #[trigger] s.slot_map()[b] by {
        if s.slot_map()[a] == s.slot_map()[b] {
            assert(s.ids_seq()[s.slot_map()[a] as int] == a);
            assert(s.ids_seq()[s.slot_map()[b] as int] == b);
        }
    }
}

} // verus!
