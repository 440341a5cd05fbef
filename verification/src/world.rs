//! The world: the store, the fuse queue and the behaviour state machine,
//! driven one frame at a time.
//!
//! Each tick first may launch a random shell, then drains every fuse due at
//! the tick's clock value and runs the behaviour transitions those fuses
//! fire, and only then integrates physics over all live bodies; fuses lit
//! during a tick always lie strictly in the future, so a drain never sees
//! an entry it created itself.

use vstd::prelude::*;

use crate::components::{
    directed_child, is_archetype, radial_child, random_behaviour, random_color,
    spec_random_behaviour, spec_update, wf_behaviour, wf_body, wf_color, willow_child, Behaviour,
    Body, BodyModel, ColorModel, HSL,
};
use crate::draws::{dir_ok, Dir, DrawSource};
use crate::queue::{entries_sorted, FuseQueue};
use crate::store::EntityStore;
use crate::units::{
    div_trunc, lemma_div_ordered, lemma_mul_abs_bound, lemma_tdiv_bound, tdiv, DT_MAX, R_MAX,
    T_MAX, UNIT,
};

verus! {

/// Largest admissible display width or height (milli units).
pub const W_MAX: i64 = 1_000_000_000;

/// The population safety valve: a tick that starts with more live entities
/// than this clears the whole display.
pub const POP_CAP: usize = 10_000;

/// A transition creates at most this many entities (two bursts of at most
/// 299 each, and itself), so this much id headroom guarantees exact counts.
pub const SPAWN_MARGIN: u32 = 700;

/// The whole simulation state.
pub struct World {
    /// Display width in milli units; spawn placement only.
    pub width: i64,
    /// Display height in milli units; spawn placement only.
    pub height: i64,
    /// All live entities' components.
    pub store: EntityStore,
    /// The pending behaviour transitions.
    pub fuses: FuseQueue,
}

impl World {
    /// The world's invariant: both components well-formed, the bounds in
    /// range.
    pub open spec fn wf(self) -> bool {
        &&& self.store.wf()
        &&& self.fuses.wf()
        &&& 0 <= self.width <= W_MAX
        &&& 0 <= self.height <= W_MAX
    }

    /// An empty display of the given bounds.
    pub fn new(width: i64, height: i64) -> (w: World)
        requires
            0 <= width <= W_MAX,
            0 <= height <= W_MAX,
        ensures
            w.wf(),
            w.width == width,
            w.height == height,
            w.store.count() == 0,
            w.store.next_id() == 0,
            w.fuses@ == Seq::<(u64, u32)>::empty(),
            w.store.contents() =~= Map::<u32, (Body, Behaviour)>::empty(),
    {
        World { width, height, store: EntityStore::new(), fuses: FuseQueue::new() }
    }

    /// Updates the stored bounds; they steer spawn placement only.
    pub fn resize(&mut self, width: i64, height: i64)
        requires
            old(self).wf(),
            0 <= width <= W_MAX,
            0 <= height <= W_MAX,
        ensures
            final(self).wf(),
            final(self).width == width,
            final(self).height == height,
            final(self).store == old(self).store,
            final(self).fuses == old(self).fuses,
    {
        self.width = width;
        self.height = height;
    }

    /// Creates an entity and, if a fuse time is given and the entity was
    /// created, schedules its transition.
    pub fn push(&mut self, body: Body, behaviour: Behaviour, fuse: Option<u64>) -> (r: Option<
        u32,
    >)
        requires
            old(self).wf(),
            wf_body(body@),
            wf_behaviour(behaviour),
        ensures
            final(self).wf(),
            final(self).width == old(self).width,
            final(self).height == old(self).height,
            final(self).store.next_id() == old(self).store.next_id().wrapping_add(1),
            old(self).store.ids_compact() && old(self).store.next_id() < u32::MAX ==> r is Some
                && final(self).store.ids_compact(),
            fuses_compact(*old(self)) && old(self).store.next_id() < u32::MAX ==> fuses_compact(
                *final(self),
            ),
            match r {
                Some(id) => {
                    &&& id == old(self).store.next_id()
                    &&& !old(self).store.live(id)
                    &&& final(self).store.contents() =~= old(self).store.contents().insert(
                        id,
                        (body, behaviour),
                    )
                    &&& final(self).store.count() == old(self).store.count() + 1
                    &&& final(self).store.ids_seq() == old(self).store.ids_seq().push(id)
                    &&& final(self).store.bodies_seq() == old(self).store.bodies_seq().push(
                        body,
                    )
                    &&& final(self).store.behaviours_seq() == old(
                        self,
                    ).store.behaviours_seq().push(behaviour)
                    &&& final(self).store.slot_map() == old(self).store.slot_map().insert(
                        id,
                        old(self).store.ids_seq().len() as usize,
                    )
                    &&& match fuse {
                        Some(t) => final(self).fuses@.to_set() == old(self).fuses@.to_set().insert(
                            (t, id),
                        ),
                        None => final(self).fuses@ == old(self).fuses@,
                    }
                },
                None => {
                    &&& old(self).store.live(old(self).store.next_id())
                    &&& final(self).store.contents() == old(self).store.contents()
                    &&& final(self).store.slot_map() == old(self).store.slot_map()
                    &&& final(self).fuses@ == old(self).fuses@
                },
            },
    {
        let id = match self.store.create(body, behaviour) {
            Some(id) => id,
            None => {
                proof {
                    lemma_fuses_stay_compact(*old(self), *self);
                }
                return None;
            },
        };
        if let Some(t) = fuse {
            self.fuses.schedule(t, id);
        }
        proof {
            if fuses_compact(*old(self)) && old(self).store.next_id() < u32::MAX {
                assert forall|i: int|
                    0 <= i < self.fuses@.len() implies (#[trigger] self.fuses@[i]).1
                    < self.store.next_id() by {
                    let e = self.fuses@[i];
                    assert(self.fuses@.to_set().contains(e));
                    if old(self).fuses@.to_set().contains(e) {
                        let j = choose|j: int|
                            0 <= j < old(self).fuses@.len() && old(self).fuses@[j] == e;
                        assert(old(self).fuses@[j].1 < old(self).store.next_id());
                    } else {
                        assert(e.1 == id);
                    }
                }
            }
        }
        Some(id)
    }

    /// The loop frame of a transition in progress: the world extends the
    /// firing state by exactly the created children, the firing id's own
    /// entry aside.
    pub open spec fn mid_transition(pre: World, cur: World, created: Seq<u32>, id: u32) -> bool {
        &&& cur.wf()
        &&& cur.width == pre.width
        &&& cur.height == pre.height
        &&& created.no_duplicates()
        &&& forall|j: int|
            0 <= j < created.len() ==> !pre.store.live(#[trigger] created[j]) && created[j] != id
        &&& forall|id2: u32| #![trigger pre.store.live(id2)]
            pre.store.live(id2) && id2 != id ==> cur.store.live(id2)
                && cur.store.contents()[id2] == pre.store.contents()[id2]
        &&& forall|id2: u32| #[trigger]
            cur.store.live(id2) ==> pre.store.live(id2) || created.contains(id2)
        &&& forall|j: int| 0 <= j < created.len() ==> cur.store.live(#[trigger] created[j])
    }

    /// Fires one fuse event: looks the id up — a stale id is a complete
    /// no-op — takes the entity's behaviour out (a neutral placeholder
    /// stands in while children spawn), spawns the class's children with
    /// their own fuses, and then deletes or re-tags the firing entity.
    /// Returns the created children's ids for the caller's reasoning.
    #[verifier::rlimit(100)]
    pub fn handle_fuse_event(&mut self, rng: &mut DrawSource, time: u64, id: u32) -> (tr: Ghost<
        Transcript,
    >)
        requires
            old(self).wf(),
            old(rng).wf(),
            time <= T_MAX,
        ensures
            final(self).wf(),
            final(rng).wf(),
            final(rng).units_seq() == old(rng).units_seq(),
            final(rng).dirs_seq() == old(rng).dirs_seq(),
            final(self).width == old(self).width,
            final(self).height == old(self).height,
            old(self).fuses@.to_set().subset_of(final(self).fuses@.to_set()),
            forall|e: (u64, u32)|
                final(self).fuses@.to_set().contains(e) && !old(self).fuses@.to_set().contains(e)
                    ==> e.0 >= time + 20_000,
            !old(self).store.live(id) ==> {
                &&& final(self).store.contents() == old(self).store.contents()
                &&& final(self).store.next_id() == old(self).store.next_id()
                &&& final(self).fuses@ == old(self).fuses@
                &&& *final(rng) == *old(rng)
                &&& tr@.created == Seq::<u32>::empty()
            },
            old(self).store.live(id) ==> fuse_transition(
                *old(self),
                *final(self),
                tr@,
                time,
                id,
            ),
            old(self).store.ids_compact() && old(self).store.next_id() <= u32::MAX - SPAWN_MARGIN
                ==> final(self).store.ids_compact() && final(self).store.next_id() <= old(
                self,
            ).store.next_id() + SPAWN_MARGIN,
            fuses_compact(*old(self)) && old(self).store.ids_compact() && old(
                self,
            ).store.next_id() <= u32::MAX - SPAWN_MARGIN ==> fuses_compact(*final(self)),
    {
        let ghost pre = *self;
        let ghost room = pre.store.ids_compact() && pre.store.next_id() <= u32::MAX
            - SPAWN_MARGIN;
        let pbeh = match self.store.replace_behaviour(id, Behaviour::Particle) {
            None => {
                proof {
                    if pre.store.ids_compact() {
                        assert forall|id2: u32| #[trigger] self.store.live(id2) implies id2
                            < self.store.next_id() by {
                            assert(pre.store.live(id2));
                        }
                    }
                    if fuses_compact(pre) {
                        assert forall|i: int|
                            0 <= i < self.fuses@.len() implies (#[trigger] self.fuses@[i]).1
                            < self.store.next_id() by {
                            assert(pre.fuses@[i].1 < pre.store.next_id());
                        }
                    }
                }
                return Ghost(empty_transcript());
            },
            Some(b) => b,
        };
        let pbody = match self.store.get_body(id) {
            Some(b) => b,
            None => {
                proof {
                    assert(false);
                }
                return Ghost(empty_transcript());
            },
        };
        let ghost pb = pre.store.contents()[id].0@;
        proof {
            assert(pbody@ == pb);
            assert(pbeh == pre.store.contents()[id].1);
            assert(wf_body(pb));
            assert(wf_behaviour(pbeh));
            lemma_placeholder_frame(pre, *self, id);
            assert(World::burst_entry(pre, *self, id));
        }
        let tr = match pbeh {
            Behaviour::Particle | Behaviour::Glitter(_) | Behaviour::HueParticle(_, _)
                | Behaviour::MassiveParticle | Behaviour::Lerper(_) | Behaviour::UserLerper(
                _,
            ) => {
                let ghost curw = *self;
                self.store.remove_id(id);
                proof {
                    lemma_burst_finish(pre, curw, *self, Seq::<u32>::empty(), id);
                    assert(fuse_transition(pre, *self, empty_transcript(), time, id));
                }
                Ghost(empty_transcript())
            },
            Behaviour::Chris => self.fire_chris(rng, time, id, pbody, Ghost(pre)),
            Behaviour::MultiColorChris => self.fire_multicolor(rng, time, id, pbody, Ghost(pre)),
            Behaviour::Strobe => self.fire_strobe(rng, time, id, pbody, Ghost(pre)),
            Behaviour::Peony => self.fire_peony(rng, time, id, pbody, Ghost(pre)),
            Behaviour::Pistil => self.fire_pistil(rng, time, id, pbody, Ghost(pre)),
            Behaviour::Comet(rem) => self.fire_comet(rng, time, id, pbody, rem, Ghost(pre)),
            Behaviour::Willow => self.fire_willow(rng, time, id, pbody, Ghost(pre)),
            Behaviour::Crosette => self.fire_crosette(rng, time, id, pbody, Ghost(pre)),
            Behaviour::CrosetteBranch => self.fire_crosette_branch(rng, time, id, pbody,
                Ghost(pre)),
        };
        proof {
            if fuses_compact(pre) && room {
                lemma_event_fuses_compact(pre, *self, tr@, time, id);
            }
        }
        tr
    }

    /// Drains every fuse due at `time` and fires each of them, in ascending
    /// `(time, id)` order. Afterwards every pending fuse lies strictly in
    /// the future: transitions only light fuses at least twenty
    /// milliseconds out, so no event fired in this pass can re-enter it.
    pub fn update_fuses(&mut self, rng: &mut DrawSource, time: u64)
        requires
            old(self).wf(),
            old(rng).wf(),
            time <= T_MAX,
        ensures
            final(self).wf(),
            final(rng).wf(),
            final(rng).units_seq() == old(rng).units_seq(),
            final(rng).dirs_seq() == old(rng).dirs_seq(),
            final(self).width == old(self).width,
            final(self).height == old(self).height,
            forall|i: int|
                0 <= i < final(self).fuses@.len() ==> (#[trigger] final(self).fuses@[i]).0
                    > time,
            forall|e: (u64, u32)|
                old(self).fuses@.to_set().contains(e) && e.0 > time
                    ==> #[trigger] final(self).fuses@.to_set().contains(e),
            exists|due: Seq<(u64, u32)>, ws: Seq<World>, trs: Seq<Transcript>| #[trigger]
                drain_pass(*old(self), *final(self), due, ws, trs, time),
    {
        let ghost pre_fuses = self.fuses@;
        let due = self.fuses.drain_due(time);
        proof {
            assert forall|i: int|
                0 <= i < self.fuses@.len() implies (#[trigger] self.fuses@[i]).0 > time by {}
            crate::queue::lemma_drain_exact(pre_fuses, due@, self.fuses@, time);
            assert forall|e: (u64, u32)|
                pre_fuses.to_set().contains(e) && e.0 > time implies #[trigger] self
                .fuses@.to_set().contains(e) by {}
        }
        let ghost mut ws: Seq<World> = seq![*self];
        let ghost mut trs: Seq<Transcript> = Seq::empty();
        let n = due.len();
        let mut k: usize = 0;
        while k < n
            invariant
                k <= n,
                n == due@.len(),
                time <= T_MAX,
                self.wf(),
                rng.wf(),
                rng.units_seq() == old(rng).units_seq(),
                rng.dirs_seq() == old(rng).dirs_seq(),
                self.width == old(self).width,
                self.height == old(self).height,
                forall|i: int|
                    0 <= i < self.fuses@.len() ==> (#[trigger] self.fuses@[i]).0 > time,
                forall|e: (u64, u32)|
                    pre_fuses.to_set().contains(e) && e.0 > time ==> #[trigger] self
                        .fuses@.to_set().contains(e),
                ws.len() == k + 1,
                trs.len() == k,
                ws[0].wf(),
                ws[0].width == old(self).width,
                ws[0].height == old(self).height,
                ws[0].store.contents() == old(self).store.contents(),
                ws[0].store.next_id() == old(self).store.next_id(),
                ws[0].fuses@.to_set() == pre_fuses.to_set().filter(
                    |e: (u64, u32)| e.0 > time,
                ),
                ws[k as int] == *self,
                forall|i: int|
                    0 <= i < k ==> #[trigger] event_step(ws[i], ws[i + 1], trs[i], time,
                        due@[i].1),
            decreases n - k,
        {
            let ghost snap = *self;
            let e = due[k];
            let tr = self.handle_fuse_event(rng, time, e.1);
            proof {
                assert(event_step(snap, *self, tr@, time, e.1));
                ws = ws.push(*self);
                trs = trs.push(tr@);
                assert forall|i: int|
                    0 <= i < k + 1 implies #[trigger] event_step(ws[i], ws[i + 1], trs[i], time,
                        due@[i].1) by {
                    if i < k {
                        assert(event_step(ws[i], ws[i + 1], trs[i], time, due@[i].1));
                    }
                }
                assert forall|i: int|
                    0 <= i < self.fuses@.len() implies (#[trigger] self.fuses@[i]).0 > time by {
                    let entry = self.fuses@[i];
                    assert(self.fuses@.to_set().contains(entry));
                    if snap.fuses@.to_set().contains(entry) {
                        let j = choose|j: int|
                            0 <= j < snap.fuses@.len() && snap.fuses@[j] == entry;
                        assert(snap.fuses@[j].0 > time);
                    } else {
                        assert(entry.0 >= time + 20_000);
                    }
                }
            }
            k = k + 1;
        }
        proof {
            assert(same_world(ws[n as int], *self));
            assert(drain_pass(*old(self), *self, due@, ws, trs, time));
        }
    }

    /// Runs one whole tick at clock value `time` with a frame of `dt`
    /// microseconds: the population safety valve, a spawn roll with six
    /// percent probability, the fuse drain with all its transitions, and
    /// last the physics integration over every live body. Every fuse left
    /// pending afterwards lies strictly after `time`.
    pub fn update(&mut self, rng: &mut DrawSource, time: u64, dt: u64)
        requires
            old(self).wf(),
            old(rng).wf(),
            time <= T_MAX,
            dt <= DT_MAX,
        ensures
            final(self).wf(),
            final(rng).wf(),
            final(rng).units_seq() == old(rng).units_seq(),
            final(rng).dirs_seq() == old(rng).dirs_seq(),
            final(self).width == old(self).width,
            final(self).height == old(self).height,
            forall|i: int|
                0 <= i < final(self).fuses@.len() ==> (#[trigger] final(self).fuses@[i]).0
                    > time,
            old(self).store.count() <= POP_CAP ==> forall|e: (u64, u32)|
                old(self).fuses@.to_set().contains(e) && e.0 > time
                    ==> #[trigger] final(self).fuses@.to_set().contains(e),
            exists|w0: World, w1: World, w2: World, due: Seq<(u64, u32)>, ws: Seq<World>,
                trs: Seq<Transcript>| #[trigger] tick_rel(
                *old(self),
                *final(self),
                w0,
                w1,
                w2,
                due,
                ws,
                trs,
                old(rng).peek_unit() as int,
                time,
                dt,
            ),
    {
        if self.store.len() > POP_CAP {
            // safety valve: cap breached, the whole display is cleared
            self.store.clear();
            self.fuses.clear();
        }
        let ghost w0 = *self;
        proof {
            assert(capped(*old(self), w0));
        }
        let roll = rng.next_unit();
        if roll < 60_000 {
            self.push_random(rng, time);
        }
        let ghost w1 = *self;
        proof {
            assert(spawn_phase(w0, w1, old(rng).peek_unit() as int, time));
        }
        self.update_fuses(rng, time);
        let ghost w2 = *self;
        self.store.step_physics(dt, time);
        proof {
            assert(physics_of(w2, *self, dt as int, time as int));
            let (due, ws, trs): (Seq<(u64, u32)>, Seq<World>, Seq<Transcript>) = choose|
                due: Seq<(u64, u32)>,
                ws: Seq<World>,
                trs: Seq<Transcript>,
            | #[trigger] drain_pass(w1, w2, due, ws, trs, time);
            assert(tick_rel(*old(self), *self, w0, w1, w2, due, ws, trs,
                old(rng).peek_unit() as int, time, dt));
        }
    }

    /// The state every burst method starts from: the firing entity is live
    /// with its behaviour swapped for the placeholder, nothing else moved.
    pub open spec fn burst_entry(pre: World, cur: World, id: u32) -> bool {
        &&& pre.wf()
        &&& cur.wf()
        &&& pre.store.live(id)
        &&& World::mid_transition(pre, cur, Seq::<u32>::empty(), id)
        &&& cur.store.live(id)
        &&& cur.store.contents()[id] == (pre.store.contents()[id].0, Behaviour::Particle)
        &&& cur.fuses@ == pre.fuses@
        &&& cur.store.next_id() == pre.store.next_id()
        &&& (pre.store.ids_compact() ==> cur.store.ids_compact())
    }

    /// Fires a chrysanthemum: a round shell of 150 to 299 particles, one
    /// shared force base in `[400, 700)`, each child fused half a second to
    /// one and a half seconds out.
    #[verifier::spinoff_prover]
    fn fire_chris(&mut self, rng: &mut DrawSource, time: u64, id: u32, pbody: Body, Ghost(pre):
        Ghost<World>) -> (tr: Ghost<Transcript>)
        requires
            old(self).wf(),
            old(rng).wf(),
            time <= T_MAX,
            World::burst_entry(pre, *old(self), id),
            pre.store.contents()[id].1 is Chris,
            pbody@ == pre.store.contents()[id].0@,
            wf_body(pbody@),
        ensures
            final(self).wf(),
            final(rng).wf(),
            final(rng).units_seq() == old(rng).units_seq(),
            final(rng).dirs_seq() == old(rng).dirs_seq(),
            fuse_transition(pre, *final(self), tr@, time, id),
            pre.fuses@.to_set().subset_of(final(self).fuses@.to_set()),
            forall|e: (u64, u32)|
                final(self).fuses@.to_set().contains(e) && !pre.fuses@.to_set().contains(e)
                    ==> e.0 >= time + 20_000,
            pre.store.ids_compact() && pre.store.next_id() <= u32::MAX - SPAWN_MARGIN
                ==> final(self).store.ids_compact()
                && pre.store.next_id() <= final(self).store.next_id()
                && final(self).store.next_id() <= pre.store.next_id() + SPAWN_MARGIN,
    {
        let ghost pb = pre.store.contents()[id].0@;
        let ghost room = pre.store.ids_compact() && pre.store.next_id() <= u32::MAX
            - SPAWN_MARGIN;
        let u_n = rng.next_unit();
        let n: i64 = 150 + (u_n as i64) * 150 / 1_000_000;
        let u_fb = rng.next_unit();
        let fb: i64 = 400_000 + (u_fb as i64) * 300_000 / 1_000_000;
        proof {
            lemma_div_ordered((u_n * 150) as int, (999_999 * 150) as int, UNIT as int);
            lemma_div_ordered((u_fb * 300_000) as int, (999_999 * 300_000) as int, UNIT as int);
        }
        let mut created: Ghost<Seq<u32>> = Ghost(Seq::empty());
        let mut fuse_times: Ghost<Seq<u64>> = Ghost(Seq::empty());
        let mut k: i64 = 0;
        proof {
            assert(fuse_pairs(created@, fuse_times@).to_set() =~= Set::<(u64, u32)>::empty());
            assert(self.fuses@.to_set() =~= pre.fuses@.to_set().union(
                fuse_pairs(created@, fuse_times@).to_set(),
            ));
        }
        while k < n
            invariant
                0 <= k <= n,
                150 <= n < 300,
                400_000 <= fb < 700_000,
                time <= T_MAX,
                rng.wf(),
                rng.units_seq() == old(rng).units_seq(),
                rng.dirs_seq() == old(rng).dirs_seq(),
                wf_body(pb),
                pbody@ == pb,
                pre.store.live(id),
                self.store.live(id),
                World::mid_transition(pre, *self, created@, id),
                fuse_times@.len() == created@.len(),
                forall|j: int|
                    0 <= j < fuse_times@.len() ==> time + 500_000 <= #[trigger] fuse_times@[j]
                        < time + 1_500_000,
                self.fuses@.to_set() == pre.fuses@.to_set().union(
                    fuse_pairs(created@, fuse_times@).to_set(),
                ),
                forall|j: int|
                    0 <= j < created@.len() ==> burst_child(
                        Behaviour::Chris,
                        pb,
                        n as int,
                        fb as int,
                        (#[trigger] self.store.contents()[created@[j]]).0@,
                        self.store.contents()[created@[j]].1,
                    ),
                created@.len() <= k,
                room == (pre.store.ids_compact() && pre.store.next_id() <= u32::MAX
                    - SPAWN_MARGIN),
                room ==> created@.len() == k && self.store.ids_compact()
                    && self.store.next_id() == pre.store.next_id() + k,
            decreases n - k,
        {
            let ghost snap = *self;
            let ghost cr0 = created@;
            let ghost ft0 = fuse_times@;
            let u_t = rng.next_unit();
            let fuse = time + 500_000 + (u_t as u64);
            let child = pbody.plus_explosion(rng, n, fb);
            let r = self.push(child, Behaviour::Particle, Some(fuse));
            proof {
                assert(radial_ok(pb, n as int, fb as int, child@));
                if let Some(cid) = r {
                    created@ = created@.push(cid);
                    fuse_times@ = fuse_times@.push(fuse);
                    lemma_burst_step(pre, snap, *self, cr0, id, cid, (child,
                        Behaviour::Particle));
                    assert forall|j: int| 0 <= j < created@.len() implies burst_child(
                        Behaviour::Chris,
                        pb,
                        n as int,
                        fb as int,
                        (#[trigger] self.store.contents()[created@[j]]).0@,
                        self.store.contents()[created@[j]].1,
                    ) by {
                        if j < cr0.len() {
                            assert(cr0[j] != cid);
                            assert(self.store.contents()[cr0[j]]
                                == snap.store.contents()[cr0[j]]);
                        } else {
                            assert(created@[j] == cid);
                            assert(self.store.contents()[cid] == (child, Behaviour::Particle));
                        }
                    }
                    lemma_push_to_set(cr0, cid);
                    lemma_fuse_pairs_push(cr0, ft0, cid, fuse);
                    assert(self.fuses@.to_set() == snap.fuses@.to_set().insert((fuse, cid)));
                    assert(self.fuses@.to_set() =~= pre.fuses@.to_set().union(
                        fuse_pairs(created@, fuse_times@).to_set(),
                    ));
                    if room {
                        assert(snap.store.next_id() < u32::MAX);
                    }
                    assert(World::mid_transition(pre, *self, created@, id));
                } else {
                    if room {
                        assert(snap.store.ids_compact() && snap.store.next_id() < u32::MAX);
                        assert(false);
                    }
                    lemma_push_refused_frame(pre, snap, *self, created@, id);
                }
                assert(self.store.live(id));
            }
            k = k + 1;
        }
        let ghost curw = *self;
        self.store.remove_id(id);
        let ghost tr = Transcript {
            created: created@,
            n: n as int,
            fb: fb as int,
            fuses: fuse_times@,
            ..empty_transcript()
        };
        proof {
            lemma_burst_finish(pre, curw, *self, created@, id);
            assert(pre.store.contents()[id].1 == Behaviour::Chris);
            assert(burst_population(pre.store.contents()[id].1, pb, *self, created@, n as int,
                fb as int, room));
            lemma_simple_burst_transition(pre, *self, tr, time, id);
            assert(pre.fuses@.to_set().subset_of(self.fuses@.to_set()));
            assert forall|e: (u64, u32)|
                self.fuses@.to_set().contains(e) && !pre.fuses@.to_set().contains(e) implies e.0
                >= time + 20_000 by {
                assert(fuse_pairs(created@, fuse_times@).to_set().contains(e));
                let j = choose|j: int|
                    0 <= j < fuse_pairs(created@, fuse_times@).len() && fuse_pairs(
                        created@,
                        fuse_times@,
                    )[j] == e;
                assert(e.0 == fuse_times@[j]);
            }
        }
        Ghost(tr)
    }

    /// Fires a peony: a round shell of hue-cycling particles, all sharing
    /// one fresh hue and frequency.
    #[verifier::spinoff_prover]
    fn fire_peony(&mut self, rng: &mut DrawSource, time: u64, id: u32, pbody: Body, Ghost(pre):
        Ghost<World>) -> (tr: Ghost<Transcript>)
        requires
            old(self).wf(),
            old(rng).wf(),
            time <= T_MAX,
            World::burst_entry(pre, *old(self), id),
            pre.store.contents()[id].1 is Peony,
            pbody@ == pre.store.contents()[id].0@,
            wf_body(pbody@),
        ensures
            final(self).wf(),
            final(rng).wf(),
            final(rng).units_seq() == old(rng).units_seq(),
            final(rng).dirs_seq() == old(rng).dirs_seq(),
            fuse_transition(pre, *final(self), tr@, time, id),
            pre.fuses@.to_set().subset_of(final(self).fuses@.to_set()),
            forall|e: (u64, u32)|
                final(self).fuses@.to_set().contains(e) && !pre.fuses@.to_set().contains(e)
                    ==> e.0 >= time + 20_000,
            pre.store.ids_compact() && pre.store.next_id() <= u32::MAX - SPAWN_MARGIN
                ==> final(self).store.ids_compact()
                && pre.store.next_id() <= final(self).store.next_id()
                && final(self).store.next_id() <= pre.store.next_id() + SPAWN_MARGIN,
    {
        let ghost pb = pre.store.contents()[id].0@;
        let ghost room = pre.store.ids_compact() && pre.store.next_id() <= u32::MAX
            - SPAWN_MARGIN;
        let u_n = rng.next_unit();
        let n: i64 = 150 + (u_n as i64) * 150 / 1_000_000;
        let u_h = rng.next_unit();
        let h: i64 = (u_h as i64) * 36000 / 1_000_000;
        let u_f = rng.next_unit();
        let f: i64 = 500_000 + (u_f as i64) * 2_500_000 / 1_000_000;
        let u_fb = rng.next_unit();
        let fb: i64 = 400_000 + (u_fb as i64) * 300_000 / 1_000_000;
        proof {
            lemma_div_ordered((u_n * 150) as int, (999_999 * 150) as int, UNIT as int);
            lemma_div_ordered((u_h * 36000) as int, (999_999 * 36000) as int, UNIT as int);
            lemma_div_ordered((u_f * 2_500_000) as int, (999_999 * 2_500_000) as int,
                UNIT as int);
            lemma_div_ordered((u_fb * 300_000) as int, (999_999 * 300_000) as int, UNIT as int);
        }
        let mut created: Ghost<Seq<u32>> = Ghost(Seq::empty());
        let mut fuse_times: Ghost<Seq<u64>> = Ghost(Seq::empty());
        let mut k: i64 = 0;
        proof {
            assert(fuse_pairs(created@, fuse_times@).to_set() =~= Set::<(u64, u32)>::empty());
            assert(self.fuses@.to_set() =~= pre.fuses@.to_set().union(
                fuse_pairs(created@, fuse_times@).to_set(),
            ));
        }
        while k < n
            invariant
                0 <= k <= n,
                150 <= n < 300,
                400_000 <= fb < 700_000,
                0 <= h < 36000,
                500_000 <= f < 3_000_000,
                time <= T_MAX,
                rng.wf(),
                rng.units_seq() == old(rng).units_seq(),
                rng.dirs_seq() == old(rng).dirs_seq(),
                wf_body(pb),
                pbody@ == pb,
                pre.store.live(id),
                self.store.live(id),
                World::mid_transition(pre, *self, created@, id),
                fuse_times@.len() == created@.len(),
                forall|j: int|
                    0 <= j < fuse_times@.len() ==> time + 500_000 <= #[trigger] fuse_times@[j]
                        < time + 1_500_000,
                self.fuses@.to_set() == pre.fuses@.to_set().union(
                    fuse_pairs(created@, fuse_times@).to_set(),
                ),
                forall|j: int|
                    0 <= j < created@.len() ==> {
                        &&& (#[trigger] self.store.contents()[created@[j]]).1
                            == Behaviour::HueParticle(h, f)
                        &&& radial_ok(pb, n as int, fb as int,
                            self.store.contents()[created@[j]].0@)
                    },
                created@.len() <= k,
                room == (pre.store.ids_compact() && pre.store.next_id() <= u32::MAX
                    - SPAWN_MARGIN),
                room ==> created@.len() == k && self.store.ids_compact()
                    && self.store.next_id() == pre.store.next_id() + k,
            decreases n - k,
        {
            let ghost snap = *self;
            let ghost cr0 = created@;
            let ghost ft0 = fuse_times@;
            let u_t = rng.next_unit();
            let fuse = time + 500_000 + (u_t as u64);
            let child = pbody.plus_explosion(rng, n, fb);
            let r = self.push(child, Behaviour::HueParticle(h, f), Some(fuse));
            proof {
                assert(radial_ok(pb, n as int, fb as int, child@));
                if let Some(cid) = r {
                    created@ = created@.push(cid);
                    fuse_times@ = fuse_times@.push(fuse);
                    lemma_burst_step(pre, snap, *self, cr0, id, cid, (child,
                        Behaviour::HueParticle(h, f)));
                    assert forall|j: int| 0 <= j < created@.len() implies {
                        &&& (#[trigger] self.store.contents()[created@[j]]).1
                            == Behaviour::HueParticle(h, f)
                        &&& radial_ok(pb, n as int, fb as int,
                            self.store.contents()[created@[j]].0@)
                    } by {
                        if j < cr0.len() {
                            assert(cr0[j] != cid);
                            assert(self.store.contents()[cr0[j]]
                                == snap.store.contents()[cr0[j]]);
                        } else {
                            assert(created@[j] == cid);
                            assert(self.store.contents()[cid] == (child,
                                Behaviour::HueParticle(h, f)));
                        }
                    }
                    lemma_push_to_set(cr0, cid);
                    lemma_fuse_pairs_push(cr0, ft0, cid, fuse);
                    assert(self.fuses@.to_set() == snap.fuses@.to_set().insert((fuse, cid)));
                    assert(self.fuses@.to_set() =~= pre.fuses@.to_set().union(
                        fuse_pairs(created@, fuse_times@).to_set(),
                    ));
                    if room {
                        assert(snap.store.next_id() < u32::MAX);
                    }
                } else {
                    if room {
                        assert(snap.store.ids_compact() && snap.store.next_id() < u32::MAX);
                        assert(false);
                    }
                    lemma_push_refused_frame(pre, snap, *self, created@, id);
                }
                assert(self.store.live(id));
            }
            k = k + 1;
        }
        let ghost curw = *self;
        self.store.remove_id(id);
        let ghost tr = Transcript {
            created: created@,
            n: n as int,
            fb: fb as int,
            h: h as int,
            f: f as int,
            fuses: fuse_times@,
            ..empty_transcript()
        };
        proof {
            lemma_burst_finish(pre, curw, *self, created@, id);
            assert(pre.store.contents()[id].1 == Behaviour::Peony);
            assert(peony_population(pb, *self, created@, n as int, fb as int, h as int,
                f as int, room));
            lemma_peony_transition(pre, *self, tr, time, id);
            assert(pre.fuses@.to_set().subset_of(self.fuses@.to_set()));
            assert forall|e: (u64, u32)|
                self.fuses@.to_set().contains(e) && !pre.fuses@.to_set().contains(e) implies e.0
                >= time + 20_000 by {
                assert(fuse_pairs(created@, fuse_times@).to_set().contains(e));
                let j = choose|j: int|
                    0 <= j < fuse_pairs(created@, fuse_times@).len() && fuse_pairs(
                        created@,
                        fuse_times@,
                    )[j] == e;
                assert(e.0 == fuse_times@[j]);
            }
        }
        Ghost(tr)
    }

    /// Fires a comet emission: exactly one dimmer spark with a half to one
    /// second fuse; the comet re-schedules itself twenty to forty
    /// milliseconds out while emissions remain, else it dies.
    #[verifier::spinoff_prover]
    #[verifier::rlimit(100)]
    fn fire_comet(
        &mut self,
        rng: &mut DrawSource,
        time: u64,
        id: u32,
        pbody: Body,
        rem: i32,
        Ghost(pre): Ghost<World>,
    ) -> (tr: Ghost<Transcript>)
        requires
            old(self).wf(),
            old(rng).wf(),
            time <= T_MAX,
            World::burst_entry(pre, *old(self), id),
            pre.store.contents()[id].1 == Behaviour::Comet(rem),
            pbody@ == pre.store.contents()[id].0@,
            wf_body(pbody@),
        ensures
            final(self).wf(),
            final(rng).wf(),
            final(rng).units_seq() == old(rng).units_seq(),
            final(rng).dirs_seq() == old(rng).dirs_seq(),
            fuse_transition(pre, *final(self), tr@, time, id),
            pre.fuses@.to_set().subset_of(final(self).fuses@.to_set()),
            forall|e: (u64, u32)|
                final(self).fuses@.to_set().contains(e) && !pre.fuses@.to_set().contains(e)
                    ==> e.0 >= time + 20_000,
            pre.store.ids_compact() && pre.store.next_id() <= u32::MAX - SPAWN_MARGIN
                ==> final(self).store.ids_compact()
                && pre.store.next_id() <= final(self).store.next_id()
                && final(self).store.next_id() <= pre.store.next_id() + SPAWN_MARGIN,
    {
        let ghost pb = pre.store.contents()[id].0@;
        let ghost room = pre.store.ids_compact() && pre.store.next_id() <= u32::MAX
            - SPAWN_MARGIN;
        let u_f1 = rng.next_unit();
        let fuse1 = time + 500_000 + (u_f1 as u64) / 2;
        let u_fb = rng.next_unit();
        let fb: i64 = 100_000 + (u_fb as i64) * 150_000 / 1_000_000;
        proof {
            lemma_div_ordered((u_fb * 150_000) as int, (999_999 * 150_000) as int, UNIT as int);
            lemma_div_ordered(pbody.r as int, R_MAX as int, 2);
        }
        let mut cb = pbody;
        cb.r = pbody.r / 2;
        proof {
            assert(cb@ == (BodyModel { r: pb.r / 2, ..pb }));
            assert(wf_body(cb@));
        }
        let child = cb.plus_explosion(rng, 1, fb);
        let ghost snap = *self;
        let mut created: Ghost<Seq<u32>> = Ghost(Seq::empty());
        let mut fuse_times: Ghost<Seq<u64>> = Ghost(Seq::empty());
        let r = self.push(child, Behaviour::Particle, Some(fuse1));
        proof {
            assert(radial_ok(BodyModel { r: pb.r / 2, ..pb }, 1, fb as int, child@));
            if let Some(cid) = r {
                created@ = created@.push(cid);
                fuse_times@ = fuse_times@.push(fuse1);
                lemma_burst_step(pre, snap, *self, Seq::empty(), id, cid, (child,
                    Behaviour::Particle));
                lemma_push_to_set(Seq::empty(), cid);
                lemma_fuse_pairs_push(Seq::empty(), Seq::empty(), cid, fuse1);
                assert(self.fuses@.to_set() == snap.fuses@.to_set().insert((fuse1, cid)));
            } else {
                if room {
                    assert(snap.store.ids_compact() && snap.store.next_id() < u32::MAX);
                    assert(false);
                }
                lemma_push_refused_frame(pre, snap, *self, created@, id);
            }
            assert(self.store.live(id));
            assert(fuse_pairs(Seq::<u32>::empty(), Seq::<u64>::empty()).to_set()
                =~= Set::<(u64, u32)>::empty());
            assert(self.fuses@.to_set() =~= pre.fuses@.to_set().union(
                fuse_pairs(created@, fuse_times@).to_set(),
            ));
        }
        if rem > 1 {
            let ghost mid = *self;
            let _old_tag = self.store.replace_behaviour(id, Behaviour::Comet(rem - 1));
            let ghost mid2 = *self;
            let u_f2 = rng.next_unit();
            let fuse2 = time + 20_000 + (u_f2 as u64) / 50;
            proof {
                lemma_comet_retag(pre, mid, mid2, created@, id, (mid.store.contents()[id].0,
                    Behaviour::Comet((rem - 1) as i32)));
            }
            self.fuses.schedule(fuse2, id);
            let ghost tr = Transcript {
                created: created@,
                n: 1,
                fb: fb as int,
                selft: fuse2,
                fuses: fuse_times@,
                ..empty_transcript()
            };
            proof {
                assert(World::mid_transition(pre, *self, created@, id));
                assert(self.store.live(id));
                assert(self.store.contents()[id].0 == pre.store.contents()[id].0);
                assert(self.store.contents()[id].1 == Behaviour::Comet((rem - 1) as i32));
                assert(self.fuses@.to_set() == mid2.fuses@.to_set().insert((fuse2, id)));
                assert(self.fuses@.to_set() =~= pre.fuses@.to_set().union(
                    fuse_pairs(created@, fuse_times@).to_set(),
                ).insert((fuse2, id)));
                assert(pre.fuses@.to_set().subset_of(self.fuses@.to_set()));
                assert(comet_case(pre, *self, tr, time, id, rem as int));
                lemma_comet_transition(pre, *self, tr, time, id, rem);
                assert forall|e: (u64, u32)|
                    self.fuses@.to_set().contains(e) && !pre.fuses@.to_set().contains(
                        e,
                    ) implies e.0 >= time + 20_000 by {
                    if e != (fuse2, id) {
                        assert(fuse_pairs(created@, fuse_times@).to_set().contains(e));
                        let j = choose|j: int|
                            0 <= j < fuse_pairs(created@, fuse_times@).len() && fuse_pairs(
                                created@,
                                fuse_times@,
                            )[j] == e;
                        assert(e.0 == fuse_times@[j]);
                    }
                }
            }
            Ghost(tr)
        } else {
            let ghost curw = *self;
            self.store.remove_id(id);
            let ghost tr = Transcript {
                created: created@,
                n: 1,
                fb: fb as int,
                fuses: fuse_times@,
                ..empty_transcript()
            };
            proof {
                lemma_burst_finish(pre, curw, *self, created@, id);
                assert(comet_case(pre, *self, tr, time, id, rem as int));
                lemma_comet_transition(pre, *self, tr, time, id, rem);
                assert(pre.fuses@.to_set().subset_of(self.fuses@.to_set()));
                assert forall|e: (u64, u32)|
                    self.fuses@.to_set().contains(e) && !pre.fuses@.to_set().contains(
                        e,
                    ) implies e.0 >= time + 20_000 by {
                    assert(fuse_pairs(created@, fuse_times@).to_set().contains(e));
                    let j = choose|j: int|
                        0 <= j < fuse_pairs(created@, fuse_times@).len() && fuse_pairs(
                            created@,
                            fuse_times@,
                        )[j] == e;
                    assert(e.0 == fuse_times@[j]);
                }
            }
            Ghost(tr)
        }
    }

    /// Fires a pistil: a wide outer shell of dimmer particles at halved
    /// radius, and a slower inner shell with grown radius and a fresh
    /// colour.
    #[verifier::spinoff_prover]
    #[verifier::rlimit(100)]
    fn fire_pistil(&mut self, rng: &mut DrawSource, time: u64, id: u32, pbody: Body, Ghost(pre):
        Ghost<World>) -> (tr: Ghost<Transcript>)
        requires
            old(self).wf(),
            old(rng).wf(),
            time <= T_MAX,
            World::burst_entry(pre, *old(self), id),
            pre.store.contents()[id].1 is Pistil,
            pbody@ == pre.store.contents()[id].0@,
            wf_body(pbody@),
        ensures
            final(self).wf(),
            final(rng).wf(),
            final(rng).units_seq() == old(rng).units_seq(),
            final(rng).dirs_seq() == old(rng).dirs_seq(),
            fuse_transition(pre, *final(self), tr@, time, id),
            pre.fuses@.to_set().subset_of(final(self).fuses@.to_set()),
            forall|e: (u64, u32)|
                final(self).fuses@.to_set().contains(e) && !pre.fuses@.to_set().contains(e)
                    ==> e.0 >= time + 20_000,
            pre.store.ids_compact() && pre.store.next_id() <= u32::MAX - SPAWN_MARGIN
                ==> final(self).store.ids_compact()
                && pre.store.next_id() <= final(self).store.next_id()
                && final(self).store.next_id() <= pre.store.next_id() + SPAWN_MARGIN,
    {
        let ghost pb = pre.store.contents()[id].0@;
        let ghost room = pre.store.ids_compact() && pre.store.next_id() <= u32::MAX
            - SPAWN_MARGIN;
        let u_n = rng.next_unit();
        let n: i64 = 150 + (u_n as i64) * 150 / 1_000_000;
        let u_m = rng.next_unit();
        let m: i64 = 150 + (u_m as i64) * 150 / 1_000_000;
        let u_fb1 = rng.next_unit();
        let fb1: i64 = 500_000 + (u_fb1 as i64) * 300_000 / 1_000_000;
        let u_fb2 = rng.next_unit();
        let fb2: i64 = 150_000 + (u_fb2 as i64) * 150_000 / 1_000_000;
        let u_r2 = rng.next_unit();
        let u_c = rng.next_unit();
        proof {
            lemma_div_ordered((u_n * 150) as int, (999_999 * 150) as int, UNIT as int);
            lemma_div_ordered((u_m * 150) as int, (999_999 * 150) as int, UNIT as int);
            lemma_div_ordered((u_fb1 * 300_000) as int, (999_999 * 300_000) as int, UNIT as int);
            lemma_div_ordered((u_fb2 * 150_000) as int, (999_999 * 150_000) as int, UNIT as int);
            lemma_div_ordered((u_r2 * 500) as int, (999_999 * 500) as int, UNIT as int);
            lemma_div_ordered(pbody.r as int, R_MAX as int, 2);
        }
        let bump: i64 = (u_r2 as i64) * 500 / 1_000_000;
        let r2val: i64 = if pbody.r + bump > R_MAX {
            R_MAX
        } else {
            pbody.r + bump
        };
        let c2 = random_color(u_c);
        let base1 = Body { r: pbody.r / 2, ..pbody };
        let base2 = Body { r: r2val, color: c2, ..pbody };
        proof {
            assert(base1@ == (BodyModel { r: pb.r / 2, ..pb }));
            assert(base2@ == (BodyModel { r: r2val as int, color: c2@, ..pb }));
            assert(wf_body(base1@));
            assert(wf_body(base2@));
            assert(pb.r <= r2val < pb.r + 500);
            assert(random_hue(c2@));
        }
        let mut created: Ghost<Seq<u32>> = Ghost(Seq::empty());
        let mut fuse_times: Ghost<Seq<u64>> = Ghost(Seq::empty());
        let mut k: i64 = 0;
        proof {
            assert(fuse_pairs(created@, fuse_times@).to_set() =~= Set::<(u64, u32)>::empty());
            assert(self.fuses@.to_set() =~= pre.fuses@.to_set().union(
                fuse_pairs(created@, fuse_times@).to_set(),
            ));
        }
        while k < n
            invariant
                0 <= k <= n,
                150 <= n < 300,
                150 <= m < 300,
                500_000 <= fb1 < 800_000,
                150_000 <= fb2 < 300_000,
                time <= T_MAX,
                rng.wf(),
                rng.units_seq() == old(rng).units_seq(),
                rng.dirs_seq() == old(rng).dirs_seq(),
                wf_body(pb),
                pbody@ == pb,
                wf_body(base1@),
                wf_body(base2@),
                base1@ == (BodyModel { r: pb.r / 2, ..pb }),
                base2@ == (BodyModel { r: r2val as int, color: c2@, ..pb }),
                pb.r <= r2val < pb.r + 500,
                random_hue(c2@),
                pre.store.live(id),
                self.store.live(id),
                World::mid_transition(pre, *self, created@, id),
                fuse_times@.len() == created@.len(),
                forall|j: int|
                    0 <= j < fuse_times@.len() ==> time + 500_000 <= #[trigger] fuse_times@[j]
                        < time + 1_500_000,
                self.fuses@.to_set() == pre.fuses@.to_set().union(
                    fuse_pairs(created@, fuse_times@).to_set(),
                ),
                forall|j: int|
                    0 <= j < created@.len() ==> {
                        &&& (#[trigger] self.store.contents()[created@[j]]).1 is Particle
                        &&& radial_ok(BodyModel { r: pb.r / 2, ..pb }, n as int, fb1 as int,
                            self.store.contents()[created@[j]].0@)
                    },
                created@.len() <= k,
                room == (pre.store.ids_compact() && pre.store.next_id() <= u32::MAX
                    - SPAWN_MARGIN),
                room ==> created@.len() == k && self.store.ids_compact()
                    && self.store.next_id() == pre.store.next_id() + k,
            decreases n - k,
        {
            let ghost snap = *self;
            let ghost cr0 = created@;
            let ghost ft0 = fuse_times@;
            let u_t = rng.next_unit();
            let fuse = time + 500_000 + (u_t as u64);
            let child = base1.plus_explosion(rng, n, fb1);
            let r = self.push(child, Behaviour::Particle, Some(fuse));
            proof {
                assert(radial_ok(BodyModel { r: pb.r / 2, ..pb }, n as int, fb1 as int,
                    child@));
                if let Some(cid) = r {
                    created@ = created@.push(cid);
                    fuse_times@ = fuse_times@.push(fuse);
                    lemma_burst_step(pre, snap, *self, cr0, id, cid, (child,
                        Behaviour::Particle));
                    assert forall|j: int| 0 <= j < created@.len() implies {
                        &&& (#[trigger] self.store.contents()[created@[j]]).1 is Particle
                        &&& radial_ok(BodyModel { r: pb.r / 2, ..pb }, n as int, fb1 as int,
                            self.store.contents()[created@[j]].0@)
                    } by {
                        if j < cr0.len() {
                            assert(cr0[j] != cid);
                            assert(self.store.contents()[cr0[j]]
                                == snap.store.contents()[cr0[j]]);
                        } else {
                            assert(created@[j] == cid);
                            assert(self.store.contents()[cid] == (child, Behaviour::Particle));
                        }
                    }
                    lemma_push_to_set(cr0, cid);
                    lemma_fuse_pairs_push(cr0, ft0, cid, fuse);
                    assert(self.fuses@.to_set() == snap.fuses@.to_set().insert((fuse, cid)));
                    assert(self.fuses@.to_set() =~= pre.fuses@.to_set().union(
                        fuse_pairs(created@, fuse_times@).to_set(),
                    ));
                    if room {
                        assert(snap.store.next_id() < u32::MAX);
                    }
                } else {
                    if room {
                        assert(snap.store.ids_compact() && snap.store.next_id() < u32::MAX);
                        assert(false);
                    }
                    lemma_push_refused_frame(pre, snap, *self, created@, id);
                }
                assert(self.store.live(id));
            }
            k = k + 1;
        }
        let ghost outer = created@.len() as int;
        let mut k2: i64 = 0;
        while k2 < m
            invariant
                0 <= k2 <= m,
                150 <= n < 300,
                150 <= m < 300,
                500_000 <= fb1 < 800_000,
                150_000 <= fb2 < 300_000,
                time <= T_MAX,
                rng.wf(),
                rng.units_seq() == old(rng).units_seq(),
                rng.dirs_seq() == old(rng).dirs_seq(),
                wf_body(pb),
                pbody@ == pb,
                wf_body(base1@),
                wf_body(base2@),
                base1@ == (BodyModel { r: pb.r / 2, ..pb }),
                base2@ == (BodyModel { r: r2val as int, color: c2@, ..pb }),
                pb.r <= r2val < pb.r + 500,
                random_hue(c2@),
                pre.store.live(id),
                self.store.live(id),
                World::mid_transition(pre, *self, created@, id),
                fuse_times@.len() == created@.len(),
                forall|j: int|
                    0 <= j < fuse_times@.len() ==> time + 500_000 <= #[trigger] fuse_times@[j]
                        < time + 1_500_000,
                self.fuses@.to_set() == pre.fuses@.to_set().union(
                    fuse_pairs(created@, fuse_times@).to_set(),
                ),
                forall|j: int|
                    0 <= j < outer ==> {
                        &&& (#[trigger] self.store.contents()[created@[j]]).1 is Particle
                        &&& radial_ok(BodyModel { r: pb.r / 2, ..pb }, n as int, fb1 as int,
                            self.store.contents()[created@[j]].0@)
                    },
                forall|j: int|
                    outer <= j < created@.len() ==> {
                        &&& (#[trigger] self.store.contents()[created@[j]]).1 is Particle
                        &&& radial_ok(
                            BodyModel { r: r2val as int, color: c2@, ..pb },
                            n as int,
                            fb2 as int,
                            self.store.contents()[created@[j]].0@,
                        )
                    },
                0 <= outer,
                outer <= n,
                outer <= created@.len(),
                created@.len() <= outer + k2,
                room == (pre.store.ids_compact() && pre.store.next_id() <= u32::MAX
                    - SPAWN_MARGIN),
                room ==> outer == n && created@.len() == outer + k2 && self.store.ids_compact()
                    && self.store.next_id() == pre.store.next_id() + outer + k2,
            decreases m - k2,
        {
            let ghost snap = *self;
            let ghost cr0 = created@;
            let ghost ft0 = fuse_times@;
            let u_t = rng.next_unit();
            let fuse = time + 500_000 + (u_t as u64);
            let child = base2.plus_explosion(rng, n, fb2);
            let r = self.push(child, Behaviour::Particle, Some(fuse));
            proof {
                assert(radial_ok(BodyModel { r: r2val as int, color: c2@, ..pb }, n as int,
                    fb2 as int, child@));
                if let Some(cid) = r {
                    created@ = created@.push(cid);
                    fuse_times@ = fuse_times@.push(fuse);
                    lemma_burst_step(pre, snap, *self, cr0, id, cid, (child,
                        Behaviour::Particle));
                    lemma_pistil_step_children(snap, *self, cr0, created@, cid, child, outer,
                        pb, n as int, fb1 as int, fb2 as int, r2val as int, c2@);
                    lemma_push_to_set(cr0, cid);
                    lemma_fuse_pairs_push(cr0, ft0, cid, fuse);
                    assert(self.fuses@.to_set() == snap.fuses@.to_set().insert((fuse, cid)));
                    assert(self.fuses@.to_set() =~= pre.fuses@.to_set().union(
                        fuse_pairs(created@, fuse_times@).to_set(),
                    ));
                    if room {
                        assert(snap.store.next_id() < u32::MAX);
                    }
                } else {
                    if room {
                        assert(snap.store.ids_compact() && snap.store.next_id() < u32::MAX);
                        assert(false);
                    }
                    lemma_push_refused_frame(pre, snap, *self, created@, id);
                }
                assert(self.store.live(id));
            }
            k2 = k2 + 1;
        }
        let ghost curw = *self;
        self.store.remove_id(id);
        let ghost tr = Transcript {
            created: created@,
            n: n as int,
            m: m as int,
            fb: fb1 as int,
            fb2: fb2 as int,
            h: r2val as int,
            color: c2@,
            fuses: fuse_times@,
            outer,
            ..empty_transcript()
        };
        proof {
            lemma_burst_finish(pre, curw, *self, created@, id);
            assert(pistil_population(pb, *self, created@, outer, n as int, m as int, fb1 as int,
                fb2 as int, r2val as int, c2@, room));
            lemma_pistil_transition(pre, *self, tr, time, id);
            assert(pre.fuses@.to_set().subset_of(self.fuses@.to_set()));
            assert forall|e: (u64, u32)|
                self.fuses@.to_set().contains(e) && !pre.fuses@.to_set().contains(e) implies e.0
                >= time + 20_000 by {
                assert(fuse_pairs(created@, fuse_times@).to_set().contains(e));
                let j = choose|j: int|
                    0 <= j < fuse_pairs(created@, fuse_times@).len() && fuse_pairs(
                        created@,
                        fuse_times@,
                    )[j] == e;
                assert(e.0 == fuse_times@[j]);
            }
        }
        Ghost(tr)
    }

    /// Fires a multi-colour chrysanthemum: as the chrysanthemum, each
    /// fragment's colour chosen between the parent's and one fresh colour.
    #[verifier::spinoff_prover]
    fn fire_multicolor(&mut self, rng: &mut DrawSource, time: u64, id: u32, pbody: Body, Ghost(pre):
        Ghost<World>) -> (tr: Ghost<Transcript>)
        requires
            old(self).wf(),
            old(rng).wf(),
            time <= T_MAX,
            World::burst_entry(pre, *old(self), id),
            pre.store.contents()[id].1 is MultiColorChris,
            pbody@ == pre.store.contents()[id].0@,
            wf_body(pbody@),
        ensures
            final(self).wf(),
            final(rng).wf(),
            final(rng).units_seq() == old(rng).units_seq(),
            final(rng).dirs_seq() == old(rng).dirs_seq(),
            fuse_transition(pre, *final(self), tr@, time, id),
            pre.fuses@.to_set().subset_of(final(self).fuses@.to_set()),
            forall|e: (u64, u32)|
                final(self).fuses@.to_set().contains(e) && !pre.fuses@.to_set().contains(e)
                    ==> e.0 >= time + 20_000,
            pre.store.ids_compact() && pre.store.next_id() <= u32::MAX - SPAWN_MARGIN
                ==> final(self).store.ids_compact()
                && pre.store.next_id() <= final(self).store.next_id()
                && final(self).store.next_id() <= pre.store.next_id() + SPAWN_MARGIN,
    {
        let ghost pb = pre.store.contents()[id].0@;
        let ghost room = pre.store.ids_compact() && pre.store.next_id() <= u32::MAX
            - SPAWN_MARGIN;
        let u_n = rng.next_unit();
        let n: i64 = 150 + (u_n as i64) * 150 / 1_000_000;
        let u_fb = rng.next_unit();
        let fb: i64 = 400_000 + (u_fb as i64) * 300_000 / 1_000_000;
        proof {
            lemma_div_ordered((u_n * 150) as int, (999_999 * 150) as int, UNIT as int);
            lemma_div_ordered((u_fb * 300_000) as int, (999_999 * 300_000) as int, UNIT as int);
        }
        let u_fresh = rng.next_unit();
        let fresh = random_color(u_fresh);
        let mut created: Ghost<Seq<u32>> = Ghost(Seq::empty());
        let mut fuse_times: Ghost<Seq<u64>> = Ghost(Seq::empty());
        let mut k: i64 = 0;
        proof {
            assert(fuse_pairs(created@, fuse_times@).to_set() =~= Set::<(u64, u32)>::empty());
            assert(self.fuses@.to_set() =~= pre.fuses@.to_set().union(
                fuse_pairs(created@, fuse_times@).to_set(),
            ));
        }
        while k < n
            invariant
                0 <= k <= n,
                150 <= n < 300,
                400_000 <= fb < 700_000,
                time <= T_MAX,
                rng.wf(),
                rng.units_seq() == old(rng).units_seq(),
                rng.dirs_seq() == old(rng).dirs_seq(),
                wf_body(pb),
                pbody@ == pb,
                wf_color(fresh@),
                random_hue(fresh@),
                pre.store.live(id),
                self.store.live(id),
                World::mid_transition(pre, *self, created@, id),
                fuse_times@.len() == created@.len(),
                forall|j: int|
                    0 <= j < fuse_times@.len() ==> time + 500_000 <= #[trigger] fuse_times@[j]
                        < time + 1_500_000,
                self.fuses@.to_set() == pre.fuses@.to_set().union(
                    fuse_pairs(created@, fuse_times@).to_set(),
                ),
                forall|j: int|
                    0 <= j < created@.len() ==> {
                        &&& (#[trigger] self.store.contents()[created@[j]]).1 is Particle
                        &&& exists|c: ColorModel| #[trigger]
                            multicolor_pick(pb, fresh@, c, n as int, fb as int,
                                self.store.contents()[created@[j]].0@)
                    },
                created@.len() <= k,
                room == (pre.store.ids_compact() && pre.store.next_id() <= u32::MAX
                    - SPAWN_MARGIN),
                room ==> created@.len() == k && self.store.ids_compact()
                    && self.store.next_id() == pre.store.next_id() + k,
            decreases n - k,
        {
            let ghost snap = *self;
            let ghost cr0 = created@;
            let ghost ft0 = fuse_times@;
            let u_t = rng.next_unit();
            let fuse = time + 500_000 + (u_t as u64);
            let u_pick = rng.next_unit();
            let col = if u_pick < 500_000 {
                pbody.color
            } else {
                fresh
            };
            let base = pbody.with_color(col);
            proof {
                assert(wf_color(col@));
                assert(wf_body(base@));
            }
            let child = base.plus_explosion(rng, n, fb);
            let r = self.push(child, Behaviour::Particle, Some(fuse));
            proof {
                assert(base@ == (BodyModel { color: col@, ..pb }));
                assert(radial_ok(BodyModel { color: col@, ..pb }, n as int, fb as int, child@));
                if let Some(cid) = r {
                    created@ = created@.push(cid);
                    fuse_times@ = fuse_times@.push(fuse);
                    lemma_burst_step(pre, snap, *self, cr0, id, cid, (child,
                        Behaviour::Particle));
                    assert(col@ == pb.color || col@ == fresh@);
                    assert(multicolor_pick(pb, fresh@, col@, n as int, fb as int, child@));
                    lemma_multicolor_step_children(snap, *self, cr0, created@, cid, child, pb,
                        n as int, fb as int, fresh@, col@);
                    lemma_push_to_set(cr0, cid);
                    lemma_fuse_pairs_push(cr0, ft0, cid, fuse);
                    assert(self.fuses@.to_set() == snap.fuses@.to_set().insert((fuse, cid)));
                    assert(self.fuses@.to_set() =~= pre.fuses@.to_set().union(
                        fuse_pairs(created@, fuse_times@).to_set(),
                    ));
                    if room {
                        assert(snap.store.next_id() < u32::MAX);
                    }
                    assert(World::mid_transition(pre, *self, created@, id));
                } else {
                    if room {
                        assert(snap.store.ids_compact() && snap.store.next_id() < u32::MAX);
                        assert(false);
                    }
                    lemma_push_refused_frame(pre, snap, *self, created@, id);
                }
                assert(self.store.live(id));
            }
            k = k + 1;
        }
        let ghost curw = *self;
        self.store.remove_id(id);
        let ghost tr = Transcript {
            created: created@,
            n: n as int,
            fb: fb as int,
            color: fresh@,
            fuses: fuse_times@,
            ..empty_transcript()
        };
        proof {
            lemma_burst_finish(pre, curw, *self, created@, id);
            assert(pre.store.contents()[id].1 == Behaviour::MultiColorChris);
            assert(multicolor_population(pb, *self, created@, n as int, fb as int, fresh@,
                room));
            lemma_multicolor_transition(pre, *self, tr, time, id);
            assert(pre.fuses@.to_set().subset_of(self.fuses@.to_set()));
            assert forall|e: (u64, u32)|
                self.fuses@.to_set().contains(e) && !pre.fuses@.to_set().contains(e) implies e.0
                >= time + 20_000 by {
                assert(fuse_pairs(created@, fuse_times@).to_set().contains(e));
                let j = choose|j: int|
                    0 <= j < fuse_pairs(created@, fuse_times@).len() && fuse_pairs(
                        created@,
                        fuse_times@,
                    )[j] == e;
                assert(e.0 == fuse_times@[j]);
            }
        }
        Ghost(tr)
    }

    /// Fires a strobe: a round shell of shimmering sparks, each with its
    /// own shimmer frequency.
    #[verifier::spinoff_prover]
    fn fire_strobe(&mut self, rng: &mut DrawSource, time: u64, id: u32, pbody: Body, Ghost(pre):
        Ghost<World>) -> (tr: Ghost<Transcript>)
        requires
            old(self).wf(),
            old(rng).wf(),
            time <= T_MAX,
            World::burst_entry(pre, *old(self), id),
            pre.store.contents()[id].1 is Strobe,
            pbody@ == pre.store.contents()[id].0@,
            wf_body(pbody@),
        ensures
            final(self).wf(),
            final(rng).wf(),
            final(rng).units_seq() == old(rng).units_seq(),
            final(rng).dirs_seq() == old(rng).dirs_seq(),
            fuse_transition(pre, *final(self), tr@, time, id),
            pre.fuses@.to_set().subset_of(final(self).fuses@.to_set()),
            forall|e: (u64, u32)|
                final(self).fuses@.to_set().contains(e) && !pre.fuses@.to_set().contains(e)
                    ==> e.0 >= time + 20_000,
            pre.store.ids_compact() && pre.store.next_id() <= u32::MAX - SPAWN_MARGIN
                ==> final(self).store.ids_compact()
                && pre.store.next_id() <= final(self).store.next_id()
                && final(self).store.next_id() <= pre.store.next_id() + SPAWN_MARGIN,
    {
        let ghost pb = pre.store.contents()[id].0@;
        let ghost room = pre.store.ids_compact() && pre.store.next_id() <= u32::MAX
            - SPAWN_MARGIN;
        let u_n = rng.next_unit();
        let n: i64 = 150 + (u_n as i64) * 150 / 1_000_000;
        let u_fb = rng.next_unit();
        let fb: i64 = 400_000 + (u_fb as i64) * 300_000 / 1_000_000;
        proof {
            lemma_div_ordered((u_n * 150) as int, (999_999 * 150) as int, UNIT as int);
            lemma_div_ordered((u_fb * 300_000) as int, (999_999 * 300_000) as int, UNIT as int);
        }
        let mut created: Ghost<Seq<u32>> = Ghost(Seq::empty());
        let mut fuse_times: Ghost<Seq<u64>> = Ghost(Seq::empty());
        let mut k: i64 = 0;
        proof {
            assert(fuse_pairs(created@, fuse_times@).to_set() =~= Set::<(u64, u32)>::empty());
            assert(self.fuses@.to_set() =~= pre.fuses@.to_set().union(
                fuse_pairs(created@, fuse_times@).to_set(),
            ));
        }
        while k < n
            invariant
                0 <= k <= n,
                150 <= n < 300,
                400_000 <= fb < 700_000,
                time <= T_MAX,
                rng.wf(),
                rng.units_seq() == old(rng).units_seq(),
                rng.dirs_seq() == old(rng).dirs_seq(),
                wf_body(pb),
                pbody@ == pb,
                pre.store.live(id),
                self.store.live(id),
                World::mid_transition(pre, *self, created@, id),
                fuse_times@.len() == created@.len(),
                forall|j: int|
                    0 <= j < fuse_times@.len() ==> time + 500_000 <= #[trigger] fuse_times@[j]
                        < time + 1_500_000,
                self.fuses@.to_set() == pre.fuses@.to_set().union(
                    fuse_pairs(created@, fuse_times@).to_set(),
                ),
                forall|j: int|
                    0 <= j < created@.len() ==> burst_child(
                        Behaviour::Strobe,
                        pb,
                        n as int,
                        fb as int,
                        (#[trigger] self.store.contents()[created@[j]]).0@,
                        self.store.contents()[created@[j]].1,
                    ),
                created@.len() <= k,
                room == (pre.store.ids_compact() && pre.store.next_id() <= u32::MAX
                    - SPAWN_MARGIN),
                room ==> created@.len() == k && self.store.ids_compact()
                    && self.store.next_id() == pre.store.next_id() + k,
            decreases n - k,
        {
            let ghost snap = *self;
            let ghost cr0 = created@;
            let ghost ft0 = fuse_times@;
            let u_t = rng.next_unit();
            let fuse = time + 500_000 + (u_t as u64);
            let u_phi = rng.next_unit();
            let phi: i64 = 3_000_000 + 6 * (u_phi as i64);
            let child = pbody.plus_explosion(rng, n, fb);
            let r = self.push(child, Behaviour::Glitter(phi), Some(fuse));
            proof {
                assert(radial_ok(pb, n as int, fb as int, child@));
                if let Some(cid) = r {
                    created@ = created@.push(cid);
                    fuse_times@ = fuse_times@.push(fuse);
                    lemma_burst_step(pre, snap, *self, cr0, id, cid, (child,
                        Behaviour::Glitter(phi)));
                    assert forall|j: int| 0 <= j < created@.len() implies burst_child(
                        Behaviour::Strobe,
                        pb,
                        n as int,
                        fb as int,
                        (#[trigger] self.store.contents()[created@[j]]).0@,
                        self.store.contents()[created@[j]].1,
                    ) by {
                        if j < cr0.len() {
                            assert(cr0[j] != cid);
                            assert(self.store.contents()[cr0[j]]
                                == snap.store.contents()[cr0[j]]);
                        } else {
                            assert(created@[j] == cid);
                            assert(self.store.contents()[cid] == (child, Behaviour::Glitter(phi)));
                            assert(3 * UNIT <= phi < 9 * UNIT);
                        }
                    }
                    lemma_push_to_set(cr0, cid);
                    lemma_fuse_pairs_push(cr0, ft0, cid, fuse);
                    assert(self.fuses@.to_set() == snap.fuses@.to_set().insert((fuse, cid)));
                    assert(self.fuses@.to_set() =~= pre.fuses@.to_set().union(
                        fuse_pairs(created@, fuse_times@).to_set(),
                    ));
                    if room {
                        assert(snap.store.next_id() < u32::MAX);
                    }
                    assert(World::mid_transition(pre, *self, created@, id));
                } else {
                    if room {
                        assert(snap.store.ids_compact() && snap.store.next_id() < u32::MAX);
                        assert(false);
                    }
                    lemma_push_refused_frame(pre, snap, *self, created@, id);
                }
                assert(self.store.live(id));
            }
            k = k + 1;
        }
        let ghost curw = *self;
        self.store.remove_id(id);
        let ghost tr = Transcript {
            created: created@,
            n: n as int,
            fb: fb as int,
            fuses: fuse_times@,
            ..empty_transcript()
        };
        proof {
            lemma_burst_finish(pre, curw, *self, created@, id);
            assert(pre.store.contents()[id].1 == Behaviour::Strobe);
            assert(burst_population(pre.store.contents()[id].1, pb, *self, created@, n as int,
                fb as int, room));
            lemma_simple_burst_transition(pre, *self, tr, time, id);
            assert(pre.fuses@.to_set().subset_of(self.fuses@.to_set()));
            assert forall|e: (u64, u32)|
                self.fuses@.to_set().contains(e) && !pre.fuses@.to_set().contains(e) implies e.0
                >= time + 20_000 by {
                assert(fuse_pairs(created@, fuse_times@).to_set().contains(e));
                let j = choose|j: int|
                    0 <= j < fuse_pairs(created@, fuse_times@).len() && fuse_pairs(
                        created@,
                        fuse_times@,
                    )[j] == e;
                assert(e.0 == fuse_times@[j]);
            }
        }
        Ghost(tr)
    }

    /// Fires a willow: heavy drooping droplets that keep falling long.
    #[verifier::spinoff_prover]
    fn fire_willow(&mut self, rng: &mut DrawSource, time: u64, id: u32, pbody: Body, Ghost(pre):
        Ghost<World>) -> (tr: Ghost<Transcript>)
        requires
            old(self).wf(),
            old(rng).wf(),
            time <= T_MAX,
            World::burst_entry(pre, *old(self), id),
            pre.store.contents()[id].1 is Willow,
            pbody@ == pre.store.contents()[id].0@,
            wf_body(pbody@),
        ensures
            final(self).wf(),
            final(rng).wf(),
            final(rng).units_seq() == old(rng).units_seq(),
            final(rng).dirs_seq() == old(rng).dirs_seq(),
            fuse_transition(pre, *final(self), tr@, time, id),
            pre.fuses@.to_set().subset_of(final(self).fuses@.to_set()),
            forall|e: (u64, u32)|
                final(self).fuses@.to_set().contains(e) && !pre.fuses@.to_set().contains(e)
                    ==> e.0 >= time + 20_000,
            pre.store.ids_compact() && pre.store.next_id() <= u32::MAX - SPAWN_MARGIN
                ==> final(self).store.ids_compact()
                && pre.store.next_id() <= final(self).store.next_id()
                && final(self).store.next_id() <= pre.store.next_id() + SPAWN_MARGIN,
    {
        let ghost pb = pre.store.contents()[id].0@;
        let ghost room = pre.store.ids_compact() && pre.store.next_id() <= u32::MAX
            - SPAWN_MARGIN;
        let u_n = rng.next_unit();
        let n: i64 = 150 + (u_n as i64) * 150 / 1_000_000;
        let u_fb = rng.next_unit();
        let fb: i64 = 400_000 + (u_fb as i64) * 300_000 / 1_000_000;
        proof {
            lemma_div_ordered((u_n * 150) as int, (999_999 * 150) as int, UNIT as int);
            lemma_div_ordered((u_fb * 300_000) as int, (999_999 * 300_000) as int, UNIT as int);
        }
        let mut created: Ghost<Seq<u32>> = Ghost(Seq::empty());
        let mut fuse_times: Ghost<Seq<u64>> = Ghost(Seq::empty());
        let mut k: i64 = 0;
        proof {
            assert(fuse_pairs(created@, fuse_times@).to_set() =~= Set::<(u64, u32)>::empty());
            assert(self.fuses@.to_set() =~= pre.fuses@.to_set().union(
                fuse_pairs(created@, fuse_times@).to_set(),
            ));
        }
        while k < n
            invariant
                0 <= k <= n,
                150 <= n < 300,
                400_000 <= fb < 700_000,
                time <= T_MAX,
                rng.wf(),
                rng.units_seq() == old(rng).units_seq(),
                rng.dirs_seq() == old(rng).dirs_seq(),
                wf_body(pb),
                pbody@ == pb,
                pre.store.live(id),
                self.store.live(id),
                World::mid_transition(pre, *self, created@, id),
                fuse_times@.len() == created@.len(),
                forall|j: int|
                    0 <= j < fuse_times@.len() ==> time + 500_000 <= #[trigger] fuse_times@[j]
                        < time + 1_500_000,
                self.fuses@.to_set() == pre.fuses@.to_set().union(
                    fuse_pairs(created@, fuse_times@).to_set(),
                ),
                forall|j: int|
                    0 <= j < created@.len() ==> burst_child(
                        Behaviour::Willow,
                        pb,
                        n as int,
                        fb as int,
                        (#[trigger] self.store.contents()[created@[j]]).0@,
                        self.store.contents()[created@[j]].1,
                    ),
                created@.len() <= k,
                room == (pre.store.ids_compact() && pre.store.next_id() <= u32::MAX
                    - SPAWN_MARGIN),
                room ==> created@.len() == k && self.store.ids_compact()
                    && self.store.next_id() == pre.store.next_id() + k,
            decreases n - k,
        {
            let ghost snap = *self;
            let ghost cr0 = created@;
            let ghost ft0 = fuse_times@;
            let u_t = rng.next_unit();
            let fuse = time + 500_000 + (u_t as u64);
            let child = pbody.plus_willow_explosion(rng, fb);
            let r = self.push(child, Behaviour::MassiveParticle, Some(fuse));
            proof {
                assert(willow_ok(pb, fb as int, child@));
                if let Some(cid) = r {
                    created@ = created@.push(cid);
                    fuse_times@ = fuse_times@.push(fuse);
                    lemma_burst_step(pre, snap, *self, cr0, id, cid, (child,
                        Behaviour::MassiveParticle));
                    assert forall|j: int| 0 <= j < created@.len() implies burst_child(
                        Behaviour::Willow,
                        pb,
                        n as int,
                        fb as int,
                        (#[trigger] self.store.contents()[created@[j]]).0@,
                        self.store.contents()[created@[j]].1,
                    ) by {
                        if j < cr0.len() {
                            assert(cr0[j] != cid);
                            assert(self.store.contents()[cr0[j]]
                                == snap.store.contents()[cr0[j]]);
                        } else {
                            assert(created@[j] == cid);
                            assert(self.store.contents()[cid] == (child, Behaviour::MassiveParticle));
                            
                        }
                    }
                    lemma_push_to_set(cr0, cid);
                    lemma_fuse_pairs_push(cr0, ft0, cid, fuse);
                    assert(self.fuses@.to_set() == snap.fuses@.to_set().insert((fuse, cid)));
                    assert(self.fuses@.to_set() =~= pre.fuses@.to_set().union(
                        fuse_pairs(created@, fuse_times@).to_set(),
                    ));
                    if room {
                        assert(snap.store.next_id() < u32::MAX);
                    }
                    assert(World::mid_transition(pre, *self, created@, id));
                } else {
                    if room {
                        assert(snap.store.ids_compact() && snap.store.next_id() < u32::MAX);
                        assert(false);
                    }
                    lemma_push_refused_frame(pre, snap, *self, created@, id);
                }
                assert(self.store.live(id));
            }
            k = k + 1;
        }
        let ghost curw = *self;
        self.store.remove_id(id);
        let ghost tr = Transcript {
            created: created@,
            n: n as int,
            fb: fb as int,
            fuses: fuse_times@,
            ..empty_transcript()
        };
        proof {
            lemma_burst_finish(pre, curw, *self, created@, id);
            assert(pre.store.contents()[id].1 == Behaviour::Willow);
            assert(burst_population(pre.store.contents()[id].1, pb, *self, created@, n as int,
                fb as int, room));
            lemma_simple_burst_transition(pre, *self, tr, time, id);
            assert(pre.fuses@.to_set().subset_of(self.fuses@.to_set()));
            assert forall|e: (u64, u32)|
                self.fuses@.to_set().contains(e) && !pre.fuses@.to_set().contains(e) implies e.0
                >= time + 20_000 by {
                assert(fuse_pairs(created@, fuse_times@).to_set().contains(e));
                let j = choose|j: int|
                    0 <= j < fuse_pairs(created@, fuse_times@).len() && fuse_pairs(
                        created@,
                        fuse_times@,
                    )[j] == e;
                assert(e.0 == fuse_times@[j]);
            }
        }
        Ghost(tr)
    }

    /// Fires a crosette: a few branches that will burst again themselves.
    #[verifier::spinoff_prover]
    fn fire_crosette(&mut self, rng: &mut DrawSource, time: u64, id: u32, pbody: Body, Ghost(pre):
        Ghost<World>) -> (tr: Ghost<Transcript>)
        requires
            old(self).wf(),
            old(rng).wf(),
            time <= T_MAX,
            World::burst_entry(pre, *old(self), id),
            pre.store.contents()[id].1 is Crosette,
            pbody@ == pre.store.contents()[id].0@,
            wf_body(pbody@),
        ensures
            final(self).wf(),
            final(rng).wf(),
            final(rng).units_seq() == old(rng).units_seq(),
            final(rng).dirs_seq() == old(rng).dirs_seq(),
            fuse_transition(pre, *final(self), tr@, time, id),
            pre.fuses@.to_set().subset_of(final(self).fuses@.to_set()),
            forall|e: (u64, u32)|
                final(self).fuses@.to_set().contains(e) && !pre.fuses@.to_set().contains(e)
                    ==> e.0 >= time + 20_000,
            pre.store.ids_compact() && pre.store.next_id() <= u32::MAX - SPAWN_MARGIN
                ==> final(self).store.ids_compact()
                && pre.store.next_id() <= final(self).store.next_id()
                && final(self).store.next_id() <= pre.store.next_id() + SPAWN_MARGIN,
    {
        let ghost pb = pre.store.contents()[id].0@;
        let ghost room = pre.store.ids_compact() && pre.store.next_id() <= u32::MAX
            - SPAWN_MARGIN;
        let u_n = rng.next_unit();
        let n: i64 = 3 + (u_n as i64) * 20 / 1_000_000;
        let u_fb = rng.next_unit();
        let fb: i64 = 250_000 + (u_fb as i64) * 150_000 / 1_000_000;
        proof {
            lemma_div_ordered((u_n * 20) as int, (999_999 * 20) as int, UNIT as int);
            lemma_div_ordered((u_fb * 150_000) as int, (999_999 * 150_000) as int, UNIT as int);
        }
        let mut created: Ghost<Seq<u32>> = Ghost(Seq::empty());
        let mut fuse_times: Ghost<Seq<u64>> = Ghost(Seq::empty());
        let mut k: i64 = 0;
        proof {
            assert(fuse_pairs(created@, fuse_times@).to_set() =~= Set::<(u64, u32)>::empty());
            assert(self.fuses@.to_set() =~= pre.fuses@.to_set().union(
                fuse_pairs(created@, fuse_times@).to_set(),
            ));
        }
        while k < n
            invariant
                0 <= k <= n,
                3 <= n < 23,
                250_000 <= fb < 400_000,
                time <= T_MAX,
                rng.wf(),
                rng.units_seq() == old(rng).units_seq(),
                rng.dirs_seq() == old(rng).dirs_seq(),
                wf_body(pb),
                pbody@ == pb,
                pre.store.live(id),
                self.store.live(id),
                World::mid_transition(pre, *self, created@, id),
                fuse_times@.len() == created@.len(),
                forall|j: int|
                    0 <= j < fuse_times@.len() ==> time + 500_000 <= #[trigger] fuse_times@[j]
                        < time + 1_500_000,
                self.fuses@.to_set() == pre.fuses@.to_set().union(
                    fuse_pairs(created@, fuse_times@).to_set(),
                ),
                forall|j: int|
                    0 <= j < created@.len() ==> burst_child(
                        Behaviour::Crosette,
                        pb,
                        n as int,
                        fb as int,
                        (#[trigger] self.store.contents()[created@[j]]).0@,
                        self.store.contents()[created@[j]].1,
                    ),
                created@.len() <= k,
                room == (pre.store.ids_compact() && pre.store.next_id() <= u32::MAX
                    - SPAWN_MARGIN),
                room ==> created@.len() == k && self.store.ids_compact()
                    && self.store.next_id() == pre.store.next_id() + k,
            decreases n - k,
        {
            let ghost snap = *self;
            let ghost cr0 = created@;
            let ghost ft0 = fuse_times@;
            let u_t = rng.next_unit();
            let fuse = time + 500_000 + (u_t as u64);
            let child = pbody.plus_explosion(rng, n, fb);
            let r = self.push(child, Behaviour::CrosetteBranch, Some(fuse));
            proof {
                assert(radial_ok(pb, n as int, fb as int, child@));
                if let Some(cid) = r {
                    created@ = created@.push(cid);
                    fuse_times@ = fuse_times@.push(fuse);
                    lemma_burst_step(pre, snap, *self, cr0, id, cid, (child,
                        Behaviour::CrosetteBranch));
                    assert forall|j: int| 0 <= j < created@.len() implies burst_child(
                        Behaviour::Crosette,
                        pb,
                        n as int,
                        fb as int,
                        (#[trigger] self.store.contents()[created@[j]]).0@,
                        self.store.contents()[created@[j]].1,
                    ) by {
                        if j < cr0.len() {
                            assert(cr0[j] != cid);
                            assert(self.store.contents()[cr0[j]]
                                == snap.store.contents()[cr0[j]]);
                        } else {
                            assert(created@[j] == cid);
                            assert(self.store.contents()[cid] == (child, Behaviour::CrosetteBranch));
                            
                        }
                    }
                    lemma_push_to_set(cr0, cid);
                    lemma_fuse_pairs_push(cr0, ft0, cid, fuse);
                    assert(self.fuses@.to_set() == snap.fuses@.to_set().insert((fuse, cid)));
                    assert(self.fuses@.to_set() =~= pre.fuses@.to_set().union(
                        fuse_pairs(created@, fuse_times@).to_set(),
                    ));
                    if room {
                        assert(snap.store.next_id() < u32::MAX);
                    }
                    assert(World::mid_transition(pre, *self, created@, id));
                } else {
                    if room {
                        assert(snap.store.ids_compact() && snap.store.next_id() < u32::MAX);
                        assert(false);
                    }
                    lemma_push_refused_frame(pre, snap, *self, created@, id);
                }
                assert(self.store.live(id));
            }
            k = k + 1;
        }
        let ghost curw = *self;
        self.store.remove_id(id);
        let ghost tr = Transcript {
            created: created@,
            n: n as int,
            fb: fb as int,
            fuses: fuse_times@,
            ..empty_transcript()
        };
        proof {
            lemma_burst_finish(pre, curw, *self, created@, id);
            assert(pre.store.contents()[id].1 == Behaviour::Crosette);
            assert(burst_population(pre.store.contents()[id].1, pb, *self, created@, n as int,
                fb as int, room));
            lemma_simple_burst_transition(pre, *self, tr, time, id);
            assert(pre.fuses@.to_set().subset_of(self.fuses@.to_set()));
            assert forall|e: (u64, u32)|
                self.fuses@.to_set().contains(e) && !pre.fuses@.to_set().contains(e) implies e.0
                >= time + 20_000 by {
                assert(fuse_pairs(created@, fuse_times@).to_set().contains(e));
                let j = choose|j: int|
                    0 <= j < fuse_pairs(created@, fuse_times@).len() && fuse_pairs(
                        created@,
                        fuse_times@,
                    )[j] == e;
                assert(e.0 == fuse_times@[j]);
            }
        }
        Ghost(tr)
    }

    /// Fires one crosette branch: sparks in a narrow cone around the
    /// branch's own heading.
    #[verifier::spinoff_prover]
    fn fire_crosette_branch(&mut self, rng: &mut DrawSource, time: u64, id: u32, pbody: Body, Ghost(pre):
        Ghost<World>) -> (tr: Ghost<Transcript>)
        requires
            old(self).wf(),
            old(rng).wf(),
            time <= T_MAX,
            World::burst_entry(pre, *old(self), id),
            pre.store.contents()[id].1 is CrosetteBranch,
            pbody@ == pre.store.contents()[id].0@,
            wf_body(pbody@),
        ensures
            final(self).wf(),
            final(rng).wf(),
            final(rng).units_seq() == old(rng).units_seq(),
            final(rng).dirs_seq() == old(rng).dirs_seq(),
            fuse_transition(pre, *final(self), tr@, time, id),
            pre.fuses@.to_set().subset_of(final(self).fuses@.to_set()),
            forall|e: (u64, u32)|
                final(self).fuses@.to_set().contains(e) && !pre.fuses@.to_set().contains(e)
                    ==> e.0 >= time + 20_000,
            pre.store.ids_compact() && pre.store.next_id() <= u32::MAX - SPAWN_MARGIN
                ==> final(self).store.ids_compact()
                && pre.store.next_id() <= final(self).store.next_id()
                && final(self).store.next_id() <= pre.store.next_id() + SPAWN_MARGIN,
    {
        let ghost pb = pre.store.contents()[id].0@;
        let ghost room = pre.store.ids_compact() && pre.store.next_id() <= u32::MAX
            - SPAWN_MARGIN;
        let u_n = rng.next_unit();
        let n: i64 = 3 + (u_n as i64) * 10 / 1_000_000;
        let u_fb = rng.next_unit();
        let fb: i64 = 200_000 + (u_fb as i64) * 150_000 / 1_000_000;
        proof {
            lemma_div_ordered((u_n * 10) as int, (999_999 * 10) as int, UNIT as int);
            lemma_div_ordered((u_fb * 150_000) as int, (999_999 * 150_000) as int, UNIT as int);
        }
        let mut created: Ghost<Seq<u32>> = Ghost(Seq::empty());
        let mut fuse_times: Ghost<Seq<u64>> = Ghost(Seq::empty());
        let mut k: i64 = 0;
        proof {
            assert(fuse_pairs(created@, fuse_times@).to_set() =~= Set::<(u64, u32)>::empty());
            assert(self.fuses@.to_set() =~= pre.fuses@.to_set().union(
                fuse_pairs(created@, fuse_times@).to_set(),
            ));
        }
        while k < n
            invariant
                0 <= k <= n,
                3 <= n < 13,
                200_000 <= fb < 350_000,
                time <= T_MAX,
                rng.wf(),
                rng.units_seq() == old(rng).units_seq(),
                rng.dirs_seq() == old(rng).dirs_seq(),
                wf_body(pb),
                pbody@ == pb,
                pre.store.live(id),
                self.store.live(id),
                World::mid_transition(pre, *self, created@, id),
                fuse_times@.len() == created@.len(),
                forall|j: int|
                    0 <= j < fuse_times@.len() ==> time + 500_000 <= #[trigger] fuse_times@[j]
                        < time + 1_500_000,
                self.fuses@.to_set() == pre.fuses@.to_set().union(
                    fuse_pairs(created@, fuse_times@).to_set(),
                ),
                forall|j: int|
                    0 <= j < created@.len() ==> burst_child(
                        Behaviour::CrosetteBranch,
                        pb,
                        n as int,
                        fb as int,
                        (#[trigger] self.store.contents()[created@[j]]).0@,
                        self.store.contents()[created@[j]].1,
                    ),
                created@.len() <= k,
                room == (pre.store.ids_compact() && pre.store.next_id() <= u32::MAX
                    - SPAWN_MARGIN),
                room ==> created@.len() == k && self.store.ids_compact()
                    && self.store.next_id() == pre.store.next_id() + k,
            decreases n - k,
        {
            let ghost snap = *self;
            let ghost cr0 = created@;
            let ghost ft0 = fuse_times@;
            let u_t = rng.next_unit();
            let fuse = time + 500_000 + (u_t as u64);
            let child = pbody.plus_directed_explosion(rng, n, fb);
            let r = self.push(child, Behaviour::Particle, Some(fuse));
            proof {
                assert(directed_ok(pb, n as int, fb as int, child@));
                if let Some(cid) = r {
                    created@ = created@.push(cid);
                    fuse_times@ = fuse_times@.push(fuse);
                    lemma_burst_step(pre, snap, *self, cr0, id, cid, (child,
                        Behaviour::Particle));
                    assert forall|j: int| 0 <= j < created@.len() implies burst_child(
                        Behaviour::CrosetteBranch,
                        pb,
                        n as int,
                        fb as int,
                        (#[trigger] self.store.contents()[created@[j]]).0@,
                        self.store.contents()[created@[j]].1,
                    ) by {
                        if j < cr0.len() {
                            assert(cr0[j] != cid);
                            assert(self.store.contents()[cr0[j]]
                                == snap.store.contents()[cr0[j]]);
                        } else {
                            assert(created@[j] == cid);
                            assert(self.store.contents()[cid] == (child, Behaviour::Particle));
                            
                        }
                    }
                    lemma_push_to_set(cr0, cid);
                    lemma_fuse_pairs_push(cr0, ft0, cid, fuse);
                    assert(self.fuses@.to_set() == snap.fuses@.to_set().insert((fuse, cid)));
                    assert(self.fuses@.to_set() =~= pre.fuses@.to_set().union(
                        fuse_pairs(created@, fuse_times@).to_set(),
                    ));
                    if room {
                        assert(snap.store.next_id() < u32::MAX);
                    }
                    assert(World::mid_transition(pre, *self, created@, id));
                } else {
                    if room {
                        assert(snap.store.ids_compact() && snap.store.next_id() < u32::MAX);
                        assert(false);
                    }
                    lemma_push_refused_frame(pre, snap, *self, created@, id);
                }
                assert(self.store.live(id));
            }
            k = k + 1;
        }
        let ghost curw = *self;
        self.store.remove_id(id);
        let ghost tr = Transcript {
            created: created@,
            n: n as int,
            fb: fb as int,
            fuses: fuse_times@,
            ..empty_transcript()
        };
        proof {
            lemma_burst_finish(pre, curw, *self, created@, id);
            assert(pre.store.contents()[id].1 == Behaviour::CrosetteBranch);
            assert(burst_population(pre.store.contents()[id].1, pb, *self, created@, n as int,
                fb as int, room));
            lemma_simple_burst_transition(pre, *self, tr, time, id);
            assert(pre.fuses@.to_set().subset_of(self.fuses@.to_set()));
            assert forall|e: (u64, u32)|
                self.fuses@.to_set().contains(e) && !pre.fuses@.to_set().contains(e) implies e.0
                >= time + 20_000 by {
                assert(fuse_pairs(created@, fuse_times@).to_set().contains(e));
                let j = choose|j: int|
                    0 <= j < fuse_pairs(created@, fuse_times@).len() && fuse_pairs(
                        created@,
                        fuse_times@,
                    )[j] == e;
                assert(e.0 == fuse_times@[j]);
            }
        }
        Ghost(tr)
    }

    /// Launches a random shell: a random archetype, placed at a random x
    /// just below the bottom edge, with upward-biased random velocity, and
    /// a fuse one to two seconds out (a comet's first fuse is immediate).
    pub fn push_random(&mut self, rng: &mut DrawSource, time: u64) -> (r: Option<u32>)
        requires
            old(self).wf(),
            old(rng).wf(),
            time <= T_MAX,
        ensures
            final(self).wf(),
            final(rng).wf(),
            old(rng).taken(*final(rng), 8, 0, 0),
            final(self).width == old(self).width,
            final(self).height == old(self).height,
            old(self).store.ids_compact() && old(self).store.next_id() < u32::MAX ==> r is Some
                && final(self).store.ids_compact(),
            fuses_compact(*old(self)) && old(self).store.next_id() < u32::MAX ==> fuses_compact(
                *final(self),
            ),
            match r {
                Some(id) => exists|body: Body, beh: Behaviour, t: u64|
                    {
                        &&& #[trigger] spawn_step(
                            *old(self),
                            *final(self),
                            id,
                            body,
                            beh,
                            t,
                            time,
                        )
                        &&& beh == spec_random_behaviour(
                            old(rng).peek_unit_at(0) as int,
                            old(rng).peek_unit_at(1) as int,
                        )
                        &&& body@ == spec_spawn_body(
                            old(self).width as int,
                            old(self).height as int,
                            beh,
                            old(rng).peek_unit_at(3) as int,
                            old(rng).peek_unit_at(4) as int,
                            old(rng).peek_unit_at(5) as int,
                            old(rng).peek_unit_at(6) as int,
                            old(rng).peek_unit_at(7) as int,
                        )
                        &&& t == spec_spawn_fuse(time, beh, old(rng).peek_unit_at(2) as int)
                    },
                None => {
                    &&& final(self).store.contents() == old(self).store.contents()
                    &&& final(self).fuses@ == old(self).fuses@
                },
            },
    {
        let ghost g0 = *rng;
        let bhv = random_behaviour(rng);
        let ghost g2 = *rng;
        let u_fuse = rng.next_unit();
        let ghost g3 = *rng;
        let u_x = rng.next_unit();
        let ghost g4 = *rng;
        let u_vx = rng.next_unit();
        let ghost g5 = *rng;
        let u_vy = rng.next_unit();
        let ghost g6 = *rng;
        let u_r = rng.next_unit();
        let ghost g7 = *rng;
        let u_c = rng.next_unit();
        proof {
            crate::draws::lemma_taken_trans(g0, g2, g3, 2, 0, 0, 1, 0, 0);
            crate::draws::lemma_taken_trans(g0, g3, g4, 3, 0, 0, 1, 0, 0);
            crate::draws::lemma_taken_trans(g0, g4, g5, 4, 0, 0, 1, 0, 0);
            crate::draws::lemma_taken_trans(g0, g5, g6, 5, 0, 0, 1, 0, 0);
            crate::draws::lemma_taken_trans(g0, g6, g7, 6, 0, 0, 1, 0, 0);
            crate::draws::lemma_taken_trans(g0, g7, *rng, 7, 0, 0, 1, 0, 0);
            vstd::arithmetic::div_mod::lemma_small_mod(
                g0.u_cursor() as nat,
                g0.units_seq().len() as nat,
            );
            assert(g0.peek_unit_at(0) == g0.peek_unit());
            assert(g2.peek_unit() == g0.peek_unit_at(2));
            assert(g3.peek_unit() == g0.peek_unit_at(3));
            assert(g4.peek_unit() == g0.peek_unit_at(4));
            assert(g5.peek_unit() == g0.peek_unit_at(5));
            assert(g6.peek_unit() == g0.peek_unit_at(6));
            assert(g7.peek_unit() == g0.peek_unit_at(7));
        }
        let fuse: u64 = match bhv {
            // the comet's first fuse fires at once; its own transition then
            // keeps the emission timing
            Behaviour::Comet(_) => time,
            _ => time + 1_000_000 + (u_fuse as u64),
        };
        proof {
            lemma_mul_abs_bound(u_x as int, self.width as int, UNIT as int, W_MAX as int);
            vstd::arithmetic::mul::lemma_mul_nonnegative(u_x as int, self.width as int);
            vstd::arithmetic::mul::lemma_mul_inequality(u_x as int, UNIT as int,
                self.width as int);
            vstd::arithmetic::div_mod::lemma_multiply_divide_le(
                u_x * self.width,
                UNIT as int,
                self.width as int,
            );
            vstd::arithmetic::div_mod::lemma_div_pos_is_pos((u_x * self.width) as int,
                UNIT as int);
            lemma_mul_abs_bound(
                (2 * (u_vx as int) - UNIT as int),
                self.width as int,
                UNIT as int,
                W_MAX as int,
            );
            lemma_tdiv_bound(
                (2 * (u_vx as int) - UNIT as int) * self.width,
                1_000_000_000_000_000,
                10 * UNIT as int,
            );
            lemma_div_ordered((u_vy * 440_000) as int, (999_999 * 440_000) as int, UNIT as int);
            lemma_div_ordered((u_r * 4000) as int, (999_999 * 4000) as int, UNIT as int);
            lemma_div_ordered((u_r * 1500) as int, (999_999 * 1500) as int, UNIT as int);
            lemma_div_ordered((u_r * 700) as int, (999_999 * 700) as int, UNIT as int);
        }
        let x: i64 = ((u_x as i64) * self.width) / (UNIT as i64);
        let vx: i64 = div_trunc((2 * (u_vx as i64) - UNIT) * self.width, 10 * UNIT);
        let vy: i64 = -(((u_vy as i64) * 440_000) / (UNIT as i64)) - 440_000;
        let rr: i64 = match bhv {
            Behaviour::Crosette => 1000 + ((u_r as i64) * 1500) / (UNIT as i64),
            Behaviour::Comet(_) => 1000 + ((u_r as i64) * 4000) / (UNIT as i64),
            _ => 1000 + ((u_r as i64) * 700) / (UNIT as i64),
        };
        let body = Body {
            x,
            y: self.height + 10_000,
            vx,
            vy,
            m: 1000,
            r: rr,
            color: random_color(u_c),
        };
        let r = self.push(body, bhv, Some(fuse));
        proof {
            if let Some(id) = r {
                assert(spawn_step(*old(self), *self, id, body, bhv, fuse, time));
            }
        }
        r
    }
}

/// The exact shell a spawn's draws produce: placed at the drawn share of
/// the width just below the bottom edge, horizontal velocity a tenth of
/// the width wide, vertical velocity upward between 440 and 880 pixel
/// units per second, unit mass, the radius window set by the archetype.
pub open spec fn spec_spawn_body(
    width: int,
    height: int,
    beh: Behaviour,
    u_x: int,
    u_vx: int,
    u_vy: int,
    u_r: int,
    u_c: int,
) -> BodyModel {
    BodyModel {
        x: u_x * width / (UNIT as int),
        y: height + 10_000,
        vx: tdiv((2 * u_vx - UNIT) * width, 10 * (UNIT as int)),
        vy: -(u_vy * 440_000 / (UNIT as int)) - 440_000,
        m: 1000,
        r: match beh {
            Behaviour::Crosette => 1000 + u_r * 1500 / (UNIT as int),
            Behaviour::Comet(_) => 1000 + u_r * 4000 / (UNIT as int),
            _ => 1000 + u_r * 700 / (UNIT as int),
        },
        color: ColorModel { h: u_c * 36000 / (UNIT as int), s: 85, l: 75 },
    }
}

/// The fuse a spawn lights: at once for a comet — its own transition keeps
/// the emission timing — and one to two seconds out for every other
/// archetype.
pub open spec fn spec_spawn_fuse(time: u64, beh: Behaviour, u_fuse: int) -> int {
    if beh is Comet {
        time as int
    } else {
        time + 1_000_000 + u_fuse
    }
}

/// The kinematics a freshly launched shell satisfies: placed along the
/// width just below the bottom edge, biased upward.
pub open spec fn spawn_body_ok(width: int, height: int, b: BodyModel) -> bool {
    &&& 0 <= b.x <= width
    &&& b.y == height + 10_000
    &&& -100_000_000 <= b.vx <= 100_000_000
    &&& -880_000 <= b.vy <= -440_000
    &&& b.m == 1000
    &&& 1000 <= b.r < 5000
}

/// `post`'s bodies are exactly `mid`'s after one physics integration step,
/// everything else equal.
pub open spec fn physics_of(mid: World, post: World, dt: int, time: int) -> bool {
    forall|i: int|
        0 <= i < mid.store.bodies_seq().len() ==> (#[trigger] post.store.bodies_seq()[i])@
            == spec_update(
            mid.store.bodies_seq()[i]@,
            mid.store.behaviours_seq()[i],
            dt,
            time,
        )
}

/// A fragment body that a radial explosion with the given division count
/// and force base can produce from the parent body, for some admissible
/// direction and radius draw.
pub open spec fn radial_ok(pb: BodyModel, n: int, fb: int, cb: BodyModel) -> bool {
    exists|d: Dir, u: int| dir_ok(d) && 0 <= u < UNIT && cb == radial_child(pb, n, fb, d, u)
}

/// As `radial_ok`, for the directed explosion.
pub open spec fn directed_ok(pb: BodyModel, n: int, fb: int, cb: BodyModel) -> bool {
    exists|d: Dir, u: int| dir_ok(d) && 0 <= u < UNIT && cb == directed_child(pb, n, fb, d, u)
}

/// As `radial_ok`, for the willow explosion.
pub open spec fn willow_ok(pb: BodyModel, fb: int, cb: BodyModel) -> bool {
    exists|d: Dir, u: int| dir_ok(d) && 0 <= u < UNIT && cb == willow_child(pb, fb, d, u)
}

/// A colour the display's random palette can produce.
pub open spec fn random_hue(c: ColorModel) -> bool {
    &&& 0 <= c.h < 36000
    &&& c.s == 85
    &&& c.l == 75
}

/// The queue entries a transition lights for its children: the j-th
/// created child paired with its own due time.
pub open spec fn fuse_pairs(created: Seq<u32>, times: Seq<u64>) -> Seq<(u64, u32)> {
    Seq::new(created.len(), |j: int| (times[j], created[j]))
}

/// The fuse bookkeeping every burst owes: each created child carries
/// exactly one fresh fuse, due within `[lo, hi)` past the firing time, and
/// the pending set afterwards is exactly the old set plus those fuses.
pub open spec fn child_fuses_lit(
    pre: Seq<(u64, u32)>,
    post: Seq<(u64, u32)>,
    tr: Transcript,
    time: u64,
    lo: int,
    hi: int,
) -> bool {
    &&& tr.fuses.len() == tr.created.len()
    &&& forall|j: int| 0 <= j < tr.fuses.len() ==> time + lo <= #[trigger] tr.fuses[j] < time + hi
    &&& post.to_set() == pre.to_set().union(fuse_pairs(tr.created, tr.fuses).to_set())
}

/// What one burst fragment looks like, per firing class: its behaviour tag
/// and the spawn formula its body came from.
pub open spec fn burst_child(
    pbeh: Behaviour,
    pb: BodyModel,
    n: int,
    fb: int,
    cb: BodyModel,
    cbeh: Behaviour,
) -> bool {
    match pbeh {
        Behaviour::Chris => cbeh is Particle && radial_ok(pb, n, fb, cb),
        Behaviour::Strobe => {
            &&& cbeh matches Behaviour::Glitter(f) && 3 * UNIT <= f < 9 * UNIT
            &&& radial_ok(pb, n, fb, cb)
        },
        Behaviour::Willow => cbeh is MassiveParticle && willow_ok(pb, fb, cb),
        Behaviour::Crosette => cbeh is CrosetteBranch && radial_ok(pb, n, fb, cb),
        Behaviour::CrosetteBranch => cbeh is Particle && directed_ok(pb, n, fb, cb),
        _ => false,
    }
}

/// One multi-colour chrysanthemum fragment: a radial child of the parent
/// recoloured with one of exactly two colours — the parent's own, or the
/// burst's one shared fresh colour `c2`.
pub open spec fn multicolor_pick(
    pb: BodyModel,
    c2: ColorModel,
    c: ColorModel,
    n: int,
    fb: int,
    cb: BodyModel,
) -> bool {
    &&& (c == pb.color || c == c2)
    &&& radial_ok(BodyModel { color: c, ..pb }, n, fb, cb)
}

/// The population a multi-colour chrysanthemum creates: particles whose
/// colours are chosen per child between the parent's colour and the one
/// shared fresh colour.
pub open spec fn multicolor_population(
    pb: BodyModel,
    post: World,
    created: Seq<u32>,
    n: int,
    fb: int,
    c2: ColorModel,
    room: bool,
) -> bool {
    &&& created.len() <= n
    &&& (room ==> created.len() == n)
    &&& forall|j: int|
        0 <= j < created.len() ==> {
            &&& (#[trigger] post.store.contents()[created[j]]).1 is Particle
            &&& exists|c: ColorModel| #[trigger]
                multicolor_pick(pb, c2, c, n, fb, post.store.contents()[created[j]].0@)
        }
}

/// The per-class burst parameters: count range, force-base range and fuse
/// jitter window (offsets from the firing time, microseconds).
pub open spec fn burst_ranges(pbeh: Behaviour) -> (((int, int), (int, int)), (int, int)) {
    match pbeh {
        Behaviour::Crosette => (((3, 23), (250_000, 400_000)), (500_000, 1_500_000)),
        Behaviour::CrosetteBranch => (((3, 13), (200_000, 350_000)), (500_000, 1_500_000)),
        _ => (((150, 300), (400_000, 700_000)), (500_000, 1_500_000)),
    }
}

/// The population one simple burst creates: at most the drawn count (all
/// of it when there is id headroom), every fragment in the firing class's
/// spawn formula.
pub open spec fn burst_population(
    pbeh: Behaviour,
    pb: BodyModel,
    post: World,
    created: Seq<u32>,
    n: int,
    fb: int,
    room: bool,
) -> bool {
    &&& created.len() <= n
    &&& (room ==> created.len() == n)
    &&& forall|j: int|
        0 <= j < created.len() ==> burst_child(
            pbeh,
            pb,
            n,
            fb,
            (#[trigger] post.store.contents()[created[j]]).0@,
            post.store.contents()[created[j]].1,
        )
}

/// The population a peony burst creates: hue-cycling fragments sharing one
/// fresh hue and frequency.
pub open spec fn peony_population(
    pb: BodyModel,
    post: World,
    created: Seq<u32>,
    n: int,
    fb: int,
    h: int,
    f: int,
    room: bool,
) -> bool {
    &&& created.len() <= n
    &&& (room ==> created.len() == n)
    &&& forall|j: int|
        0 <= j < created.len() ==> {
            &&& (#[trigger] post.store.contents()[created[j]]).1 == Behaviour::HueParticle(
                h as i64,
                f as i64,
            )
            &&& radial_ok(pb, n, fb, post.store.contents()[created[j]].0@)
        }
}

/// The population a pistil's double burst creates: the first `outer`
/// children form the wide outer shell with halved radius; the rest form
/// the inner shell with grown radius and the fresh colour.
pub open spec fn pistil_population(
    pb: BodyModel,
    post: World,
    created: Seq<u32>,
    outer: int,
    n: int,
    m: int,
    fb1: int,
    fb2: int,
    r2: int,
    c2: ColorModel,
    room: bool,
) -> bool {
    &&& 0 <= outer <= created.len()
    &&& outer <= n
    &&& created.len() - outer <= m
    &&& (room ==> outer == n && created.len() == n + m)
    &&& forall|j: int|
        0 <= j < outer ==> {
            &&& (#[trigger] post.store.contents()[created[j]]).1 is Particle
            &&& radial_ok(
                BodyModel { r: pb.r / 2, ..pb },
                n,
                fb1,
                post.store.contents()[created[j]].0@,
            )
        }
    &&& forall|j: int|
        outer <= j < created.len() ==> {
            &&& (#[trigger] post.store.contents()[created[j]]).1 is Particle
            &&& radial_ok(
                BodyModel { r: r2, color: c2, ..pb },
                n,
                fb2,
                post.store.contents()[created[j]].0@,
            )
        }
}

/// Component-wise equality of two worlds' observable state.
pub open spec fn same_world(a: World, b: World) -> bool {
    &&& b.width == a.width
    &&& b.height == a.height
    &&& b.store.contents() == a.store.contents()
    &&& b.store.next_id() == a.store.next_id()
    &&& b.fuses@ == a.fuses@
}

/// A step that leaves the queue alone and never lowers the id counter
/// keeps the pending fuses compact.
pub proof fn lemma_fuses_stay_compact(pre: World, post: World)
    requires
        post.fuses@ == pre.fuses@,
        pre.store.next_id() <= post.store.next_id() || post.store.next_id()
            == pre.store.next_id().wrapping_add(1),
    ensures
        fuses_compact(pre) && pre.store.next_id() < u32::MAX ==> fuses_compact(post),
{
    if fuses_compact(pre) && pre.store.next_id() < u32::MAX {
        assert forall|i: int|
            0 <= i < post.fuses@.len() implies (#[trigger] post.fuses@[i]).1
            < post.store.next_id() by {
            assert(pre.fuses@[i].1 < pre.store.next_id());
        }
    }
}

/// Whether every pending fuse's id lies below the id counter, as it does
/// until the counter wraps. Together with the store's `ids_compact` it
/// keeps the counter from handing out an id that a pending fuse still
/// references.
pub open spec fn fuses_compact(w: World) -> bool {
    forall|i: int| 0 <= i < w.fuses@.len() ==> (#[trigger] w.fuses@[i]).1 < w.store.next_id()
}

/// One fuse event's whole effect: the firing class's transition when the id
/// is live, a complete no-op when it is stale.
pub open spec fn event_step(pre: World, post: World, tr: Transcript, time: u64, id: u32) -> bool {
    &&& post.wf()
    &&& if pre.store.live(id) {
        fuse_transition(pre, post, tr, time, id)
    } else {
        same_world(pre, post)
    }
}

/// A whole drain pass at clock value `time`: the due entries — exactly the
/// pending fuses at or before `time`, in ascending order — are removed,
/// and their events fired one after another, each step a `event_step` of
/// its entry's id; `ws` are the intermediate worlds, `trs` the events'
/// transcripts.
pub open spec fn drain_pass(
    pre: World,
    post: World,
    due: Seq<(u64, u32)>,
    ws: Seq<World>,
    trs: Seq<Transcript>,
    time: u64,
) -> bool {
    &&& entries_sorted(due)
    &&& due.to_set() == pre.fuses@.to_set().filter(|e: (u64, u32)| e.0 <= time)
    &&& ws.len() == due.len() + 1
    &&& trs.len() == due.len()
    &&& ws[0].wf()
    &&& ws[0].width == pre.width
    &&& ws[0].height == pre.height
    &&& ws[0].store.contents() == pre.store.contents()
    &&& ws[0].store.next_id() == pre.store.next_id()
    &&& ws[0].fuses@.to_set() == pre.fuses@.to_set().filter(|e: (u64, u32)| e.0 > time)
    &&& forall|k: int|
        0 <= k < due.len() ==> #[trigger] event_step(ws[k], ws[k + 1], trs[k], time, due[k].1)
    &&& same_world(ws[due.len() as int], post)
}

/// The population safety valve's effect at the top of a tick: over the
/// cap the whole display is cleared, otherwise nothing happens.
pub open spec fn capped(pre: World, post: World) -> bool {
    &&& post.width == pre.width
    &&& post.height == pre.height
    &&& post.store.next_id() == pre.store.next_id()
    &&& if pre.store.count() > POP_CAP as int {
        &&& post.store.count() == 0
        &&& post.store.contents() == Map::<u32, (Body, Behaviour)>::empty()
        &&& post.fuses@ == Seq::<(u64, u32)>::empty()
    } else {
        &&& post.store.contents() == pre.store.contents()
        &&& post.fuses@ == pre.fuses@
    }
}

/// One spawned shell: a fresh id holding a well-formed launch body of one
/// of the archetypes, with one fuse at most two seconds out.
pub open spec fn spawn_step(
    pre: World,
    post: World,
    id: u32,
    body: Body,
    beh: Behaviour,
    t: u64,
    time: u64,
) -> bool {
    &&& !pre.store.live(id)
    &&& post.width == pre.width
    &&& post.height == pre.height
    &&& post.store.contents() == pre.store.contents().insert(id, (body, beh))
    &&& spawn_body_ok(pre.width as int, pre.height as int, body@)
    &&& is_archetype(beh)
    &&& wf_behaviour(beh)
    &&& post.fuses@.to_set() == pre.fuses@.to_set().insert((t, id))
    &&& time <= t < time + 2_000_000
}

/// What the spawn roll decides: a draw below six percent enters the
/// launcher — one fresh shell, or only a counter tick for a refused
/// creation — and any other draw changes nothing at all.
pub open spec fn spawn_phase(pre: World, post: World, roll: int, time: u64) -> bool {
    if roll < 60_000 {
        maybe_spawned(pre, post, time)
    } else {
        same_world(pre, post)
    }
}

/// The spawn roll's effect on a tick: either no shell (the id counter may
/// still tick over for a refused creation), or exactly one freshly
/// launched one.
pub open spec fn maybe_spawned(pre: World, post: World, time: u64) -> bool {
    ||| {
        &&& post.width == pre.width
        &&& post.height == pre.height
        &&& post.store.contents() == pre.store.contents()
        &&& post.fuses@ == pre.fuses@
    }
    ||| exists|id: u32, body: Body, beh: Behaviour, t: u64| #[trigger]
        spawn_step(pre, post, id, body, beh, t, time)
}

/// One whole tick, phase by phase: the safety valve, then at most one
/// spawned shell, then the drain pass with all its transitions, and last
/// one physics step over every live body.
pub open spec fn tick_rel(
    pre: World,
    post: World,
    w0: World,
    w1: World,
    w2: World,
    due: Seq<(u64, u32)>,
    ws: Seq<World>,
    trs: Seq<Transcript>,
    roll: int,
    time: u64,
    dt: u64,
) -> bool {
    &&& capped(pre, w0)
    &&& w0.wf()
    &&& spawn_phase(w0, w1, roll, time)
    &&& w1.wf()
    &&& drain_pass(w1, w2, due, ws, trs, time)
    &&& w2.wf()
    &&& post.width == w2.width
    &&& post.height == w2.height
    &&& post.fuses@ == w2.fuses@
    &&& post.store.next_id() == w2.store.next_id()
    &&& post.store.slot_map() == w2.store.slot_map()
    &&& post.store.ids_seq() == w2.store.ids_seq()
    &&& post.store.behaviours_seq() == w2.store.behaviours_seq()
    &&& post.store.bodies_seq().len() == w2.store.bodies_seq().len()
    &&& physics_of(w2, post, dt as int, time as int)
}

/// Appending to a sequence inserts into the set of its elements.
pub proof fn lemma_push_to_set<T>(s: Seq<T>, x: T)
    ensures
        s.push(x).to_set() =~= s.to_set().insert(x),
{
    let p = s.push(x);
    assert forall|y: T| p.to_set().contains(y) implies s.to_set().insert(x).contains(y) by {
        let i = choose|i: int| 0 <= i < p.len() && p[i] == y;
        if i < s.len() {
            assert(s[i] == y);
        }
    }
    assert forall|y: T| s.to_set().insert(x).contains(y) implies p.to_set().contains(y) by {
        if y == x {
            assert(p[s.len() as int] == y);
        } else {
            let i = choose|i: int| 0 <= i < s.len() && s[i] == y;
            assert(p[i] == y);
        }
    }
}

/// Appending one child and its fuse time appends the matching pair.
pub proof fn lemma_fuse_pairs_push(c: Seq<u32>, t: Seq<u64>, cid: u32, ft: u64)
    requires
        c.len() == t.len(),
    ensures
        fuse_pairs(c.push(cid), t.push(ft)) =~= fuse_pairs(c, t).push((ft, cid)),
        fuse_pairs(c.push(cid), t.push(ft)).to_set() =~= fuse_pairs(c, t).to_set().insert(
            (ft, cid),
        ),
{
    assert(fuse_pairs(c.push(cid), t.push(ft)) =~= fuse_pairs(c, t).push((ft, cid)));
    lemma_push_to_set(fuse_pairs(c, t), (ft, cid));
}

/// A refused creation leaves a transition's loop frame untouched: the
/// store's contents and map are as before, so the frame carries over.
pub proof fn lemma_push_refused_frame(
    pre: World,
    snap: World,
    cur: World,
    created: Seq<u32>,
    id: u32,
)
    requires
        World::mid_transition(pre, snap, created, id),
        snap.store.live(id),
        cur.wf(),
        cur.width == snap.width,
        cur.height == snap.height,
        cur.store.contents() == snap.store.contents(),
        cur.store.slot_map() == snap.store.slot_map(),
    ensures
        World::mid_transition(pre, cur, created, id),
        cur.store.live(id),
{
    assert forall|id2: u32| #![trigger pre.store.live(id2)]
        pre.store.live(id2) && id2 != id implies cur.store.live(id2)
        && cur.store.contents()[id2] == pre.store.contents()[id2] by {
        assert(snap.store.live(id2) && snap.store.contents()[id2] == pre.store.contents()[id2]);
    }
    assert forall|id2: u32| #[trigger]
        cur.store.live(id2) implies pre.store.live(id2) || created.contains(id2) by {
        assert(snap.store.live(id2));
    }
    assert forall|j: int| 0 <= j < created.len() implies cur.store.live(
        #[trigger] created[j],
    ) by {
        assert(snap.store.live(created[j]));
    }
}

/// Any queue entry a transition adds belongs to a created child or to the
/// re-scheduled comet itself.
proof fn lemma_added_entry_id(
    pre: World,
    post: World,
    tr: Transcript,
    time: u64,
    id: u32,
    e: (u64, u32),
)
    requires
        fuse_case(pre, post, tr, time, id),
        post.fuses@.to_set().contains(e),
        !pre.fuses@.to_set().contains(e),
    ensures
        tr.created.contains(e.1) || e.1 == id,
{
    let pbeh = pre.store.contents()[id].1;
    let pairs = fuse_pairs(tr.created, tr.fuses);
    if e.1 != id {
        assert(pairs.to_set().contains(e));
        let j = choose|j: int| 0 <= j < pairs.len() && pairs[j] == e;
        assert(e.1 == tr.created[j]);
    }
}

/// A fired event keeps every pending fuse's id below the id counter: old
/// entries stay below the grown counter, and each lit fuse belongs to a
/// created — hence live — child, or to the firing entity itself.
pub proof fn lemma_event_fuses_compact(
    pre: World,
    post: World,
    tr: Transcript,
    time: u64,
    id: u32,
)
    requires
        pre.store.live(id),
        fuse_transition(pre, post, tr, time, id),
        fuses_compact(pre),
        pre.store.ids_compact(),
        post.store.ids_compact(),
        pre.store.next_id() <= post.store.next_id(),
    ensures
        fuses_compact(post),
{
    assert forall|i: int|
        0 <= i < post.fuses@.len() implies (#[trigger] post.fuses@[i]).1
        < post.store.next_id() by {
        let e = post.fuses@[i];
        assert(post.fuses@.to_set().contains(e));
        if pre.fuses@.to_set().contains(e) {
            let j = choose|j: int| 0 <= j < pre.fuses@.len() && pre.fuses@[j] == e;
            assert(pre.fuses@[j].1 < pre.store.next_id());
        } else {
            lemma_added_entry_id(pre, post, tr, time, id, e);
            if e.1 == id {
                assert(pre.store.live(id));
            } else {
                let j = choose|j: int| 0 <= j < tr.created.len() && tr.created[j] == e.1;
                assert(post.store.live(tr.created[j]));
            }
        }
    }
}

/// Swapping a live entity's behaviour for the neutral placeholder leaves a/// Swapping a live entity's behaviour for the neutral placeholder leaves a
/// world in the empty-burst loop frame.
pub proof fn lemma_placeholder_frame(pre: World, cur: World, id: u32)
    requires
        pre.wf(),
        cur.wf(),
        cur.width == pre.width,
        cur.height == pre.height,
        pre.store.live(id),
        cur.store.slot_map() == pre.store.slot_map(),
        cur.store.contents() == pre.store.contents().insert(
            id,
            (pre.store.contents()[id].0, Behaviour::Particle),
        ),
    ensures
        World::mid_transition(pre, cur, Seq::<u32>::empty(), id),
        cur.store.live(id),
        pre.store.ids_compact() && cur.store.next_id() == pre.store.next_id()
            ==> cur.store.ids_compact(),
{
    assert forall|id2: u32| #![trigger pre.store.live(id2)]
        pre.store.live(id2) && id2 != id implies cur.store.live(id2)
        && cur.store.contents()[id2] == pre.store.contents()[id2] by {
        assert(cur.store.contents()[id2] == pre.store.contents().insert(
            id,
            (pre.store.contents()[id].0, Behaviour::Particle),
        )[id2]);
    }
    if pre.store.ids_compact() && cur.store.next_id() == pre.store.next_id() {
        assert forall|id2: u32| #[trigger] cur.store.live(id2) implies id2
            < cur.store.next_id() by {
            assert(pre.store.live(id2));
        }
    }
}

/// Creating one fresh child keeps a transition's loop frame, the child
/// appended to the created list.
pub proof fn lemma_burst_step(
    pre: World,
    snap: World,
    cur: World,
    cr0: Seq<u32>,
    id: u32,
    cid: u32,
    pair: (Body, Behaviour),
)
    requires
        World::mid_transition(pre, snap, cr0, id),
        snap.store.live(id),
        cur.wf(),
        cur.width == snap.width,
        cur.height == snap.height,
        !snap.store.live(cid),
        cur.store.contents() == snap.store.contents().insert(cid, pair),
    ensures
        World::mid_transition(pre, cur, cr0.push(cid), id),
        cur.store.live(id),
        cur.store.contents()[cid] == pair,
        !cr0.contains(cid),
        forall|j: int|
            0 <= j < cr0.len() ==> #[trigger] cur.store.contents()[cr0[j]]
                == snap.store.contents()[cr0[j]],
{
    let cr = cr0.push(cid);
    crate::store::lemma_live_iff_contents(cur.store);
    crate::store::lemma_live_iff_contents(snap.store);
    assert forall|id2: u32| #[trigger]
        cur.store.live(id2) <==> (snap.store.live(id2) || id2 == cid) by {
        assert(cur.store.contents().contains_key(id2) == snap.store.contents().insert(
            cid,
            pair,
        ).contains_key(id2));
    }
    assert(!cr0.contains(cid)) by {
        if cr0.contains(cid) {
            let j = choose|j: int| 0 <= j < cr0.len() && cr0[j] == cid;
            assert(snap.store.live(cr0[j]));
        }
    }
    assert(!pre.store.live(cid)) by {
        if pre.store.live(cid) {
            if cid == id {
                assert(snap.store.live(cid));
            } else {
                assert(snap.store.live(cid));
            }
        }
    }
    assert(cr.no_duplicates()) by {
        assert forall|i: int, j: int| 0 <= i < j < cr.len() implies cr[i] != cr[j] by {
            if j < cr0.len() {
                assert(cr0[i] != cr0[j]);
            } else {
                assert(cr[j] == cid);
                assert(cr[i] == cr0[i]);
            }
        }
    }
    assert forall|j: int|
        0 <= j < cr.len() implies !pre.store.live(#[trigger] cr[j]) && cr[j] != id by {
        if j < cr0.len() {
            assert(!pre.store.live(cr0[j]) && cr0[j] != id);
        }
    }
    assert forall|id2: u32| #![trigger pre.store.live(id2)]
        pre.store.live(id2) && id2 != id implies cur.store.live(id2)
        && cur.store.contents()[id2] == pre.store.contents()[id2] by {
        assert(snap.store.live(id2) && snap.store.contents()[id2] == pre.store.contents()[id2]);
        assert(id2 != cid);
        assert(cur.store.contents()[id2] == snap.store.contents().insert(cid, pair)[id2]);
    }
    assert forall|id2: u32| #[trigger]
        cur.store.live(id2) implies pre.store.live(id2) || cr.contains(id2) by {
        if id2 == cid {
            assert(cr[cr0.len() as int] == cid);
        } else {
            assert(snap.store.live(id2));
            if !pre.store.live(id2) {
                assert(cr0.contains(id2));
                let j = choose|j: int| 0 <= j < cr0.len() && cr0[j] == id2;
                assert(cr[j] == id2);
            }
        }
    }
    assert forall|j: int| 0 <= j < cr.len() implies cur.store.live(#[trigger] cr[j]) by {
        if j < cr0.len() {
            assert(snap.store.live(cr0[j]));
        }
    }
    assert forall|j: int|
        0 <= j < cr0.len() implies #[trigger] cur.store.contents()[cr0[j]]
        == snap.store.contents()[cr0[j]] by {
        assert(cr0[j] != cid);
        assert(cur.store.contents()[cr0[j]] == snap.store.contents().insert(cid, pair)[cr0[j]]);
    }
}

/// One created pistil fragment extends the two shells' populations: the
/// earlier children keep their shell, the new one joins the inner shell.
#[verifier::spinoff_prover]
pub proof fn lemma_pistil_step_children(
    snap: World,
    cur: World,
    cr0: Seq<u32>,
    created: Seq<u32>,
    cid: u32,
    child: Body,
    outer: int,
    pb: BodyModel,
    n: int,
    fb1: int,
    fb2: int,
    r2: int,
    c2: ColorModel,
)
    requires
        created == cr0.push(cid),
        !cr0.contains(cid),
        0 <= outer <= cr0.len(),
        forall|j: int|
            0 <= j < outer ==> {
                &&& (#[trigger] snap.store.contents()[cr0[j]]).1 is Particle
                &&& radial_ok(BodyModel { r: pb.r / 2, ..pb }, n, fb1,
                    snap.store.contents()[cr0[j]].0@)
            },
        forall|j: int|
            outer <= j < cr0.len() ==> {
                &&& (#[trigger] snap.store.contents()[cr0[j]]).1 is Particle
                &&& radial_ok(BodyModel { r: r2, color: c2, ..pb }, n, fb2,
                    snap.store.contents()[cr0[j]].0@)
            },
        forall|j: int|
            0 <= j < cr0.len() ==> #[trigger] cur.store.contents()[cr0[j]]
                == snap.store.contents()[cr0[j]],
        cur.store.contents()[cid] == (child, Behaviour::Particle),
        radial_ok(BodyModel { r: r2, color: c2, ..pb }, n, fb2, child@),
    ensures
        forall|j: int|
            0 <= j < outer ==> {
                &&& (#[trigger] cur.store.contents()[created[j]]).1 is Particle
                &&& radial_ok(BodyModel { r: pb.r / 2, ..pb }, n, fb1,
                    cur.store.contents()[created[j]].0@)
            },
        forall|j: int|
            outer <= j < created.len() ==> {
                &&& (#[trigger] cur.store.contents()[created[j]]).1 is Particle
                &&& radial_ok(BodyModel { r: r2, color: c2, ..pb }, n, fb2,
                    cur.store.contents()[created[j]].0@)
            },
{
    assert forall|j: int| 0 <= j < outer implies {
        &&& (#[trigger] cur.store.contents()[created[j]]).1 is Particle
        &&& radial_ok(BodyModel { r: pb.r / 2, ..pb }, n, fb1,
            cur.store.contents()[created[j]].0@)
    } by {
        assert(created[j] == cr0[j]);
        assert(cur.store.contents()[cr0[j]] == snap.store.contents()[cr0[j]]);
    }
    assert forall|j: int| outer <= j < created.len() implies {
        &&& (#[trigger] cur.store.contents()[created[j]]).1 is Particle
        &&& radial_ok(BodyModel { r: r2, color: c2, ..pb }, n, fb2,
            cur.store.contents()[created[j]].0@)
    } by {
        if j < cr0.len() {
            assert(created[j] == cr0[j]);
            assert(cur.store.contents()[cr0[j]] == snap.store.contents()[cr0[j]]);
        } else {
            assert(created[j] == cid);
        }
    }
}

/// One created multi-colour fragment extends the population: the earlier
/// children keep their picks, the new one carries the given pick.
#[verifier::spinoff_prover]
pub proof fn lemma_multicolor_step_children(
    snap: World,
    cur: World,
    cr0: Seq<u32>,
    created: Seq<u32>,
    cid: u32,
    child: Body,
    pb: BodyModel,
    n: int,
    fb: int,
    c2: ColorModel,
    col: ColorModel,
)
    requires
        created == cr0.push(cid),
        !cr0.contains(cid),
        forall|j: int|
            0 <= j < cr0.len() ==> {
                &&& (#[trigger] snap.store.contents()[cr0[j]]).1 is Particle
                &&& exists|c: ColorModel| #[trigger]
                    multicolor_pick(pb, c2, c, n, fb, snap.store.contents()[cr0[j]].0@)
            },
        forall|j: int|
            0 <= j < cr0.len() ==> #[trigger] cur.store.contents()[cr0[j]]
                == snap.store.contents()[cr0[j]],
        cur.store.contents()[cid] == (child, Behaviour::Particle),
        multicolor_pick(pb, c2, col, n, fb, child@),
    ensures
        forall|j: int|
            0 <= j < created.len() ==> {
                &&& (#[trigger] cur.store.contents()[created[j]]).1 is Particle
                &&& exists|c: ColorModel| #[trigger]
                    multicolor_pick(pb, c2, c, n, fb, cur.store.contents()[created[j]].0@)
            },
{
    assert forall|j: int| 0 <= j < created.len() implies {
        &&& (#[trigger] cur.store.contents()[created[j]]).1 is Particle
        &&& exists|c: ColorModel| #[trigger]
            multicolor_pick(pb, c2, c, n, fb, cur.store.contents()[created[j]].0@)
    } by {
        if j < cr0.len() {
            assert(created[j] == cr0[j]);
            assert(cur.store.contents()[cr0[j]] == snap.store.contents()[cr0[j]]);
            let c = choose|c: ColorModel|
                multicolor_pick(pb, c2, c, n, fb, snap.store.contents()[cr0[j]].0@);
            assert(multicolor_pick(pb, c2, c, n, fb, cur.store.contents()[created[j]].0@));
        } else {
            assert(created[j] == cid);
            assert(multicolor_pick(pb, c2, col, n, fb, cur.store.contents()[created[j]].0@));
        }
    }
}

/// Removing the fired entity turns the loop frame into the transition's/// Removing the fired entity turns the loop frame into the transition's
/// final frame.
pub proof fn lemma_burst_finish(pre: World, cur: World, post: World, created: Seq<u32>, id: u32)
    requires
        World::mid_transition(pre, cur, created, id),
        post.wf(),
        post.width == cur.width,
        post.height == cur.height,
        post.store.contents() == cur.store.contents().remove(id),
        forall|id2: u32| #[trigger] post.store.live(id2) <==> (cur.store.live(id2) && id2 != id),
    ensures
        post.width == pre.width,
        post.height == pre.height,
        !post.store.live(id),
        forall|id2: u32| #![trigger pre.store.live(id2)]
            pre.store.live(id2) && id2 != id ==> post.store.live(id2)
                && post.store.contents()[id2] == pre.store.contents()[id2],
        forall|id2: u32| #[trigger]
            post.store.live(id2) ==> pre.store.live(id2) || created.contains(id2),
        forall|j: int| 0 <= j < created.len() ==> post.store.live(#[trigger] created[j]),
        forall|j: int|
            0 <= j < created.len() ==> #[trigger] post.store.contents()[created[j]]
                == cur.store.contents()[created[j]],
{
    assert forall|id2: u32| #![trigger pre.store.live(id2)]
        pre.store.live(id2) && id2 != id implies post.store.live(id2)
        && post.store.contents()[id2] == pre.store.contents()[id2] by {
        assert(cur.store.live(id2) && cur.store.contents()[id2] == pre.store.contents()[id2]);
        assert(post.store.contents()[id2] == cur.store.contents().remove(id)[id2]);
    }
    assert forall|j: int|
        0 <= j < created.len() implies #[trigger] post.store.contents()[created[j]]
        == cur.store.contents()[created[j]] by {
        assert(created[j] != id);
        assert(post.store.contents()[created[j]] == cur.store.contents().remove(id)[created[j]]);
    }
}

/// Packages the facts a finished simple burst establishes into the
/// transition relation.
#[verifier::rlimit(100)]
#[verifier::spinoff_prover]
pub proof fn lemma_simple_burst_transition(
    pre: World,
    post: World,
    tr: Transcript,
    time: u64,
    id: u32,
)
    requires
        ({
            let pbeh = pre.store.contents()[id].1;
            ||| pbeh is Chris
            ||| pbeh is Strobe
            ||| pbeh is Willow
            ||| pbeh is Crosette
            ||| pbeh is CrosetteBranch
        }),
        post.width == pre.width,
        post.height == pre.height,
        tr.created.no_duplicates(),
        forall|j: int|
            0 <= j < tr.created.len() ==> !pre.store.live(#[trigger] tr.created[j])
                && tr.created[j] != id,
        forall|id2: u32| #![trigger pre.store.live(id2)]
            pre.store.live(id2) && id2 != id ==> post.store.live(id2)
                && post.store.contents()[id2] == pre.store.contents()[id2],
        forall|id2: u32| #[trigger]
            post.store.live(id2) ==> pre.store.live(id2) || tr.created.contains(id2),
        forall|j: int| 0 <= j < tr.created.len() ==> post.store.live(#[trigger] tr.created[j]),
        !post.store.live(id),
        ({
            let (((nlo, nhi), (flo, fhi)), (jlo, jhi)) = burst_ranges(
                pre.store.contents()[id].1,
            );
            &&& nlo <= tr.n < nhi
            &&& flo <= tr.fb < fhi
            &&& child_fuses_lit(pre.fuses@, post.fuses@, tr, time, jlo, jhi)
        }),
        burst_population(
            pre.store.contents()[id].1,
            pre.store.contents()[id].0@,
            post,
            tr.created,
            tr.n,
            tr.fb,
            pre.store.ids_compact() && pre.store.next_id() <= u32::MAX - SPAWN_MARGIN,
        ),
    ensures
        fuse_transition(pre, post, tr, time, id),
{
    assert(fuse_frame(pre, post, tr.created, id));
    assert(simple_case(pre, post, tr, time, id));
    assert(fuse_case(pre, post, tr, time, id));
}

/// The ghost record a fuse event hands back: which children were created
/// and the drawn parameters of the transition, so that callers reason about
/// the event without re-deriving its draws. Slots a class does not draw
/// stay zero.
pub ghost struct Transcript {
    /// Ids of the children actually created, in creation order.
    pub created: Seq<u32>,
    /// The drawn child count (outer count for a pistil).
    pub n: int,
    /// The drawn inner count of a pistil.
    pub m: int,
    /// The drawn force base (outer force base for a pistil).
    pub fb: int,
    /// The drawn inner force base of a pistil.
    pub fb2: int,
    /// The shared hue of a peony's children; a pistil's inner radius.
    pub h: int,
    /// The shared frequency of a peony's children.
    pub f: int,
    /// The fresh colour of a pistil's inner burst, or the shared fresh
    /// colour of a multi-colour chrysanthemum.
    pub color: ColorModel,
    /// The due time of a comet's own next fuse.
    pub selft: u64,
    /// The created children's own fuse due times, index-aligned with
    /// `created`.
    pub fuses: Seq<u64>,
    /// How many of the created children belong to a pistil's outer shell:
    /// they are the first `outer` entries of `created`.
    pub outer: int,
}

/// A transcript with no children and zeroed draw slots.
pub open spec fn empty_transcript() -> Transcript {
    Transcript {
        created: Seq::<u32>::empty(),
        n: 0,
        m: 0,
        fb: 0,
        fb2: 0,
        h: 0,
        f: 0,
        color: ColorModel { h: 0, s: 0, l: 0 },
        selft: 0,
        fuses: Seq::<u64>::empty(),
        outer: 0,
    }
}

/// Packages the facts a finished peony burst establishes into the
/// transition relation.
#[verifier::rlimit(100)]
#[verifier::spinoff_prover]
pub proof fn lemma_peony_transition(pre: World, post: World, tr: Transcript, time: u64, id: u32)
    requires
        pre.store.contents()[id].1 is Peony,
        post.width == pre.width,
        post.height == pre.height,
        tr.created.no_duplicates(),
        forall|j: int|
            0 <= j < tr.created.len() ==> !pre.store.live(#[trigger] tr.created[j])
                && tr.created[j] != id,
        forall|id2: u32| #![trigger pre.store.live(id2)]
            pre.store.live(id2) && id2 != id ==> post.store.live(id2)
                && post.store.contents()[id2] == pre.store.contents()[id2],
        forall|id2: u32| #[trigger]
            post.store.live(id2) ==> pre.store.live(id2) || tr.created.contains(id2),
        forall|j: int| 0 <= j < tr.created.len() ==> post.store.live(#[trigger] tr.created[j]),
        !post.store.live(id),
        150 <= tr.n < 300,
        400_000 <= tr.fb < 700_000,
        0 <= tr.h < 36000,
        UNIT / 2 <= tr.f < 3 * UNIT,
        child_fuses_lit(pre.fuses@, post.fuses@, tr, time, 500_000, 1_500_000),
        peony_population(
            pre.store.contents()[id].0@,
            post,
            tr.created,
            tr.n,
            tr.fb,
            tr.h,
            tr.f,
            pre.store.ids_compact() && pre.store.next_id() <= u32::MAX - SPAWN_MARGIN,
        ),
    ensures
        fuse_transition(pre, post, tr, time, id),
{
    assert(fuse_frame(pre, post, tr.created, id));
    assert(peony_case(pre, post, tr, time, id));
    assert(fuse_case(pre, post, tr, time, id));
}

/// Re-tagging the fired entity's behaviour keeps the loop frame.
pub proof fn lemma_comet_retag(
    pre: World,
    cur: World,
    post: World,
    created: Seq<u32>,
    id: u32,
    pair: (Body, Behaviour),
)
    requires
        World::mid_transition(pre, cur, created, id),
        cur.store.live(id),
        post.wf(),
        post.width == cur.width,
        post.height == cur.height,
        post.store.contents() == cur.store.contents().insert(id, pair),
        post.store.slot_map() == cur.store.slot_map(),
    ensures
        World::mid_transition(pre, post, created, id),
        post.store.live(id),
        post.store.contents()[id] == pair,
        forall|j: int|
            0 <= j < created.len() ==> #[trigger] post.store.contents()[created[j]]
                == cur.store.contents()[created[j]],
{
    assert forall|id2: u32| #![trigger pre.store.live(id2)]
        pre.store.live(id2) && id2 != id implies post.store.live(id2)
        && post.store.contents()[id2] == pre.store.contents()[id2] by {
        assert(cur.store.live(id2) && cur.store.contents()[id2] == pre.store.contents()[id2]);
        assert(post.store.contents()[id2] == cur.store.contents().insert(id, pair)[id2]);
    }
    assert forall|j: int|
        0 <= j < created.len() implies #[trigger] post.store.contents()[created[j]]
        == cur.store.contents()[created[j]] by {
        assert(created[j] != id);
        assert(post.store.contents()[created[j]] == cur.store.contents().insert(
            id,
            pair,
        )[created[j]]);
    }
    assert forall|id2: u32| #[trigger]
        post.store.live(id2) implies pre.store.live(id2) || created.contains(id2) by {
        assert(cur.store.live(id2));
    }
    assert forall|j: int| 0 <= j < created.len() implies post.store.live(
        #[trigger] created[j],
    ) by {
        assert(cur.store.live(created[j]));
    }
}

/// Packages the facts a finished comet emission establishes into the
/// transition relation.
#[verifier::rlimit(100)]
#[verifier::spinoff_prover]
pub proof fn lemma_comet_transition(
    pre: World,
    post: World,
    tr: Transcript,
    time: u64,
    id: u32,
    rem: i32,
)
    requires
        pre.store.contents()[id].1 == Behaviour::Comet(rem),
        post.width == pre.width,
        post.height == pre.height,
        tr.created.no_duplicates(),
        forall|j: int|
            0 <= j < tr.created.len() ==> !pre.store.live(#[trigger] tr.created[j])
                && tr.created[j] != id,
        forall|id2: u32| #![trigger pre.store.live(id2)]
            pre.store.live(id2) && id2 != id ==> post.store.live(id2)
                && post.store.contents()[id2] == pre.store.contents()[id2],
        forall|id2: u32| #[trigger]
            post.store.live(id2) ==> pre.store.live(id2) || tr.created.contains(id2),
        forall|j: int| 0 <= j < tr.created.len() ==> post.store.live(#[trigger] tr.created[j]),
        comet_case(pre, post, tr, time, id, rem as int),
    ensures
        fuse_transition(pre, post, tr, time, id),
{
    assert(fuse_frame(pre, post, tr.created, id));
    assert(fuse_case(pre, post, tr, time, id));
}

/// Packages the facts a finished multi-colour chrysanthemum burst
/// establishes into the transition relation.
#[verifier::rlimit(100)]
#[verifier::spinoff_prover]
pub proof fn lemma_multicolor_transition(
    pre: World,
    post: World,
    tr: Transcript,
    time: u64,
    id: u32,
)
    requires
        pre.store.contents()[id].1 is MultiColorChris,
        post.width == pre.width,
        post.height == pre.height,
        tr.created.no_duplicates(),
        forall|j: int|
            0 <= j < tr.created.len() ==> !pre.store.live(#[trigger] tr.created[j])
                && tr.created[j] != id,
        forall|id2: u32| #![trigger pre.store.live(id2)]
            pre.store.live(id2) && id2 != id ==> post.store.live(id2)
                && post.store.contents()[id2] == pre.store.contents()[id2],
        forall|id2: u32| #[trigger]
            post.store.live(id2) ==> pre.store.live(id2) || tr.created.contains(id2),
        forall|j: int| 0 <= j < tr.created.len() ==> post.store.live(#[trigger] tr.created[j]),
        !post.store.live(id),
        150 <= tr.n < 300,
        400_000 <= tr.fb < 700_000,
        random_hue(tr.color),
        child_fuses_lit(pre.fuses@, post.fuses@, tr, time, 500_000, 1_500_000),
        multicolor_population(
            pre.store.contents()[id].0@,
            post,
            tr.created,
            tr.n,
            tr.fb,
            tr.color,
            pre.store.ids_compact() && pre.store.next_id() <= u32::MAX - SPAWN_MARGIN,
        ),
    ensures
        fuse_transition(pre, post, tr, time, id),
{
    assert(fuse_frame(pre, post, tr.created, id));
    assert(multicolor_case(pre, post, tr, time, id));
    assert(fuse_case(pre, post, tr, time, id));
}

/// Packages the facts a finished pistil double burst establishes into the
/// transition relation.
#[verifier::rlimit(100)]
#[verifier::spinoff_prover]
pub proof fn lemma_pistil_transition(pre: World, post: World, tr: Transcript, time: u64, id: u32)
    requires
        pre.store.contents()[id].1 is Pistil,
        post.width == pre.width,
        post.height == pre.height,
        tr.created.no_duplicates(),
        forall|j: int|
            0 <= j < tr.created.len() ==> !pre.store.live(#[trigger] tr.created[j])
                && tr.created[j] != id,
        forall|id2: u32| #![trigger pre.store.live(id2)]
            pre.store.live(id2) && id2 != id ==> post.store.live(id2)
                && post.store.contents()[id2] == pre.store.contents()[id2],
        forall|id2: u32| #[trigger]
            post.store.live(id2) ==> pre.store.live(id2) || tr.created.contains(id2),
        forall|j: int| 0 <= j < tr.created.len() ==> post.store.live(#[trigger] tr.created[j]),
        !post.store.live(id),
        150 <= tr.n < 300,
        150 <= tr.m < 300,
        500_000 <= tr.fb < 800_000,
        150_000 <= tr.fb2 < 300_000,
        pre.store.contents()[id].0@.r <= tr.h < pre.store.contents()[id].0@.r + 500,
        random_hue(tr.color),
        child_fuses_lit(pre.fuses@, post.fuses@, tr, time, 500_000, 1_500_000),
        pistil_population(
            pre.store.contents()[id].0@,
            post,
            tr.created,
            tr.outer,
            tr.n,
            tr.m,
            tr.fb,
            tr.fb2,
            tr.h,
            tr.color,
            pre.store.ids_compact() && pre.store.next_id() <= u32::MAX - SPAWN_MARGIN,
        ),
    ensures
        fuse_transition(pre, post, tr, time, id),
{
    assert(fuse_frame(pre, post, tr.created, id));
    assert(pistil_case(pre, post, tr, time, id));
    assert(fuse_case(pre, post, tr, time, id));
}

/// The state change one fuse event causes for a live id: the firing
/// entity's class decides the children spawned — their count and force
/// ranges, their bodies' spawn formulas, their tags and their fuse windows
/// — and the firing entity's own fate. `created` lists the ids of the
/// children actually created; with id headroom (`room`) their number is
/// exactly the drawn count.
pub open spec fn fuse_transition(
    pre: World,
    post: World,
    tr: Transcript,
    time: u64,
    id: u32,
) -> bool {
    &&& fuse_frame(pre, post, tr.created, id)
    &&& fuse_case(pre, post, tr, time, id)
}

/// The part of the transition relation every class shares: the bounds kept,
/// the created ids fresh and distinct, every other entity untouched.
pub open spec fn fuse_frame(pre: World, post: World, created: Seq<u32>, id: u32) -> bool {
    &&& post.width == pre.width
    &&& post.height == pre.height
    &&& created.no_duplicates()
    &&& forall|j: int|
        0 <= j < created.len() ==> !pre.store.live(#[trigger] created[j]) && created[j] != id
    &&& forall|id2: u32| #![trigger pre.store.live(id2)]
        pre.store.live(id2) && id2 != id ==> post.store.live(id2)
            && post.store.contents()[id2] == pre.store.contents()[id2]
    &&& forall|id2: u32| #[trigger]
        post.store.live(id2) ==> pre.store.live(id2) || created.contains(id2)
    &&& forall|j: int| 0 <= j < created.len() ==> post.store.live(#[trigger] created[j])
}

/// The per-class part of the transition relation: children and parent fate.
pub open spec fn fuse_case(pre: World, post: World, tr: Transcript, time: u64, id: u32) -> bool {
    match pre.store.contents()[id].1 {
        Behaviour::Particle => terminal_case(pre, post, tr.created, id),
        Behaviour::Glitter(_) => terminal_case(pre, post, tr.created, id),
        Behaviour::HueParticle(_, _) => terminal_case(pre, post, tr.created, id),
        Behaviour::MassiveParticle => terminal_case(pre, post, tr.created, id),
        Behaviour::Lerper(_) => terminal_case(pre, post, tr.created, id),
        Behaviour::UserLerper(_) => terminal_case(pre, post, tr.created, id),
        Behaviour::MultiColorChris => multicolor_case(pre, post, tr, time, id),
        Behaviour::Peony => peony_case(pre, post, tr, time, id),
        Behaviour::Pistil => pistil_case(pre, post, tr, time, id),
        Behaviour::Comet(rem) => comet_case(pre, post, tr, time, id, rem as int),
        _ => simple_case(pre, post, tr, time, id),
    }
}

/// A terminal behaviour's fate: the entity is deleted, nothing is spawned
/// and nothing is scheduled.
pub open spec fn terminal_case(pre: World, post: World, created: Seq<u32>, id: u32) -> bool {
    &&& !post.store.live(id)
    &&& created.len() == 0
    &&& post.fuses@ == pre.fuses@
}

/// A one-population burst's fate: the firing entity deleted, the children
/// of its class within its count, force and fuse windows.
pub open spec fn simple_case(
    pre: World,
    post: World,
    tr: Transcript,
    time: u64,
    id: u32,
) -> bool {
    let pb = pre.store.contents()[id].0@;
    let pbeh = pre.store.contents()[id].1;
    let room = pre.store.ids_compact() && pre.store.next_id() <= u32::MAX - SPAWN_MARGIN;
    let (((nlo, nhi), (flo, fhi)), (jlo, jhi)) = burst_ranges(pbeh);
    &&& !post.store.live(id)
    &&& child_fuses_lit(pre.fuses@, post.fuses@, tr, time, jlo, jhi)
    &&& nlo <= tr.n < nhi
    &&& flo <= tr.fb < fhi
    &&& burst_population(pbeh, pb, post, tr.created, tr.n, tr.fb, room)
}

/// A multi-colour chrysanthemum's fate: deleted, one fresh colour drawn
/// once and shared, each child coloured with it or with the parent's own.
pub open spec fn multicolor_case(
    pre: World,
    post: World,
    tr: Transcript,
    time: u64,
    id: u32,
) -> bool {
    let pb = pre.store.contents()[id].0@;
    let room = pre.store.ids_compact() && pre.store.next_id() <= u32::MAX - SPAWN_MARGIN;
    &&& !post.store.live(id)
    &&& child_fuses_lit(pre.fuses@, post.fuses@, tr, time, 500_000, 1_500_000)
    &&& 150 <= tr.n < 300
    &&& 400_000 <= tr.fb < 700_000
    &&& random_hue(tr.color)
    &&& multicolor_population(pb, post, tr.created, tr.n, tr.fb, tr.color, room)
}

/// A peony burst's fate: deleted, the children sharing one fresh hue and
/// frequency.
pub open spec fn peony_case(
    pre: World,
    post: World,
    tr: Transcript,
    time: u64,
    id: u32,
) -> bool {
    let pb = pre.store.contents()[id].0@;
    let room = pre.store.ids_compact() && pre.store.next_id() <= u32::MAX - SPAWN_MARGIN;
    &&& !post.store.live(id)
    &&& child_fuses_lit(pre.fuses@, post.fuses@, tr, time, 500_000, 1_500_000)
    &&& 150 <= tr.n < 300
    &&& 400_000 <= tr.fb < 700_000
    &&& 0 <= tr.h < 36000
    &&& UNIT / 2 <= tr.f < 3 * UNIT
    &&& peony_population(pb, post, tr.created, tr.n, tr.fb, tr.h, tr.f, room)
}

/// A pistil's double burst: deleted, a wide outer shell with halved radius
/// and an inner re-coloured one.
pub open spec fn pistil_case(
    pre: World,
    post: World,
    tr: Transcript,
    time: u64,
    id: u32,
) -> bool {
    let pb = pre.store.contents()[id].0@;
    let room = pre.store.ids_compact() && pre.store.next_id() <= u32::MAX - SPAWN_MARGIN;
    &&& !post.store.live(id)
    &&& child_fuses_lit(pre.fuses@, post.fuses@, tr, time, 500_000, 1_500_000)
    &&& 150 <= tr.n < 300
    &&& 150 <= tr.m < 300
    &&& 500_000 <= tr.fb < 800_000
    &&& 150_000 <= tr.fb2 < 300_000
    &&& pb.r <= tr.h < pb.r + 500
    &&& random_hue(tr.color)
    &&& pistil_population(
        pb,
        post,
        tr.created,
        tr.outer,
        tr.n,
        tr.m,
        tr.fb,
        tr.fb2,
        tr.h,
        tr.color,
        room,
    )
}

/// A comet's fate: exactly one dimmer spark, and the comet itself either
/// re-scheduled with one fewer remaining emission or deleted.
pub open spec fn comet_case(
    pre: World,
    post: World,
    tr: Transcript,
    time: u64,
    id: u32,
    rem: int,
) -> bool {
    let pb = pre.store.contents()[id].0@;
    let room = pre.store.ids_compact() && pre.store.next_id() <= u32::MAX - SPAWN_MARGIN;
    &&& tr.created.len() <= 1
    &&& (room ==> tr.created.len() == 1)
    &&& 100_000 <= tr.fb < 250_000
    &&& tr.fuses.len() == tr.created.len()
    &&& forall|j: int|
        0 <= j < tr.fuses.len() ==> time + 500_000 <= #[trigger] tr.fuses[j] < time + 1_000_000
    &&& forall|j: int|
        0 <= j < tr.created.len() ==> {
            &&& (#[trigger] post.store.contents()[tr.created[j]]).1 is Particle
            &&& radial_ok(
                BodyModel { r: pb.r / 2, ..pb },
                1,
                tr.fb,
                post.store.contents()[tr.created[j]].0@,
            )
        }
    &&& if rem >= 2 {
        &&& post.store.live(id)
        &&& post.store.contents()[id].0 == pre.store.contents()[id].0
        &&& post.store.contents()[id].1 == Behaviour::Comet((rem - 1) as i32)
        &&& time + 20_000 <= tr.selft < time + 40_000
        &&& post.fuses@.to_set() == pre.fuses@.to_set().union(
            fuse_pairs(tr.created, tr.fuses).to_set(),
        ).insert((tr.selft, id))
    } else {
        &&& !post.store.live(id)
        &&& post.fuses@.to_set() == pre.fuses@.to_set().union(
            fuse_pairs(tr.created, tr.fuses).to_set(),
        )
    }
}

} // verus!
