//! The random-draw capability, injected as data.
//!
//! The core is a deterministic function of its state, the clock and the
//! random draws it consumes, so the draws are handed in as a pre-filled
//! source: a sequence of unit-interval samples, a sequence of full-circle
//! unit directions, and a sequence of narrow-cone directions, each read in
//! order and cyclically. The host refills or replaces the source between
//! frames; a test fills it with fixed values and asserts exact derived
//! results.

use vstd::prelude::*;

use crate::units::UNIT;

verus! {

/// A direction sample: the two components of a vector of length at most one,
/// in `UNIT` fixed-point scale. The host draws an angle uniformly and hands
/// in its cosine and sine.
#[derive(Clone, Copy, PartialEq, Eq, Structural, Debug)]
pub struct Dir {
    pub x: i64,
    pub y: i64,
}

/// Whether a direction sample is admissible: each component within one unit.
pub open spec fn dir_ok(d: Dir) -> bool {
    -UNIT <= d.x <= UNIT && -UNIT <= d.y <= UNIT
}

/// A replaceable source of uniform draws, consumed in order and wrapping
/// around: unit-interval samples in `[0, UNIT)`, full-circle direction
/// samples, and narrow-cone samples (the cosine and sine of an angle drawn
/// uniformly within an eighth turn of straight ahead).
pub struct DrawSource {
    units: Vec<u32>,
    dirs: Vec<Dir>,
    cones: Vec<Dir>,
    u_at: usize,
    d_at: usize,
    c_at: usize,
}

impl DrawSource {
    /// Every sample in range and every cursor inside its sequence.
    pub open spec fn wf(self) -> bool {
        &&& self.units_seq().len() >= 1
        &&& self.dirs_seq().len() >= 1
        &&& self.cones_seq().len() >= 1
        &&& 0 <= self.u_cursor() < self.units_seq().len()
        &&& 0 <= self.d_cursor() < self.dirs_seq().len()
        &&& 0 <= self.c_cursor() < self.cones_seq().len()
        &&& forall|i: int|
            0 <= i < self.units_seq().len() ==> (#[trigger] self.units_seq()[i]) < UNIT
        &&& forall|i: int| 0 <= i < self.dirs_seq().len() ==> dir_ok(#[trigger] self.dirs_seq()[i])
        &&& forall|i: int|
            0 <= i < self.cones_seq().len() ==> dir_ok(#[trigger] self.cones_seq()[i])
    }

    /// The unit-interval samples, as given at construction.
    pub closed spec fn units_seq(self) -> Seq<u32> {
        self.units@
    }

    /// The direction samples, as given at construction.
    pub closed spec fn dirs_seq(self) -> Seq<Dir> {
        self.dirs@
    }

    /// The cone samples, as given at construction.
    pub closed spec fn cones_seq(self) -> Seq<Dir> {
        self.cones@
    }

    /// Index of the next unit-interval sample.
    pub closed spec fn u_cursor(self) -> int {
        self.u_at as int
    }

    /// Index of the next direction sample.
    pub closed spec fn d_cursor(self) -> int {
        self.d_at as int
    }

    /// Index of the next cone sample.
    pub closed spec fn c_cursor(self) -> int {
        self.c_at as int
    }

    /// The unit-interval sample that `next_unit` returns next.
    pub open spec fn peek_unit(self) -> u32 {
        self.units_seq()[self.u_cursor()]
    }

    /// The direction sample that `next_dir` returns next.
    pub open spec fn peek_dir(self) -> Dir {
        self.dirs_seq()[self.d_cursor()]
    }

    /// The cone sample that `next_cone` returns next.
    pub open spec fn peek_cone(self) -> Dir {
        self.cones_seq()[self.c_cursor()]
    }

    /// The unit-interval sample `k` places ahead of the cursor, wrapping.
    pub open spec fn peek_unit_at(self, k: int) -> u32 {
        self.units_seq()[(self.u_cursor() + k) % (self.units_seq().len() as int)]
    }

    /// `post` is `self` with `nu` unit samples, `nd` direction samples and
    /// `nc` cone samples taken, the cursors wrapping cyclically.
    pub open spec fn taken(self, post: DrawSource, nu: int, nd: int, nc: int) -> bool {
        &&& post.units_seq() == self.units_seq()
        &&& post.dirs_seq() == self.dirs_seq()
        &&& post.cones_seq() == self.cones_seq()
        &&& post.u_cursor() == (self.u_cursor() + nu) % (self.units_seq().len() as int)
        &&& post.d_cursor() == (self.d_cursor() + nd) % (self.dirs_seq().len() as int)
        &&& post.c_cursor() == (self.c_cursor() + nc) % (self.cones_seq().len() as int)
    }

    /// Builds a source from explicit samples. Succeeds exactly when all
    /// three sequences are non-empty and every sample is in range.
    pub fn new(units: Vec<u32>, dirs: Vec<Dir>, cones: Vec<Dir>) -> (r: Option<DrawSource>)
        ensures
            match r {
                Some(s) => {
                    &&& s.wf()
                    &&& s.units_seq() == units@
                    &&& s.dirs_seq() == dirs@
                    &&& s.cones_seq() == cones@
                    &&& s.u_cursor() == 0
                    &&& s.d_cursor() == 0
                    &&& s.c_cursor() == 0
                },
                None => {
                    ||| units@.len() == 0
                    ||| dirs@.len() == 0
                    ||| cones@.len() == 0
                    ||| exists|i: int| 0 <= i < units@.len() && (#[trigger] units@[i]) >= UNIT
                    ||| exists|i: int| 0 <= i < dirs@.len() && !dir_ok(#[trigger] dirs@[i])
                    ||| exists|i: int| 0 <= i < cones@.len() && !dir_ok(#[trigger] cones@[i])
                },
            },
    {
        if units.len() == 0 || dirs.len() == 0 || cones.len() == 0 {
            return None;
        }
        let mut i: usize = 0;
        while i < units.len()
            invariant
                i <= units@.len(),
                forall|j: int| 0 <= j < i ==> (#[trigger] units@[j]) < UNIT,
            decreases units@.len() - i,
        {
            if units[i] >= (UNIT as u32) {
                return None;
            }
            i = i + 1;
        }
        let mut i: usize = 0;
        while i < dirs.len()
            invariant
                i <= dirs@.len(),
                forall|j: int| 0 <= j < i ==> dir_ok(#[trigger] dirs@[j]),
            decreases dirs@.len() - i,
        {
            let d = dirs[i];
            if d.x < -UNIT || d.x > UNIT || d.y < -UNIT || d.y > UNIT {
                return None;
            }
            i = i + 1;
        }
        let mut i: usize = 0;
        while i < cones.len()
            invariant
                i <= cones@.len(),
                forall|j: int| 0 <= j < i ==> dir_ok(#[trigger] cones@[j]),
            decreases cones@.len() - i,
        {
            let d = cones[i];
            if d.x < -UNIT || d.x > UNIT || d.y < -UNIT || d.y > UNIT {
                return None;
            }
            i = i + 1;
        }
        Some(DrawSource { units, dirs, cones, u_at: 0, d_at: 0, c_at: 0 })
    }

    /// Takes the next unit-interval sample and advances the cursor, wrapping
    /// at the end of the sequence.
    pub fn next_unit(&mut self) -> (u: u32)
        requires
            old(self).wf(),
        ensures
            final(self).wf(),
            u == old(self).peek_unit(),
            u < UNIT,
            final(self).units_seq() == old(self).units_seq(),
            final(self).dirs_seq() == old(self).dirs_seq(),
            final(self).d_cursor() == old(self).d_cursor(),
            final(self).u_cursor() == if old(self).u_cursor() + 1 == old(self).units_seq().len() {
                0int
            } else {
                old(self).u_cursor() + 1
            },
            old(self).taken(*final(self), 1, 0, 0),
    {
        proof {
            let ul = self.units_seq().len() as int;
            let dl = self.dirs_seq().len() as int;
            let cl = self.cones_seq().len() as int;
            if self.u_cursor() + 1 == ul {
                vstd::arithmetic::div_mod::lemma_mod_self_0(ul);
            } else {
                vstd::arithmetic::div_mod::lemma_small_mod((self.u_cursor() + 1) as nat, ul as nat);
            }
            vstd::arithmetic::div_mod::lemma_small_mod(self.d_cursor() as nat, dl as nat);
            vstd::arithmetic::div_mod::lemma_small_mod(self.c_cursor() as nat, cl as nat);
        }
        let n = self.units.len();
        let u = self.units[self.u_at];
        self.u_at = if self.u_at + 1 == n {
            0
        } else {
            self.u_at + 1
        };
        u
    }

    /// Takes the next direction sample and advances the cursor, wrapping at
    /// the end of the sequence.
    pub fn next_dir(&mut self) -> (d: Dir)
        requires
            old(self).wf(),
        ensures
            final(self).wf(),
            d == old(self).peek_dir(),
            dir_ok(d),
            final(self).units_seq() == old(self).units_seq(),
            final(self).dirs_seq() == old(self).dirs_seq(),
            final(self).u_cursor() == old(self).u_cursor(),
            final(self).d_cursor() == if old(self).d_cursor() + 1 == old(self).dirs_seq().len() {
                0int
            } else {
                old(self).d_cursor() + 1
            },
            old(self).taken(*final(self), 0, 1, 0),
    {
        proof {
            let ul = self.units_seq().len() as int;
            let dl = self.dirs_seq().len() as int;
            let cl = self.cones_seq().len() as int;
            if self.d_cursor() + 1 == dl {
                vstd::arithmetic::div_mod::lemma_mod_self_0(dl);
            } else {
                vstd::arithmetic::div_mod::lemma_small_mod((self.d_cursor() + 1) as nat, dl as nat);
            }
            vstd::arithmetic::div_mod::lemma_small_mod(self.u_cursor() as nat, ul as nat);
            vstd::arithmetic::div_mod::lemma_small_mod(self.c_cursor() as nat, cl as nat);
        }
        let n = self.dirs.len();
        let d = self.dirs[self.d_at];
        self.d_at = if self.d_at + 1 == n {
            0
        } else {
            self.d_at + 1
        };
        d
    }

    /// Takes the next cone sample and advances the cursor, wrapping at the
    /// end of the sequence.
    pub fn next_cone(&mut self) -> (d: Dir)
        requires
            old(self).wf(),
        ensures
            final(self).wf(),
            d == old(self).peek_cone(),
            dir_ok(d),
            final(self).units_seq() == old(self).units_seq(),
            final(self).dirs_seq() == old(self).dirs_seq(),
            final(self).cones_seq() == old(self).cones_seq(),
            final(self).u_cursor() == old(self).u_cursor(),
            final(self).d_cursor() == old(self).d_cursor(),
            final(self).c_cursor() == if old(self).c_cursor() + 1 == old(self).cones_seq().len() {
                0int
            } else {
                old(self).c_cursor() + 1
            },
            old(self).taken(*final(self), 0, 0, 1),
    {
        proof {
            let ul = self.units_seq().len() as int;
            let dl = self.dirs_seq().len() as int;
            let cl = self.cones_seq().len() as int;
            if self.c_cursor() + 1 == cl {
                vstd::arithmetic::div_mod::lemma_mod_self_0(cl);
            } else {
                vstd::arithmetic::div_mod::lemma_small_mod((self.c_cursor() + 1) as nat, cl as nat);
            }
            vstd::arithmetic::div_mod::lemma_small_mod(self.u_cursor() as nat, ul as nat);
            vstd::arithmetic::div_mod::lemma_small_mod(self.d_cursor() as nat, dl as nat);
        }
        let n = self.cones.len();
        let d = self.cones[self.c_at];
        self.c_at = if self.c_at + 1 == n {
            0
        } else {
            self.c_at + 1
        };
        d
    }
}

/// A uniform choice from a non-empty slice, driven by one unit draw: the
/// element at `u * len / UNIT`.
pub fn choose_from<'a, T>(a: &'a [T], u: u32) -> (r: &'a T)
    requires
        1 <= a@.len() <= 1_000_000_000,
        u < UNIT,
    ensures
        r == &a@[u * a@.len() / (UNIT as int)],
{
    proof {
        vstd::arithmetic::mul::lemma_mul_strict_inequality(
            u as int,
            UNIT as int,
            a@.len() as int,
        );
        vstd::arithmetic::mul::lemma_mul_is_commutative(u as int, a@.len() as int);
        vstd::arithmetic::mul::lemma_mul_is_commutative(UNIT as int, a@.len() as int);
        vstd::arithmetic::div_mod::lemma_multiply_divide_lt(
            (u * a@.len()) as int,
            UNIT as int,
            a@.len() as int,
        );
        vstd::arithmetic::div_mod::lemma_div_pos_is_pos((u * a@.len()) as int, UNIT as int);
    }
    let i: usize = (((u as u128) * (a.len() as u128)) / 1_000_000u128) as usize;
    &a[i]
}

/// Consecutive consumptions of the source add up.
pub proof fn lemma_taken_trans(
    a: DrawSource,
    b: DrawSource,
    c: DrawSource,
    nu1: int,
    nd1: int,
    nc1: int,
    nu2: int,
    nd2: int,
    nc2: int,
)
    requires
        a.wf(),
        a.taken(b, nu1, nd1, nc1),
        b.taken(c, nu2, nd2, nc2),
        nu1 >= 0,
        nd1 >= 0,
        nc1 >= 0,
        nu2 >= 0,
        nd2 >= 0,
        nc2 >= 0,
    ensures
        a.taken(c, nu1 + nu2, nd1 + nd2, nc1 + nc2),
{
    let ul = a.units_seq().len() as int;
    let dl = a.dirs_seq().len() as int;
    let cl = a.cones_seq().len() as int;
    lemma_mod_shift(a.u_cursor(), nu1, nu2, ul);
    lemma_mod_shift(a.d_cursor(), nd1, nd2, dl);
    lemma_mod_shift(a.c_cursor(), nc1, nc2, cl);
}

/// `((x + n1) % m + n2) % m == (x + n1 + n2) % m` for a positive modulus.
proof fn lemma_mod_shift(x: int, n1: int, n2: int, m: int)
    requires
        m > 0,
    ensures
        ((x + n1) % m + n2) % m == (x + n1 + n2) % m,
{
    vstd::arithmetic::div_mod::lemma_mod_twice(x + n1, m);
    vstd::arithmetic::div_mod::lemma_add_mod_noop((x + n1) % m, n2, m);
    vstd::arithmetic::div_mod::lemma_add_mod_noop(x + n1, n2, m);
}

} // verus!
