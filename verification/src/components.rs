//! Bodies, behaviours, and the pure kinematics on them: the per-frame
//! physics integrator and the explosion spawn formulas.
//!
//! All quantities are fixed-point integers: positions, velocities, masses
//! and radii in `MILLI` steps per pixel unit, unit-interval samples and
//! direction components in `UNIT` steps per 1.0, hues in centi-degrees,
//! the clock in microseconds.

use vstd::prelude::*;

use crate::draws::{dir_ok, Dir, DrawSource};
use crate::units::{
    clamp, clamp_i64, div_trunc, div_trunc_i128, is_isqrt, isqrt64, lemma_div_ordered,
    lemma_mul_abs_bound, lemma_tdiv_bound, scale_by_dt, sqrt_floor, tdiv, DT_MAX, F_MAX, G,
    HUE_MAX, M_MAX, P_MAX, R_MAX, T_MAX, UNIT, US_PER_S, V_MAX,
};

verus! {

/// A colour as hue, saturation and lightness; the hue in centi-degrees, the
/// other two in percent. The renderer formats it; the core only carries it.
#[derive(Clone, Copy, PartialEq, Eq, Structural, Debug)]
pub struct HSL {
    pub h: i64,
    pub s: i64,
    pub l: i64,
}

/// The mathematical value of a colour.
pub ghost struct ColorModel {
    pub h: int,
    pub s: int,
    pub l: int,
}

impl View for HSL {
    type V = ColorModel;

    open spec fn view(&self) -> ColorModel {
        ColorModel { h: self.h as int, s: self.s as int, l: self.l as int }
    }
}

/// Hue within range, saturation and lightness percentages.
pub open spec fn wf_color(c: ColorModel) -> bool {
    &&& -HUE_MAX <= c.h <= HUE_MAX
    &&& 0 <= c.s <= 100
    &&& 0 <= c.l <= 100
}

/// The colour a unit draw stands for: a uniform hue, full display palette.
pub fn random_color(u: u32) -> (c: HSL)
    requires
        u < UNIT,
    ensures
        c@ == (ColorModel { h: u * 36000 / (UNIT as int), s: 85, l: 75 }),
        wf_color(c@),
        0 <= c.h < 36000,
{
    proof {
        lemma_div_ordered((u * 36000) as int, (999_999 * 36000) as int, UNIT as int);
    }
    HSL { h: ((u as i64) * 36000) / (UNIT as i64), s: 85, l: 75 }
}

/// A particle's physical and visual state.
#[derive(Clone, Copy, PartialEq, Eq, Structural, Debug)]
pub struct Body {
    pub x: i64,
    pub y: i64,
    pub vx: i64,
    pub vy: i64,
    pub m: i64,
    pub r: i64,
    pub color: HSL,
}

/// The mathematical value of a body's state.
pub ghost struct BodyModel {
    pub x: int,
    pub y: int,
    pub vx: int,
    pub vy: int,
    pub m: int,
    pub r: int,
    pub color: ColorModel,
}

impl View for Body {
    type V = BodyModel;

    open spec fn view(&self) -> BodyModel {
        BodyModel {
            x: self.x as int,
            y: self.y as int,
            vx: self.vx as int,
            vy: self.vy as int,
            m: self.m as int,
            r: self.r as int,
            color: self.color@,
        }
    }
}

/// All components within the model's bounds; the mass positive.
pub open spec fn wf_body(b: BodyModel) -> bool {
    &&& -P_MAX <= b.x <= P_MAX
    &&& -P_MAX <= b.y <= P_MAX
    &&& -V_MAX <= b.vx <= V_MAX
    &&& -V_MAX <= b.vy <= V_MAX
    &&& 0 < b.m <= M_MAX
    &&& 0 <= b.r <= R_MAX
    &&& wf_color(b.color)
}

/// The bounds of an eased position interpolation: start strictly before end,
/// both ends of the path within the position range.
#[derive(Clone, Copy, PartialEq, Eq, Structural, Debug)]
pub struct LerperInfo {
    pub ix: i64,
    pub iy: i64,
    pub it: u64,
    pub tx: i64,
    pub ty: i64,
    pub tt: u64,
}

/// A well-formed interpolation window: it never divides by zero.
pub open spec fn wf_lerper(l: LerperInfo) -> bool {
    &&& l.it < l.tt <= T_MAX
    &&& -P_MAX <= l.ix <= P_MAX
    &&& -P_MAX <= l.iy <= P_MAX
    &&& -P_MAX <= l.tx <= P_MAX
    &&& -P_MAX <= l.ty <= P_MAX
}

impl LerperInfo {
    /// Boxes an interpolation path. The window must be non-empty: an empty
    /// or inverted window is a construction error, refused here rather than
    /// letting the integrator divide by zero.
    pub fn boxed(ix: i64, iy: i64, it: u64, tx: i64, ty: i64, tt: u64) -> (r: Box<LerperInfo>)
        requires
            it < tt <= T_MAX,
            -P_MAX <= ix <= P_MAX,
            -P_MAX <= iy <= P_MAX,
            -P_MAX <= tx <= P_MAX,
            -P_MAX <= ty <= P_MAX,
        ensures
            *r == (LerperInfo { ix, iy, it, tx, ty, tt }),
            wf_lerper(*r),
    {
        Box::new(LerperInfo { ix, iy, it, tx, ty, tt })
    }
}

/// The behaviour tag of an entity: exactly one per entity, deciding its
/// drag, its appearance modulation, and its transition on fuse expiry.
#[derive(Clone, Debug)]
pub enum Behaviour {
    /// A bare spark; drag applies, its fuse deletes it.
    Particle,
    /// Hue cycling with time: initial hue (centi-degrees) and frequency
    /// (`UNIT` scale, cycles of 360 degrees per second).
    HueParticle(i64, i64),
    /// Shimmering spark: the payload is the shimmer frequency (`UNIT` scale,
    /// cycles per second); the renderer derives the visible radius from it.
    Glitter(i64),
    /// A spark without drag.
    MassiveParticle,
    /// Chrysanthemum shell: bursts into a round shell of particles.
    Chris,
    /// Chrysanthemum whose fragments mix the parent's and a fresh colour.
    MultiColorChris,
    /// Bursts into heavy, drooping droplets.
    Willow,
    /// Emits single sparks one by one; the payload counts the remaining
    /// emissions.
    Comet(i32),
    /// Bursts into few branches that burst again.
    Crosette,
    /// A branch of a crosette: bursts along its own heading.
    CrosetteBranch,
    /// Double burst: a wide outer shell and a re-coloured inner one.
    Pistil,
    /// Bursts into hue-cycling particles sharing one fresh hue.
    Peony,
    /// Bursts into shimmering particles.
    Strobe,
    /// Position eased toward a target over a time window.
    Lerper(Box<LerperInfo>),
    /// As `Lerper`, for externally driven paths.
    UserLerper(Box<LerperInfo>),
}

/// Payload bounds per behaviour, as the spawn formulas establish them.
pub open spec fn wf_behaviour(b: Behaviour) -> bool {
    match b {
        Behaviour::HueParticle(h, f) => 0 <= h < 36000 && UNIT / 2 <= f < 3 * UNIT,
        Behaviour::Glitter(f) => 3 * UNIT <= f < 9 * UNIT,
        Behaviour::Lerper(info) => wf_lerper(*info),
        Behaviour::UserLerper(info) => wf_lerper(*info),
        _ => true,
    }
}

/// Whether per-frame drag applies to a behaviour.
pub open spec fn drag_applies(b: Behaviour) -> bool {
    match b {
        Behaviour::Particle => true,
        Behaviour::Glitter(_) => true,
        Behaviour::HueParticle(_, _) => true,
        _ => false,
    }
}

/// One gravity step of the integrator, before drag and appearance:
/// `x += vx*dt`, `y += vy*dt + a*dt^2/2`, `vy += a*dt` with `a = G*m`,
/// divisions truncating and positions and velocities clamped to the model's
/// bounds.
pub open spec fn spec_gravity_step(b: BodyModel, dt: int) -> BodyModel {
    let a = G * b.m;
    BodyModel {
        x: clamp(b.x + tdiv(b.vx * dt, US_PER_S as int), -P_MAX as int, P_MAX as int),
        y: clamp(
            b.y + tdiv(b.vy * dt, US_PER_S as int) + a * dt * dt / (2 * US_PER_S * US_PER_S),
            -P_MAX as int,
            P_MAX as int,
        ),
        vy: clamp(b.vy + a * dt / (US_PER_S as int), -V_MAX as int, V_MAX as int),
        ..b
    }
}

/// Velocity damping applied after the gravity step where drag holds:
/// both components scaled by 95/100, truncating.
pub open spec fn spec_drag(b: BodyModel) -> BodyModel {
    BodyModel { vx: tdiv(b.vx * 95, 100), vy: tdiv(b.vy * 95, 100), ..b }
}

/// The eased interpolation fraction at `time`, in `UNIT` scale: zero before
/// the window, `(time-it)/(tt-it)` inside it, growing past one after it and
/// saturating at ten.
pub open spec fn spec_lerp_fraction(l: LerperInfo, time: int) -> int {
    if time <= l.it {
        0
    } else {
        let raw = (time - l.it) * (UNIT as int) / (l.tt - l.it);
        if raw > 10 * UNIT {
            10 * (UNIT as int)
        } else {
            raw
        }
    }
}

/// The quadratic ease `-(p-1)^2 + 1` in `UNIT` scale.
pub open spec fn spec_ease(p: int) -> int {
    UNIT - (p - UNIT) * (p - UNIT) / (UNIT as int)
}

/// A component of the eased position: `from + (to - from) * ease`, clamped.
pub open spec fn spec_lerp_pos(from: int, to: int, ease: int) -> int {
    clamp(from + tdiv((to - from) * ease, UNIT as int), -P_MAX as int, P_MAX as int)
}

/// The appearance modulation after the gravity and drag steps: hue cycling
/// for `HueParticle`, eased position for the lerpers, nothing else in the
/// model (the shimmer radius of `Glitter` is derived by the renderer).
pub open spec fn spec_appearance(b: BodyModel, beh: Behaviour, time: int) -> BodyModel {
    match beh {
        Behaviour::HueParticle(h, f) => BodyModel {
            color: ColorModel { h: h + time * 36000 * f / 1_000_000_000_000, s: 85, l: 75 },
            ..b
        },
        Behaviour::Lerper(info) => spec_lerped(b, *info, time),
        Behaviour::UserLerper(info) => spec_lerped(b, *info, time),
        _ => b,
    }
}

/// The eased position override of a lerping body.
pub open spec fn spec_lerped(b: BodyModel, l: LerperInfo, time: int) -> BodyModel {
    let ease = spec_ease(spec_lerp_fraction(l, time));
    BodyModel { x: spec_lerp_pos(l.ix as int, l.tx as int, ease), y: spec_lerp_pos(l.iy as int, l.ty as int, ease), ..b }
}

/// One whole integrator step: gravity, then drag where it applies, then
/// appearance modulation.
pub open spec fn spec_update(b: BodyModel, beh: Behaviour, dt: int, time: int) -> BodyModel {
    let g = spec_gravity_step(b, dt);
    let d = if drag_applies(beh) {
        spec_drag(g)
    } else {
        g
    };
    spec_appearance(d, beh, time)
}

impl Body {
    /// Advances this body by one frame of `dt` microseconds at clock value
    /// `time`: the gravity step, then drag for the behaviours it applies to,
    /// then the behaviour's appearance modulation.
    pub fn update(&mut self, behaviour: &Behaviour, dt: u64, time: u64)
        requires
            wf_body(old(self)@),
            wf_behaviour(*behaviour),
            dt <= DT_MAX,
            time <= T_MAX,
        ensures
            final(self)@ == spec_update(old(self)@, *behaviour, dt as int, time as int),
            wf_body(final(self)@),
    {
        let b = *self;
        // Gravity step.
        let dx = scale_by_dt(b.vx, dt);
        let x1 = clamp_i64(b.x + dx, -P_MAX, P_MAX);
        let a = G * b.m;
        proof {
            vstd::arithmetic::mul::lemma_mul_nonnegative(a as int, dt as int);
            lemma_mul_abs_bound(a as int, dt as int, (G * M_MAX) as int, DT_MAX as int);
            lemma_mul_abs_bound((a * dt) as int, dt as int, (G * M_MAX * DT_MAX) as int,
                DT_MAX as int);
            lemma_div_ordered(
                a * dt * dt,
                (G * M_MAX * DT_MAX * DT_MAX) as int,
                2 * US_PER_S * US_PER_S,
            );
        }
        let ydt2u: u128 = (a as u128) * (dt as u128) * (dt as u128) / 2_000_000_000_000u128;
        let ydt2: i64 = ydt2u as i64;
        let dy = scale_by_dt(b.vy, dt);
        let y1 = clamp_i64(b.y + dy + ydt2, -P_MAX, P_MAX);
        let dvy = scale_by_dt(a, dt);
        let vy1 = clamp_i64(b.vy + dvy, -V_MAX, V_MAX);
        let g = Body { x: x1, y: y1, vy: vy1, ..b };
        assert(g@ == spec_gravity_step(b@, dt as int));
        // Drag.
        let do_drag = matches!(behaviour,
            Behaviour::Particle | Behaviour::Glitter(_) | Behaviour::HueParticle(_, _));
        let d = if do_drag {
            proof {
                lemma_mul_abs_bound(g.vx as int, 95, V_MAX as int, 95);
                lemma_tdiv_bound(g.vx * 95, (V_MAX * 95) as int, 100);
                lemma_mul_abs_bound(g.vy as int, 95, V_MAX as int, 95);
                lemma_tdiv_bound(g.vy * 95, (V_MAX * 95) as int, 100);
            }
            Body { vx: div_trunc(g.vx * 95, 100), vy: div_trunc(g.vy * 95, 100), ..g }
        } else {
            g
        };
        assert(do_drag == drag_applies(*behaviour));
        // Appearance modulation.
        let nb = match behaviour {
            Behaviour::HueParticle(h, f) => {
                proof {
                    lemma_mul_abs_bound(time as int, 36000, T_MAX as int, 36000);
                    lemma_mul_abs_bound((time * 36000) as int, *f as int,
                        (T_MAX * 36000) as int, (3 * UNIT) as int);
                    lemma_div_ordered(
                        time * 36000 * (*f as int),
                        (T_MAX * 36000 * 3 * UNIT) as int,
                        1_000_000_000_000,
                    );
                }
                let sweep: u128 = (time as u128) * 36000u128 * (*f as u128)
                    / 1_000_000_000_000u128;
                Body { color: HSL { h: *h + sweep as i64, s: 85, l: 75 }, ..d }
            },
            Behaviour::Lerper(info) => lerped(d, info, time),
            Behaviour::UserLerper(info) => lerped(d, info, time),
            _ => d,
        };
        *self = nb;
    }
}

/// The eased position override of a lerping body at clock value `time`.
fn lerped(b: Body, l: &LerperInfo, time: u64) -> (r: Body)
    requires
        wf_body(b@),
        wf_lerper(*l),
        time <= T_MAX,
    ensures
        r@ == spec_lerped(b@, *l, time as int),
        wf_body(r@),
{
    let p: i64 = if time <= l.it {
        0
    } else {
        proof {
            lemma_mul_abs_bound((time - l.it) as int, UNIT as int, T_MAX as int, UNIT as int);
        }
        let raw: u128 = ((time - l.it) as u128) * (UNIT as u128) / ((l.tt - l.it) as u128);
        if raw > (10 * UNIT) as u128 {
            10 * UNIT
        } else {
            raw as i64
        }
    };
    assert(p == spec_lerp_fraction(*l, time as int));
    assert(0 <= p <= 10 * UNIT);
    proof {
        lemma_mul_abs_bound(p - UNIT, p - UNIT, (9 * UNIT) as int, (9 * UNIT) as int);
        assert((p - UNIT) * (p - UNIT) >= 0) by (nonlinear_arith);
        lemma_div_ordered((p - UNIT) * (p - UNIT), (81 * UNIT * UNIT) as int, UNIT as int);
    }
    let sq = (p - UNIT) * (p - UNIT);
    let ease = UNIT - sq / UNIT;
    assert(ease == spec_ease(p as int));
    let x = lerp_component(l.ix, l.tx, ease);
    let y = lerp_component(l.iy, l.ty, ease);
    Body { x, y, ..b }
}

/// A mass is floored at one milli step so a fragment's mass stays positive.
pub open spec fn floor_mass(m: int) -> int {
    if m < 1 {
        1
    } else {
        m
    }
}

/// The radial explosion's skewed radius factor, `UNIT` scale: for a unit
/// draw `u` it is `(u/UNIT - 1)^3 + 1`, which skews mass toward the shell's
/// rim and keeps the burst visually round and hollow.
pub open spec fn radial_factor(u: int) -> int {
    UNIT - (UNIT - u) * (UNIT - u) * (UNIT - u) / 1_000_000_000_000
}

/// A fragment of a radial explosion: a random direction scaled by the
/// factored force, plus a fifth of the parent's velocity; the parent's mass
/// split over the division count; position, radius and colour inherited.
pub open spec fn radial_child(
    b: BodyModel,
    divisions: int,
    force_base: int,
    d: Dir,
    u: int,
) -> BodyModel {
    let force = radial_factor(u) * force_base / (UNIT as int);
    BodyModel {
        vx: tdiv(d.x * force, UNIT as int) + tdiv(b.vx, 5),
        vy: tdiv(d.y * force, UNIT as int) + tdiv(b.vy, 5),
        m: floor_mass(tdiv(b.m, divisions)),
        ..b
    }
}

/// A fragment of a directed explosion: the cone direction `d` (drawn around
/// straight ahead) rotated onto the parent's heading, scaled by a uniform
/// force, plus three tenths of the parent's velocity.
pub open spec fn directed_child(
    b: BodyModel,
    divisions: int,
    force_base: int,
    d: Dir,
    u: int,
) -> BodyModel {
    let force = u * force_base / (UNIT as int);
    let n = b.vx * b.vx + b.vy * b.vy;
    let s = sqrt_floor(n);
    let hx = if n == 0 {
        UNIT as int
    } else {
        tdiv(b.vx * UNIT, s)
    };
    let hy = if n == 0 {
        0
    } else {
        tdiv(b.vy * UNIT, s)
    };
    let cx = tdiv(hx * d.x - hy * d.y, UNIT as int);
    let cy = tdiv(hx * d.y + hy * d.x, UNIT as int);
    BodyModel {
        vx: tdiv(cx * force, UNIT as int) + tdiv(b.vx * 3, 10),
        vy: tdiv(cy * force, UNIT as int) + tdiv(b.vy * 3, 10),
        m: floor_mass(tdiv(b.m, divisions)),
        ..b
    }
}

/// A droplet of a willow explosion: a narrow horizontal share of the force,
/// a downward-biased vertical one, a fifth of the parent's velocity, and
/// mass grown to seven tenths of the parent's whole mass.
pub open spec fn willow_child(b: BodyModel, force_base: int, d: Dir, u: int) -> BodyModel {
    let force = u * force_base / (UNIT as int);
    BodyModel {
        vx: tdiv(d.x * force * 7, 20_000_000) + tdiv(b.vx, 5),
        vy: tdiv((d.y - UNIT) * force, 5_000_000) + tdiv(b.vy, 5),
        m: floor_mass(b.m * 7 / 10),
        ..b
    }
}

/// The radial factor of any unit draw lies within one unit, so a radial
/// fragment's force never exceeds its force base.
pub proof fn lemma_radial_factor_range(u: int)
    requires
        0 <= u < UNIT,
    ensures
        0 <= radial_factor(u) <= UNIT,
{
    let dd = UNIT - u;
    assert(0 <= dd * dd * dd <= 1_000_000_000_000_000_000) by (nonlinear_arith)
        requires
            1 <= dd <= 1_000_000,
    ;
    lemma_div_ordered(dd * dd * dd, 1_000_000_000_000_000_000, 1_000_000_000_000);
}

/// The force of a radial fragment: the factored share of the force base,
/// within `[0, force_base]`.
pub proof fn lemma_radial_force_range(u: int, force_base: int)
    requires
        0 <= u < UNIT,
        0 <= force_base <= F_MAX,
    ensures
        0 <= radial_factor(u) * force_base / (UNIT as int) <= force_base,
{
    lemma_radial_factor_range(u);
    vstd::arithmetic::mul::lemma_mul_nonnegative(radial_factor(u), force_base);
    lemma_mul_abs_bound(radial_factor(u), force_base, UNIT as int, force_base);
    vstd::arithmetic::div_mod::lemma_multiply_divide_le(
        radial_factor(u) * force_base,
        UNIT as int,
        force_base,
    );
    vstd::arithmetic::div_mod::lemma_div_pos_is_pos(radial_factor(u) * force_base, UNIT as int);
}

/// The radial explosion formula, in one statement: for any unit draw the
/// radius factor lies within one unit, the force is that factor's share of
/// the force base, and each fragment velocity component is exactly the
/// direction times the force plus a fifth of the parent's velocity, with
/// position, radius and colour inherited unchanged.
pub proof fn lemma_radial_explosion_formula(
    b: BodyModel,
    divisions: int,
    force_base: int,
    d: Dir,
    u: int,
)
    requires
        0 <= u < UNIT,
        0 <= force_base <= F_MAX,
        1 <= divisions,
    ensures
        0 <= radial_factor(u) <= UNIT,
        0 <= radial_factor(u) * force_base / (UNIT as int) <= force_base,
        ({
            let force = radial_factor(u) * force_base / (UNIT as int);
            let c = radial_child(b, divisions, force_base, d, u);
            &&& c.vx == tdiv(d.x * force, UNIT as int) + tdiv(b.vx, 5)
            &&& c.vy == tdiv(d.y * force, UNIT as int) + tdiv(b.vy, 5)
            &&& c.m == floor_mass(tdiv(b.m, divisions))
            &&& c.x == b.x
            &&& c.y == b.y
            &&& c.r == b.r
            &&& c.color == b.color
        }),
{
    lemma_radial_factor_range(u);
    lemma_radial_force_range(u, force_base);
}

impl Body {
    /// A fragment body for a radial explosion, from one direction draw and
    /// one unit draw.
    pub fn plus_explosion(&self, rng: &mut DrawSource, divisions: i64, force_base: i64) -> (c:
        Body)
        requires
            wf_body(self@),
            old(rng).wf(),
            1 <= divisions,
            0 <= force_base <= F_MAX,
        ensures
            final(rng).wf(),
            old(rng).taken(*final(rng), 1, 1, 0),
            c@ == radial_child(
                self@,
                divisions as int,
                force_base as int,
                old(rng).peek_dir(),
                old(rng).peek_unit() as int,
            ),
            wf_body(c@),
    {
        let ghost pre = *rng;
        let d = rng.next_dir();
        let ghost mid = *rng;
        let u = rng.next_unit();
        proof {
            crate::draws::lemma_taken_trans(pre, mid, *rng, 0, 1, 0, 1, 0, 0);
        }
        let dd: i64 = UNIT - (u as i64);
        proof {
            lemma_mul_abs_bound(dd as int, dd as int, 1_000_000, 1_000_000);
            lemma_mul_abs_bound((dd * dd) as int, dd as int, 1_000_000_000_000, 1_000_000);
            lemma_radial_factor_range(u as int);
            lemma_radial_force_range(u as int, force_base as int);
            vstd::arithmetic::mul::lemma_mul_nonnegative(dd as int, dd as int);
            vstd::arithmetic::mul::lemma_mul_nonnegative((dd * dd) as int, dd as int);
        }
        let fac: i64 = UNIT - dd * dd * dd / 1_000_000_000_000;
        proof {
            lemma_mul_abs_bound(fac as int, force_base as int, UNIT as int, F_MAX as int);
        }
        let force: i64 = fac * force_base / (UNIT as i64);
        self.fragment(d, force, divisions)
    }

    /// A fragment body for a directed explosion: the drawn cone sample is
    /// rotated onto this body's heading, the force drawn uniformly.
    pub fn plus_directed_explosion(&self, rng: &mut DrawSource, divisions: i64, force_base: i64)
        -> (c: Body)
        requires
            wf_body(self@),
            old(rng).wf(),
            1 <= divisions,
            0 <= force_base <= F_MAX,
        ensures
            final(rng).wf(),
            old(rng).taken(*final(rng), 1, 0, 1),
            c@ == directed_child(
                self@,
                divisions as int,
                force_base as int,
                old(rng).peek_cone(),
                old(rng).peek_unit() as int,
            ),
            wf_body(c@),
    {
        let ghost pre = *rng;
        let d = rng.next_cone();
        let ghost mid = *rng;
        let u = rng.next_unit();
        proof {
            crate::draws::lemma_taken_trans(pre, mid, *rng, 0, 0, 1, 1, 0, 0);
            lemma_mul_abs_bound(u as int, force_base as int, UNIT as int, F_MAX as int);
            vstd::arithmetic::mul::lemma_mul_nonnegative(u as int, force_base as int);
            lemma_mul_abs_bound(u as int, force_base as int, UNIT as int, force_base as int);
            vstd::arithmetic::div_mod::lemma_multiply_divide_le(
                u * force_base,
                UNIT as int,
                force_base as int,
            );
            vstd::arithmetic::div_mod::lemma_div_pos_is_pos((u * force_base) as int, UNIT as int);
        }
        let force: i64 = (u as i64) * force_base / (UNIT as i64);
        let (hx, hy) = self.heading();
        proof {
            lemma_mul_abs_bound(hx as int, d.x as int, UNIT as int, UNIT as int);
            lemma_mul_abs_bound(hy as int, d.y as int, UNIT as int, UNIT as int);
            lemma_mul_abs_bound(hx as int, d.y as int, UNIT as int, UNIT as int);
            lemma_mul_abs_bound(hy as int, d.x as int, UNIT as int, UNIT as int);
            lemma_tdiv_bound(hx * d.x - hy * d.y, 2_000_000_000_000, UNIT as int);
            lemma_tdiv_bound(hx * d.y + hy * d.x, 2_000_000_000_000, UNIT as int);
        }
        let cx = div_trunc(hx * d.x - hy * d.y, UNIT);
        let cy = div_trunc(hx * d.y + hy * d.x, UNIT);
        proof {
            lemma_mul_abs_bound(cx as int, force as int, 2_000_000, F_MAX as int);
            lemma_mul_abs_bound(cy as int, force as int, 2_000_000, F_MAX as int);
            lemma_tdiv_bound(cx * force, 2_000_000 * F_MAX as int, UNIT as int);
            lemma_tdiv_bound(cy * force, 2_000_000 * F_MAX as int, UNIT as int);
            lemma_mul_abs_bound(self.vx as int, 3, V_MAX as int, 3);
            lemma_mul_abs_bound(self.vy as int, 3, V_MAX as int, 3);
            lemma_tdiv_bound(self.vx * 3, (V_MAX * 3) as int, 10);
            lemma_tdiv_bound(self.vy * 3, (V_MAX * 3) as int, 10);
        }
        let vx = div_trunc(cx * force, UNIT) + div_trunc(self.vx * 3, 10);
        let vy = div_trunc(cy * force, UNIT) + div_trunc(self.vy * 3, 10);
        let mq = self.m / divisions;
        let m = if mq < 1 {
            1
        } else {
            mq
        };
        Body { vx, vy, m, ..*self }
    }

    /// A droplet body for a willow explosion, from one direction draw and
    /// one unit draw.
    pub fn plus_willow_explosion(&self, rng: &mut DrawSource, force_base: i64) -> (c: Body)
        requires
            wf_body(self@),
            old(rng).wf(),
            0 <= force_base <= F_MAX,
        ensures
            final(rng).wf(),
            old(rng).taken(*final(rng), 1, 1, 0),
            c@ == willow_child(
                self@,
                force_base as int,
                old(rng).peek_dir(),
                old(rng).peek_unit() as int,
            ),
            wf_body(c@),
    {
        let ghost pre = *rng;
        let d = rng.next_dir();
        let ghost mid = *rng;
        let u = rng.next_unit();
        proof {
            crate::draws::lemma_taken_trans(pre, mid, *rng, 0, 1, 0, 1, 0, 0);
            lemma_mul_abs_bound(u as int, force_base as int, UNIT as int, F_MAX as int);
            vstd::arithmetic::mul::lemma_mul_nonnegative(u as int, force_base as int);
            lemma_mul_abs_bound(u as int, force_base as int, UNIT as int, force_base as int);
            vstd::arithmetic::div_mod::lemma_multiply_divide_le(
                u * force_base,
                UNIT as int,
                force_base as int,
            );
            vstd::arithmetic::div_mod::lemma_div_pos_is_pos((u * force_base) as int, UNIT as int);
        }
        let force: i64 = (u as i64) * force_base / (UNIT as i64);
        proof {
            lemma_mul_abs_bound(d.x as int, force as int, UNIT as int, F_MAX as int);
            lemma_mul_abs_bound((d.x * force) as int, 7, (UNIT * F_MAX) as int, 7);
            lemma_tdiv_bound(d.x * force * 7, (UNIT * F_MAX * 7) as int, 20_000_000);
            lemma_mul_abs_bound((d.y - UNIT) as int, force as int, (2 * UNIT) as int,
                F_MAX as int);
            lemma_tdiv_bound((d.y - UNIT) * force, (2 * UNIT * F_MAX) as int, 5_000_000);
            lemma_tdiv_bound(self.vx as int, V_MAX as int, 5);
            lemma_tdiv_bound(self.vy as int, V_MAX as int, 5);
            lemma_mul_abs_bound(self.m as int, 7, M_MAX as int, 7);
            vstd::arithmetic::mul::lemma_mul_nonnegative(self.m as int, 7);
            lemma_div_ordered(self.m * 7, (M_MAX * 7) as int, 10);
        }
        let vx = div_trunc(d.x * force * 7, 20_000_000) + div_trunc(self.vx, 5);
        let vy = div_trunc((d.y - UNIT) * force, 5_000_000) + div_trunc(self.vy, 5);
        let mq = self.m * 7 / 10;
        let m = if mq < 1 {
            1
        } else {
            mq
        };
        Body { vx, vy, m, ..*self }
    }

    /// Builds a fragment with the common radial shape: direction times
    /// force plus a fifth of this body's velocity, mass split by the
    /// division count.
    fn fragment(&self, d: Dir, force: i64, divisions: i64) -> (c: Body)
        requires
            wf_body(self@),
            dir_ok(d),
            0 <= force <= F_MAX,
            1 <= divisions,
        ensures
            c@ == (BodyModel {
                vx: tdiv(d.x * force, UNIT as int) + tdiv(self@.vx, 5),
                vy: tdiv(d.y * force, UNIT as int) + tdiv(self@.vy, 5),
                m: floor_mass(tdiv(self@.m, divisions as int)),
                ..self@
            }),
            wf_body(c@),
    {
        proof {
            lemma_mul_abs_bound(d.x as int, force as int, UNIT as int, F_MAX as int);
            lemma_mul_abs_bound(d.y as int, force as int, UNIT as int, F_MAX as int);
            lemma_tdiv_bound(d.x * force, (UNIT * F_MAX) as int, UNIT as int);
            lemma_tdiv_bound(d.y * force, (UNIT * F_MAX) as int, UNIT as int);
            lemma_tdiv_bound(self.vx as int, V_MAX as int, 5);
            lemma_tdiv_bound(self.vy as int, V_MAX as int, 5);
            lemma_div_ordered(self.m as int, M_MAX as int, divisions as int);
        }
        let vx = div_trunc(d.x * force, UNIT) + div_trunc(self.vx, 5);
        let vy = div_trunc(d.y * force, UNIT) + div_trunc(self.vy, 5);
        let mq = self.m / divisions;
        let m = if mq < 1 {
            1
        } else {
            mq
        };
        Body { vx, vy, m, ..*self }
    }

    /// The same body with another colour.
    pub fn with_color(&self, color: HSL) -> (c: Body)
        ensures
            c == (Body { color, ..*self }),
    {
        Body { color, ..*self }
    }

    /// The unit vector of this body's velocity in `UNIT` scale, each
    /// component within one unit; straight right when the body is at rest.
    fn heading(&self) -> (h: (i64, i64))
        requires
            wf_body(self@),
        ensures
            ({
                let n = self@.vx * self@.vx + self@.vy * self@.vy;
                let s = sqrt_floor(n);
                &&& h.0 == if n == 0 { UNIT as int } else { tdiv(self@.vx * UNIT, s) }
                &&& h.1 == if n == 0 { 0int } else { tdiv(self@.vy * UNIT, s) }
                &&& -UNIT <= h.0 <= UNIT
                &&& -UNIT <= h.1 <= UNIT
            }),
    {
        let ghost ni: int = self@.vx * self@.vx + self@.vy * self@.vy;
        proof {
            lemma_mul_abs_bound(self.vx as int, self.vx as int, V_MAX as int, V_MAX as int);
            lemma_mul_abs_bound(self.vy as int, self.vy as int, V_MAX as int, V_MAX as int);
            assert(self.vx * self.vx >= 0 && self.vy * self.vy >= 0) by (nonlinear_arith);
        }
        let n: u64 = ((self.vx as i128) * (self.vx as i128) + (self.vy as i128) * (self.vy
            as i128)) as u64;
        assert(n == ni);
        if n == 0 {
            (UNIT, 0)
        } else {
            let s = isqrt64(n);
            proof {
                let ni = n as int;
                let si = s as int;
                assert(is_isqrt(ni, si));
                assert(si >= 1) by {
                    if si == 0 {
                        assert((si + 1) * (si + 1) == 1) by (nonlinear_arith)
                            requires
                                si == 0,
                        ;
                        assert(ni < 1);
                    }
                }
                assert(self.vx * self.vx <= ni && self.vy * self.vy <= ni) by (nonlinear_arith)
                    requires
                        ni == self.vx * self.vx + self.vy * self.vy,
                ;
                assert(-si <= self.vx as int <= si && -si <= self.vy as int <= si)
                    by (nonlinear_arith)
                    requires
                        self.vx * self.vx <= ni,
                        self.vy * self.vy <= ni,
                        ni < (si + 1) * (si + 1),
                        si >= 0,
                ;
                lemma_mul_abs_bound(self.vx as int, UNIT as int, si, UNIT as int);
                lemma_mul_abs_bound(self.vy as int, UNIT as int, si, UNIT as int);
                vstd::arithmetic::mul::lemma_mul_is_commutative(si, UNIT as int);
                lemma_tdiv_bound(self.vx * UNIT, si * (UNIT as int), si);
                lemma_tdiv_bound(self.vy * UNIT, si * (UNIT as int), si);
                vstd::arithmetic::div_mod::lemma_div_by_multiple(UNIT as int, si);
            }
            let hx = div_trunc(self.vx * UNIT, s as i64);
            let hy = div_trunc(self.vy * UNIT, s as i64);
            (hx, hy)
        }
    }
}

/// Whether a behaviour is one of the launchable firework archetypes.
pub open spec fn is_archetype(b: Behaviour) -> bool {
    match b {
        Behaviour::Chris => true,
        Behaviour::MultiColorChris => true,
        Behaviour::Crosette => true,
        Behaviour::Pistil => true,
        Behaviour::Strobe => true,
        Behaviour::Peony => true,
        Behaviour::Willow => true,
        Behaviour::Comet(_) => true,
        _ => false,
    }
}

/// The archetype two unit draws stand for: a uniform choice among the eight
/// launchable patterns, a comet carrying a uniform emission count in
/// `[20, 65)`.
pub open spec fn spec_random_behaviour(u_count: int, u_choice: int) -> Behaviour {
    let idx = u_choice * 8 / (UNIT as int);
    if idx == 0 {
        Behaviour::Chris
    } else if idx == 1 {
        Behaviour::MultiColorChris
    } else if idx == 2 {
        Behaviour::Crosette
    } else if idx == 3 {
        Behaviour::Pistil
    } else if idx == 4 {
        Behaviour::Strobe
    } else if idx == 5 {
        Behaviour::Peony
    } else if idx == 6 {
        Behaviour::Willow
    } else {
        Behaviour::Comet((20 + u_count * 45 / (UNIT as int)) as i32)
    }
}

/// Draws a launch archetype: an emission-count draw, then a choice draw.
pub fn random_behaviour(rng: &mut DrawSource) -> (b: Behaviour)
    requires
        old(rng).wf(),
    ensures
        final(rng).wf(),
        old(rng).taken(*final(rng), 2, 0, 0),
        b == spec_random_behaviour(
            old(rng).peek_unit() as int,
            old(rng).peek_unit_at(1) as int,
        ),
        wf_behaviour(b),
        is_archetype(b),
{
    let u1 = rng.next_unit();
    let ghost mid = *rng;
    let u2 = rng.next_unit();
    proof {
        crate::draws::lemma_taken_trans(*old(rng), mid, *rng, 1, 0, 0, 1, 0, 0);
        assert(mid.peek_unit() == old(rng).peek_unit_at(1));
        lemma_div_ordered((u2 * 8) as int, (999_999 * 8) as int, UNIT as int);
        lemma_div_ordered((u1 * 45) as int, (999_999 * 45) as int, UNIT as int);
    }
    let idx: u64 = (u2 as u64) * 8 / 1_000_000;
    let cnt: i32 = (20 + (u1 as i64) * 45 / 1_000_000) as i32;
    if idx == 0 {
        Behaviour::Chris
    } else if idx == 1 {
        Behaviour::MultiColorChris
    } else if idx == 2 {
        Behaviour::Crosette
    } else if idx == 3 {
        Behaviour::Pistil
    } else if idx == 4 {
        Behaviour::Strobe
    } else if idx == 5 {
        Behaviour::Peony
    } else if idx == 6 {
        Behaviour::Willow
    } else {
        Behaviour::Comet(cnt)
    }
}

/// `from + (to - from) * ease`, truncating and clamped to the position range.
fn lerp_component(from: i64, to: i64, ease: i64) -> (r: i64)
    requires
        -P_MAX <= from <= P_MAX,
        -P_MAX <= to <= P_MAX,
        -81 * UNIT <= ease <= UNIT,
    ensures
        r == spec_lerp_pos(from as int, to as int, ease as int),
{
    proof {
        lemma_mul_abs_bound((to - from) as int, ease as int, 0x4000_0000_0000_0000, 81_000_000);
        lemma_tdiv_bound((to - from) * ease, (0x4000_0000_0000_0000 * 81_000_000) as int, UNIT as int);
    }
    let prod: i128 = ((to as i128) - (from as i128)) * (ease as i128);
    let q = div_trunc_i128(prod, UNIT as i128);
    let s: i128 = (from as i128) + q;
    if s < (-P_MAX) as i128 {
        -P_MAX
    } else if s > P_MAX as i128 {
        P_MAX
    } else {
        s as i64
    }
}

} // verus!
