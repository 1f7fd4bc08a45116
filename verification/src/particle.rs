//! Point-mass particles and the impulse physics of their collisions.
//!
//! A particle bundles mass, radius, position and velocity, all fixed-point.
//! The collision predicate compares exact squared distances; resolution
//! applies an equal and opposite impulse along the unit normal between the
//! two centers, with restitution 1 (perfectly elastic). Contracts are stated
//! over `ParticleModel`, the particle's exact integer value.

use crate::fixed::{
    fdiv, fmul, iabs, in_i64, int_sqrt, isqrt_u128, lemma_int_sqrt_bounds, lemma_mul_bound,
    lemma_tdiv_le, lemma_tdiv_neg, tdiv_i128, SCALE,
};
use crate::vec2d::{
    lemma_unit_bounds, spec_adding, spec_dot, spec_offset, spec_scaled, spec_unit, Vec2D, Vec2Model,
};
use vstd::arithmetic::div_mod::lemma_div_pos_is_pos;
use vstd::prelude::*;

verus! {

/// Mass of a freshly created particle: one whole unit.
pub const UNIT_MASS: i64 = 1000;

/// Radius of a freshly created particle: a tenth of a unit.
pub const DEFAULT_RADIUS: i64 = 100;

/// Exact integer value of a particle.
pub ghost struct ParticleModel {
    pub mass: int,
    pub radius: int,
    pub s: Vec2Model,
    pub v: Vec2Model,
}

/// A point mass in the plane. Mass and radius are fixed for the particle's
/// lifetime; only position and velocity change.
#[derive(Clone, Copy, Debug, PartialEq, Eq, Structural)]
pub struct Particle {
    pub mass: i64,
    pub radius: i64,
    pub s: Vec2D,
    pub v: Vec2D,
}

impl View for Particle {
    type V = ParticleModel;

    open spec fn view(&self) -> ParticleModel {
        ParticleModel { mass: self.mass as int, radius: self.radius as int, s: self.s@, v: self.v@ }
    }
}

/// The square of an integer.
pub open spec fn sq(x: int) -> int {
    x * x
}

/// Squared distance between two particles' centers, exact (in squared
/// thousandths; no truncation).
pub open spec fn spec_sep_sq(a: ParticleModel, b: ParticleModel) -> int {
    sq(a.s.x - b.s.x) + sq(a.s.y - b.s.y)
}

/// Two particles collide when the squared distance between their centers is
/// at most the square of the sum of their radii.
pub open spec fn spec_colliding(a: ParticleModel, b: ParticleModel) -> bool {
    spec_sep_sq(a, b) <= sq(a.radius + b.radius)
}

/// Unit normal of the collision: from `b`'s center toward `a`'s center.
pub open spec fn spec_normal(a: ParticleModel, b: ParticleModel) -> Vec2Model {
    spec_unit(spec_offset(a.s, b.s))
}

/// Sum of the two inverse masses, in thousandths.
pub open spec fn spec_denom(a: ParticleModel, b: ParticleModel) -> int {
    fdiv(SCALE as int, a.mass) + fdiv(SCALE as int, b.mass)
}

/// Impulse numerator: `-(1 + e)` times the relative velocity along `n`,
/// with restitution `e` fixed at one.
pub open spec fn spec_numer(a: ParticleModel, b: ParticleModel, n: Vec2Model) -> int {
    fmul(-2 * SCALE as int, spec_dot(spec_offset(a.v, b.v), n))
}

/// Scalar impulse magnitude along `n`. For an approaching pair the value is
/// negative and drives the two apart; for a pair already separating the sign
/// flips, which separates overlapping bodies further -- the formula is kept
/// exactly as stated, sign and all.
pub open spec fn spec_impulse(a: ParticleModel, b: ParticleModel, n: Vec2Model) -> int {
    fdiv(spec_numer(a, b, n), spec_denom(a, b))
}

/// The impulse computation's inputs are in the supported domain and its
/// result fits the return word: positive masses, a normal no longer than one
/// unit, a positive inverse-mass sum, and an `i64`-sized result.
pub open spec fn impulse_fits(a: ParticleModel, b: ParticleModel, n: Vec2Model) -> bool {
    &&& a.mass > 0
    &&& b.mass > 0
    &&& iabs(n.x) <= SCALE as int
    &&& iabs(n.y) <= SCALE as int
    &&& spec_denom(a, b) > 0
    &&& in_i64(spec_impulse(a, b, n))
}

/// Both particles after resolving a collision of `a` with `b`: each velocity
/// changes by the impulse along the normal, scaled by `a`'s inverse mass --
/// the denominator is `a`'s mass on both sides, exactly as the update rule
/// stands.
pub open spec fn spec_resolved(a: ParticleModel, b: ParticleModel) -> (ParticleModel,
    ParticleModel) {
    let n = spec_normal(a, b);
    let j = spec_impulse(a, b, n);
    let ia = spec_scaled(n, fdiv(-j, a.mass));
    let ib = spec_scaled(n, fdiv(j, a.mass));
    (
        ParticleModel { mass: a.mass, radius: a.radius, s: a.s, v: spec_offset(a.v, ia) },
        ParticleModel { mass: b.mass, radius: b.radius, s: b.s, v: spec_offset(b.v, ib) },
    )
}

/// The resolution's inputs are in the supported domain and its results fit
/// the particles' words: a representable squared separation, positive
/// masses, a positive inverse-mass sum, and `i64`-sized updated velocities.
pub open spec fn resolve_fits(a: ParticleModel, b: ParticleModel) -> bool {
    &&& spec_sep_sq(a, b) <= u128::MAX as int
    &&& a.mass > 0
    &&& b.mass > 0
    &&& spec_denom(a, b) > 0
    &&& in_i64(spec_resolved(a, b).0.v.x)
    &&& in_i64(spec_resolved(a, b).0.v.y)
    &&& in_i64(spec_resolved(a, b).1.v.x)
    &&& in_i64(spec_resolved(a, b).1.v.y)
}

/// Collision resolution as a total function: outside the supported domain
/// (`resolve_fits`) the pair is left unchanged.
pub open spec fn spec_collide(a: ParticleModel, b: ParticleModel) -> (ParticleModel,
    ParticleModel) {
    if resolve_fits(a, b) {
        spec_resolved(a, b)
    } else {
        (a, b)
    }
}

/// Whether the position advanced by the velocity stays representable.
pub open spec fn integrate_fits(p: ParticleModel) -> bool {
    in_i64(p.s.x + p.v.x) && in_i64(p.s.y + p.v.y)
}

/// One explicit Euler step with unit time increment, total: a position that
/// would leave the representable range is left unchanged.
pub open spec fn spec_integrate(p: ParticleModel) -> ParticleModel {
    if integrate_fits(p) {
        ParticleModel { mass: p.mass, radius: p.radius, s: spec_adding(p.s, p.v), v: p.v }
    } else {
        p
    }
}

/// The impulse is bounded once the normal is no longer than one unit and the
/// velocities are `i64`-sized; the bound leaves ample room in an `i128`.
proof fn lemma_impulse_bound(a: ParticleModel, b: ParticleModel, n: Vec2Model)
    requires
        in_i64(a.v.x),
        in_i64(a.v.y),
        in_i64(b.v.x),
        in_i64(b.v.y),
        iabs(n.x) <= SCALE as int,
        iabs(n.y) <= SCALE as int,
    ensures
        iabs(spec_dot(spec_offset(a.v, b.v), n)) <= 0x8000_0000_0000_0000_0000,
        iabs(spec_numer(a, b, n)) <= 0x4_0000_0000_0000_0000_000000,
        iabs(spec_impulse(a, b, n)) <= 0x1000_0000_0000_0000_0000_000000,
{
    let vr = spec_offset(a.v, b.v);
    assert(iabs(vr.x) <= 0x1_0000_0000_0000_0000 && iabs(vr.y) <= 0x1_0000_0000_0000_0000);
    lemma_mul_bound(vr.x, n.x, 0x1_0000_0000_0000_0000, 1000);
    lemma_mul_bound(vr.y, n.y, 0x1_0000_0000_0000_0000, 1000);
    assert(iabs(vr.x * n.x + vr.y * n.y) <= 0x7d0_0000_0000_0000_0000);
    lemma_tdiv_le(vr.x * n.x + vr.y * n.y, SCALE as int);
    let d = spec_dot(vr, n);
    lemma_mul_bound(-2 * SCALE as int, d, 2000, 0x8000_0000_0000_0000_0000);
    lemma_tdiv_le(-2 * SCALE as int * d, SCALE as int);
    let numer = spec_numer(a, b, n);
    lemma_mul_bound(numer, SCALE as int, 0x4_0000_0000_0000_0000_000000, 1000);
    if spec_denom(a, b) > 0 {
        lemma_tdiv_le(numer * SCALE as int, spec_denom(a, b));
    }
}

/// Computes the scalar impulse for `a` colliding with `b` along the wide
/// normal `(nx, ny)`; the shared core of `get_impulse` and `collide_with`.
fn impulse_wide(a: &Particle, b: &Particle, nx: i128, ny: i128) -> (j: i128)
    requires
        a@.mass > 0,
        b@.mass > 0,
        iabs(nx as int) <= SCALE as int,
        iabs(ny as int) <= SCALE as int,
        spec_denom(a@, b@) > 0,
    ensures
        j as int == spec_impulse(a@, b@, (Vec2Model { x: nx as int, y: ny as int })),
{
    let ghost n = Vec2Model { x: nx as int, y: ny as int };
    proof {
        lemma_impulse_bound(a@, b@, n);
        lemma_mul_bound(a@.v.x - b@.v.x, n.x, 0x1_0000_0000_0000_0000, 1000);
        lemma_mul_bound(a@.v.y - b@.v.y, n.y, 0x1_0000_0000_0000_0000, 1000);
    }
    let vrx: i128 = a.v.x as i128 - b.v.x as i128;
    let vry: i128 = a.v.y as i128 - b.v.y as i128;
    let dotw: i128 = vrx * nx + vry * ny;
    let dt: i128 = tdiv_i128(dotw, SCALE as i128);
    proof {
        lemma_tdiv_le(dotw as int, SCALE as int);
        lemma_mul_bound(-2000, dt as int, 2000, 0x8000_0000_0000_0000_0000);
    }
    let numer: i128 = tdiv_i128(-2000 * dt, SCALE as i128);
    proof {
        lemma_tdiv_le(-2000 * dt as int, SCALE as int);
        lemma_div_pos_is_pos(SCALE as int * SCALE as int, a@.mass);
        lemma_div_pos_is_pos(SCALE as int * SCALE as int, b@.mass);
        lemma_tdiv_le(SCALE as int * SCALE as int, a@.mass);
        lemma_tdiv_le(SCALE as int * SCALE as int, b@.mass);
        lemma_mul_bound(numer as int, SCALE as int, 0x4_0000_0000_0000_0000_000000, 1000);
    }
    let t1: i128 = tdiv_i128(1_000_000, a.mass as i128);
    let t2: i128 = tdiv_i128(1_000_000, b.mass as i128);
    let denom: i128 = t1 + t2;
    assert(denom as int == spec_denom(a@, b@));
    tdiv_i128(numer * 1000, denom)
}

impl Particle {
    /// Create a particle at position `s` with velocity `v`, unit mass and
    /// the default radius.
    pub fn new(s: &Vec2D, v: &Vec2D) -> (p: Particle)
        ensures
            p@.mass == UNIT_MASS as int,
            p@.radius == DEFAULT_RADIUS as int,
            p@.s == s@,
            p@.v == v@,
    {
        Particle { mass: UNIT_MASS, radius: DEFAULT_RADIUS, s: s.clone(), v: v.clone() }
    }

    /// Find out if `self` is close enough to `other` to be colliding. Total:
    /// the exact squared distance is compared against the exact squared
    /// radius sum, with no truncation.
    pub fn is_colliding(&self, other: &Particle) -> (r: bool)
        ensures
            r == spec_colliding(self@, other@),
    {
        let dx: i128 = self.s.x as i128 - other.s.x as i128;
        let dy: i128 = self.s.y as i128 - other.s.y as i128;
        let adx: u128 = if dx < 0 {
            (-dx) as u128
        } else {
            dx as u128
        };
        let ady: u128 = if dy < 0 {
            (-dy) as u128
        } else {
            dy as u128
        };
        let drad: i128 = self.radius as i128 + other.radius as i128;
        proof {
            lemma_mul_bound(adx as int, adx as int, 0xffff_ffff_ffff_ffff, 0xffff_ffff_ffff_ffff);
            lemma_mul_bound(ady as int, ady as int, 0xffff_ffff_ffff_ffff, 0xffff_ffff_ffff_ffff);
            assert(adx as int * adx as int == sq(self@.s.x - other@.s.x) && ady as int * ady as int
                == sq(self@.s.y - other@.s.y)) by (nonlinear_arith)
                requires
                    adx as int == iabs(self@.s.x - other@.s.x),
                    ady as int == iabs(self@.s.y - other@.s.y),
            ;
        }
        let dx2: u128 = adx * adx;
        let dy2: u128 = ady * ady;
        // Each side of the comparison can reach two machine words; track a
        // carry past `u128::MAX` explicitly so the comparison stays exact.
        let sep_carry: bool = dx2 > u128::MAX - dy2;
        let sep_low: u128 = if sep_carry {
            dx2 - (u128::MAX - dy2) - 1
        } else {
            dx2 + dy2
        };
        let rad_carry: bool = drad < -0xffff_ffff_ffff_ffff;
        let rad_low: u128 = if rad_carry {
            0
        } else {
            let adr: u128 = if drad < 0 {
                (-drad) as u128
            } else {
                drad as u128
            };
            proof {
                lemma_mul_bound(adr as int, adr as int, 0xffff_ffff_ffff_ffff, 0xffff_ffff_ffff_ffff);
                assert(adr as int * adr as int == sq(self@.radius + other@.radius))
                    by (nonlinear_arith)
                    requires
                        adr as int == iabs(self@.radius + other@.radius),
                ;
            }
            adr * adr
        };
        proof {
            if rad_carry {
                assert(sq(self@.radius + other@.radius) == 0x1_0000_0000_0000_0000_0000_0000_0000_0000)
                    by (nonlinear_arith)
                    requires
                        self@.radius + other@.radius == -0x1_0000_0000_0000_0000,
                ;
            }
        }
        if sep_carry != rad_carry {
            rad_carry
        } else {
            sep_low <= rad_low
        }
    }

    /// Get the impulse magnitude for `self` colliding with `other` in the
    /// direction of the unit offset vector `n` between the two. A diverging
    /// pair (already separating along `n`) yields a negative magnitude of
    /// the same size.
    pub fn get_impulse(&self, other: &Particle, n: &Vec2D) -> (r: i64)
        requires
            impulse_fits(self@, other@, n@),
        ensures
            r as int == spec_impulse(self@, other@, n@),
    {
        let j = impulse_wide(self, other, n.x as i128, n.y as i128);
        j as i64
    }

    /// Resolve the collision of `self` with `other`: apply equal and
    /// opposite impulses along the unit normal between the centers. The
    /// caller is responsible for having established the collision; on inputs
    /// whose resolution would leave the representable range
    /// (`resolve_fits` fails) both particles are left unchanged.
    pub fn collide_with(&mut self, other: &mut Particle)
        ensures
            final(self)@ == spec_collide(old(self)@, old(other)@).0,
            final(other)@ == spec_collide(old(self)@, old(other)@).1,
    {
        let ghost a = old(self)@;
        let ghost b = old(other)@;
        if self.mass <= 0 || other.mass <= 0 {
            return ;
        }
        let dx: i128 = self.s.x as i128 - other.s.x as i128;
        let dy: i128 = self.s.y as i128 - other.s.y as i128;
        let adx: u128 = if dx < 0 {
            (-dx) as u128
        } else {
            dx as u128
        };
        let ady: u128 = if dy < 0 {
            (-dy) as u128
        } else {
            dy as u128
        };
        proof {
            lemma_mul_bound(adx as int, adx as int, 0xffff_ffff_ffff_ffff, 0xffff_ffff_ffff_ffff);
            lemma_mul_bound(ady as int, ady as int, 0xffff_ffff_ffff_ffff, 0xffff_ffff_ffff_ffff);
            assert(adx as int * adx as int == sq(a.s.x - b.s.x) && ady as int * ady as int == sq(
                a.s.y - b.s.y,
            )) by (nonlinear_arith)
                requires
                    adx as int == iabs(a.s.x - b.s.x),
                    ady as int == iabs(a.s.y - b.s.y),
            ;
        }
        let dx2: u128 = adx * adx;
        let dy2: u128 = ady * ady;
        if dx2 > u128::MAX - dy2 {
            return ;
        }
        let ssq: u128 = dx2 + dy2;
        let m = isqrt_u128(ssq);
        proof {
            lemma_int_sqrt_bounds(ssq as int);
            assert(int_sqrt(ssq as int) < 0x1_0000_0000_0000_0000) by {
                if int_sqrt(ssq as int) >= 0x1_0000_0000_0000_0000 {
                    assert(int_sqrt(ssq as int) * int_sqrt(ssq as int)
                        >= 0x1_0000_0000_0000_0000_0000_0000_0000_0000) by (nonlinear_arith)
                        requires
                            int_sqrt(ssq as int) >= 0x1_0000_0000_0000_0000,
                    ;
                }
            }
            lemma_unit_bounds(spec_offset(a.s, b.s));
        }
        let ghost off: Vec2Model = spec_offset(a.s, b.s);
        let mut nx: i128 = 0;
        let mut ny: i128 = 0;
        if m > 0 {
            proof {
                let mi = int_sqrt(ssq as int);
                assert(iabs(off.x) * iabs(off.x) == off.x * off.x && iabs(off.y) * iabs(off.y)
                    == off.y * off.y) by (nonlinear_arith);
                crate::fixed::lemma_int_sqrt_ge(iabs(off.x), ssq as int);
                crate::fixed::lemma_int_sqrt_ge(iabs(off.y), ssq as int);
            }
            nx = tdiv_i128(dx * (SCALE as i128), m as i128);
            ny = tdiv_i128(dy * (SCALE as i128), m as i128);
        }
        assert(nx as int == spec_normal(a, b).x && ny as int == spec_normal(a, b).y);
        proof {
            lemma_div_pos_is_pos(SCALE as int * SCALE as int, a.mass);
            lemma_div_pos_is_pos(SCALE as int * SCALE as int, b.mass);
            lemma_tdiv_le(SCALE as int * SCALE as int, a.mass);
            lemma_tdiv_le(SCALE as int * SCALE as int, b.mass);
        }
        let t1: i128 = tdiv_i128(1_000_000, self.mass as i128);
        let t2: i128 = tdiv_i128(1_000_000, other.mass as i128);
        if t1 + t2 == 0 {
            return ;
        }
        let ghost n: Vec2Model = spec_normal(a, b);
        let jw = impulse_wide(self, other, nx, ny);
        proof {
            lemma_impulse_bound(a, b, n);
            lemma_mul_bound(jw as int, SCALE as int, 0x1000_0000_0000_0000_0000_000000, 1000);
            lemma_tdiv_le(-(jw as int) * SCALE as int, a.mass);
            lemma_tdiv_le(jw as int * SCALE as int, a.mass);
        }
        let qa: i128 = tdiv_i128(-jw * 1000, self.mass as i128);
        let qb: i128 = tdiv_i128(jw * 1000, self.mass as i128);
        proof {
            lemma_mul_bound(nx as int, qa as int, 1000, 0x400_0000_0000_0000_0000_0000_000000);
            lemma_mul_bound(nx as int, qb as int, 1000, 0x400_0000_0000_0000_0000_0000_000000);
            lemma_mul_bound(ny as int, qa as int, 1000, 0x400_0000_0000_0000_0000_0000_000000);
            lemma_mul_bound(ny as int, qb as int, 1000, 0x400_0000_0000_0000_0000_0000_000000);
            lemma_tdiv_le(nx as int * qa as int, SCALE as int);
            lemma_tdiv_le(nx as int * qb as int, SCALE as int);
            lemma_tdiv_le(ny as int * qa as int, SCALE as int);
            lemma_tdiv_le(ny as int * qb as int, SCALE as int);
        }
        let iax: i128 = tdiv_i128(nx * qa, SCALE as i128);
        let iay: i128 = tdiv_i128(ny * qa, SCALE as i128);
        let ibx: i128 = tdiv_i128(nx * qb, SCALE as i128);
        let iby: i128 = tdiv_i128(ny * qb, SCALE as i128);
        let v1x: i128 = self.v.x as i128 - iax;
        let v1y: i128 = self.v.y as i128 - iay;
        let v2x: i128 = other.v.x as i128 - ibx;
        let v2y: i128 = other.v.y as i128 - iby;
        assert(v1x as int == spec_resolved(a, b).0.v.x && v1y as int == spec_resolved(a, b).0.v.y
            && v2x as int == spec_resolved(a, b).1.v.x && v2y as int == spec_resolved(a, b).1.v.y);
        let lo: i128 = i64::MIN as i128;
        let hi: i128 = i64::MAX as i128;
        if v1x < lo || v1x > hi || v1y < lo || v1y > hi || v2x < lo || v2x > hi || v2y < lo || v2y
            > hi {
            return ;
        }
        assert(resolve_fits(a, b));
        self.v = Vec2D { x: v1x as i64, y: v1y as i64 };
        other.v = Vec2D { x: v2x as i64, y: v2y as i64 };
    }

    /// Update `self`'s position by its velocity: one explicit Euler step
    /// with unit time increment. Total: if the new position would leave the
    /// representable range, the position is left unchanged.
    pub fn update_position(&mut self)
        ensures
            final(self)@ == spec_integrate(old(self)@),
    {
        let sx: i128 = self.s.x as i128 + self.v.x as i128;
        let sy: i128 = self.s.y as i128 + self.v.y as i128;
        if sx >= i64::MIN as i128 && sx <= i64::MAX as i128 && sy >= i64::MIN as i128 && sy
            <= i64::MAX as i128 {
            let v = self.v;
            self.s.add(&v);
        }
    }
}

/// Collision is symmetric: `a` collides with `b` exactly when `b` collides
/// with `a`.
pub proof fn lemma_collision_symmetric(a: ParticleModel, b: ParticleModel)
    ensures
        spec_colliding(a, b) == spec_colliding(b, a),
{
    assert(sq(a.s.x - b.s.x) == sq(b.s.x - a.s.x) && sq(a.s.y - b.s.y) == sq(b.s.y - a.s.y) && sq(
        a.radius + b.radius,
    ) == sq(b.radius + a.radius)) by (nonlinear_arith);
}

/// The collision predicate's boundary is sharp: centers exactly a radius sum
/// apart collide; any farther and they do not.
pub proof fn lemma_collision_boundary(a: ParticleModel, b: ParticleModel)
    ensures
        spec_sep_sq(a, b) == sq(a.radius + b.radius) ==> spec_colliding(a, b),
        spec_sep_sq(a, b) > sq(a.radius + b.radius) ==> !spec_colliding(a, b),
{
}

/// The two velocity changes of a resolution are exact negations of one
/// another, so the componentwise sum of the pair's velocities is unchanged --
/// for the unit masses the world creates, that sum is the total momentum.
/// This also holds when the resolution is skipped as unrepresentable.
pub proof fn lemma_momentum_conserved(a: ParticleModel, b: ParticleModel)
    ensures
        spec_collide(a, b).0.v.x + spec_collide(a, b).1.v.x == a.v.x + b.v.x,
        spec_collide(a, b).0.v.y + spec_collide(a, b).1.v.y == a.v.y + b.v.y,
{
    if resolve_fits(a, b) {
        let n = spec_normal(a, b);
        let j = spec_impulse(a, b, n);
        lemma_tdiv_neg(j * SCALE as int, a.mass);
        assert(-j * SCALE as int == -(j * SCALE as int)) by (nonlinear_arith);
        let qa = fdiv(-j, a.mass);
        let qb = fdiv(j, a.mass);
        assert(qa == -qb);
        assert(n.x * qa == -(n.x * qb) && n.y * qa == -(n.y * qb)) by (nonlinear_arith)
            requires
                qa == -qb,
        ;
        lemma_tdiv_neg(n.x * qb, SCALE as int);
        lemma_tdiv_neg(n.y * qb, SCALE as int);
    }
}

/// A particle with zero velocity keeps its position under integration, so
/// any number of integration steps leaves it unchanged.
pub proof fn lemma_integrate_zero_velocity(p: ParticleModel)
    requires
        p.v.x == 0,
        p.v.y == 0,
        in_i64(p.s.x),
        in_i64(p.s.y),
    ensures
        spec_integrate(p) == p,
{
}

} // verus!
