//! 2D vectors with fixed-point components.
//!
//! A `Vec2D` holds a point or displacement in the plane, each component an
//! `i64` count of thousandths of a unit. Contracts are stated over
//! `Vec2Model`, the vector's exact integer value.

use crate::fixed::{
    fdiv, fmul, iabs, in_i64, int_sqrt, isqrt_u128, lemma_int_sqrt_bounds, lemma_int_sqrt_ge,
    lemma_tdiv_scaled_bound, tdiv, tdiv_i128, SCALE,
};
use vstd::prelude::*;

verus! {

/// Exact integer value of a vector: its components in thousandths.
pub ghost struct Vec2Model {
    pub x: int,
    pub y: int,
}

/// A vector in the plane, components in thousandths of a unit.
#[derive(Clone, Copy, Debug, PartialEq, Eq, Structural)]
pub struct Vec2D {
    pub x: i64,
    pub y: i64,
}

impl View for Vec2D {
    type V = Vec2Model;

    open spec fn view(&self) -> Vec2Model {
        Vec2Model { x: self.x as int, y: self.y as int }
    }
}

/// Componentwise difference `a - b`.
pub open spec fn spec_offset(a: Vec2Model, b: Vec2Model) -> Vec2Model {
    Vec2Model { x: a.x - b.x, y: a.y - b.y }
}

/// Componentwise sum `a + b`.
pub open spec fn spec_adding(a: Vec2Model, b: Vec2Model) -> Vec2Model {
    Vec2Model { x: a.x + b.x, y: a.y + b.y }
}

/// Inner product of `a` and `b`, truncated to the fixed-point grid.
pub open spec fn spec_dot(a: Vec2Model, b: Vec2Model) -> int {
    tdiv(a.x * b.x + a.y * b.y, SCALE as int)
}

/// Squared Euclidean norm, truncated to the fixed-point grid.
pub open spec fn spec_mag_sqr(a: Vec2Model) -> int {
    tdiv(a.x * a.x + a.y * a.y, SCALE as int)
}

/// Euclidean norm, rounded down. Because the components count thousandths,
/// the norm in thousandths is exactly the integer square root of the sum of
/// the raw squares.
pub open spec fn spec_magnitude(a: Vec2Model) -> int {
    int_sqrt(a.x * a.x + a.y * a.y)
}

/// The vector scaled to unit length, each component truncated; the zero
/// vector maps to the zero vector.
pub open spec fn spec_unit(a: Vec2Model) -> Vec2Model {
    let m = spec_magnitude(a);
    if m <= 0 {
        Vec2Model { x: 0, y: 0 }
    } else {
        Vec2Model { x: fdiv(a.x, m), y: fdiv(a.y, m) }
    }
}

/// The vector scaled by the fixed-point scalar `s`, componentwise truncated.
pub open spec fn spec_scaled(a: Vec2Model, s: int) -> Vec2Model {
    Vec2Model { x: fmul(a.x, s), y: fmul(a.y, s) }
}

/// The dot product's intermediate sum and its truncated result both fit the
/// machine words the implementation uses.
pub open spec fn dot_fits(a: Vec2Model, b: Vec2Model) -> bool {
    &&& i128::MIN < a.x * b.x + a.y * b.y <= i128::MAX
    &&& in_i64(spec_dot(a, b))
}

/// The squared norm's intermediate sum and its truncated result both fit the
/// machine words the implementation uses.
pub open spec fn mag_sqr_fits(a: Vec2Model) -> bool {
    &&& a.x * a.x + a.y * a.y <= i128::MAX
    &&& in_i64(spec_mag_sqr(a))
}

/// Both components of the scaled vector fit an `i64`.
pub open spec fn scaled_fits(a: Vec2Model, s: int) -> bool {
    in_i64(spec_scaled(a, s).x) && in_i64(spec_scaled(a, s).y)
}

/// A unit vector's components never exceed one whole unit in magnitude.
pub proof fn lemma_unit_bounds(a: Vec2Model)
    ensures
        iabs(spec_unit(a).x) <= SCALE as int,
        iabs(spec_unit(a).y) <= SCALE as int,
{
    let n = a.x * a.x + a.y * a.y;
    let m = spec_magnitude(a);
    assert(iabs(a.x) * iabs(a.x) == a.x * a.x && iabs(a.y) * iabs(a.y) == a.y * a.y && a.x * a.x
        >= 0 && a.y * a.y >= 0) by (nonlinear_arith);
    if m > 0 {
        lemma_int_sqrt_ge(iabs(a.x), n);
        lemma_int_sqrt_ge(iabs(a.y), n);
        lemma_tdiv_scaled_bound(a.x, SCALE as int, m);
        lemma_tdiv_scaled_bound(a.y, SCALE as int, m);
    }
}

/// Bounds on the products of two `i64`-ranged integers, to show that the wide
/// intermediates below cannot overflow an `i128`.
proof fn lemma_i64_product_range(a: int, b: int)
    requires
        in_i64(a),
        in_i64(b),
    ensures
        -0x4000_0000_0000_0000_0000_0000_0000_0000 <= a * b
            <= 0x4000_0000_0000_0000_0000_0000_0000_0000,
{
    assert(-0x4000_0000_0000_0000_0000_0000_0000_0000 <= a * b
        <= 0x4000_0000_0000_0000_0000_0000_0000_0000) by (nonlinear_arith)
        requires
            -0x8000_0000_0000_0000 <= a <= 0x7fff_ffff_ffff_ffff,
            -0x8000_0000_0000_0000 <= b <= 0x7fff_ffff_ffff_ffff,
    ;
}

impl Vec2D {
    /// Create a new instance.
    pub fn new(x: i64, y: i64) -> (r: Vec2D)
        ensures
            r@.x == x as int,
            r@.y == y as int,
    {
        Vec2D { x, y }
    }

    /// The offset of `self` from `other`: `self - other`.
    pub fn offset(&self, other: &Vec2D) -> (r: Vec2D)
        requires
            in_i64(self@.x - other@.x),
            in_i64(self@.y - other@.y),
        ensures
            r@ == spec_offset(self@, other@),
    {
        Vec2D { x: self.x - other.x, y: self.y - other.y }
    }

    /// The sum of `self` and `other`.
    pub fn adding(&self, other: &Vec2D) -> (r: Vec2D)
        requires
            in_i64(self@.x + other@.x),
            in_i64(self@.y + other@.y),
        ensures
            r@ == spec_adding(self@, other@),
    {
        Vec2D { x: self.x + other.x, y: self.y + other.y }
    }

    /// Add `other` to `self` in place.
    pub fn add(&mut self, other: &Vec2D)
        requires
            in_i64(old(self)@.x + other@.x),
            in_i64(old(self)@.y + other@.y),
        ensures
            final(self)@ == spec_adding(old(self)@, other@),
    {
        self.x = self.x + other.x;
        self.y = self.y + other.y;
    }

    /// The dot product of `self` and `other` -- the magnitude of `self` in
    /// the direction of `other`, in thousandths.
    pub fn dot(&self, other: &Vec2D) -> (r: i64)
        requires
            dot_fits(self@, other@),
        ensures
            r as int == spec_dot(self@, other@),
    {
        proof {
            lemma_i64_product_range(self@.x, other@.x);
            lemma_i64_product_range(self@.y, other@.y);
        }
        let w: i128 = (self.x as i128) * (other.x as i128) + (self.y as i128) * (other.y as i128);
        let q = tdiv_i128(w, SCALE as i128);
        q as i64
    }

    /// The squared magnitude of `self`, in thousandths; avoids the square
    /// root where only relative distances matter.
    pub fn mag_sqr(&self) -> (r: i64)
        requires
            mag_sqr_fits(self@),
        ensures
            r as int == spec_mag_sqr(self@),
    {
        proof {
            lemma_i64_product_range(self@.x, self@.x);
            lemma_i64_product_range(self@.y, self@.y);
            assert(self@.x * self@.x >= 0 && self@.y * self@.y >= 0) by (nonlinear_arith);
        }
        let w: i128 = (self.x as i128) * (self.x as i128) + (self.y as i128) * (self.y as i128);
        let q = tdiv_i128(w, SCALE as i128);
        q as i64
    }

    /// The magnitude of `self`, in thousandths, rounded down.
    pub fn magnitude(&self) -> (r: i64)
        requires
            in_i64(spec_magnitude(self@)),
        ensures
            r as int == spec_magnitude(self@),
            r >= 0,
    {
        proof {
            lemma_i64_product_range(self@.x, self@.x);
            lemma_i64_product_range(self@.y, self@.y);
            assert(self@.x * self@.x >= 0 && self@.y * self@.y >= 0) by (nonlinear_arith);
            lemma_int_sqrt_bounds(self@.x * self@.x + self@.y * self@.y);
        }
        let xx: u128 = ((self.x as i128) * (self.x as i128)) as u128;
        let yy: u128 = ((self.y as i128) * (self.y as i128)) as u128;
        let m = isqrt_u128(xx + yy);
        m as i64
    }

    /// The unit vector with the same direction as `self`, componentwise
    /// truncated; the zero vector yields the zero vector rather than failing.
    pub fn unit(&self) -> (r: Vec2D)
        ensures
            r@ == spec_unit(self@),
    {
        let ghost n: int = self@.x * self@.x + self@.y * self@.y;
        proof {
            lemma_i64_product_range(self@.x, self@.x);
            lemma_i64_product_range(self@.y, self@.y);
            assert(self@.x * self@.x >= 0 && self@.y * self@.y >= 0) by (nonlinear_arith);
            lemma_int_sqrt_bounds(n);
            assert(int_sqrt(n) < 0x1_0000_0000_0000_0000) by {
                if int_sqrt(n) >= 0x1_0000_0000_0000_0000 {
                    assert(int_sqrt(n) * int_sqrt(n)
                        >= 0x1_0000_0000_0000_0000_0000_0000_0000_0000) by (nonlinear_arith)
                        requires
                            int_sqrt(n) >= 0x1_0000_0000_0000_0000,
                    ;
                }
            }
        }
        let xx: u128 = ((self.x as i128) * (self.x as i128)) as u128;
        let yy: u128 = ((self.y as i128) * (self.y as i128)) as u128;
        let m = isqrt_u128(xx + yy);
        if m == 0 {
            Vec2D { x: 0, y: 0 }
        } else {
            proof {
                let mi = int_sqrt(n);
                assert(iabs(self@.x) * iabs(self@.x) == self@.x * self@.x && iabs(self@.y) * iabs(
                    self@.y,
                ) == self@.y * self@.y) by (nonlinear_arith);
                lemma_int_sqrt_ge(iabs(self@.x), n);
                lemma_int_sqrt_ge(iabs(self@.y), n);
                lemma_tdiv_scaled_bound(self@.x, SCALE as int, mi);
                lemma_tdiv_scaled_bound(self@.y, SCALE as int, mi);
            }
            let nx = tdiv_i128((self.x as i128) * (SCALE as i128), m as i128);
            let ny = tdiv_i128((self.y as i128) * (SCALE as i128), m as i128);
            Vec2D { x: nx as i64, y: ny as i64 }
        }
    }

    /// `self` multiplied by the fixed-point scalar `s`.
    pub fn scaled(&self, s: i64) -> (r: Vec2D)
        requires
            scaled_fits(self@, s as int),
        ensures
            r@ == spec_scaled(self@, s as int),
    {
        proof {
            lemma_i64_product_range(self@.x, s as int);
            lemma_i64_product_range(self@.y, s as int);
        }
        let rx = tdiv_i128((self.x as i128) * (s as i128), SCALE as i128);
        let ry = tdiv_i128((self.y as i128) * (s as i128), SCALE as i128);
        Vec2D { x: rx as i64, y: ry as i64 }
    }
}

/// The unit vector of the zero vector is the zero vector: the degenerate
/// case is a total, documented policy rather than a failure.
pub proof fn lemma_unit_zero()
    ensures
        spec_unit((Vec2Model { x: 0, y: 0 })) == (Vec2Model { x: 0, y: 0 }),
{
}

} // verus!
