//! Fixed-point three-component vectors.
//!
//! Components are fixed-point scalars (see [`crate::fixed`]); every
//! operation truncates like the scalar ops and saturates at the
//! representable range, so well-formedness is preserved throughout the
//! pipeline.

use vstd::prelude::*;

use crate::fixed::SCALE;
use crate::fixed::clamp_fx;
use crate::fixed::floor_sqrt;
use crate::fixed::fx_clamp;
use crate::fixed::fx_mul;
use crate::fixed::fx_mul_spec;
use crate::fixed::in_range;
use crate::fixed::isqrt;
use crate::fixed::lemma_mul_in_bounds;
use crate::fixed::lemma_tdiv_magnitude;
use crate::fixed::tdiv;

verus! {

/// A vector of three fixed-point scalars.
#[derive(Clone, Copy, Debug, PartialEq, Eq, Structural)]
pub struct Vec3 {
    pub x: i64,
    pub y: i64,
    pub z: i64,
}

/// Build a vector from already-saturated spec scalars.
pub open spec fn v3(x: int, y: int, z: int) -> Vec3 {
    Vec3 { x: x as i64, y: y as i64, z: z as i64 }
}

impl Vec3 {
    /// Every component is representable.
    pub open spec fn wf(self) -> bool {
        &&& in_range(self.x as int)
        &&& in_range(self.y as int)
        &&& in_range(self.z as int)
    }

    pub open spec fn spec_plus(self, o: Vec3) -> Vec3 {
        v3(
            fx_clamp(self.x + o.x),
            fx_clamp(self.y + o.y),
            fx_clamp(self.z + o.z),
        )
    }

    pub open spec fn spec_minus(self, o: Vec3) -> Vec3 {
        v3(
            fx_clamp(self.x - o.x),
            fx_clamp(self.y - o.y),
            fx_clamp(self.z - o.z),
        )
    }

    pub open spec fn spec_neg(self) -> Vec3 {
        v3(fx_clamp(-self.x), fx_clamp(-self.y), fx_clamp(-self.z))
    }

    /// Componentwise product with a fixed-point scalar.
    pub open spec fn spec_scaled(self, s: int) -> Vec3 {
        v3(
            fx_mul_spec(self.x as int, s),
            fx_mul_spec(self.y as int, s),
            fx_mul_spec(self.z as int, s),
        )
    }

    /// Fixed-point dot product.
    pub open spec fn spec_dot(self, o: Vec3) -> int {
        fx_clamp(tdiv(self.x * o.x + self.y * o.y + self.z * o.z, SCALE as int))
    }

    /// Fixed-point cross product.
    pub open spec fn spec_cross(self, o: Vec3) -> Vec3 {
        v3(
            fx_clamp(tdiv(self.y * o.z - self.z * o.y, SCALE as int)),
            fx_clamp(tdiv(self.z * o.x - self.x * o.z, SCALE as int)),
            fx_clamp(tdiv(self.x * o.y - self.y * o.x, SCALE as int)),
        )
    }

    /// Raw (unscaled) sum of squared components.
    pub open spec fn spec_norm2(self) -> int {
        self.x * self.x + self.y * self.y + self.z * self.z
    }

    /// Length as a fixed-point scalar.
    pub open spec fn spec_norm(self) -> int {
        floor_sqrt(self.spec_norm2())
    }

    /// The vector scaled to (approximately) unit length.
    pub open spec fn spec_normalized(self) -> Vec3 {
        let n = self.spec_norm();
        v3(
            fx_clamp(tdiv(self.x * SCALE, n)),
            fx_clamp(tdiv(self.y * SCALE, n)),
            fx_clamp(tdiv(self.z * SCALE, n)),
        )
    }

    pub fn new(x: i64, y: i64, z: i64) -> (r: Vec3)
        ensures
            r == (Vec3 { x, y, z }),
    {
        Vec3 { x, y, z }
    }

    pub fn zero() -> (r: Vec3)
        ensures
            r == (Vec3 { x: 0i64, y: 0i64, z: 0i64 }),
            r.wf(),
    {
        Vec3 { x: 0, y: 0, z: 0 }
    }

    pub fn plus(self, o: Vec3) -> (r: Vec3)
        requires
            self.wf(),
            o.wf(),
        ensures
            r == self.spec_plus(o),
            r.wf(),
    {
        Vec3 {
            x: clamp_fx(self.x + o.x),
            y: clamp_fx(self.y + o.y),
            z: clamp_fx(self.z + o.z),
        }
    }

    pub fn minus(self, o: Vec3) -> (r: Vec3)
        requires
            self.wf(),
            o.wf(),
        ensures
            r == self.spec_minus(o),
            r.wf(),
    {
        Vec3 {
            x: clamp_fx(self.x - o.x),
            y: clamp_fx(self.y - o.y),
            z: clamp_fx(self.z - o.z),
        }
    }

    pub fn neg(self) -> (r: Vec3)
        requires
            self.wf(),
        ensures
            r == self.spec_neg(),
            r.wf(),
    {
        Vec3 { x: -self.x, y: -self.y, z: -self.z }
    }

    pub fn scaled(self, s: i64) -> (r: Vec3)
        requires
            self.wf(),
            in_range(s as int),
        ensures
            r == self.spec_scaled(s as int),
            r.wf(),
    {
        Vec3 { x: fx_mul(self.x, s), y: fx_mul(self.y, s), z: fx_mul(self.z, s) }
    }

    pub fn dot(self, o: Vec3) -> (r: i64)
        requires
            self.wf(),
            o.wf(),
        ensures
            r == self.spec_dot(o),
            in_range(r as int),
    {
        proof {
            lemma_mul_in_bounds(self.x as int, o.x as int);
            lemma_mul_in_bounds(self.y as int, o.y as int);
            lemma_mul_in_bounds(self.z as int, o.z as int);
        }
        let s: i64 = self.x * o.x + self.y * o.y + self.z * o.z;
        proof {
            lemma_tdiv_magnitude(s as int, SCALE as int);
        }
        clamp_fx(s / SCALE)
    }

    pub fn cross(self, o: Vec3) -> (r: Vec3)
        requires
            self.wf(),
            o.wf(),
        ensures
            r == self.spec_cross(o),
            r.wf(),
    {
        proof {
            lemma_mul_in_bounds(self.y as int, o.z as int);
            lemma_mul_in_bounds(self.z as int, o.y as int);
            lemma_mul_in_bounds(self.z as int, o.x as int);
            lemma_mul_in_bounds(self.x as int, o.z as int);
            lemma_mul_in_bounds(self.x as int, o.y as int);
            lemma_mul_in_bounds(self.y as int, o.x as int);
        }
        let cx: i64 = self.y * o.z - self.z * o.y;
        let cy: i64 = self.z * o.x - self.x * o.z;
        let cz: i64 = self.x * o.y - self.y * o.x;
        proof {
            lemma_tdiv_magnitude(cx as int, SCALE as int);
            lemma_tdiv_magnitude(cy as int, SCALE as int);
            lemma_tdiv_magnitude(cz as int, SCALE as int);
        }
        Vec3 { x: clamp_fx(cx / SCALE), y: clamp_fx(cy / SCALE), z: clamp_fx(cz / SCALE) }
    }

    /// Length of the vector, as a fixed-point scalar.
    pub fn norm(self) -> (r: i64)
        requires
            self.wf(),
        ensures
            r == self.spec_norm(),
            0 <= r <= 2_000_000_000,
    {
        proof {
            lemma_mul_in_bounds(self.x as int, self.x as int);
            lemma_mul_in_bounds(self.y as int, self.y as int);
            lemma_mul_in_bounds(self.z as int, self.z as int);
            lemma_square_nonneg(self.x as int);
            lemma_square_nonneg(self.y as int);
            lemma_square_nonneg(self.z as int);
        }
        let s: i64 = self.x * self.x + self.y * self.y + self.z * self.z;
        isqrt(s)
    }

    /// The vector scaled to (approximately) unit length; the zero vector is
    /// excluded since it has no direction.
    pub fn normalized(self) -> (r: Vec3)
        requires
            self.wf(),
            self.spec_norm2() >= 1,
        ensures
            r == self.spec_normalized(),
            r.wf(),
    {
        let n: i64 = self.norm();
        proof {
            crate::fixed::lemma_floor_sqrt_pos(self.spec_norm2());
            lemma_mul_in_bounds(self.x as int, SCALE as int);
            lemma_mul_in_bounds(self.y as int, SCALE as int);
            lemma_mul_in_bounds(self.z as int, SCALE as int);
        }
        let px: i64 = self.x * SCALE;
        let py: i64 = self.y * SCALE;
        let pz: i64 = self.z * SCALE;
        proof {
            lemma_tdiv_magnitude(px as int, n as int);
            lemma_tdiv_magnitude(py as int, n as int);
            lemma_tdiv_magnitude(pz as int, n as int);
        }
        Vec3 { x: clamp_fx(px / n), y: clamp_fx(py / n), z: clamp_fx(pz / n) }
    }
}

/// A square is never negative.
pub proof fn lemma_square_nonneg(a: int)
    ensures
        a * a >= 0,
{
    assert(a * a >= 0) by (nonlinear_arith);
}

/// The dot product is symmetric in its two arguments.
pub proof fn lemma_dot_symmetric(a: Vec3, b: Vec3)
    ensures
        a.spec_dot(b) == b.spec_dot(a),
{
    vstd::arithmetic::mul::lemma_mul_is_commutative(a.x as int, b.x as int);
    vstd::arithmetic::mul::lemma_mul_is_commutative(a.y as int, b.y as int);
    vstd::arithmetic::mul::lemma_mul_is_commutative(a.z as int, b.z as int);
}

/// Negating one argument of the dot product negates the result.
pub proof fn lemma_dot_neg_left(a: Vec3, b: Vec3)
    requires
        a.wf(),
    ensures
        a.spec_neg().spec_dot(b) == -a.spec_dot(b),
{
    vstd::arithmetic::mul::lemma_mul_unary_negation(a.x as int, b.x as int);
    vstd::arithmetic::mul::lemma_mul_unary_negation(a.y as int, b.y as int);
    vstd::arithmetic::mul::lemma_mul_unary_negation(a.z as int, b.z as int);
    crate::fixed::lemma_tdiv_odd(
        a.x * b.x + a.y * b.y + a.z * b.z,
        SCALE as int,
    );
    crate::fixed::lemma_clamp_odd(tdiv(a.x * b.x + a.y * b.y + a.z * b.z, SCALE as int));
}

/// Negating the other argument does the same.
pub proof fn lemma_dot_neg_right(a: Vec3, b: Vec3)
    requires
        b.wf(),
    ensures
        a.spec_dot(b.spec_neg()) == -a.spec_dot(b),
{
    lemma_dot_symmetric(a, b.spec_neg());
    lemma_dot_neg_left(b, a);
    lemma_dot_symmetric(b, a);
}

/// The cross product is antisymmetric.
pub proof fn lemma_cross_antisymmetric(a: Vec3, b: Vec3)
    ensures
        b.spec_cross(a) == a.spec_cross(b).spec_neg(),
{
    vstd::arithmetic::mul::lemma_mul_is_commutative(a.y as int, b.z as int);
    vstd::arithmetic::mul::lemma_mul_is_commutative(a.z as int, b.y as int);
    vstd::arithmetic::mul::lemma_mul_is_commutative(a.z as int, b.x as int);
    vstd::arithmetic::mul::lemma_mul_is_commutative(a.x as int, b.z as int);
    vstd::arithmetic::mul::lemma_mul_is_commutative(a.x as int, b.y as int);
    vstd::arithmetic::mul::lemma_mul_is_commutative(a.y as int, b.x as int);
    crate::fixed::lemma_tdiv_odd(a.y * b.z - a.z * b.y, SCALE as int);
    crate::fixed::lemma_tdiv_odd(a.z * b.x - a.x * b.z, SCALE as int);
    crate::fixed::lemma_tdiv_odd(a.x * b.y - a.y * b.x, SCALE as int);
    crate::fixed::lemma_clamp_odd(tdiv(a.y * b.z - a.z * b.y, SCALE as int));
    crate::fixed::lemma_clamp_odd(tdiv(a.z * b.x - a.x * b.z, SCALE as int));
    crate::fixed::lemma_clamp_odd(tdiv(a.x * b.y - a.y * b.x, SCALE as int));
}

/// Negation keeps the squared length.
pub proof fn lemma_norm2_neg(a: Vec3)
    requires
        a.wf(),
    ensures
        a.spec_neg().spec_norm2() == a.spec_norm2(),
{
    vstd::arithmetic::mul::lemma_mul_unary_negation(a.x as int, a.x as int);
    vstd::arithmetic::mul::lemma_mul_unary_negation(a.x as int, -a.x as int);
    vstd::arithmetic::mul::lemma_mul_unary_negation(a.y as int, a.y as int);
    vstd::arithmetic::mul::lemma_mul_unary_negation(a.y as int, -a.y as int);
    vstd::arithmetic::mul::lemma_mul_unary_negation(a.z as int, a.z as int);
    vstd::arithmetic::mul::lemma_mul_unary_negation(a.z as int, -a.z as int);
    assert((-a.x) * (-a.x) == a.x * a.x) by (nonlinear_arith);
    assert((-a.y) * (-a.y) == a.y * a.y) by (nonlinear_arith);
    assert((-a.z) * (-a.z) == a.z * a.z) by (nonlinear_arith);
}

/// Normalizing a nonzero vector commutes with negation.
pub proof fn lemma_normalized_neg(a: Vec3)
    requires
        a.wf(),
        a.spec_norm2() >= 1,
    ensures
        a.spec_neg().spec_normalized() == a.spec_normalized().spec_neg(),
{
    lemma_norm2_neg(a);
    crate::fixed::lemma_floor_sqrt_pos(a.spec_norm2());
    let n = a.spec_norm();
    vstd::arithmetic::mul::lemma_mul_unary_negation(a.x as int, SCALE as int);
    vstd::arithmetic::mul::lemma_mul_unary_negation(a.y as int, SCALE as int);
    vstd::arithmetic::mul::lemma_mul_unary_negation(a.z as int, SCALE as int);
    crate::fixed::lemma_tdiv_odd(a.x * SCALE, n);
    crate::fixed::lemma_tdiv_odd(a.y * SCALE, n);
    crate::fixed::lemma_tdiv_odd(a.z * SCALE, n);
    crate::fixed::lemma_clamp_odd(tdiv(a.x * SCALE, n));
    crate::fixed::lemma_clamp_odd(tdiv(a.y * SCALE, n));
    crate::fixed::lemma_clamp_odd(tdiv(a.z * SCALE, n));
}

/// The center-to-center vector flips sign when the endpoints swap.
pub proof fn lemma_minus_antisymmetric(a: Vec3, b: Vec3)
    ensures
        b.spec_minus(a) == a.spec_minus(b).spec_neg(),
{
    crate::fixed::lemma_clamp_odd(a.x - b.x);
    crate::fixed::lemma_clamp_odd(a.y - b.y);
    crate::fixed::lemma_clamp_odd(a.z - b.z);
}

} // verus!
