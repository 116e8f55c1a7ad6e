//! Fixed-point quaternions for body orientation.
//!
//! A unit quaternion encodes a rotation; the three world-space axes of a
//! rotated box are the columns of its rotation matrix, computed here
//! directly in fixed point. Nothing requires the quaternion to be unit:
//! like the rest of the pipeline, degenerate orientations yield degenerate
//! (but representable) results rather than errors.

use vstd::prelude::*;

use crate::fixed::SCALE;
use crate::fixed::clamp_fx;
use crate::fixed::fx_clamp;
use crate::fixed::fx_cos;
use crate::fixed::fx_cos_spec;
use crate::fixed::fx_sin;
use crate::fixed::fx_sin_spec;
use crate::fixed::in_range;
use crate::fixed::lemma_mul_in_bounds;
use crate::fixed::lemma_tdiv_magnitude;
use crate::fixed::tdiv;
use crate::vec3::Vec3;
use crate::vec3::v3;

verus! {

/// A quaternion of fixed-point scalars, `x`, `y`, `z` the vector part and
/// `w` the scalar part.
#[derive(Clone, Copy, Debug, PartialEq, Eq, Structural)]
pub struct Quat {
    pub x: i64,
    pub y: i64,
    pub z: i64,
    pub w: i64,
}

impl Quat {
    /// Every component is representable.
    pub open spec fn wf(self) -> bool {
        &&& in_range(self.x as int)
        &&& in_range(self.y as int)
        &&& in_range(self.z as int)
        &&& in_range(self.w as int)
    }

    /// The world-space direction of the rotated local X axis: the first
    /// column of the rotation matrix of the quaternion.
    pub open spec fn spec_axis_x(self) -> Vec3 {
        v3(
            fx_clamp(
                tdiv(
                    self.w * self.w + self.x * self.x - self.y * self.y - self.z * self.z,
                    SCALE as int,
                ),
            ),
            fx_clamp(tdiv(2 * (self.x * self.y + self.w * self.z), SCALE as int)),
            fx_clamp(tdiv(2 * (self.x * self.z - self.w * self.y), SCALE as int)),
        )
    }

    /// The world-space direction of the rotated local Y axis.
    pub open spec fn spec_axis_y(self) -> Vec3 {
        v3(
            fx_clamp(tdiv(2 * (self.x * self.y - self.w * self.z), SCALE as int)),
            fx_clamp(
                tdiv(
                    self.w * self.w - self.x * self.x + self.y * self.y - self.z * self.z,
                    SCALE as int,
                ),
            ),
            fx_clamp(tdiv(2 * (self.y * self.z + self.w * self.x), SCALE as int)),
        )
    }

    /// The world-space direction of the rotated local Z axis.
    pub open spec fn spec_axis_z(self) -> Vec3 {
        v3(
            fx_clamp(tdiv(2 * (self.x * self.z + self.w * self.y), SCALE as int)),
            fx_clamp(tdiv(2 * (self.y * self.z - self.w * self.x), SCALE as int)),
            fx_clamp(
                tdiv(
                    self.w * self.w - self.x * self.x - self.y * self.y + self.z * self.z,
                    SCALE as int,
                ),
            ),
        )
    }

    /// Hamilton product.
    pub open spec fn spec_times(self, o: Quat) -> Quat {
        Quat {
            x: fx_clamp(
                tdiv(
                    self.w * o.x + self.x * o.w + self.y * o.z - self.z * o.y,
                    SCALE as int,
                ),
            ) as i64,
            y: fx_clamp(
                tdiv(
                    self.w * o.y - self.x * o.z + self.y * o.w + self.z * o.x,
                    SCALE as int,
                ),
            ) as i64,
            z: fx_clamp(
                tdiv(
                    self.w * o.z + self.x * o.y - self.y * o.x + self.z * o.w,
                    SCALE as int,
                ),
            ) as i64,
            w: fx_clamp(
                tdiv(
                    self.w * o.w - self.x * o.x - self.y * o.y - self.z * o.z,
                    SCALE as int,
                ),
            ) as i64,
        }
    }

    /// The rotation about the world Y axis by a fixed-point angle.
    pub open spec fn spec_rotation_y(angle: int) -> Quat {
        let half = tdiv(angle, 2);
        Quat {
            x: 0,
            y: fx_sin_spec(half) as i64,
            z: 0,
            w: fx_cos_spec(half) as i64,
        }
    }

    /// The identity rotation.
    pub fn identity() -> (r: Quat)
        ensures
            r == (Quat { x: 0i64, y: 0i64, z: 0i64, w: SCALE }),
            r.wf(),
    {
        Quat { x: 0, y: 0, z: 0, w: SCALE }
    }

    pub fn new(x: i64, y: i64, z: i64, w: i64) -> (r: Quat)
        ensures
            r == (Quat { x, y, z, w }),
    {
        Quat { x, y, z, w }
    }

    pub fn axis_x(self) -> (r: Vec3)
        requires
            self.wf(),
        ensures
            r == self.spec_axis_x(),
            r.wf(),
    {
        proof {
            lemma_quat_products(self, self);
        }
        let c0: i64 = self.w * self.w + self.x * self.x - self.y * self.y - self.z * self.z;
        let c1: i64 = 2 * (self.x * self.y + self.w * self.z);
        let c2: i64 = 2 * (self.x * self.z - self.w * self.y);
        proof {
            lemma_tdiv_magnitude(c0 as int, SCALE as int);
            lemma_tdiv_magnitude(c1 as int, SCALE as int);
            lemma_tdiv_magnitude(c2 as int, SCALE as int);
        }
        Vec3 { x: clamp_fx(c0 / SCALE), y: clamp_fx(c1 / SCALE), z: clamp_fx(c2 / SCALE) }
    }

    pub fn axis_y(self) -> (r: Vec3)
        requires
            self.wf(),
        ensures
            r == self.spec_axis_y(),
            r.wf(),
    {
        proof {
            lemma_quat_products(self, self);
        }
        let c0: i64 = 2 * (self.x * self.y - self.w * self.z);
        let c1: i64 = self.w * self.w - self.x * self.x + self.y * self.y - self.z * self.z;
        let c2: i64 = 2 * (self.y * self.z + self.w * self.x);
        proof {
            lemma_tdiv_magnitude(c0 as int, SCALE as int);
            lemma_tdiv_magnitude(c1 as int, SCALE as int);
            lemma_tdiv_magnitude(c2 as int, SCALE as int);
        }
        Vec3 { x: clamp_fx(c0 / SCALE), y: clamp_fx(c1 / SCALE), z: clamp_fx(c2 / SCALE) }
    }

    pub fn axis_z(self) -> (r: Vec3)
        requires
            self.wf(),
        ensures
            r == self.spec_axis_z(),
            r.wf(),
    {
        proof {
            lemma_quat_products(self, self);
        }
        let c0: i64 = 2 * (self.x * self.z + self.w * self.y);
        let c1: i64 = 2 * (self.y * self.z - self.w * self.x);
        let c2: i64 = self.w * self.w - self.x * self.x - self.y * self.y + self.z * self.z;
        proof {
            lemma_tdiv_magnitude(c0 as int, SCALE as int);
            lemma_tdiv_magnitude(c1 as int, SCALE as int);
            lemma_tdiv_magnitude(c2 as int, SCALE as int);
        }
        Vec3 { x: clamp_fx(c0 / SCALE), y: clamp_fx(c1 / SCALE), z: clamp_fx(c2 / SCALE) }
    }

    /// Hamilton product of two quaternions.
    pub fn times(self, o: Quat) -> (r: Quat)
        requires
            self.wf(),
            o.wf(),
        ensures
            r == self.spec_times(o),
            r.wf(),
    {
        proof {
            lemma_quat_products(self, o);
        }
        let rx: i64 = self.w * o.x + self.x * o.w + self.y * o.z - self.z * o.y;
        let ry: i64 = self.w * o.y - self.x * o.z + self.y * o.w + self.z * o.x;
        let rz: i64 = self.w * o.z + self.x * o.y - self.y * o.x + self.z * o.w;
        let rw: i64 = self.w * o.w - self.x * o.x - self.y * o.y - self.z * o.z;
        proof {
            lemma_tdiv_magnitude(rx as int, SCALE as int);
            lemma_tdiv_magnitude(ry as int, SCALE as int);
            lemma_tdiv_magnitude(rz as int, SCALE as int);
            lemma_tdiv_magnitude(rw as int, SCALE as int);
        }
        Quat {
            x: clamp_fx(rx / SCALE),
            y: clamp_fx(ry / SCALE),
            z: clamp_fx(rz / SCALE),
            w: clamp_fx(rw / SCALE),
        }
    }

    /// The rotation about the world Y axis by a fixed-point angle, built
    /// from the half-angle sine and cosine.
    pub fn from_rotation_y(angle: i64) -> (r: Quat)
        requires
            in_range(angle as int),
        ensures
            r == Quat::spec_rotation_y(angle as int),
            r.wf(),
    {
        let half: i64 = angle / 2;
        proof {
            lemma_tdiv_magnitude(angle as int, 2);
        }
        Quat { x: 0, y: fx_sin(half), z: 0, w: fx_cos(half) }
    }
}

/// All sixteen pairwise component products of two representable
/// quaternions fit in `i64` with room for four-term sums.
proof fn lemma_quat_products(a: Quat, b: Quat)
    requires
        a.wf(),
        b.wf(),
    ensures
        -1_000_000_000_000_000_000 <= a.x * b.x <= 1_000_000_000_000_000_000,
        -1_000_000_000_000_000_000 <= a.x * b.y <= 1_000_000_000_000_000_000,
        -1_000_000_000_000_000_000 <= a.x * b.z <= 1_000_000_000_000_000_000,
        -1_000_000_000_000_000_000 <= a.x * b.w <= 1_000_000_000_000_000_000,
        -1_000_000_000_000_000_000 <= a.y * b.x <= 1_000_000_000_000_000_000,
        -1_000_000_000_000_000_000 <= a.y * b.y <= 1_000_000_000_000_000_000,
        -1_000_000_000_000_000_000 <= a.y * b.z <= 1_000_000_000_000_000_000,
        -1_000_000_000_000_000_000 <= a.y * b.w <= 1_000_000_000_000_000_000,
        -1_000_000_000_000_000_000 <= a.z * b.x <= 1_000_000_000_000_000_000,
        -1_000_000_000_000_000_000 <= a.z * b.y <= 1_000_000_000_000_000_000,
        -1_000_000_000_000_000_000 <= a.z * b.z <= 1_000_000_000_000_000_000,
        -1_000_000_000_000_000_000 <= a.z * b.w <= 1_000_000_000_000_000_000,
        -1_000_000_000_000_000_000 <= a.w * b.x <= 1_000_000_000_000_000_000,
        -1_000_000_000_000_000_000 <= a.w * b.y <= 1_000_000_000_000_000_000,
        -1_000_000_000_000_000_000 <= a.w * b.z <= 1_000_000_000_000_000_000,
        -1_000_000_000_000_000_000 <= a.w * b.w <= 1_000_000_000_000_000_000,
{
    lemma_mul_in_bounds(a.x as int, b.x as int);
    lemma_mul_in_bounds(a.x as int, b.y as int);
    lemma_mul_in_bounds(a.x as int, b.z as int);
    lemma_mul_in_bounds(a.x as int, b.w as int);
    lemma_mul_in_bounds(a.y as int, b.x as int);
    lemma_mul_in_bounds(a.y as int, b.y as int);
    lemma_mul_in_bounds(a.y as int, b.z as int);
    lemma_mul_in_bounds(a.y as int, b.w as int);
    lemma_mul_in_bounds(a.z as int, b.x as int);
    lemma_mul_in_bounds(a.z as int, b.y as int);
    lemma_mul_in_bounds(a.z as int, b.z as int);
    lemma_mul_in_bounds(a.z as int, b.w as int);
    lemma_mul_in_bounds(a.w as int, b.x as int);
    lemma_mul_in_bounds(a.w as int, b.y as int);
    lemma_mul_in_bounds(a.w as int, b.z as int);
    lemma_mul_in_bounds(a.w as int, b.w as int);
}

} // verus!
