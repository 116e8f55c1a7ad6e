//! Input-driven movement pass.
//!
//! A pre-pass the host runs before integration: it turns accumulated
//! directional input into a velocity delta for every controllable body.
//! Diagonal input is normalized so it is no faster than a single
//! direction, and the yaw keys spin the body about the world Y axis.

use vstd::prelude::*;

use crate::Body;
use crate::fixed::SCALE;
use crate::fixed::fx_clamp;
use crate::vec3::Vec3;
use crate::vec3::v3;

verus! {

/// One tick's worth of pressed movement keys.
#[derive(Clone, Copy, Debug, PartialEq, Eq, Structural)]
pub struct MovementInput {
    /// Strafe toward negative X.
    pub left: bool,
    /// Strafe toward positive X.
    pub right: bool,
    /// Move toward positive Z.
    pub forward: bool,
    /// Move toward negative Z.
    pub back: bool,
    /// Spin counterclockwise about the world Y axis.
    pub yaw_left: bool,
    /// Spin clockwise about the world Y axis.
    pub yaw_right: bool,
}

/// The raw direction the pressed keys point at, one unit per axis.
pub open spec fn spec_direction(input: MovementInput) -> Vec3 {
    v3(
        (if input.right {
            SCALE as int
        } else {
            0
        }) - (if input.left {
            SCALE as int
        } else {
            0
        }),
        0,
        (if input.forward {
            SCALE as int
        } else {
            0
        }) - (if input.back {
            SCALE as int
        } else {
            0
        }),
    )
}

/// The direction scaled to unit length, so diagonal movement is no
/// faster; no keys means no movement.
pub open spec fn spec_heading(input: MovementInput) -> Vec3 {
    let d = spec_direction(input);
    if d.spec_norm2() >= 1 {
        d.spec_normalized()
    } else {
        d
    }
}

/// A controllable body with the input applied: the heading added to its
/// linear velocity and one unit of yaw spin per pressed yaw key. A body
/// without the controller marker is untouched.
pub open spec fn spec_moved(b: Body, input: MovementInput) -> Body {
    if !b.controller {
        b
    } else {
        let yaw = (if input.yaw_left {
            SCALE as int
        } else {
            0
        }) - (if input.yaw_right {
            SCALE as int
        } else {
            0
        });
        let av = b.rigid_body.angular_velocity;
        Body {
            rigid_body: crate::RigidBody {
                linear_velocity: b.rigid_body.linear_velocity.spec_plus(spec_heading(input)),
                angular_velocity: Vec3 { y: fx_clamp(av.y + yaw) as i64, ..av },
                ..b.rigid_body
            },
            ..b
        }
    }
}

/// The heading the pressed keys give.
pub fn heading(input: &MovementInput) -> (r: Vec3)
    ensures
        r == spec_heading(*input),
        r.wf(),
{
    let x: i64 = (if input.right {
        SCALE
    } else {
        0
    }) - (if input.left {
        SCALE
    } else {
        0
    });
    let z: i64 = (if input.forward {
        SCALE
    } else {
        0
    }) - (if input.back {
        SCALE
    } else {
        0
    });
    let direction: Vec3 = Vec3 { x, y: 0, z };
    proof {
        crate::fixed::lemma_mul_in_bounds(x as int, x as int);
        crate::fixed::lemma_mul_in_bounds(z as int, z as int);
    }
    let len2: i64 = direction.x * direction.x + direction.z * direction.z;
    if len2 >= 1 {
        direction.normalized()
    } else {
        direction
    }
}

/// Apply one tick of movement input to every controllable body.
pub fn movement(bodies: &mut Vec<Body>, input: &MovementInput)
    requires
        forall|i: int| 0 <= i < old(bodies)@.len() ==> (#[trigger] old(bodies)@[i]).wf(),
    ensures
        final(bodies)@.len() == old(bodies)@.len(),
        forall|i: int|
            0 <= i < old(bodies)@.len() ==> #[trigger] final(bodies)@[i] == spec_moved(
                old(bodies)@[i],
                *input,
            ),
        forall|i: int| 0 <= i < final(bodies)@.len() ==> (#[trigger] final(bodies)@[i]).wf(),
{
    let dir: Vec3 = heading(input);
    let yaw: i64 = (if input.yaw_left {
        SCALE
    } else {
        0
    }) - (if input.yaw_right {
        SCALE
    } else {
        0
    });
    let n: usize = bodies.len();
    let mut idx: usize = 0;
    while idx < n
        invariant
            n == bodies@.len(),
            n == old(bodies)@.len(),
            idx <= n,
            dir == spec_heading(*input),
            dir.wf(),
            yaw as int == (if input.yaw_left {
                SCALE as int
            } else {
                0
            }) - (if input.yaw_right {
                SCALE as int
            } else {
                0
            }),
            forall|i: int| 0 <= i < n ==> (#[trigger] old(bodies)@[i]).wf(),
            forall|i: int| idx <= i < n ==> bodies@[i] == old(bodies)@[i],
            forall|i: int|
                0 <= i < idx ==> #[trigger] bodies@[i] == spec_moved(old(bodies)@[i], *input),
            forall|i: int| 0 <= i < idx ==> (#[trigger] bodies@[i]).wf(),
        decreases n - idx,
    {
        let mut b: Body = bodies[idx];
        if b.controller {
            b.rigid_body.linear_velocity = b.rigid_body.linear_velocity.plus(dir);
            b.rigid_body.angular_velocity.y = crate::fixed::clamp_fx(
                b.rigid_body.angular_velocity.y + yaw,
            );
            bodies[idx] = b;
        }
        idx = idx + 1;
    }
}

} // verus!
