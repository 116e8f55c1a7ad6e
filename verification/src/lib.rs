//! A minimal real-time rigid-body physics core: per-tick integration of
//! linear and angular motion, a uniform-grid broad phase, an exact
//! separating-axis test between oriented boxes, and a pairwise impulse
//! resolver.
//!
//! All quantities are fixed-point integers with three decimal digits of
//! fraction (see [`fixed::SCALE`]); a host that works in floating point
//! converts at the boundary. The arithmetic is deterministic, the
//! integrator and the pairwise operations are each pinned by contract to
//! a pure function of their inputs, and the collision pass is pinned to a
//! run of resolutions over exactly the confirmed overlapping pairs.

pub mod collider_lines;
pub mod controller;
pub mod fixed;
pub mod grid;
pub mod physics;
pub mod quat;
pub mod vec3;

use vstd::prelude::*;

use crate::fixed::SCALE;
use crate::fixed::clamp_fx;
use crate::fixed::fx_clamp;
use crate::fixed::fx_mul;
use crate::fixed::fx_mul_spec;
use crate::fixed::in_range;
use crate::fixed::tdiv;
use crate::quat::Quat;
use crate::vec3::Vec3;
use crate::vec3::v3;

verus! {

/// Marks a body as driven by directional input (see [`controller`]); a
/// body store carries the marker as [`Body::controller`].
#[derive(Clone, Copy, Debug, PartialEq, Eq, Structural)]
pub struct Controller;

/// Marks the designated static map/ground body: its collision flag is never
/// raised for debug drawing, though it still resolves physically. A body
/// store carries the marker as [`Body::map_base`].
#[derive(Clone, Copy, Debug, PartialEq, Eq, Structural)]
pub struct MapBase;

/// Downward acceleration scale applied each tick to non-fixed bodies.
#[derive(Clone, Copy, Debug, PartialEq, Eq, Structural)]
pub struct Gravity(pub i64);

impl Default for Gravity {
    /// Half a unit per second of fall.
    fn default() -> (r: Self)
        ensures
            r == Gravity(500i64),
    {
        Gravity(500)
    }
}

/// A linear velocity vector.
#[derive(Clone, Copy, Debug, PartialEq, Eq, Structural)]
pub struct Velocity(pub Vec3);

impl Default for Velocity {
    fn default() -> (r: Self)
        ensures
            r == Velocity(Vec3 { x: 0i64, y: 0i64, z: 0i64 }),
    {
        Velocity(Vec3 { x: 0, y: 0, z: 0 })
    }
}

/// Per-tick velocity decay factor, `0` for none up to [`SCALE`] for a full
/// stop each tick.
#[derive(Clone, Copy, Debug, PartialEq, Eq, Structural)]
pub struct Damping(pub i64);

impl Default for Damping {
    fn default() -> (r: Self)
        ensures
            r == Damping(500i64),
    {
        Damping(500)
    }
}

/// Multiplier turning a unit velocity into displacement per second.
#[derive(Clone, Copy, Debug, PartialEq, Eq, Structural)]
pub struct Speed(pub i64);

impl Default for Speed {
    fn default() -> (r: Self)
        ensures
            r == Speed(SCALE),
    {
        Speed(SCALE)
    }
}

/// A color with fixed-point channels in `[0, SCALE]`.
#[derive(Clone, Copy, Debug, PartialEq, Eq, Structural)]
pub struct Srgba {
    pub red: i64,
    pub green: i64,
    pub blue: i64,
    pub alpha: i64,
}

impl Srgba {
    /// Fully transparent black.
    pub fn none() -> (r: Srgba)
        ensures
            r == (Srgba { red: 0i64, green: 0i64, blue: 0i64, alpha: 0i64 }),
    {
        Srgba { red: 0, green: 0, blue: 0, alpha: 0 }
    }

    /// Opaque red, the warning color of a colliding outline.
    pub fn red() -> (r: Srgba)
        ensures
            r == (Srgba { red: SCALE, green: 0i64, blue: 0i64, alpha: SCALE }),
    {
        Srgba { red: SCALE, green: 0, blue: 0, alpha: SCALE }
    }

    /// Opaque green, the neutral color of a resting outline.
    pub fn green() -> (r: Srgba)
        ensures
            r == (Srgba { red: 0i64, green: SCALE, blue: 0i64, alpha: SCALE }),
    {
        Srgba { red: 0, green: SCALE, blue: 0, alpha: SCALE }
    }
}

/// The color a debug outline is drawn with.
#[derive(Clone, Copy, Debug, PartialEq, Eq, Structural)]
pub struct ColliderColor(pub Srgba);

impl Default for ColliderColor {
    fn default() -> (r: Self)
        ensures
            r == ColliderColor(Srgba { red: 0i64, green: 0i64, blue: 0i64, alpha: 0i64 }),
    {
        ColliderColor(Srgba { red: 0, green: 0, blue: 0, alpha: 0 })
    }
}

/// An oriented box collider: `cuboid` is the full edge length along each
/// local axis, so the half-extents are `cuboid / 2`.
#[derive(Clone, Copy, Debug, PartialEq, Eq, Structural)]
pub struct Collider {
    pub cuboid: Vec3,
}

impl Collider {
    pub open spec fn spec_half_extents(self) -> Vec3 {
        v3(
            tdiv(self.cuboid.x as int, 2),
            tdiv(self.cuboid.y as int, 2),
            tdiv(self.cuboid.z as int, 2),
        )
    }

    /// Half of the box size along each local axis.
    pub fn half_extents(&self) -> (r: Vec3)
        requires
            self.cuboid.wf(),
        ensures
            r == self.spec_half_extents(),
            r.wf(),
    {
        proof {
            crate::fixed::lemma_tdiv_magnitude(self.cuboid.x as int, 2);
            crate::fixed::lemma_tdiv_magnitude(self.cuboid.y as int, 2);
            crate::fixed::lemma_tdiv_magnitude(self.cuboid.z as int, 2);
        }
        Vec3 { x: self.cuboid.x / 2, y: self.cuboid.y / 2, z: self.cuboid.z / 2 }
    }
}

impl Default for Collider {
    fn default() -> (r: Self)
        ensures
            r == (Collider { cuboid: Vec3 { x: 0i64, y: 0i64, z: 0i64 } }),
    {
        Collider { cuboid: Vec3 { x: 0, y: 0, z: 0 } }
    }
}

/// The motion state of one simulated body.
#[derive(Clone, Copy, Debug, PartialEq, Eq, Structural)]
pub struct RigidBody {
    pub damping: Damping,
    /// An immovable body of infinite effective mass: never moved by
    /// integration or collision response.
    pub fixed: bool,
    pub gravity: Gravity,
    pub speed: Speed,
    pub linear_velocity: Vec3,
    pub angular_velocity: Vec3,
    /// Raised while the body overlaps another this tick; recomputed from
    /// scratch every tick and read only by the debug-draw pass.
    pub is_colliding: bool,
}

impl RigidBody {
    /// The motion parameters are representable and damping is a fraction.
    pub open spec fn wf(self) -> bool {
        &&& self.linear_velocity.wf()
        &&& self.angular_velocity.wf()
        &&& 0 <= self.damping.0 <= SCALE
        &&& in_range(self.gravity.0 as int)
        &&& in_range(self.speed.0 as int)
    }

    /// Both velocities scaled by `1 - damping`.
    pub open spec fn spec_damped(self) -> RigidBody {
        RigidBody {
            linear_velocity: self.linear_velocity.spec_scaled(SCALE - self.damping.0),
            angular_velocity: self.angular_velocity.spec_scaled(SCALE - self.damping.0),
            ..self
        }
    }

    /// Displacement of one tick: `linear_velocity * speed * delta_time`.
    pub open spec fn spec_step(self, delta_time: int) -> Vec3 {
        self.linear_velocity.spec_scaled(self.speed.0 as int).spec_scaled(delta_time)
    }

    /// Decay both velocities by the damping factor.
    pub fn apply_damping(&mut self)
        requires
            old(self).wf(),
        ensures
            *final(self) == old(self).spec_damped(),
            final(self).wf(),
    {
        let factor: i64 = SCALE - self.damping.0;
        self.linear_velocity = self.linear_velocity.scaled(factor);
        self.angular_velocity = self.angular_velocity.scaled(factor);
    }

    /// Advance a position by one tick of (speed-scaled) linear velocity.
    pub fn apply_linear_velocity(&mut self, position: &mut Vec3, delta_time: i64)
        requires
            old(self).wf(),
            old(position).wf(),
            in_range(delta_time as int),
        ensures
            *final(self) == *old(self),
            *final(position) == old(position).spec_plus(old(self).spec_step(delta_time as int)),
            final(position).wf(),
    {
        let step: Vec3 = self.linear_velocity.scaled(self.speed.0).scaled(delta_time);
        *position = position.plus(step);
    }

    /// Spin an orientation about the world Y axis by one tick of yaw
    /// velocity; the X and Z angular velocity components are carried in the
    /// data model but not integrated.
    pub fn apply_angular_velocity(&mut self, rotation: &mut Quat, delta_time: i64)
        requires
            old(self).wf(),
            old(rotation).wf(),
            in_range(delta_time as int),
        ensures
            *final(self) == *old(self),
            *final(rotation) == old(rotation).spec_times(
                Quat::spec_rotation_y(
                    fx_mul_spec(old(self).angular_velocity.y as int, delta_time as int),
                ),
            ),
            final(rotation).wf(),
    {
        let angle: i64 = fx_mul(self.angular_velocity.y, delta_time);
        let spin: Quat = Quat::from_rotation_y(angle);
        *rotation = rotation.times(spin);
    }

    /// Pull a non-fixed body down by one tick of gravity.
    pub fn apply_gravity(&mut self, position: &mut Vec3, delta_time: i64)
        requires
            old(self).wf(),
            old(position).wf(),
            in_range(delta_time as int),
        ensures
            *final(self) == *old(self),
            *final(position) == (if old(self).fixed {
                *old(position)
            } else {
                Vec3 {
                    y: fx_clamp(
                        old(position).y - fx_mul_spec(old(self).gravity.0 as int, delta_time as int),
                    ) as i64,
                    ..*old(position)
                }
            }),
            final(position).wf(),
    {
        if !self.fixed {
            let drop: i64 = fx_mul(self.gravity.0, delta_time);
            position.y = clamp_fx(position.y - drop);
        }
    }
}

impl Default for RigidBody {
    fn default() -> (r: Self)
        ensures
            r == (RigidBody {
                damping: Damping(500i64),
                fixed: false,
                gravity: Gravity(500i64),
                speed: Speed(SCALE),
                linear_velocity: Vec3 { x: 0i64, y: 0i64, z: 0i64 },
                angular_velocity: Vec3 { x: 0i64, y: 0i64, z: 0i64 },
                is_colliding: false,
            }),
            r.wf(),
    {
        RigidBody {
            damping: Damping(500),
            fixed: false,
            gravity: Gravity(500),
            speed: Speed(SCALE),
            linear_velocity: Vec3 { x: 0, y: 0, z: 0 },
            angular_velocity: Vec3 { x: 0, y: 0, z: 0 },
            is_colliding: false,
        }
    }
}

/// Marks a body whose collider outline the debug-draw pass renders; a
/// body store carries the marker as [`Body::collider_lines`].
#[derive(Clone, Copy, Debug, PartialEq, Eq, Structural)]
pub struct ColliderLines;

/// One simulated body: the record the host's body store owns, with the
/// stable slot index in that store serving as the body's identity.
#[derive(Clone, Copy, Debug, PartialEq, Eq, Structural)]
pub struct Body {
    pub collider: Collider,
    pub rigid_body: RigidBody,
    pub translation: Vec3,
    pub rotation: Quat,
    /// The body is driven by directional input.
    pub controller: bool,
    /// The body is the designated static map/ground body.
    pub map_base: bool,
    /// The debug-draw pass renders this body's collider outline.
    pub collider_lines: bool,
}

impl Body {
    pub open spec fn wf(self) -> bool {
        &&& self.collider.cuboid.wf()
        &&& self.rigid_body.wf()
        &&& self.translation.wf()
        &&& self.rotation.wf()
    }

    /// One tick of integration: damping, then linear velocity, then yaw
    /// spin, then gravity. A fixed body is left untouched — the data model's
    /// invariant that integration never mutates a fixed body's position or
    /// velocity.
    pub open spec fn spec_integrated(self, delta_time: int) -> Body {
        if self.rigid_body.fixed {
            self
        } else {
            let rb = self.rigid_body.spec_damped();
            let moved = self.translation.spec_plus(rb.spec_step(delta_time));
            let spun = self.rotation.spec_times(
                Quat::spec_rotation_y(fx_mul_spec(rb.angular_velocity.y as int, delta_time)),
            );
            let dropped = Vec3 {
                y: fx_clamp(moved.y - fx_mul_spec(rb.gravity.0 as int, delta_time)) as i64,
                ..moved
            };
            Body { rigid_body: rb, translation: dropped, rotation: spun, ..self }
        }
    }
}

impl Default for Body {
    fn default() -> (r: Self)
        ensures
            r == (Body {
                collider: Collider { cuboid: Vec3 { x: 0i64, y: 0i64, z: 0i64 } },
                rigid_body: RigidBody {
                    damping: Damping(500i64),
                    fixed: false,
                    gravity: Gravity(500i64),
                    speed: Speed(SCALE),
                    linear_velocity: Vec3 { x: 0i64, y: 0i64, z: 0i64 },
                    angular_velocity: Vec3 { x: 0i64, y: 0i64, z: 0i64 },
                    is_colliding: false,
                },
                translation: Vec3 { x: 0i64, y: 0i64, z: 0i64 },
                rotation: Quat { x: 0i64, y: 0i64, z: 0i64, w: SCALE },
                controller: false,
                map_base: false,
                collider_lines: false,
            }),
            r.wf(),
    {
        Body {
            collider: Collider { cuboid: Vec3 { x: 0, y: 0, z: 0 } },
            rigid_body: RigidBody {
                damping: Damping(500),
                fixed: false,
                gravity: Gravity(500),
                speed: Speed(SCALE),
                linear_velocity: Vec3 { x: 0, y: 0, z: 0 },
                angular_velocity: Vec3 { x: 0, y: 0, z: 0 },
                is_colliding: false,
            },
            translation: Vec3 { x: 0, y: 0, z: 0 },
            rotation: Quat { x: 0, y: 0, z: 0, w: SCALE },
            controller: false,
            map_base: false,
            collider_lines: false,
        }
    }
}

/// A velocity component after `n` ticks of damping and no other forces.
pub open spec fn iter_damp(v: int, damping: int, n: nat) -> int
    decreases n,
{
    if n == 0 {
        v
    } else {
        fx_mul_spec(iter_damp(v, damping, (n - 1) as nat), SCALE - damping)
    }
}

/// Integration iterated over `n` ticks.
pub open spec fn spec_integrated_n(b: Body, delta_time: int, n: nat) -> Body
    decreases n,
{
    if n == 0 {
        b
    } else {
        spec_integrated_n(b, delta_time, (n - 1) as nat).spec_integrated(delta_time)
    }
}

/// Damping recurrence: with no collisions and no input, every velocity
/// component of a non-fixed body follows the pure damping iteration, one
/// factor of `1 - damping` per tick.
pub proof fn lemma_damping_recurrence(b: Body, delta_time: int, n: nat)
    requires
        !b.rigid_body.fixed,
    ensures
        spec_integrated_n(b, delta_time, n).rigid_body.fixed == b.rigid_body.fixed,
        spec_integrated_n(b, delta_time, n).rigid_body.damping == b.rigid_body.damping,
        spec_integrated_n(b, delta_time, n).rigid_body.linear_velocity.x as int == iter_damp(
            b.rigid_body.linear_velocity.x as int,
            b.rigid_body.damping.0 as int,
            n,
        ),
        spec_integrated_n(b, delta_time, n).rigid_body.linear_velocity.y as int == iter_damp(
            b.rigid_body.linear_velocity.y as int,
            b.rigid_body.damping.0 as int,
            n,
        ),
        spec_integrated_n(b, delta_time, n).rigid_body.linear_velocity.z as int == iter_damp(
            b.rigid_body.linear_velocity.z as int,
            b.rigid_body.damping.0 as int,
            n,
        ),
        spec_integrated_n(b, delta_time, n).rigid_body.angular_velocity.y as int == iter_damp(
            b.rigid_body.angular_velocity.y as int,
            b.rigid_body.damping.0 as int,
            n,
        ),
    decreases n,
{
    if n > 0 {
        lemma_damping_recurrence(b, delta_time, (n - 1) as nat);
    }
}

/// Damping decay: after `n` ticks with damping `d` and no other forces,
/// a velocity component's magnitude is at most the initial magnitude
/// scaled by `((SCALE - d) / SCALE)^n` — written multiplied out, since
/// the iteration truncates toward zero at every step.
pub proof fn lemma_damping_decay(v: int, damping: int, n: nat)
    requires
        0 <= damping <= SCALE,
    ensures
        crate::fixed::iabs(iter_damp(v, damping, n)) * vstd::arithmetic::power::pow(
            SCALE as int,
            n,
        ) <= crate::fixed::iabs(v) * vstd::arithmetic::power::pow(SCALE - damping, n),
    decreases n,
{
    let c = SCALE - damping;
    if n == 0 {
        vstd::arithmetic::power::lemma_pow0(SCALE as int);
        vstd::arithmetic::power::lemma_pow0(c);
    } else {
        let n1 = (n - 1) as nat;
        lemma_damping_decay(v, damping, n1);
        let u = iter_damp(v, damping, n1);
        let w = fx_mul_spec(u, c);
        let m = u * c;
        let t = tdiv(m, SCALE as int);
        assert(crate::fixed::iabs(fx_clamp(t)) <= crate::fixed::iabs(t));
        if m >= 0 {
            vstd::arithmetic::div_mod::lemma_fundamental_div_mod(m, SCALE as int);
            vstd::arithmetic::div_mod::lemma_mod_bound(m, SCALE as int);
            vstd::arithmetic::div_mod::lemma_div_pos_is_pos(m, SCALE as int);
        } else {
            vstd::arithmetic::div_mod::lemma_fundamental_div_mod(-m, SCALE as int);
            vstd::arithmetic::div_mod::lemma_mod_bound(-m, SCALE as int);
            vstd::arithmetic::div_mod::lemma_div_pos_is_pos(-m, SCALE as int);
        }
        assert(crate::fixed::iabs(t) * SCALE <= crate::fixed::iabs(m));
        assert(crate::fixed::iabs(m) == crate::fixed::iabs(u) * c) by (nonlinear_arith)
            requires
                c >= 0,
                m == u * c,
        ;
        let ps = vstd::arithmetic::power::pow(SCALE as int, n1);
        let pc = vstd::arithmetic::power::pow(c, n1);
        vstd::arithmetic::power::lemma_pow_positive(SCALE as int, n1);
        assert(pc >= 0) by {
            if c > 0 {
                vstd::arithmetic::power::lemma_pow_positive(c, n1);
            } else if n1 == 0 {
                vstd::arithmetic::power::lemma_pow0(c);
            } else {
                vstd::arithmetic::power::lemma0_pow(n1);
            }
        }
        assert(vstd::arithmetic::power::pow(SCALE as int, n) == SCALE * ps) by {
            vstd::arithmetic::power::lemma_pow_adds(SCALE as int, 1, n1);
            vstd::arithmetic::power::lemma_pow1(SCALE as int);
        }
        assert(vstd::arithmetic::power::pow(c, n) == c * pc) by {
            vstd::arithmetic::power::lemma_pow_adds(c, 1, n1);
            vstd::arithmetic::power::lemma_pow1(c);
        }
        vstd::arithmetic::mul::lemma_mul_inequality(
            crate::fixed::iabs(w),
            crate::fixed::iabs(t),
            SCALE as int,
        );
        assert(crate::fixed::iabs(w) * SCALE <= crate::fixed::iabs(u) * c);
        assert(iter_damp(v, damping, n) == w);
        assert(crate::fixed::iabs(w) * vstd::arithmetic::power::pow(SCALE as int, n)
            <= crate::fixed::iabs(v) * vstd::arithmetic::power::pow(c, n)) by (nonlinear_arith)
            requires
                crate::fixed::iabs(w) * SCALE <= crate::fixed::iabs(u) * c,
                crate::fixed::iabs(u) * ps <= crate::fixed::iabs(v) * pc,
                vstd::arithmetic::power::pow(SCALE as int, n) == SCALE * ps,
                vstd::arithmetic::power::pow(c, n) == c * pc,
                ps >= 0,
                pc >= 0,
                c >= 0,
                crate::fixed::iabs(w) >= 0,
                crate::fixed::iabs(u) >= 0,
                crate::fixed::iabs(v) >= 0,
        ;
    }
}

/// Damping never amplifies: each tick can only shrink a velocity
/// component's magnitude, so after any number of ticks it is at most the
/// initial one.
pub proof fn lemma_damping_never_amplifies(v: int, damping: int, n: nat)
    requires
        0 <= damping <= SCALE,
    ensures
        crate::fixed::iabs(iter_damp(v, damping, n)) <= crate::fixed::iabs(v),
    decreases n,
{
    if n > 0 {
        let n1 = (n - 1) as nat;
        lemma_damping_never_amplifies(v, damping, n1);
        let u = iter_damp(v, damping, n1);
        let c = SCALE - damping;
        let m = u * c;
        let t = tdiv(m, SCALE as int);
        assert(crate::fixed::iabs(fx_clamp(t)) <= crate::fixed::iabs(t));
        assert(crate::fixed::iabs(m) <= 1000 * crate::fixed::iabs(u)) by (nonlinear_arith)
            requires
                m == u * c,
                0 <= c <= 1000,
        ;
        vstd::arithmetic::div_mod::lemma_div_multiples_vanish(crate::fixed::iabs(u), 1000);
        if m >= 0 {
            vstd::arithmetic::div_mod::lemma_div_pos_is_pos(m, SCALE as int);
            vstd::arithmetic::div_mod::lemma_div_is_ordered(
                m,
                1000 * crate::fixed::iabs(u),
                1000,
            );
        } else {
            vstd::arithmetic::div_mod::lemma_div_pos_is_pos(-m, SCALE as int);
            vstd::arithmetic::div_mod::lemma_div_is_ordered(
                -m,
                1000 * crate::fixed::iabs(u),
                1000,
            );
        }
    }
}

/// Integrate one body by one tick: damping, linear velocity, yaw spin,
/// gravity, in that order. Fixed bodies are never mutated.
pub fn integrate(body: &mut Body, delta_time: i64)
    requires
        old(body).wf(),
        0 <= delta_time,
        in_range(delta_time as int),
    ensures
        *final(body) == old(body).spec_integrated(delta_time as int),
        final(body).wf(),
{
    if body.rigid_body.fixed {
        return ;
    }
    body.rigid_body.apply_damping();
    body.rigid_body.apply_linear_velocity(&mut body.translation, delta_time);
    body.rigid_body.apply_angular_velocity(&mut body.rotation, delta_time);
    body.rigid_body.apply_gravity(&mut body.translation, delta_time);
}

} // verus!
