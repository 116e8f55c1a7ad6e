//! Debug-draw interface.
//!
//! The core performs no rendering: for every body with an outline marker
//! it exposes the collider's world transform and a color — a warning
//! color while the body is colliding, a neutral color otherwise — and the
//! host's draw layer issues the actual wireframe calls.

use vstd::prelude::*;

use crate::Body;
use crate::ColliderColor;
use crate::Srgba;
use crate::fixed::SCALE;
use crate::quat::Quat;
use crate::vec3::Vec3;

verus! {

/// Everything the host needs to draw one collider outline.
#[derive(Clone, Copy, Debug, PartialEq, Eq, Structural)]
pub struct OutlineInstance {
    pub translation: Vec3,
    pub rotation: Quat,
    /// Full box size, the collider's cuboid.
    pub scale: Vec3,
    pub color: ColliderColor,
}

/// The color an outline is drawn with: red while colliding, green at
/// rest.
pub open spec fn spec_outline_color(is_colliding: bool) -> Srgba {
    if is_colliding {
        Srgba { red: SCALE, green: 0, blue: 0, alpha: SCALE }
    } else {
        Srgba { red: 0, green: SCALE, blue: 0, alpha: SCALE }
    }
}

/// The outline of one body.
pub open spec fn spec_outline(b: Body) -> OutlineInstance {
    OutlineInstance {
        translation: b.translation,
        rotation: b.rotation,
        scale: b.collider.cuboid,
        color: ColliderColor(spec_outline_color(b.rigid_body.is_colliding)),
    }
}

/// The outlines of all marked bodies, in store order.
pub open spec fn spec_outlines(s: Seq<Body>) -> Seq<OutlineInstance>
    decreases s.len(),
{
    if s.len() == 0 {
        Seq::empty()
    } else {
        spec_outlines(s.drop_last()) + (if s.last().collider_lines {
            seq![spec_outline(s.last())]
        } else {
            Seq::empty()
        })
    }
}

/// The color an outline is drawn with.
pub fn outline_color(is_colliding: bool) -> (r: Srgba)
    ensures
        r == spec_outline_color(is_colliding),
{
    if is_colliding {
        Srgba::red()
    } else {
        Srgba::green()
    }
}

/// One wireframe cuboid per body with the outline marker, colored by its
/// collision flag, for the host's draw layer to render.
pub fn lines(bodies: &Vec<Body>) -> (r: Vec<OutlineInstance>)
    ensures
        r@ == spec_outlines(bodies@),
{
    let n: usize = bodies.len();
    let mut out: Vec<OutlineInstance> = Vec::new();
    let mut idx: usize = 0;
    while idx < n
        invariant
            n == bodies@.len(),
            idx <= n,
            out@ == spec_outlines(bodies@.subrange(0, idx as int)),
        decreases n - idx,
    {
        let b: Body = bodies[idx];
        let ghost out0 = out@;
        if b.collider_lines {
            let color: Srgba = outline_color(b.rigid_body.is_colliding);
            out.push(
                OutlineInstance {
                    translation: b.translation,
                    rotation: b.rotation,
                    scale: b.collider.cuboid,
                    color: ColliderColor(color),
                },
            );
        }
        proof {
            let pre = bodies@.subrange(0, idx as int);
            let cur = bodies@.subrange(0, idx as int + 1);
            assert(cur.drop_last() =~= pre);
            assert(cur.last() == bodies@[idx as int]);
            if b.collider_lines {
                assert(out@ =~= out0 + seq![spec_outline(bodies@[idx as int])]);
            } else {
                assert(out@ =~= out0 + Seq::<OutlineInstance>::empty());
            }
        }
        idx = idx + 1;
    }
    proof {
        assert(bodies@.subrange(0, n as int) =~= bodies@);
    }
    out
}

} // verus!
