//! Narrow-phase collision test and pairwise impulse resolution.
//!
//! Two oriented boxes overlap exactly when no axis among fifteen
//! candidates separates their projections (the separating-axis theorem):
//! the three local axes of either box and the nine pairwise cross
//! products, each normalized, a near-zero cross product being skipped.
//! Touching projections count as separated, so two boxes meeting exactly
//! at their faces do not overlap.

use vstd::prelude::*;

use crate::Body;
use crate::RigidBody;
use crate::fixed::SCALE;
use crate::fixed::fx_abs;
use crate::fixed::fx_clamp;
use crate::fixed::fx_mul;
use crate::fixed::fx_mul_spec;
use crate::fixed::iabs;
use crate::fixed::in_range;
use crate::fixed::lemma_tdiv_magnitude;
use crate::fixed::tdiv;
use crate::quat::Quat;
use crate::vec3::Vec3;
use crate::vec3::lemma_square_nonneg;

verus! {

/// Bounciness of every collision: `0.8` as a fixed-point fraction.
pub const RESTITUTION_FX: i64 = 800;

/// The `i`-th world-space axis of a rotated box, `i` in `0..3`.
pub open spec fn rot_axis(q: Quat, i: int) -> Vec3 {
    if i == 0 {
        q.spec_axis_x()
    } else if i == 1 {
        q.spec_axis_y()
    } else {
        q.spec_axis_z()
    }
}

/// Candidate separating axis `k` in `0..15`: the box axes first, then the
/// raw (unnormalized) cross products.
pub open spec fn cand_axis(rot_a: Quat, rot_b: Quat, k: int) -> Vec3 {
    if 0 <= k < 3 {
        rot_axis(rot_a, k)
    } else if 3 <= k < 6 {
        rot_axis(rot_b, k - 3)
    } else {
        rot_axis(rot_a, (k - 6) / 3).spec_cross(rot_axis(rot_b, (k - 6) % 3))
    }
}

/// Whether candidate `k` is tested: a cross product of nearly parallel
/// axes has squared length that rounds to zero and is skipped.
pub open spec fn axis_usable(rot_a: Quat, rot_b: Quat, k: int) -> bool {
    if k < 6 {
        true
    } else {
        let c = cand_axis(rot_a, rot_b, k);
        c.spec_dot(c) >= 1
    }
}

/// The axis actually projected onto: cross products are normalized.
pub open spec fn used_axis(rot_a: Quat, rot_b: Quat, k: int) -> Vec3 {
    if k < 6 {
        cand_axis(rot_a, rot_b, k)
    } else {
        cand_axis(rot_a, rot_b, k).spec_normalized()
    }
}

/// Projection radius of a box onto an axis: the half-extents weighted by
/// how much each local axis points along the projection axis.
pub open spec fn proj_radius(half: Vec3, rot: Quat, axis: Vec3) -> int {
    fx_mul_spec(half.x as int, iabs(rot_axis(rot, 0).spec_dot(axis)))
        + fx_mul_spec(half.y as int, iabs(rot_axis(rot, 1).spec_dot(axis)))
        + fx_mul_spec(half.z as int, iabs(rot_axis(rot, 2).spec_dot(axis)))
}

/// Distance between the box centers along an axis.
pub open spec fn center_dist(pos_a: Vec3, pos_b: Vec3, axis: Vec3) -> int {
    iabs(pos_b.spec_minus(pos_a).spec_dot(axis))
}

/// Candidate `k` separates the boxes: it is tested and the centers are at
/// least the summed projection radii apart along it. Projections that
/// merely touch count as separated.
pub open spec fn is_separating(
    half_a: Vec3,
    half_b: Vec3,
    pos_a: Vec3,
    pos_b: Vec3,
    rot_a: Quat,
    rot_b: Quat,
    k: int,
) -> bool {
    &&& axis_usable(rot_a, rot_b, k)
    &&& {
        let u = used_axis(rot_a, rot_b, k);
        center_dist(pos_a, pos_b, u) >= proj_radius(half_a, rot_a, u) + proj_radius(
            half_b,
            rot_b,
            u,
        )
    }
}

/// The separating-axis test: the boxes overlap exactly when no candidate
/// axis separates them.
pub open spec fn obb_overlap(
    half_a: Vec3,
    half_b: Vec3,
    pos_a: Vec3,
    pos_b: Vec3,
    rot_a: Quat,
    rot_b: Quat,
) -> bool {
    !(exists|k: int|
        0 <= k < 15 && is_separating(half_a, half_b, pos_a, pos_b, rot_a, rot_b, k))
}

/// Which direction pushes the boxes apart along `axis`: the axis oriented
/// along the sign of the center-to-center projection.
pub open spec fn oriented(pos_a: Vec3, pos_b: Vec3, axis: Vec3) -> Vec3 {
    if pos_b.spec_minus(pos_a).spec_dot(axis) >= 0 {
        axis
    } else {
        axis.spec_neg()
    }
}

/// Scan of the first `k` candidate axes for the resolution axis: `None`
/// once some tested axis fails to overlap strictly, otherwise the axis of
/// minimum positive penetration seen so far (ties keep the earliest axis),
/// oriented to push the boxes apart.
pub open spec fn pen_scan(
    half_a: Vec3,
    half_b: Vec3,
    pos_a: Vec3,
    pos_b: Vec3,
    rot_a: Quat,
    rot_b: Quat,
    k: int,
) -> Option<(Vec3, i64)>
    decreases k,
{
    if k <= 0 {
        Some((Vec3 { x: 0i64, y: 0i64, z: 0i64 }, i64::MAX))
    } else {
        match pen_scan(half_a, half_b, pos_a, pos_b, rot_a, rot_b, k - 1) {
            None => None,
            Some((axis, m)) => {
                if !axis_usable(rot_a, rot_b, k - 1) {
                    Some((axis, m))
                } else {
                    let u = used_axis(rot_a, rot_b, k - 1);
                    let p = proj_radius(half_a, rot_a, u) + proj_radius(half_b, rot_b, u)
                        - center_dist(pos_a, pos_b, u);
                    if p <= 0 {
                        None
                    } else if p < m {
                        Some((oriented(pos_a, pos_b, u), p as i64))
                    } else {
                        Some((axis, m))
                    }
                }
            },
        }
    }
}

/// The resolution axis and depth of two boxes: the axis of minimum
/// positive penetration among all tested candidates, or `None` when the
/// boxes do not strictly overlap.
pub open spec fn obb_penetration_spec(
    half_a: Vec3,
    half_b: Vec3,
    pos_a: Vec3,
    pos_b: Vec3,
    rot_a: Quat,
    rot_b: Quat,
) -> Option<(Vec3, i64)> {
    pen_scan(half_a, half_b, pos_a, pos_b, rot_a, rot_b, 15)
}

/// Once the scan has failed it stays failed.
proof fn lemma_pen_none_absorbs(
    half_a: Vec3,
    half_b: Vec3,
    pos_a: Vec3,
    pos_b: Vec3,
    rot_a: Quat,
    rot_b: Quat,
    j: int,
    k: int,
)
    requires
        0 <= j <= k,
        pen_scan(half_a, half_b, pos_a, pos_b, rot_a, rot_b, j) is None,
    ensures
        pen_scan(half_a, half_b, pos_a, pos_b, rot_a, rot_b, k) is None,
    decreases k - j,
{
    if k > j {
        lemma_pen_none_absorbs(half_a, half_b, pos_a, pos_b, rot_a, rot_b, j, k - 1);
    }
}

/// The scan succeeds on exactly the inputs on which no scanned axis
/// separates the boxes.
#[verifier::rlimit(50)]
proof fn lemma_pen_some_iff(
    half_a: Vec3,
    half_b: Vec3,
    pos_a: Vec3,
    pos_b: Vec3,
    rot_a: Quat,
    rot_b: Quat,
    k: int,
)
    requires
        0 <= k <= 15,
    ensures
        pen_scan(half_a, half_b, pos_a, pos_b, rot_a, rot_b, k) is Some <==> (forall|j: int|
            0 <= j < k ==> !is_separating(half_a, half_b, pos_a, pos_b, rot_a, rot_b, j)),
    decreases k,
{
    if k > 0 {
        lemma_pen_some_iff(half_a, half_b, pos_a, pos_b, rot_a, rot_b, k - 1);
        let prev = pen_scan(half_a, half_b, pos_a, pos_b, rot_a, rot_b, k - 1);
        if prev is None {
            let j = choose|j: int|
                0 <= j < k - 1 && is_separating(half_a, half_b, pos_a, pos_b, rot_a, rot_b, j);
            assert(0 <= j < k && is_separating(half_a, half_b, pos_a, pos_b, rot_a, rot_b, j));
        } else {
            if axis_usable(rot_a, rot_b, k - 1) {
                let u = used_axis(rot_a, rot_b, k - 1);
                let p = proj_radius(half_a, rot_a, u) + proj_radius(half_b, rot_b, u)
                    - center_dist(pos_a, pos_b, u);
                if p <= 0 {
                    assert(is_separating(half_a, half_b, pos_a, pos_b, rot_a, rot_b, k - 1));
                } else {
                    assert(!is_separating(half_a, half_b, pos_a, pos_b, rot_a, rot_b, k - 1));
                    assert(forall|j: int|
                        0 <= j < k ==> !is_separating(
                            half_a,
                            half_b,
                            pos_a,
                            pos_b,
                            rot_a,
                            rot_b,
                            j,
                        )) by {
                        assert forall|j: int| 0 <= j < k implies !is_separating(
                            half_a,
                            half_b,
                            pos_a,
                            pos_b,
                            rot_a,
                            rot_b,
                            j,
                        ) by {
                            if j < k - 1 {
                            }
                        }
                    }
                }
            } else {
                assert(!is_separating(half_a, half_b, pos_a, pos_b, rot_a, rot_b, k - 1));
                assert(forall|j: int|
                    0 <= j < k ==> !is_separating(half_a, half_b, pos_a, pos_b, rot_a, rot_b, j))
                    by {
                    assert forall|j: int| 0 <= j < k implies !is_separating(
                        half_a,
                        half_b,
                        pos_a,
                        pos_b,
                        rot_a,
                        rot_b,
                        j,
                    ) by {
                        if j < k - 1 {
                        }
                    }
                }
            }
        }
    }
}

/// A depth is reported exactly when the boxes overlap.
pub proof fn lemma_penetration_exactly_when_overlap(
    half_a: Vec3,
    half_b: Vec3,
    pos_a: Vec3,
    pos_b: Vec3,
    rot_a: Quat,
    rot_b: Quat,
)
    ensures
        obb_penetration_spec(half_a, half_b, pos_a, pos_b, rot_a, rot_b) is Some <==> obb_overlap(
            half_a,
            half_b,
            pos_a,
            pos_b,
            rot_a,
            rot_b,
        ),
{
    lemma_pen_some_iff(half_a, half_b, pos_a, pos_b, rot_a, rot_b, 15);
}

/// The index under which the swapped pair tests the same candidate axis:
/// the two boxes' own axes trade places, and the cross product of axes
/// `(i, j)` becomes the cross of `(j, i)`.
pub open spec fn swap_axis_index(k: int) -> int {
    if k < 3 {
        k + 3
    } else if k < 6 {
        k - 3
    } else {
        6 + 3 * ((k - 6) % 3) + (k - 6) / 3
    }
}

/// `swap_axis_index` is an involution of the fifteen candidates.
proof fn lemma_swap_index(k: int)
    requires
        0 <= k < 15,
    ensures
        0 <= swap_axis_index(k) < 15,
        swap_axis_index(swap_axis_index(k)) == k,
{
    if k >= 6 {
        let d = k - 6;
        vstd::arithmetic::div_mod::lemma_fundamental_div_mod(d, 3);
        vstd::arithmetic::div_mod::lemma_mod_bound(d, 3);
        vstd::arithmetic::div_mod::lemma_div_is_ordered(d, 8, 3);
        vstd::arithmetic::div_mod::lemma_div_pos_is_pos(d, 3);
        vstd::arithmetic::div_mod::lemma_fundamental_div_mod_converse(8, 3, 2, 2);
        let i = d / 3;
        let j = d % 3;
        vstd::arithmetic::div_mod::lemma_fundamental_div_mod_converse(3 * j + i, 3, j, i);
    }
}

/// Candidate axes always have representable components.
proof fn lemma_axis_wf(rot_a: Quat, rot_b: Quat, k: int)
    ensures
        cand_axis(rot_a, rot_b, k).wf(),
        used_axis(rot_a, rot_b, k).wf(),
{
}

/// A usable cross-product axis has raw squared length of at least one
/// whole scale unit.
proof fn lemma_usable_norm2(rot_a: Quat, rot_b: Quat, k: int)
    requires
        k >= 6,
        axis_usable(rot_a, rot_b, k),
    ensures
        cand_axis(rot_a, rot_b, k).spec_norm2() >= 1,
{
    let c = cand_axis(rot_a, rot_b, k);
    lemma_square_nonneg(c.x as int);
    lemma_square_nonneg(c.y as int);
    lemma_square_nonneg(c.z as int);
    let n2 = c.spec_norm2();
    vstd::arithmetic::div_mod::lemma_fundamental_div_mod(n2, SCALE as int);
    vstd::arithmetic::div_mod::lemma_mod_bound(n2, SCALE as int);
}

/// Swapping the boxes preserves each candidate axis test: the axis is
/// the same or its negation, and every projection is even in that sign.
#[verifier::rlimit(60)]
proof fn lemma_sep_swap(
    half_a: Vec3,
    half_b: Vec3,
    pos_a: Vec3,
    pos_b: Vec3,
    rot_a: Quat,
    rot_b: Quat,
    k: int,
)
    requires
        0 <= k < 15,
    ensures
        is_separating(half_b, half_a, pos_b, pos_a, rot_b, rot_a, swap_axis_index(k))
            == is_separating(half_a, half_b, pos_a, pos_b, rot_a, rot_b, k),
{
    let k2 = swap_axis_index(k);
    lemma_swap_index(k);
    let t = pos_b.spec_minus(pos_a);
    crate::vec3::lemma_minus_antisymmetric(pos_a, pos_b);
    if k < 6 {
        assert(cand_axis(rot_b, rot_a, k2) == cand_axis(rot_a, rot_b, k));
        let u = used_axis(rot_a, rot_b, k);
        lemma_axis_wf(rot_a, rot_b, k);
        crate::vec3::lemma_dot_neg_left(t, u);
    } else {
        let d = k - 6;
        vstd::arithmetic::div_mod::lemma_fundamental_div_mod(d, 3);
        vstd::arithmetic::div_mod::lemma_mod_bound(d, 3);
        vstd::arithmetic::div_mod::lemma_div_is_ordered(d, 8, 3);
        vstd::arithmetic::div_mod::lemma_div_pos_is_pos(d, 3);
        vstd::arithmetic::div_mod::lemma_fundamental_div_mod_converse(8, 3, 2, 2);
        let i = d / 3;
        let j = d % 3;
        vstd::arithmetic::div_mod::lemma_fundamental_div_mod_converse(3 * j + i, 3, j, i);
        let c = cand_axis(rot_a, rot_b, k);
        lemma_axis_wf(rot_a, rot_b, k);
        crate::vec3::lemma_cross_antisymmetric(rot_axis(rot_a, i), rot_axis(rot_b, j));
        assert(cand_axis(rot_b, rot_a, k2) == c.spec_neg());
        // Same squared length, so the same axes are skipped.
        crate::vec3::lemma_dot_neg_left(c, c.spec_neg());
        crate::vec3::lemma_dot_neg_right(c, c);
        assert(axis_usable(rot_b, rot_a, k2) == axis_usable(rot_a, rot_b, k));
        if axis_usable(rot_a, rot_b, k) {
            lemma_usable_norm2(rot_a, rot_b, k);
            crate::vec3::lemma_normalized_neg(c);
            let u = used_axis(rot_a, rot_b, k);
            assert(used_axis(rot_b, rot_a, k2) == u.spec_neg());
            lemma_axis_wf(rot_a, rot_b, k);
            assert(u.wf());
            // Distance along the axis is even in both signs.
            crate::vec3::lemma_dot_neg_left(t, u.spec_neg());
            crate::vec3::lemma_dot_neg_right(t, u);
            crate::vec3::lemma_dot_neg_right(t.spec_neg(), u);
            // Projection radii see only the magnitude of each dot.
            crate::vec3::lemma_dot_neg_right(rot_axis(rot_a, 0), u);
            crate::vec3::lemma_dot_neg_right(rot_axis(rot_a, 1), u);
            crate::vec3::lemma_dot_neg_right(rot_axis(rot_a, 2), u);
            crate::vec3::lemma_dot_neg_right(rot_axis(rot_b, 0), u);
            crate::vec3::lemma_dot_neg_right(rot_axis(rot_b, 1), u);
            crate::vec3::lemma_dot_neg_right(rot_axis(rot_b, 2), u);
            assert(proj_radius(half_a, rot_a, u.spec_neg()) == proj_radius(half_a, rot_a, u));
            assert(proj_radius(half_b, rot_b, u.spec_neg()) == proj_radius(half_b, rot_b, u));
            assert(center_dist(pos_b, pos_a, u.spec_neg()) == center_dist(pos_a, pos_b, u));
        }
    }
}

/// The separating-axis test is symmetric: swapping the two boxes never
/// changes the verdict.
pub proof fn lemma_overlap_symmetric(
    half_a: Vec3,
    half_b: Vec3,
    pos_a: Vec3,
    pos_b: Vec3,
    rot_a: Quat,
    rot_b: Quat,
)
    ensures
        obb_overlap(half_a, half_b, pos_a, pos_b, rot_a, rot_b) == obb_overlap(
            half_b,
            half_a,
            pos_b,
            pos_a,
            rot_b,
            rot_a,
        ),
{
    if exists|k: int| 0 <= k < 15 && is_separating(half_a, half_b, pos_a, pos_b, rot_a, rot_b, k) {
        let k = choose|k: int|
            0 <= k < 15 && is_separating(half_a, half_b, pos_a, pos_b, rot_a, rot_b, k);
        lemma_swap_index(k);
        lemma_sep_swap(half_a, half_b, pos_a, pos_b, rot_a, rot_b, k);
        assert(is_separating(half_b, half_a, pos_b, pos_a, rot_b, rot_a, swap_axis_index(k)));
    }
    if exists|k: int| 0 <= k < 15 && is_separating(half_b, half_a, pos_b, pos_a, rot_b, rot_a, k) {
        let k = choose|k: int|
            0 <= k < 15 && is_separating(half_b, half_a, pos_b, pos_a, rot_b, rot_a, k);
        lemma_swap_index(k);
        lemma_sep_swap(half_b, half_a, pos_b, pos_a, rot_b, rot_a, k);
        assert(is_separating(half_a, half_b, pos_a, pos_b, rot_a, rot_b, swap_axis_index(k)));
    }
}

/// The `i`-th world-space axis of a rotated box.
fn rot_axis_exec(q: &Quat, i: usize) -> (r: Vec3)
    requires
        q.wf(),
        i < 3,
    ensures
        r == rot_axis(*q, i as int),
        r.wf(),
{
    if i == 0 {
        q.axis_x()
    } else if i == 1 {
        q.axis_y()
    } else {
        q.axis_z()
    }
}

/// Candidate axis `k`, already normalized where required, or `None` where
/// the candidate is skipped.
fn used_axis_exec(rot_a: &Quat, rot_b: &Quat, k: usize) -> (r: Option<Vec3>)
    requires
        rot_a.wf(),
        rot_b.wf(),
        k < 15,
    ensures
        match r {
            Some(v) => axis_usable(*rot_a, *rot_b, k as int) && v == used_axis(
                *rot_a,
                *rot_b,
                k as int,
            ) && v.wf(),
            None => !axis_usable(*rot_a, *rot_b, k as int),
        },
{
    if k < 3 {
        Some(rot_axis_exec(rot_a, k))
    } else if k < 6 {
        Some(rot_axis_exec(rot_b, k - 3))
    } else {
        let i: usize = (k - 6) / 3;
        let j: usize = (k - 6) % 3;
        let c: Vec3 = rot_axis_exec(rot_a, i).cross(rot_axis_exec(rot_b, j));
        let len2: i64 = c.dot(c);
        proof {
            lemma_square_nonneg(c.x as int);
            lemma_square_nonneg(c.y as int);
            lemma_square_nonneg(c.z as int);
            vstd::arithmetic::div_mod::lemma_div_pos_is_pos(c.spec_norm2(), SCALE as int);
            if len2 >= 1 {
                vstd::arithmetic::div_mod::lemma_fundamental_div_mod(
                    c.spec_norm2(),
                    SCALE as int,
                );
                vstd::arithmetic::div_mod::lemma_mod_bound(c.spec_norm2(), SCALE as int);
            }
        }
        if len2 >= 1 {
            Some(c.normalized())
        } else {
            None
        }
    }
}

/// Projection radius of a box onto an axis.
fn proj_radius_exec(half: &Vec3, rot: &Quat, axis: &Vec3) -> (r: i64)
    requires
        half.wf(),
        rot.wf(),
        axis.wf(),
    ensures
        r == proj_radius(*half, *rot, *axis),
        -3_000_000_000 <= r <= 3_000_000_000,
{
    let r0: i64 = fx_mul(half.x, fx_abs(rot_axis_exec(rot, 0).dot(*axis)));
    let r1: i64 = fx_mul(half.y, fx_abs(rot_axis_exec(rot, 1).dot(*axis)));
    let r2: i64 = fx_mul(half.z, fx_abs(rot_axis_exec(rot, 2).dot(*axis)));
    r0 + r1 + r2
}

/// Checks whether two oriented bounding boxes overlap, by the separating
/// axis theorem.
pub fn check_obb_collision(
    half_extents_a: &Vec3,
    half_extents_b: &Vec3,
    pos_a: &Vec3,
    pos_b: &Vec3,
    rot_a: &Quat,
    rot_b: &Quat,
) -> (r: bool)
    requires
        half_extents_a.wf(),
        half_extents_b.wf(),
        pos_a.wf(),
        pos_b.wf(),
        rot_a.wf(),
        rot_b.wf(),
    ensures
        r == obb_overlap(*half_extents_a, *half_extents_b, *pos_a, *pos_b, *rot_a, *rot_b),
{
    let translation: Vec3 = pos_b.minus(*pos_a);
    let mut k: usize = 0;
    while k < 15
        invariant
            k <= 15,
            half_extents_a.wf(),
            half_extents_b.wf(),
            pos_a.wf(),
            pos_b.wf(),
            rot_a.wf(),
            rot_b.wf(),
            translation == pos_b.spec_minus(*pos_a),
            forall|j: int|
                0 <= j < k ==> !is_separating(
                    *half_extents_a,
                    *half_extents_b,
                    *pos_a,
                    *pos_b,
                    *rot_a,
                    *rot_b,
                    j,
                ),
        decreases 15 - k,
    {
        match used_axis_exec(rot_a, rot_b, k) {
            None => {},
            Some(axis) => {
                let r_a: i64 = proj_radius_exec(half_extents_a, rot_a, &axis);
                let r_b: i64 = proj_radius_exec(half_extents_b, rot_b, &axis);
                let d: i64 = fx_abs(translation.dot(axis));
                if d >= r_a + r_b {
                    proof {
                        assert(is_separating(
                            *half_extents_a,
                            *half_extents_b,
                            *pos_a,
                            *pos_b,
                            *rot_a,
                            *rot_b,
                            k as int,
                        ));
                    }
                    return false;
                }
            },
        }
        k = k + 1;
    }
    true
}

/// Finds the axis of minimum positive penetration between two overlapping
/// oriented boxes, oriented so that pushing along it drives the boxes
/// apart, together with the penetration depth. Returns `None` when the
/// boxes do not strictly overlap.
pub fn obb_penetration(
    half_extents_a: &Vec3,
    half_extents_b: &Vec3,
    pos_a: &Vec3,
    pos_b: &Vec3,
    rot_a: &Quat,
    rot_b: &Quat,
) -> (r: Option<(Vec3, i64)>)
    requires
        half_extents_a.wf(),
        half_extents_b.wf(),
        pos_a.wf(),
        pos_b.wf(),
        rot_a.wf(),
        rot_b.wf(),
    ensures
        r == obb_penetration_spec(*half_extents_a, *half_extents_b, *pos_a, *pos_b, *rot_a, *rot_b),
        match r {
            Some((axis, depth)) => axis.wf() && 0 < depth <= 6_000_000_000,
            None => true,
        },
{
    let translation: Vec3 = pos_b.minus(*pos_a);
    let mut min_pen: i64 = i64::MAX;
    let mut coll_axis: Vec3 = Vec3::zero();
    let mut k: usize = 0;
    while k < 15
        invariant
            k <= 15,
            half_extents_a.wf(),
            half_extents_b.wf(),
            pos_a.wf(),
            pos_b.wf(),
            rot_a.wf(),
            rot_b.wf(),
            translation == pos_b.spec_minus(*pos_a),
            translation.wf(),
            pen_scan(
                *half_extents_a,
                *half_extents_b,
                *pos_a,
                *pos_b,
                *rot_a,
                *rot_b,
                k as int,
            ) == Some((coll_axis, min_pen)),
            k == 0 ==> min_pen == i64::MAX,
            k >= 1 ==> 0 < min_pen <= 6_000_000_000 && coll_axis.wf(),
        decreases 15 - k,
    {
        match used_axis_exec(rot_a, rot_b, k) {
            None => {},
            Some(axis) => {
                let r_a: i64 = proj_radius_exec(half_extents_a, rot_a, &axis);
                let r_b: i64 = proj_radius_exec(half_extents_b, rot_b, &axis);
                let dval: i64 = translation.dot(axis);
                let d: i64 = fx_abs(dval);
                let p: i64 = r_a + r_b - d;
                if p <= 0 {
                    proof {
                        lemma_pen_none_absorbs(
                            *half_extents_a,
                            *half_extents_b,
                            *pos_a,
                            *pos_b,
                            *rot_a,
                            *rot_b,
                            k as int + 1,
                            15,
                        );
                    }
                    return None;
                }
                if p < min_pen {
                    min_pen = p;
                    coll_axis = if dval >= 0 {
                        axis
                    } else {
                        axis.neg()
                    };
                }
            },
        }
        k = k + 1;
    }
    Some((coll_axis, min_pen))
}

/// The two bodies after one impulse resolution: each non-fixed body is
/// pushed half the penetration depth along the resolution axis (away from
/// the other), and an elastic impulse with restitution [`RESTITUTION_FX`]
/// is split between the non-fixed bodies. Bodies that do not strictly
/// overlap are returned unchanged, and a fixed body is never changed.
pub open spec fn spec_resolved(a: Body, b: Body) -> (Body, Body) {
    let pen = obb_penetration_spec(
        a.collider.spec_half_extents(),
        b.collider.spec_half_extents(),
        a.translation,
        b.translation,
        a.rotation,
        b.rotation,
    );
    match pen {
        None => (a, b),
        Some((axis, depth)) => {
            let corr = axis.spec_scaled(crate::fixed::fx_clamp(tdiv(depth as int, 2)));
            let pos_a = if a.rigid_body.fixed {
                a.translation
            } else {
                a.translation.spec_minus(corr)
            };
            let pos_b = if b.rigid_body.fixed {
                b.translation
            } else {
                b.translation.spec_plus(corr)
            };
            let rel = a.rigid_body.linear_velocity.spec_minus(b.rigid_body.linear_velocity);
            let j = -tdiv(fx_mul_spec((SCALE + RESTITUTION_FX) as int, rel.spec_dot(axis)), 2);
            let vel_a = if a.rigid_body.fixed {
                a.rigid_body.linear_velocity
            } else {
                a.rigid_body.linear_velocity.spec_plus(axis.spec_scaled(j))
            };
            let vel_b = if b.rigid_body.fixed {
                b.rigid_body.linear_velocity
            } else {
                b.rigid_body.linear_velocity.spec_minus(axis.spec_scaled(j))
            };
            (
                Body {
                    translation: pos_a,
                    rigid_body: RigidBody { linear_velocity: vel_a, ..a.rigid_body },
                    ..a
                },
                Body {
                    translation: pos_b,
                    rigid_body: RigidBody { linear_velocity: vel_b, ..b.rigid_body },
                    ..b
                },
            )
        },
    }
}

/// Resolves the collision between two oriented boxes by moving them apart
/// along the axis of least penetration and applying an elastic velocity
/// impulse. A pair that does not strictly overlap is left untouched, and a
/// fixed body is never moved.
pub fn resolve_obb_collision(a: &mut Body, b: &mut Body)
    requires
        old(a).wf(),
        old(b).wf(),
    ensures
        (*final(a), *final(b)) == spec_resolved(*old(a), *old(b)),
        final(a).wf(),
        final(b).wf(),
{
    let half_extents_a: Vec3 = a.collider.half_extents();
    let half_extents_b: Vec3 = b.collider.half_extents();
    match obb_penetration(
        &half_extents_a,
        &half_extents_b,
        &a.translation,
        &b.translation,
        &a.rotation,
        &b.rotation,
    ) {
        None => {},
        Some((axis, depth)) => {
            proof {
                lemma_tdiv_magnitude(depth as int, 2);
            }
            let corr: Vec3 = axis.scaled(crate::fixed::clamp_fx(depth / 2));
            if !a.rigid_body.fixed {
                a.translation = a.translation.minus(corr);
            }
            if !b.rigid_body.fixed {
                b.translation = b.translation.plus(corr);
            }
            let rel: Vec3 = a.rigid_body.linear_velocity.minus(b.rigid_body.linear_velocity);
            let j0: i64 = fx_mul(SCALE + RESTITUTION_FX, rel.dot(axis));
            proof {
                lemma_tdiv_magnitude(j0 as int, 2);
            }
            let j: i64 = -(j0 / 2);
            let impulse: Vec3 = axis.scaled(j);
            if !a.rigid_body.fixed {
                a.rigid_body.linear_velocity = a.rigid_body.linear_velocity.plus(impulse);
            }
            if !b.rigid_body.fixed {
                b.rigid_body.linear_velocity = b.rigid_body.linear_velocity.minus(impulse);
            }
        },
    }
}

/// Integrate every body by one tick. Runs before any collision query of
/// the same tick, so all collision tests see post-integration positions.
pub fn apply_physics(bodies: &mut Vec<Body>, delta_time: i64)
    requires
        forall|i: int| 0 <= i < old(bodies)@.len() ==> (#[trigger] old(bodies)@[i]).wf(),
        0 <= delta_time,
        in_range(delta_time as int),
    ensures
        final(bodies)@.len() == old(bodies)@.len(),
        forall|i: int|
            0 <= i < old(bodies)@.len() ==> #[trigger] final(bodies)@[i] == old(
                bodies,
            )@[i].spec_integrated(delta_time as int),
        forall|i: int| 0 <= i < final(bodies)@.len() ==> (#[trigger] final(bodies)@[i]).wf(),
{
    let n: usize = bodies.len();
    let mut idx: usize = 0;
    while idx < n
        invariant
            n == old(bodies)@.len(),
            bodies@.len() == n,
            idx <= n,
            0 <= delta_time,
            in_range(delta_time as int),
            forall|i: int| 0 <= i < n ==> (#[trigger] old(bodies)@[i]).wf(),
            forall|i: int| idx <= i < n ==> bodies@[i] == old(bodies)@[i],
            forall|i: int|
                0 <= i < idx ==> #[trigger] bodies@[i] == old(bodies)@[i].spec_integrated(
                    delta_time as int,
                ),
            forall|i: int| 0 <= i < idx ==> (#[trigger] bodies@[i]).wf(),
        decreases n - idx,
    {
        let mut body: Body = bodies[idx];
        crate::integrate(&mut body, delta_time);
        bodies[idx] = body;
        idx = idx + 1;
    }
}

/// The body with its transient collision flag lowered, as every body is
/// at the start of a tick's collision pass.
pub open spec fn clear_flag(b: Body) -> Body {
    Body { rigid_body: RigidBody { is_colliding: false, ..b.rigid_body }, ..b }
}

/// The body with its collision flag raised, unless it is the designated
/// static map/ground body, whose flag is suppressed for debug drawing
/// while physical resolution still applies.
pub open spec fn mark_colliding(b: Body) -> Body {
    if b.map_base {
        b
    } else {
        Body { rigid_body: RigidBody { is_colliding: true, ..b.rigid_body }, ..b }
    }
}

/// Every body with its collision flag lowered.
pub open spec fn spec_clear_all(s: Seq<Body>) -> Seq<Body> {
    Seq::new(s.len(), |i: int| clear_flag(s[i]))
}

/// Every body integrated by one tick.
pub open spec fn spec_integrate_all(s: Seq<Body>, delta_time: int) -> Seq<Body> {
    Seq::new(s.len(), |i: int| s[i].spec_integrated(delta_time))
}

/// The two bodies of one confirmed pair overlap, as the narrow phase
/// judges them in the snapshot `s`.
pub open spec fn pair_overlaps(s: Seq<Body>, i: int, j: int) -> bool {
    obb_overlap(
        s[i].collider.spec_half_extents(),
        s[j].collider.spec_half_extents(),
        s[i].translation,
        s[j].translation,
        s[i].rotation,
        s[j].rotation,
    )
}

/// `ps` is exactly the confirmed collision list of the snapshot `s`: the
/// broad-phase candidates that the narrow phase confirms, each unordered
/// pair once, lower identity first.
pub open spec fn confirmed_ok(s: Seq<Body>, ps: Seq<crate::grid::CollisionPair>) -> bool {
    &&& forall|p: int|
        0 <= p < ps.len() ==> crate::grid::is_candidate(
            s,
            (#[trigger] ps[p]).first as int,
            ps[p].second as int,
        ) && pair_overlaps(s, ps[p].first as int, ps[p].second as int)
    &&& forall|i: int, j: int|
        crate::grid::is_candidate(s, i, j) && pair_overlaps(s, i, j) ==> ps.contains(
            crate::grid::CollisionPair { first: i as usize, second: j as usize },
        )
    &&& forall|p: int, q: int| 0 <= p < q < ps.len() ==> ps[p] != ps[q]
}

/// One sequential resolution: both bodies are marked colliding (the map
/// base excepted) and then pushed apart and impulsed.
pub open spec fn resolve_step(s: Seq<Body>, i: int, j: int) -> Seq<Body> {
    let a = mark_colliding(s[i]);
    let b = mark_colliding(s[j]);
    let (a2, b2) = spec_resolved(a, b);
    s.update(i, a2).update(j, b2)
}

/// The body store after resolving the listed pairs in order, each
/// resolution reading the store as the previous one left it.
pub open spec fn run_resolutions(s: Seq<Body>, ps: Seq<crate::grid::CollisionPair>) -> Seq<Body>
    decreases ps.len(),
{
    if ps.len() == 0 {
        s
    } else {
        run_resolutions(resolve_step(s, ps[0].first as int, ps[0].second as int), ps.skip(1))
    }
}

/// Resolving one more pair at the end continues the run.
proof fn lemma_run_snoc(s: Seq<Body>, ps: Seq<crate::grid::CollisionPair>, x: crate::grid::CollisionPair)
    ensures
        run_resolutions(s, ps.push(x)) == resolve_step(
            run_resolutions(s, ps),
            x.first as int,
            x.second as int,
        ),
    decreases ps.len(),
{
    if ps.len() == 0 {
        assert(ps.push(x).skip(1) =~= Seq::<crate::grid::CollisionPair>::empty());
        assert(ps.push(x)[0] == x);
        assert(run_resolutions(s, ps) == s);
        assert(run_resolutions(resolve_step(s, x.first as int, x.second as int), ps.push(x).skip(1))
            == resolve_step(s, x.first as int, x.second as int));
    } else {
        assert(ps.push(x)[0] == ps[0]);
        assert(ps.push(x).skip(1) =~= ps.skip(1).push(x));
        let s1 = resolve_step(s, ps[0].first as int, ps[0].second as int);
        lemma_run_snoc(s1, ps.skip(1), x);
        assert(run_resolutions(s, ps.push(x)) == run_resolutions(s1, ps.skip(1).push(x)));
        assert(run_resolutions(s, ps) == run_resolutions(s1, ps.skip(1)));
    }
}

/// One tick's collision pass: lower every collision flag, rebuild the
/// spatial grid and gather candidate pairs, confirm them with the
/// separating-axis test against the post-integration snapshot, then
/// resolve each confirmed pair in turn, marking its bodies as colliding.
///
/// The final store is the result of running the resolutions over the
/// flag-cleared store, for a confirmed list that holds exactly the
/// overlapping candidate pairs, each once, lower identity first.
pub fn collisions(bodies: &mut Vec<Body>)
    requires
        forall|i: int| 0 <= i < old(bodies)@.len() ==> (#[trigger] old(bodies)@[i]).wf(),
    ensures
        final(bodies)@.len() == old(bodies)@.len(),
        forall|i: int| 0 <= i < final(bodies)@.len() ==> (#[trigger] final(bodies)@[i]).wf(),
        exists|ps: Seq<crate::grid::CollisionPair>|
            {
                &&& confirmed_ok(spec_clear_all(old(bodies)@), ps)
                &&& final(bodies)@ == run_resolutions(spec_clear_all(old(bodies)@), ps)
            },
{
    let n: usize = bodies.len();
    let mut idx: usize = 0;
    while idx < n
        invariant
            n == bodies@.len(),
            n == old(bodies)@.len(),
            idx <= n,
            forall|i: int| 0 <= i < n ==> (#[trigger] old(bodies)@[i]).wf(),
            forall|i: int| idx <= i < n ==> bodies@[i] == old(bodies)@[i],
            forall|i: int| 0 <= i < idx ==> bodies@[i] == clear_flag(#[trigger] old(bodies)@[i]),
        decreases n - idx,
    {
        let mut b: Body = bodies[idx];
        b.rigid_body.is_colliding = false;
        bodies[idx] = b;
        idx = idx + 1;
    }
    let ghost s0 = bodies@;
    proof {
        assert(s0 =~= spec_clear_all(old(bodies)@));
        assert(forall|i: int| 0 <= i < n ==> (#[trigger] s0[i]).wf());
    }
    let cands: Vec<crate::grid::CollisionPair> = crate::grid::broad_phase(bodies);
    let mut confirmed: Vec<crate::grid::CollisionPair> = Vec::new();
    let mut c: usize = 0;
    while c < cands.len()
        invariant
            n == bodies@.len(),
            bodies@ == s0,
            c <= cands@.len(),
            forall|i: int| 0 <= i < n ==> (#[trigger] s0[i]).wf(),
            forall|p: int|
                0 <= p < cands@.len() ==> crate::grid::is_candidate(
                    s0,
                    (#[trigger] cands@[p]).first as int,
                    cands@[p].second as int,
                ),
            forall|i: int, j: int|
                crate::grid::is_candidate(s0, i, j) ==> cands@.contains(
                    crate::grid::CollisionPair { first: i as usize, second: j as usize },
                ),
            forall|p: int, q: int| 0 <= p < q < cands@.len() ==> cands@[p] != cands@[q],
            forall|p: int|
                0 <= p < confirmed@.len() ==> crate::grid::is_candidate(
                    s0,
                    (#[trigger] confirmed@[p]).first as int,
                    confirmed@[p].second as int,
                ) && pair_overlaps(s0, confirmed@[p].first as int, confirmed@[p].second as int),
            forall|c0: int|
                0 <= c0 < c && pair_overlaps(
                    s0,
                    (#[trigger] cands@[c0]).first as int,
                    cands@[c0].second as int,
                ) ==> confirmed@.contains(cands@[c0]),
            forall|k: int|
                0 <= k < confirmed@.len() ==> exists|c0: int|
                    0 <= c0 < c && cands@[c0] == (#[trigger] confirmed@[k]),
            forall|p: int, q: int| 0 <= p < q < confirmed@.len() ==> confirmed@[p] != confirmed@[q],
        decreases cands@.len() - c,
    {
        let pr: crate::grid::CollisionPair = cands[c];
        let body_a: Body = bodies[pr.first];
        let body_b: Body = bodies[pr.second];
        let half_a: Vec3 = body_a.collider.half_extents();
        let half_b: Vec3 = body_b.collider.half_extents();
        let ghost confirmed0 = confirmed@;
        if check_obb_collision(
            &half_a,
            &half_b,
            &body_a.translation,
            &body_b.translation,
            &body_a.rotation,
            &body_b.rotation,
        ) {
            proof {
                assert forall|k: int| 0 <= k < confirmed@.len() implies confirmed@[k] != pr by {
                    let c0 = choose|c0: int| 0 <= c0 < c && cands@[c0] == confirmed@[k];
                    assert(cands@[c0] != cands@[c as int]);
                }
            }
            confirmed.push(pr);
            proof {
                assert(confirmed@ == confirmed0.push(pr));
                assert(confirmed@.last() == pr);
            }
        }
        proof {
            assert forall|c0: int|
                0 <= c0 < c + 1 && pair_overlaps(
                    s0,
                    (#[trigger] cands@[c0]).first as int,
                    cands@[c0].second as int,
                ) implies confirmed@.contains(cands@[c0]) by {
                if c0 < c {
                    let k = choose|k: int|
                        0 <= k < confirmed0.len() && confirmed0[k] == cands@[c0];
                    assert(confirmed@[k] == cands@[c0]);
                } else {
                    assert(confirmed@.last() == pr);
                }
            }
        }
        c = c + 1;
    }
    let ghost ps = confirmed@;
    proof {
        assert forall|i: int, j: int|
            crate::grid::is_candidate(s0, i, j) && pair_overlaps(s0, i, j) implies ps.contains(
            crate::grid::CollisionPair { first: i as usize, second: j as usize },
        ) by {
            let pr = crate::grid::CollisionPair { first: i as usize, second: j as usize };
            let c0 = choose|c0: int| 0 <= c0 < cands@.len() && cands@[c0] == pr;
            assert(pair_overlaps(
                s0,
                cands@[c0].first as int,
                cands@[c0].second as int,
            ));
        }
        assert(confirmed_ok(s0, ps));
    }
    let m: usize = confirmed.len();
    let mut r: usize = 0;
    while r < m
        invariant
            n == bodies@.len(),
            r <= m,
            m == ps.len(),
            confirmed@ == ps,
            forall|i: int| 0 <= i < n ==> (#[trigger] bodies@[i]).wf(),
            forall|p: int|
                0 <= p < ps.len() ==> crate::grid::is_candidate(
                    s0,
                    (#[trigger] ps[p]).first as int,
                    ps[p].second as int,
                ),
            s0.len() == n,
            bodies@ == run_resolutions(s0, ps.subrange(0, r as int)),
        decreases m - r,
    {
        let pr: crate::grid::CollisionPair = confirmed[r];
        let mut body_a: Body = bodies[pr.first];
        let mut body_b: Body = bodies[pr.second];
        if !body_a.map_base {
            body_a.rigid_body.is_colliding = true;
        }
        if !body_b.map_base {
            body_b.rigid_body.is_colliding = true;
        }
        proof {
            assert(body_a == mark_colliding(bodies@[pr.first as int]));
            assert(body_b == mark_colliding(bodies@[pr.second as int]));
        }
        resolve_obb_collision(&mut body_a, &mut body_b);
        let ghost before = bodies@;
        bodies[pr.first] = body_a;
        bodies[pr.second] = body_b;
        proof {
            assert(bodies@ =~= resolve_step(before, pr.first as int, pr.second as int));
            assert(ps.subrange(0, r as int + 1) =~= ps.subrange(0, r as int).push(pr));
            lemma_run_snoc(s0, ps.subrange(0, r as int), pr);
        }
        r = r + 1;
    }
    proof {
        assert(ps.subrange(0, m as int) =~= ps);
    }
}

/// Fixed-body invariance, integration half: a fixed body is left entirely
/// unchanged by integration.
pub proof fn lemma_fixed_body_integrate(b: Body, delta_time: int)
    requires
        b.rigid_body.fixed,
    ensures
        b.spec_integrated(delta_time) == b,
{
}

/// Fixed-body invariance, resolution half: a fixed body is returned
/// unchanged by the pairwise resolver, whichever side of the pair it is.
pub proof fn lemma_fixed_body_resolve(a: Body, b: Body)
    ensures
        a.rigid_body.fixed ==> spec_resolved(a, b).0 == a,
        b.rigid_body.fixed ==> spec_resolved(a, b).1 == b,
{
}

/// Fixed-body invariance over a whole collision pass: however many pairs
/// are resolved in whatever order, a fixed body's position and both
/// velocities never change; only its transient collision flag may.
pub proof fn lemma_fixed_body_run(s: Seq<Body>, ps: Seq<crate::grid::CollisionPair>, x: int)
    requires
        forall|p: int|
            0 <= p < ps.len() ==> 0 <= (#[trigger] ps[p]).first < s.len() && 0 <= ps[p].second
                < s.len(),
        0 <= x < s.len(),
        s[x].rigid_body.fixed,
    ensures
        run_resolutions(s, ps).len() == s.len(),
        run_resolutions(s, ps)[x].translation == s[x].translation,
        run_resolutions(s, ps)[x].rigid_body.linear_velocity
            == s[x].rigid_body.linear_velocity,
        run_resolutions(s, ps)[x].rigid_body.angular_velocity
            == s[x].rigid_body.angular_velocity,
        run_resolutions(s, ps)[x].rigid_body.fixed,
    decreases ps.len(),
{
    if ps.len() > 0 {
        let i = ps[0].first as int;
        let j = ps[0].second as int;
        let s1 = resolve_step(s, i, j);
        assert(s1.len() == s.len());
        lemma_fixed_body_resolve(mark_colliding(s[i]), mark_colliding(s[j]));
        assert(s1[x].translation == s[x].translation && s1[x].rigid_body.linear_velocity
            == s[x].rigid_body.linear_velocity && s1[x].rigid_body.angular_velocity
            == s[x].rigid_body.angular_velocity && s1[x].rigid_body.fixed);
        assert(forall|p: int|
            0 <= p < ps.skip(1).len() ==> 0 <= (#[trigger] ps.skip(1)[p]).first < s1.len() && 0
                <= ps.skip(1)[p].second < s1.len());
        lemma_fixed_body_run(s1, ps.skip(1), x);
    }
}

/// A world axis as a fixed-point unit vector: component `c` in `0..3`
/// carries `s * SCALE`, the others zero.
pub open spec fn unit_axis(c: int, s: int) -> Vec3 {
    if c == 0 {
        Vec3 { x: (s * SCALE) as i64, y: 0i64, z: 0i64 }
    } else if c == 1 {
        Vec3 { x: 0i64, y: (s * SCALE) as i64, z: 0i64 }
    } else {
        Vec3 { x: 0i64, y: 0i64, z: (s * SCALE) as i64 }
    }
}

/// Component `c` of a vector.
pub open spec fn comp(v: Vec3, c: int) -> int {
    if c == 0 {
        v.x as int
    } else if c == 1 {
        v.y as int
    } else {
        v.z as int
    }
}

/// Scaling by one whole unit cancels the fixed-point division exactly.
proof fn lemma_tdiv_scale_cancel(m: int)
    ensures
        tdiv(SCALE * m, SCALE as int) == m,
        tdiv(m * SCALE, SCALE as int) == m,
{
    vstd::arithmetic::mul::lemma_mul_is_commutative(m, SCALE as int);
    if m >= 0 {
        vstd::arithmetic::div_mod::lemma_div_multiples_vanish(m, SCALE as int);
    } else {
        vstd::arithmetic::div_mod::lemma_div_multiples_vanish(-m, SCALE as int);
        vstd::arithmetic::mul::lemma_mul_unary_negation(SCALE as int, m);
    }
}

/// An identity orientation keeps the three world axes.
proof fn lemma_identity_axes(q: Quat)
    requires
        q == (Quat { x: 0i64, y: 0i64, z: 0i64, w: SCALE }),
    ensures
        rot_axis(q, 0) == unit_axis(0, 1),
        rot_axis(q, 1) == unit_axis(1, 1),
        rot_axis(q, 2) == unit_axis(2, 1),
{
    lemma_tdiv_scale_cancel(SCALE as int);
    vstd::arithmetic::div_mod::lemma_div_of0(SCALE as int);
}

/// Dotting with a world axis picks out one component.
proof fn lemma_unit_axis_dot(v: Vec3, c: int, s: int)
    requires
        v.wf(),
        0 <= c < 3,
        s == 1 || s == -1,
    ensures
        v.spec_dot(unit_axis(c, s)) == s * comp(v, c),
{
    let u = unit_axis(c, s);
    assert(v.x * (u.x as int) + v.y * (u.y as int) + v.z * (u.z as int) == (s * SCALE) * comp(
        v,
        c,
    )) by (nonlinear_arith)
        requires
            0 <= c < 3,
            u == unit_axis(c, s),
            comp(v, c) == (if c == 0 {
                v.x as int
            } else if c == 1 {
                v.y as int
            } else {
                v.z as int
            }),
            u.x as int == (if c == 0 {
                s * SCALE
            } else {
                0
            }),
            u.y as int == (if c == 1 {
                s * SCALE
            } else {
                0
            }),
            u.z as int == (if c == 2 {
                s * SCALE
            } else {
                0
            }),
    ;
    assert((s * SCALE) * comp(v, c) == SCALE * (s * comp(v, c))) by (nonlinear_arith);
    lemma_tdiv_scale_cancel(s * comp(v, c));
}

/// Projecting a box onto a world axis sums to the matching half-extent.
proof fn lemma_unit_axis_proj(h: Vec3, q: Quat, c: int, s: int)
    requires
        h.wf(),
        q == (Quat { x: 0i64, y: 0i64, z: 0i64, w: SCALE }),
        0 <= c < 3,
        s == 1 || s == -1,
    ensures
        proj_radius(h, q, unit_axis(c, s)) == comp(h, c),
{
    lemma_identity_axes(q);
    let u = unit_axis(c, s);
    lemma_unit_axis_dot(unit_axis(0, 1), c, s);
    lemma_unit_axis_dot(unit_axis(1, 1), c, s);
    lemma_unit_axis_dot(unit_axis(2, 1), c, s);
    lemma_tdiv_scale_cancel(h.x as int);
    lemma_tdiv_scale_cancel(h.y as int);
    lemma_tdiv_scale_cancel(h.z as int);
    vstd::arithmetic::div_mod::lemma_div_of0(SCALE as int);
    assert(fx_mul_spec(h.x as int, 0) == 0);
    assert(fx_mul_spec(h.y as int, 0) == 0);
    assert(fx_mul_spec(h.z as int, 0) == 0);
    assert(fx_mul_spec(h.x as int, SCALE as int) == h.x as int);
    assert(fx_mul_spec(h.y as int, SCALE as int) == h.y as int);
    assert(fx_mul_spec(h.z as int, SCALE as int) == h.z as int);
    if c == 0 {
        assert(iabs(rot_axis(q, 0).spec_dot(u)) == SCALE as int);
        assert(iabs(rot_axis(q, 1).spec_dot(u)) == 0);
        assert(iabs(rot_axis(q, 2).spec_dot(u)) == 0);
    } else if c == 1 {
        assert(iabs(rot_axis(q, 0).spec_dot(u)) == 0);
        assert(iabs(rot_axis(q, 1).spec_dot(u)) == SCALE as int);
        assert(iabs(rot_axis(q, 2).spec_dot(u)) == 0);
    } else {
        assert(iabs(rot_axis(q, 0).spec_dot(u)) == 0);
        assert(iabs(rot_axis(q, 1).spec_dot(u)) == 0);
        assert(iabs(rot_axis(q, 2).spec_dot(u)) == SCALE as int);
    }
}

/// The product of two unit-axis components, in closed form.
spec fn unit_prod(x: int, y: int) -> int {
    if x == 0 || y == 0 {
        0
    } else if x == y {
        1_000_000
    } else {
        -1_000_000
    }
}

/// Evaluates a product of components that are zero or one unit.
proof fn lemma_mul_of_units(x: int, y: int)
    requires
        x == 0 || x == 1000 || x == -1000,
        y == 0 || y == 1000 || y == -1000,
    ensures
        x * y == unit_prod(x, y),
{
    assert(x * y == unit_prod(x, y)) by (nonlinear_arith)
        requires
            x == 0 || x == 1000 || x == -1000,
            y == 0 || y == 1000 || y == -1000,
    ;
}

/// Evaluates the fixed-point rescale of a unit-sized numerator.
proof fn lemma_tdiv_unit(v: int)
    requires
        v == 0 || v == 1_000_000 || v == -1_000_000,
    ensures
        fx_clamp(tdiv(v, SCALE as int)) == (if v == 0 {
            0int
        } else if v == 1_000_000 {
            1000int
        } else {
            -1000int
        }),
{
    if v == 0 {
        vstd::arithmetic::div_mod::lemma_div_of0(SCALE as int);
    } else if v == 1_000_000 {
        lemma_tdiv_scale_cancel(1000);
        assert(SCALE * 1000 == 1_000_000);
    } else {
        lemma_tdiv_scale_cancel(-1000);
        assert(SCALE * -1000 == -1_000_000);
    }
}

/// The distance between centers along a world axis is the matching
/// component of the center-to-center vector.
proof fn lemma_unit_axis_dist(pos_a: Vec3, pos_b: Vec3, c: int, s: int)
    requires
        pos_a.wf(),
        pos_b.wf(),
        0 <= c < 3,
        s == 1 || s == -1,
    ensures
        center_dist(pos_a, pos_b, unit_axis(c, s)) == iabs(
            comp(pos_b.spec_minus(pos_a), c),
        ),
{
    let t = pos_b.spec_minus(pos_a);
    assert(t.wf());
    lemma_unit_axis_dot(t, c, s);
}

/// A world axis is already normalized, and long enough to be usable.
proof fn lemma_unit_axis_normalized(c: int, s: int)
    requires
        0 <= c < 3,
        s == 1 || s == -1,
    ensures
        unit_axis(c, s).spec_dot(unit_axis(c, s)) == SCALE as int,
        unit_axis(c, s).spec_norm2() == SCALE * SCALE,
        unit_axis(c, s).spec_normalized() == unit_axis(c, s),
{
    let u = unit_axis(c, s);
    assert(s * SCALE == 1000 || s * SCALE == -1000);
    assert(comp(u, c) == s * SCALE);
    lemma_mul_of_units(u.x as int, u.x as int);
    lemma_mul_of_units(u.y as int, u.y as int);
    lemma_mul_of_units(u.z as int, u.z as int);
    assert(u.spec_norm2() == SCALE * SCALE);
    lemma_tdiv_scale_cancel(s * SCALE);
    lemma_tdiv_scale_cancel(SCALE as int);
    vstd::arithmetic::div_mod::lemma_div_of0(SCALE as int);
    crate::fixed::lemma_floor_sqrt_unique(SCALE * SCALE, SCALE as int);
    assert(u.spec_norm() == SCALE);
    lemma_unit_axis_dot(u, c, s);
    assert(u.spec_dot(u) == s * (s * SCALE)) by {
        assert(comp(u, c) == s * SCALE);
    }
    assert(s * (s * SCALE) == SCALE as int) by (nonlinear_arith)
        requires
            s == 1 || s == -1,
    ;
}

/// Which world axis candidate `k` tests when both boxes are axis-aligned.
spec fn table_comp(k: int) -> int {
    if k == 0 || k == 3 || k == 11 || k == 13 {
        0
    } else if k == 1 || k == 4 || k == 8 || k == 12 {
        1
    } else {
        2
    }
}

/// The sign that axis carries.
spec fn table_sign(k: int) -> int {
    if k == 8 || k == 9 || k == 13 {
        -1
    } else {
        1
    }
}

/// For two axis-aligned boxes the fifteen candidates collapse to the
/// three world axes: the box axes directly, the parallel cross products
/// skipped, and the remaining crosses reproducing signed world axes.
proof fn lemma_identity_axis_table(rot_a: Quat, rot_b: Quat, k: int)
    requires
        rot_a == (Quat { x: 0i64, y: 0i64, z: 0i64, w: SCALE }),
        rot_b == (Quat { x: 0i64, y: 0i64, z: 0i64, w: SCALE }),
        0 <= k < 15,
    ensures
        axis_usable(rot_a, rot_b, k) <==> !(k == 6 || k == 10 || k == 14),
        axis_usable(rot_a, rot_b, k) ==> used_axis(rot_a, rot_b, k) == unit_axis(
            table_comp(k),
            table_sign(k),
        ),
{
    lemma_identity_axes(rot_a);
    lemma_identity_axes(rot_b);
    vstd::arithmetic::div_mod::lemma_div_of0(SCALE as int);
    if k < 6 {
        lemma_unit_axis_normalized(table_comp(k), 1);
    } else {
        if k == 6 {
            vstd::arithmetic::div_mod::lemma_fundamental_div_mod_converse(0, 3, 0, 0);
        } else if k == 7 {
            vstd::arithmetic::div_mod::lemma_fundamental_div_mod_converse(1, 3, 0, 1);
        } else if k == 8 {
            vstd::arithmetic::div_mod::lemma_fundamental_div_mod_converse(2, 3, 0, 2);
        } else if k == 9 {
            vstd::arithmetic::div_mod::lemma_fundamental_div_mod_converse(3, 3, 1, 0);
        } else if k == 10 {
            vstd::arithmetic::div_mod::lemma_fundamental_div_mod_converse(4, 3, 1, 1);
        } else if k == 11 {
            vstd::arithmetic::div_mod::lemma_fundamental_div_mod_converse(5, 3, 1, 2);
        } else if k == 12 {
            vstd::arithmetic::div_mod::lemma_fundamental_div_mod_converse(6, 3, 2, 0);
        } else if k == 13 {
            vstd::arithmetic::div_mod::lemma_fundamental_div_mod_converse(7, 3, 2, 1);
        } else {
            vstd::arithmetic::div_mod::lemma_fundamental_div_mod_converse(8, 3, 2, 2);
        }
        let a = rot_axis(rot_a, (k - 6) / 3);
        let b = rot_axis(rot_b, (k - 6) % 3);
        lemma_mul_of_units(a.y as int, b.z as int);
        lemma_mul_of_units(a.z as int, b.y as int);
        lemma_mul_of_units(a.z as int, b.x as int);
        lemma_mul_of_units(a.x as int, b.z as int);
        lemma_mul_of_units(a.x as int, b.y as int);
        lemma_mul_of_units(a.y as int, b.x as int);
        lemma_tdiv_unit(a.y * b.z - a.z * b.y);
        lemma_tdiv_unit(a.z * b.x - a.x * b.z);
        lemma_tdiv_unit(a.x * b.y - a.y * b.x);
        let cnd = cand_axis(rot_a, rot_b, k);
        if k == 6 || k == 10 || k == 14 {
            assert(cnd == (Vec3 { x: 0i64, y: 0i64, z: 0i64 }));
            lemma_mul_of_units(cnd.x as int, cnd.x as int);
            lemma_mul_of_units(cnd.y as int, cnd.y as int);
            lemma_mul_of_units(cnd.z as int, cnd.z as int);
            assert(cnd.spec_dot(cnd) == 0);
        } else {
            let c = table_comp(k);
            let s = table_sign(k);
            assert(cnd == unit_axis(c, s));
            lemma_unit_axis_normalized(c, s);
        }
    }
}

/// The penetration a single candidate axis sees.
spec fn pen_val(
    half_a: Vec3,
    half_b: Vec3,
    pos_a: Vec3,
    pos_b: Vec3,
    rot_a: Quat,
    rot_b: Quat,
    k: int,
) -> int {
    let u = used_axis(rot_a, rot_b, k);
    proj_radius(half_a, rot_a, u) + proj_radius(half_b, rot_b, u) - center_dist(pos_a, pos_b, u)
}

/// The depth the scan reports is a lower bound on every scanned axis's
/// penetration: it really is the least-resistance axis.
#[verifier::rlimit(80)]
proof fn lemma_scan_min(
    half_a: Vec3,
    half_b: Vec3,
    pos_a: Vec3,
    pos_b: Vec3,
    rot_a: Quat,
    rot_b: Quat,
    k: int,
)
    requires
        0 <= k <= 15,
    ensures
        match pen_scan(half_a, half_b, pos_a, pos_b, rot_a, rot_b, k) {
            None => true,
            Some((axis, m)) => forall|j: int|
                0 <= j < k && axis_usable(rot_a, rot_b, j) ==> m as int <= pen_val(
                    half_a,
                    half_b,
                    pos_a,
                    pos_b,
                    rot_a,
                    rot_b,
                    j,
                ),
        },
    decreases k,
{
    if k > 0 {
        lemma_scan_min(half_a, half_b, pos_a, pos_b, rot_a, rot_b, k - 1);
    }
}

/// What the scan's running state can look like for two axis-aligned
/// boxes: a signed world axis pointing from the first box to the second,
/// with the depth given by the matching components.
spec fn id_axis_state(
    half_a: Vec3,
    half_b: Vec3,
    pos_a: Vec3,
    pos_b: Vec3,
    o: Vec3,
    m: int,
    c: int,
) -> bool {
    let t = pos_b.spec_minus(pos_a);
    &&& 0 <= c < 3
    &&& ((o == unit_axis(c, 1) && comp(t, c) >= 0) || (o == unit_axis(c, -1) && comp(t, c)
        <= 0))
    &&& m == comp(half_a, c) + comp(half_b, c) - iabs(comp(t, c))
    &&& m > 0
}

/// Negating a signed world axis flips its sign.
proof fn lemma_unit_axis_neg(c: int, s: int)
    requires
        0 <= c < 3,
        s == 1 || s == -1,
    ensures
        unit_axis(c, s).spec_neg() == unit_axis(c, -s),
{
    crate::fixed::lemma_clamp_odd(s * SCALE);
}

/// For two axis-aligned boxes, a successful scan always lands on a
/// signed world axis whose depth is the matching component penetration,
/// oriented to push the boxes apart.
proof fn lemma_id_scan(
    half_a: Vec3,
    half_b: Vec3,
    pos_a: Vec3,
    pos_b: Vec3,
    rot_a: Quat,
    rot_b: Quat,
    k: int,
)
    requires
        half_a.wf(),
        half_b.wf(),
        pos_a.wf(),
        pos_b.wf(),
        rot_a == (Quat { x: 0i64, y: 0i64, z: 0i64, w: SCALE }),
        rot_b == (Quat { x: 0i64, y: 0i64, z: 0i64, w: SCALE }),
        1 <= k <= 15,
    ensures
        match pen_scan(half_a, half_b, pos_a, pos_b, rot_a, rot_b, k) {
            None => true,
            Some((o, m)) => exists|c: int|
                #[trigger] id_axis_state(half_a, half_b, pos_a, pos_b, o, m as int, c),
        },
    decreases k,
{
    let t = pos_b.spec_minus(pos_a);
    assert(t.wf());
    if k == 1 {
        lemma_identity_axis_table(rot_a, rot_b, 0);
        let u = used_axis(rot_a, rot_b, 0);
        lemma_unit_axis_proj(half_a, rot_a, 0, 1);
        lemma_unit_axis_proj(half_b, rot_b, 0, 1);
        lemma_unit_axis_dist(pos_a, pos_b, 0, 1);
        lemma_unit_axis_dot(t, 0, 1);
        lemma_unit_axis_neg(0, 1);
        match pen_scan(half_a, half_b, pos_a, pos_b, rot_a, rot_b, 1) {
            None => {},
            Some((o, m)) => {
                assert(id_axis_state(half_a, half_b, pos_a, pos_b, o, m as int, 0));
            },
        }
    } else {
        lemma_id_scan(half_a, half_b, pos_a, pos_b, rot_a, rot_b, k - 1);
        lemma_identity_axis_table(rot_a, rot_b, k - 1);
        if !(k - 1 == 6 || k - 1 == 10 || k - 1 == 14) {
            let c = table_comp(k - 1);
            let s = table_sign(k - 1);
            let u = used_axis(rot_a, rot_b, k - 1);
            assert(u == unit_axis(c, s));
            lemma_unit_axis_proj(half_a, rot_a, c, s);
            lemma_unit_axis_proj(half_b, rot_b, c, s);
            lemma_unit_axis_dist(pos_a, pos_b, c, s);
            lemma_unit_axis_dot(t, c, s);
            lemma_unit_axis_neg(c, s);
            match pen_scan(half_a, half_b, pos_a, pos_b, rot_a, rot_b, k - 1) {
                None => {},
                Some((o1, m1)) => {
                    match pen_scan(half_a, half_b, pos_a, pos_b, rot_a, rot_b, k) {
                        None => {},
                        Some((o, m)) => {
                            let p = proj_radius(half_a, rot_a, u) + proj_radius(half_b, rot_b, u)
                                - center_dist(pos_a, pos_b, u);
                            if p > 0 && p < m1 {
                                assert(p == comp(half_a, c) + comp(half_b, c) - iabs(
                                    comp(t, c),
                                ));
                                assert(0 < p <= 2_000_000_000);
                                assert(o == oriented(pos_a, pos_b, u) && m as int == p);
                                assert(t.spec_dot(u) == s * comp(t, c));
                                if s == 1 {
                                    if comp(t, c) >= 0 {
                                        assert(o == unit_axis(c, 1));
                                    } else {
                                        assert(o == unit_axis(c, -1));
                                    }
                                } else {
                                    if comp(t, c) <= 0 {
                                        assert(o == unit_axis(c, -1) || o == unit_axis(c, 1));
                                    } else {
                                        assert(o == unit_axis(c, 1));
                                    }
                                }
                                assert(id_axis_state(
                                    half_a,
                                    half_b,
                                    pos_a,
                                    pos_b,
                                    o,
                                    m as int,
                                    c,
                                ));
                            } else {
                                let c1 = choose|c1: int|
                                    #[trigger] id_axis_state(
                                        half_a,
                                        half_b,
                                        pos_a,
                                        pos_b,
                                        o1,
                                        m1 as int,
                                        c1,
                                    );
                                assert(id_axis_state(
                                    half_a,
                                    half_b,
                                    pos_a,
                                    pos_b,
                                    o,
                                    m as int,
                                    c1,
                                ));
                            }
                        },
                    }
                },
            }
        }
    }
}

/// The designated map/ground body is never flagged as colliding: over
/// any sequence of resolutions, a map-base body whose flag starts
/// lowered keeps it lowered, so its outline is never drawn in the
/// warning color.
pub proof fn lemma_map_base_never_flagged(
    s: Seq<Body>,
    ps: Seq<crate::grid::CollisionPair>,
    x: int,
)
    requires
        forall|p: int|
            0 <= p < ps.len() ==> 0 <= (#[trigger] ps[p]).first < s.len() && 0 <= ps[p].second
                < s.len(),
        0 <= x < s.len(),
        s[x].map_base,
        !s[x].rigid_body.is_colliding,
    ensures
        run_resolutions(s, ps).len() == s.len(),
        run_resolutions(s, ps)[x].map_base,
        !run_resolutions(s, ps)[x].rigid_body.is_colliding,
    decreases ps.len(),
{
    if ps.len() > 0 {
        let i = ps[0].first as int;
        let j = ps[0].second as int;
        let s1 = resolve_step(s, i, j);
        assert(s1.len() == s.len());
        assert(s1[x].map_base && !s1[x].rigid_body.is_colliding);
        assert(forall|p: int|
            0 <= p < ps.skip(1).len() ==> 0 <= (#[trigger] ps.skip(1)[p]).first < s1.len() && 0
                <= ps.skip(1)[p].second < s1.len());
        lemma_map_base_never_flagged(s1, ps.skip(1), x);
    }
}

/// For two axis-aligned boxes, overlap is exactly a positive penetration
/// on each of the three world axes.
proof fn lemma_id_overlap_iff(
    half_a: Vec3,
    half_b: Vec3,
    pos_a: Vec3,
    pos_b: Vec3,
    rot_a: Quat,
    rot_b: Quat,
)
    requires
        half_a.wf(),
        half_b.wf(),
        pos_a.wf(),
        pos_b.wf(),
        rot_a == (Quat { x: 0i64, y: 0i64, z: 0i64, w: SCALE }),
        rot_b == (Quat { x: 0i64, y: 0i64, z: 0i64, w: SCALE }),
    ensures
        obb_overlap(half_a, half_b, pos_a, pos_b, rot_a, rot_b) <==> ({
            let t = pos_b.spec_minus(pos_a);
            &&& comp(half_a, 0) + comp(half_b, 0) > iabs(comp(t, 0))
            &&& comp(half_a, 1) + comp(half_b, 1) > iabs(comp(t, 1))
            &&& comp(half_a, 2) + comp(half_b, 2) > iabs(comp(t, 2))
        }),
{
    let t = pos_b.spec_minus(pos_a);
    lemma_identity_axis_table(rot_a, rot_b, 0);
    lemma_identity_axis_table(rot_a, rot_b, 1);
    lemma_identity_axis_table(rot_a, rot_b, 2);
    lemma_unit_axis_proj(half_a, rot_a, 0, 1);
    lemma_unit_axis_proj(half_b, rot_b, 0, 1);
    lemma_unit_axis_dist(pos_a, pos_b, 0, 1);
    lemma_unit_axis_proj(half_a, rot_a, 1, 1);
    lemma_unit_axis_proj(half_b, rot_b, 1, 1);
    lemma_unit_axis_dist(pos_a, pos_b, 1, 1);
    lemma_unit_axis_proj(half_a, rot_a, 2, 1);
    lemma_unit_axis_proj(half_b, rot_b, 2, 1);
    lemma_unit_axis_dist(pos_a, pos_b, 2, 1);
    if comp(half_a, 0) + comp(half_b, 0) > iabs(comp(t, 0)) && comp(half_a, 1) + comp(half_b, 1)
        > iabs(comp(t, 1)) && comp(half_a, 2) + comp(half_b, 2) > iabs(comp(t, 2)) {
        assert forall|k: int| 0 <= k < 15 implies !is_separating(
            half_a,
            half_b,
            pos_a,
            pos_b,
            rot_a,
            rot_b,
            k,
        ) by {
            lemma_identity_axis_table(rot_a, rot_b, k);
            if axis_usable(rot_a, rot_b, k) {
                let c = table_comp(k);
                let s = table_sign(k);
                lemma_unit_axis_proj(half_a, rot_a, c, s);
                lemma_unit_axis_proj(half_b, rot_b, c, s);
                lemma_unit_axis_dist(pos_a, pos_b, c, s);
            }
        }
    } else {
        if comp(half_a, 0) + comp(half_b, 0) <= iabs(comp(t, 0)) {
            assert(is_separating(half_a, half_b, pos_a, pos_b, rot_a, rot_b, 0));
        } else if comp(half_a, 1) + comp(half_b, 1) <= iabs(comp(t, 1)) {
            assert(is_separating(half_a, half_b, pos_a, pos_b, rot_a, rot_b, 1));
        } else {
            assert(is_separating(half_a, half_b, pos_a, pos_b, rot_a, rot_b, 2));
        }
    }
}

/// Resolution separates: after resolving two overlapping, non-fixed,
/// axis-aligned boxes whose sizes and positions sit comfortably inside
/// the representable world, either the corrected pair no longer overlaps
/// at all, or its least penetration is a single raw unit — one
/// thousandth of a world unit, the truncation remainder of halving an
/// odd penetration depth.
#[verifier::rlimit(80)]
pub proof fn lemma_resolution_separates(a: Body, b: Body)
    requires
        a.wf(),
        b.wf(),
        a.rotation == (Quat { x: 0i64, y: 0i64, z: 0i64, w: SCALE }),
        b.rotation == (Quat { x: 0i64, y: 0i64, z: 0i64, w: SCALE }),
        !a.rigid_body.fixed,
        !b.rigid_body.fixed,
        0 <= a.collider.cuboid.x <= 500_000_000,
        0 <= a.collider.cuboid.y <= 500_000_000,
        0 <= a.collider.cuboid.z <= 500_000_000,
        0 <= b.collider.cuboid.x <= 500_000_000,
        0 <= b.collider.cuboid.y <= 500_000_000,
        0 <= b.collider.cuboid.z <= 500_000_000,
        -500_000_000 <= a.translation.x <= 500_000_000,
        -500_000_000 <= a.translation.y <= 500_000_000,
        -500_000_000 <= a.translation.z <= 500_000_000,
        -500_000_000 <= b.translation.x <= 500_000_000,
        -500_000_000 <= b.translation.y <= 500_000_000,
        -500_000_000 <= b.translation.z <= 500_000_000,
        obb_overlap(
            a.collider.spec_half_extents(),
            b.collider.spec_half_extents(),
            a.translation,
            b.translation,
            a.rotation,
            b.rotation,
        ),
    ensures
        ({
            let (a2, b2) = spec_resolved(a, b);
            match obb_penetration_spec(
                a.collider.spec_half_extents(),
                b.collider.spec_half_extents(),
                a2.translation,
                b2.translation,
                a2.rotation,
                b2.rotation,
            ) {
                None => !obb_overlap(
                    a.collider.spec_half_extents(),
                    b.collider.spec_half_extents(),
                    a2.translation,
                    b2.translation,
                    a2.rotation,
                    b2.rotation,
                ),
                Some((axis2, depth2)) => 0 < depth2 <= 1,
            }
        }),
{
    let half_a = a.collider.spec_half_extents();
    let half_b = b.collider.spec_half_extents();
    let pos_a = a.translation;
    let pos_b = b.translation;
    let rot = Quat { x: 0i64, y: 0i64, z: 0i64, w: SCALE };
    crate::fixed::lemma_tdiv_magnitude(a.collider.cuboid.x as int, 2);
    crate::fixed::lemma_tdiv_magnitude(a.collider.cuboid.y as int, 2);
    crate::fixed::lemma_tdiv_magnitude(a.collider.cuboid.z as int, 2);
    crate::fixed::lemma_tdiv_magnitude(b.collider.cuboid.x as int, 2);
    crate::fixed::lemma_tdiv_magnitude(b.collider.cuboid.y as int, 2);
    crate::fixed::lemma_tdiv_magnitude(b.collider.cuboid.z as int, 2);
    assert(half_a.wf() && half_b.wf());
    // Half-extents stay within a quarter of the representable range.
    vstd::arithmetic::div_mod::lemma_fundamental_div_mod_converse(500_000_000, 2, 250_000_000, 0);
    vstd::arithmetic::div_mod::lemma_div_is_ordered(a.collider.cuboid.x as int, 500_000_000, 2);
    vstd::arithmetic::div_mod::lemma_div_is_ordered(a.collider.cuboid.y as int, 500_000_000, 2);
    vstd::arithmetic::div_mod::lemma_div_is_ordered(a.collider.cuboid.z as int, 500_000_000, 2);
    vstd::arithmetic::div_mod::lemma_div_is_ordered(b.collider.cuboid.x as int, 500_000_000, 2);
    vstd::arithmetic::div_mod::lemma_div_is_ordered(b.collider.cuboid.y as int, 500_000_000, 2);
    vstd::arithmetic::div_mod::lemma_div_is_ordered(b.collider.cuboid.z as int, 500_000_000, 2);
    assert(half_a.x as int <= 250_000_000 && half_a.y as int <= 250_000_000 && half_a.z as int
        <= 250_000_000);
    assert(half_b.x as int <= 250_000_000 && half_b.y as int <= 250_000_000 && half_b.z as int
        <= 250_000_000);
    lemma_penetration_exactly_when_overlap(half_a, half_b, pos_a, pos_b, rot, rot);
    let pen = obb_penetration_spec(half_a, half_b, pos_a, pos_b, rot, rot);
    assert(pen is Some);
    let (o, d) = pen->Some_0;
    lemma_id_scan(half_a, half_b, pos_a, pos_b, rot, rot, 15);
    let c = choose|c: int| id_axis_state(half_a, half_b, pos_a, pos_b, o, d as int, c);
    assert(id_axis_state(half_a, half_b, pos_a, pos_b, o, d as int, c));
    let t = pos_b.spec_minus(pos_a);
    let sum_c = comp(half_a, c) + comp(half_b, c);
    assert(0 < d as int <= 1_000_000_000);
    // Half the depth, exactly as the resolver computes it.
    vstd::arithmetic::div_mod::lemma_fundamental_div_mod(d as int, 2);
    vstd::arithmetic::div_mod::lemma_mod_bound(d as int, 2);
    let h = tdiv(d as int, 2);
    let r = (d as int) % 2;
    assert(h == (d as int) / 2 && d == 2 * h + r);
    crate::fixed::lemma_tdiv_magnitude(d as int, 2);
    assert(fx_clamp(h) == h);
    // The correction shifts only component c, by h, in opposite
    // directions that push the boxes apart.
    let sg: int = if o == unit_axis(c, 1) {
        1
    } else {
        -1
    };
    let corr = o.spec_scaled(fx_clamp(tdiv(d as int, 2)));
    assert((sg * SCALE) * h == SCALE * (sg * h)) by (nonlinear_arith);
    lemma_tdiv_scale_cancel(sg * h);
    vstd::arithmetic::mul::lemma_mul_basics(h);
    vstd::arithmetic::mul::lemma_mul_unary_negation(1, h);
    assert(sg == 1 ==> sg * h == h);
    assert(sg == -1 ==> sg * h == -h);
    assert(0 <= h <= 250_000_000);
    assert(comp(corr, c) == sg * h && (sg == 1 || sg == -1)) by {
        assert(comp(o, c) == sg * SCALE);
        assert(fx_mul_spec(sg * SCALE, h) == fx_clamp(sg * h));
        if sg == 1 {
            assert(fx_clamp(sg * h) == sg * h);
        } else {
            assert(fx_clamp(sg * h) == sg * h);
        }
    }
    assert(forall|c2: int| 0 <= c2 < 3 && c2 != c ==> comp(corr, c2) == 0) by {
        assert(forall|c2: int| 0 <= c2 < 3 && c2 != c ==> comp(o, c2) == 0);
    }
    let (a2, b2) = spec_resolved(a, b);
    assert(a2.translation == pos_a.spec_minus(corr));
    assert(b2.translation == pos_b.spec_plus(corr));
    assert(a2.rotation == rot && b2.rotation == rot);
    let t2 = b2.translation.spec_minus(a2.translation);
    assert(forall|c2: int|
        0 <= c2 < 3 && c2 != c ==> comp(a2.translation, c2) == comp(pos_a, c2) && comp(
            b2.translation,
            c2,
        ) == comp(pos_b, c2));
    assert(comp(a2.translation, c) == comp(pos_a, c) - sg * h);
    assert(comp(b2.translation, c) == comp(pos_b, c) + sg * h);
    assert(forall|c2: int| 0 <= c2 < 3 && c2 != c ==> comp(t2, c2) == comp(t, c2));
    assert(comp(t2, c) == comp(t, c) + 2 * (sg * h));
    // Pushed apart along the axis: the gap grows by the whole applied
    // correction.
    assert(iabs(comp(t2, c)) == iabs(comp(t, c)) + 2 * h) by {
        if sg == 1 {
            assert(comp(t, c) >= 0);
        } else {
            assert(comp(t, c) <= 0);
        }
    }
    assert(sum_c - iabs(comp(t2, c)) == r);
    // What the corrected configuration looks like on each axis.
    lemma_id_overlap_iff(half_a, half_b, pos_a, pos_b, rot, rot);
    lemma_id_overlap_iff(half_a, half_b, a2.translation, b2.translation, rot, rot);
    lemma_penetration_exactly_when_overlap(
        half_a,
        half_b,
        a2.translation,
        b2.translation,
        rot,
        rot,
    );
    if r == 0 {
        assert(!obb_overlap(half_a, half_b, a2.translation, b2.translation, rot, rot));
    } else {
        assert(obb_overlap(half_a, half_b, a2.translation, b2.translation, rot, rot));
        let pen2 = obb_penetration_spec(
            half_a,
            half_b,
            a2.translation,
            b2.translation,
            rot,
            rot,
        );
        assert(pen2 is Some);
        let (o2, d2) = pen2->Some_0;
        lemma_id_scan(half_a, half_b, a2.translation, b2.translation, rot, rot, 15);
        let c2w = choose|c2: int|
            id_axis_state(half_a, half_b, a2.translation, b2.translation, o2, d2 as int, c2);
        assert(id_axis_state(half_a, half_b, a2.translation, b2.translation, o2, d2 as int, c2w));
        assert(0 < d2 as int);
        lemma_scan_min(half_a, half_b, a2.translation, b2.translation, rot, rot, 15);
        lemma_identity_axis_table(rot, rot, c);
        lemma_unit_axis_proj(half_a, rot, c, 1);
        lemma_unit_axis_proj(half_b, rot, c, 1);
        lemma_unit_axis_dist(a2.translation, b2.translation, c, 1);
        assert(pen_val(half_a, half_b, a2.translation, b2.translation, rot, rot, c) == r);
        assert(d2 as int <= 1);
    }
}

/// One full simulation tick: integrate every body, then run the collision
/// pass (grid rebuild, broad phase, narrow phase, resolution) against the
/// freshly integrated positions.
pub fn tick(bodies: &mut Vec<Body>, delta_time: i64)
    requires
        forall|i: int| 0 <= i < old(bodies)@.len() ==> (#[trigger] old(bodies)@[i]).wf(),
        0 <= delta_time,
        in_range(delta_time as int),
    ensures
        final(bodies)@.len() == old(bodies)@.len(),
        forall|i: int| 0 <= i < final(bodies)@.len() ==> (#[trigger] final(bodies)@[i]).wf(),
        exists|ps: Seq<crate::grid::CollisionPair>|
            {
                &&& confirmed_ok(
                    spec_clear_all(spec_integrate_all(old(bodies)@, delta_time as int)),
                    ps,
                )
                &&& final(bodies)@ == run_resolutions(
                    spec_clear_all(spec_integrate_all(old(bodies)@, delta_time as int)),
                    ps,
                )
            },
{
    apply_physics(bodies, delta_time);
    proof {
        assert(bodies@ =~= spec_integrate_all(old(bodies)@, delta_time as int));
    }
    collisions(bodies);
}

} // verus!
