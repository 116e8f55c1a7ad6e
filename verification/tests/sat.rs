use physics_lite::physics::{check_obb_collision, obb_penetration, resolve_obb_collision};
use physics_lite::quat::Quat;
use physics_lite::vec3::Vec3;
use physics_lite::{Body, Collider, Damping, Gravity, RigidBody, Speed};

fn unit_cube_at(x: i64, y: i64, z: i64) -> Body {
    Body {
        collider: Collider { cuboid: Vec3::new(1000, 1000, 1000) },
        rigid_body: RigidBody {
            damping: Damping(0),
            fixed: false,
            gravity: Gravity(0),
            speed: Speed(1000),
            linear_velocity: Vec3::new(0, 0, 0),
            angular_velocity: Vec3::new(0, 0, 0),
            is_colliding: false,
        },
        translation: Vec3::new(x, y, z),
        rotation: Quat::identity(),
        controller: false,
        map_base: false,
        collider_lines: false,
    }
}

fn overlaps(a: &Body, b: &Body) -> bool {
    check_obb_collision(
        &a.collider.half_extents(),
        &b.collider.half_extents(),
        &a.translation,
        &b.translation,
        &a.rotation,
        &b.rotation,
    )
}

#[test]
fn touching_unit_boxes_do_not_overlap() {
    // Half-extents 0.5 each: centers exactly one unit apart are touching,
    // not strictly overlapping.
    let a = unit_cube_at(0, 0, 0);
    let b = unit_cube_at(1000, 0, 0);
    assert!(!overlaps(&a, &b));
}

#[test]
fn boxes_just_inside_the_boundary_overlap() {
    let a = unit_cube_at(0, 0, 0);
    let b = unit_cube_at(999, 0, 0);
    assert!(overlaps(&a, &b));
}

#[test]
fn boxes_just_outside_the_boundary_do_not_overlap() {
    let a = unit_cube_at(0, 0, 0);
    let b = unit_cube_at(1001, 0, 0);
    assert!(!overlaps(&a, &b));
}

#[test]
fn overlap_test_is_symmetric() {
    let configs = [
        (unit_cube_at(0, 0, 0), unit_cube_at(800, 300, -200)),
        (unit_cube_at(0, 0, 0), unit_cube_at(1000, 0, 0)),
        (unit_cube_at(-500, 200, 100), unit_cube_at(5000, 0, 0)),
    ];
    for (a, b) in configs.iter() {
        assert_eq!(overlaps(a, b), overlaps(b, a));
    }
    // A rotated pair as well.
    let mut c = unit_cube_at(700, 0, 0);
    c.rotation = Quat::from_rotation_y(785);
    let a = unit_cube_at(0, 0, 0);
    assert_eq!(overlaps(&a, &c), overlaps(&c, &a));
}

#[test]
fn rotated_box_overlaps_across_the_corner() {
    // A box rotated an eighth of a turn reaches farther along X than an
    // axis-aligned one: at 1.2 units the aligned pair is separated but the
    // rotated pair is not.
    let a = unit_cube_at(0, 0, 0);
    let mut b = unit_cube_at(1200, 0, 0);
    assert!(!overlaps(&a, &b));
    b.rotation = Quat::from_rotation_y(785);
    assert!(overlaps(&a, &b));
}

#[test]
fn penetration_reports_least_overlap_axis() {
    let a = unit_cube_at(0, 0, 0);
    let b = unit_cube_at(800, 0, 0);
    let r = obb_penetration(
        &a.collider.half_extents(),
        &b.collider.half_extents(),
        &a.translation,
        &b.translation,
        &a.rotation,
        &b.rotation,
    );
    assert_eq!(r, Some((Vec3::new(1000, 0, 0), 200)));
}

#[test]
fn penetration_is_none_without_overlap() {
    let a = unit_cube_at(0, 0, 0);
    let b = unit_cube_at(1000, 0, 0);
    let r = obb_penetration(
        &a.collider.half_extents(),
        &b.collider.half_extents(),
        &a.translation,
        &b.translation,
        &a.rotation,
        &b.rotation,
    );
    assert_eq!(r, None);
}

#[test]
fn penetration_axis_points_from_first_to_second() {
    // Swapped order: the push axis flips so it still drives the pair apart.
    let a = unit_cube_at(800, 0, 0);
    let b = unit_cube_at(0, 0, 0);
    let r = obb_penetration(
        &a.collider.half_extents(),
        &b.collider.half_extents(),
        &a.translation,
        &b.translation,
        &a.rotation,
        &b.rotation,
    );
    assert_eq!(r, Some((Vec3::new(-1000, 0, 0), 200)));
}

#[test]
fn resolution_separates_overlapping_boxes() {
    let mut a = unit_cube_at(0, 0, 0);
    let mut b = unit_cube_at(800, 0, 0);
    resolve_obb_collision(&mut a, &mut b);
    assert_eq!(a.translation, Vec3::new(-100, 0, 0));
    assert_eq!(b.translation, Vec3::new(900, 0, 0));
    // The corrected pair no longer overlaps.
    assert!(!overlaps(&a, &b));
    // Zero relative velocity means a zero impulse.
    assert_eq!(a.rigid_body.linear_velocity, Vec3::new(0, 0, 0));
    assert_eq!(b.rigid_body.linear_velocity, Vec3::new(0, 0, 0));
}

#[test]
fn resolution_applies_elastic_impulse() {
    let mut a = unit_cube_at(0, 0, 0);
    let mut b = unit_cube_at(800, 0, 0);
    a.rigid_body.linear_velocity = Vec3::new(2000, 0, 0);
    resolve_obb_collision(&mut a, &mut b);
    // Impulse -(1 + 0.8) * 2.0 / 2 = -1.8 along X, applied to each body.
    assert_eq!(a.rigid_body.linear_velocity, Vec3::new(200, 0, 0));
    assert_eq!(b.rigid_body.linear_velocity, Vec3::new(1800, 0, 0));
}

#[test]
fn resolution_never_moves_a_fixed_body() {
    let mut a = unit_cube_at(0, 0, 0);
    let mut b = unit_cube_at(800, 0, 0);
    b.rigid_body.fixed = true;
    b.rigid_body.linear_velocity = Vec3::new(-500, 0, 0);
    resolve_obb_collision(&mut a, &mut b);
    assert_eq!(b.translation, Vec3::new(800, 0, 0));
    assert_eq!(b.rigid_body.linear_velocity, Vec3::new(-500, 0, 0));
    // The free body still takes its half of the correction.
    assert_eq!(a.translation, Vec3::new(-100, 0, 0));
}

#[test]
fn resolution_is_a_no_op_without_overlap() {
    let mut a = unit_cube_at(0, 0, 0);
    let mut b = unit_cube_at(3000, 0, 0);
    let a0 = a;
    let b0 = b;
    resolve_obb_collision(&mut a, &mut b);
    assert_eq!(a, a0);
    assert_eq!(b, b0);
}

#[test]
fn degenerate_point_bodies_have_zero_radius() {
    // Scale (0,0,0) degrades to a point: zero projection radius on every
    // axis, so even coincident points are only touching.
    let mut a = unit_cube_at(0, 0, 0);
    let mut b = unit_cube_at(0, 0, 0);
    a.collider.cuboid = Vec3::new(0, 0, 0);
    b.collider.cuboid = Vec3::new(0, 0, 0);
    assert!(!overlaps(&a, &b));
}
