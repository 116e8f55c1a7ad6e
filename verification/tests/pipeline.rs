use physics_lite::collider_lines::{lines, outline_color};
use physics_lite::controller::{movement, MovementInput};
use physics_lite::fixed::SCALE;
use physics_lite::physics::{apply_physics, collisions, tick};
use physics_lite::quat::Quat;
use physics_lite::vec3::Vec3;
use physics_lite::{
    integrate, Body, Collider, ColliderColor, Damping, Gravity, RigidBody, Speed, Srgba,
    Velocity,
};

fn free_cube_at(x: i64, y: i64, z: i64) -> Body {
    Body {
        collider: Collider { cuboid: Vec3::new(1000, 1000, 1000) },
        rigid_body: RigidBody {
            damping: Damping(0),
            fixed: false,
            gravity: Gravity(0),
            speed: Speed(1000),
            linear_velocity: Vec3::new(0, 0, 0),
            angular_velocity: Vec3::new(0, 0, 0),
            is_colliding: false,
        },
        translation: Vec3::new(x, y, z),
        rotation: Quat::identity(),
        controller: false,
        map_base: false,
        collider_lines: false,
    }
}

#[test]
fn integration_moves_by_velocity_times_speed_and_time() {
    let mut b = free_cube_at(0, 0, 0);
    b.rigid_body.linear_velocity = Vec3::new(1000, 0, 0);
    integrate(&mut b, 1000);
    assert_eq!(b.translation, Vec3::new(1000, 0, 0));
    assert_eq!(b.rigid_body.linear_velocity, Vec3::new(1000, 0, 0));
    // Half speed, half a second.
    let mut c = free_cube_at(0, 0, 0);
    c.rigid_body.linear_velocity = Vec3::new(1000, 0, 0);
    c.rigid_body.speed = Speed(500);
    integrate(&mut c, 500);
    assert_eq!(c.translation, Vec3::new(250, 0, 0));
}

#[test]
fn integration_is_deterministic() {
    let mut a = free_cube_at(123, -456, 789);
    a.rigid_body.linear_velocity = Vec3::new(333, -222, 111);
    a.rigid_body.angular_velocity = Vec3::new(0, 400, 0);
    a.rigid_body.damping = Damping(250);
    a.rigid_body.gravity = Gravity(500);
    let mut b = a;
    integrate(&mut a, 16);
    integrate(&mut b, 16);
    assert_eq!(a, b);
}

#[test]
fn damping_decays_velocity_each_tick() {
    let mut b = free_cube_at(0, 0, 0);
    b.rigid_body.linear_velocity = Vec3::new(1000, 0, 0);
    b.rigid_body.damping = Damping(300);
    integrate(&mut b, 1000);
    assert_eq!(b.rigid_body.linear_velocity.x, 700);
    integrate(&mut b, 1000);
    assert_eq!(b.rigid_body.linear_velocity.x, 490);
    integrate(&mut b, 1000);
    assert_eq!(b.rigid_body.linear_velocity.x, 343);
}

#[test]
fn full_damping_stops_in_one_tick() {
    let mut b = free_cube_at(0, 0, 0);
    b.rigid_body.linear_velocity = Vec3::new(12345, -678, 90);
    b.rigid_body.angular_velocity = Vec3::new(0, 4000, 0);
    b.rigid_body.damping = Damping(SCALE);
    integrate(&mut b, 1000);
    assert_eq!(b.rigid_body.linear_velocity, Vec3::new(0, 0, 0));
    assert_eq!(b.rigid_body.angular_velocity, Vec3::new(0, 0, 0));
}

#[test]
fn gravity_pulls_position_down() {
    let mut b = free_cube_at(0, 5000, 0);
    b.rigid_body.gravity = Gravity(500);
    integrate(&mut b, 1000);
    assert_eq!(b.translation, Vec3::new(0, 4500, 0));
}

#[test]
fn fixed_body_never_changes_under_integration() {
    let mut b = free_cube_at(10, 20, 30);
    b.rigid_body.fixed = true;
    b.rigid_body.linear_velocity = Vec3::new(9000, 9000, 9000);
    b.rigid_body.angular_velocity = Vec3::new(0, 9000, 0);
    b.rigid_body.gravity = Gravity(1000);
    b.rigid_body.damping = Damping(500);
    let before = b;
    integrate(&mut b, 1000);
    assert_eq!(b, before);
}

#[test]
fn yaw_velocity_spins_about_y() {
    let mut b = free_cube_at(0, 0, 0);
    // A quarter turn per second for one second.
    b.rigid_body.angular_velocity = Vec3::new(0, 1571, 0);
    integrate(&mut b, 1000);
    // Half-angle sine/cosine of an eighth of a turn.
    let expected = Quat::identity().times(Quat::from_rotation_y(1571));
    assert_eq!(b.rotation, expected);
    // An eighth of a turn: both half-angle components near 1/sqrt(2).
    assert!(b.rotation.y > 650 && b.rotation.w > 650);
}

#[test]
fn apply_physics_integrates_every_body() {
    let mut a = free_cube_at(0, 0, 0);
    a.rigid_body.linear_velocity = Vec3::new(1000, 0, 0);
    let mut b = free_cube_at(0, 9000, 0);
    b.rigid_body.gravity = Gravity(500);
    let mut world = vec![a, b];
    apply_physics(&mut world, 1000);
    assert_eq!(world[0].translation, Vec3::new(1000, 0, 0));
    assert_eq!(world[1].translation, Vec3::new(0, 8500, 0));
}

#[test]
fn collision_pass_marks_and_separates() {
    // Two unit cubes at 0 and 0.8 on X: one pass reports both colliding
    // and pushes them symmetrically until they just touch.
    let mut world = vec![free_cube_at(0, 0, 0), free_cube_at(800, 0, 0)];
    collisions(&mut world);
    assert!(world[0].rigid_body.is_colliding);
    assert!(world[1].rigid_body.is_colliding);
    assert_eq!(world[0].translation, Vec3::new(-100, 0, 0));
    assert_eq!(world[1].translation, Vec3::new(900, 0, 0));
}

#[test]
fn whole_tick_end_to_end() {
    // Two unit cubes centered 0.8 apart, no velocity, no damping, no
    // gravity: after one tick they are flagged, separated symmetrically
    // along X to one unit apart, and still at rest.
    let mut world = vec![free_cube_at(0, 0, 0), free_cube_at(800, 0, 0)];
    tick(&mut world, 16);
    assert!(world[0].rigid_body.is_colliding);
    assert!(world[1].rigid_body.is_colliding);
    assert_eq!(world[0].translation, Vec3::new(-100, 0, 0));
    assert_eq!(world[1].translation, Vec3::new(900, 0, 0));
    assert_eq!(world[1].translation.x - world[0].translation.x, 1000);
    assert_eq!(world[0].rigid_body.linear_velocity, Vec3::new(0, 0, 0));
    assert_eq!(world[1].rigid_body.linear_velocity, Vec3::new(0, 0, 0));
    // A second tick finds them merely touching: no longer colliding.
    tick(&mut world, 16);
    assert!(!world[0].rigid_body.is_colliding);
    assert!(!world[1].rigid_body.is_colliding);
    assert_eq!(world[0].translation, Vec3::new(-100, 0, 0));
}

#[test]
fn map_base_body_is_not_flagged_but_still_resolves() {
    let mut ground = free_cube_at(800, 0, 0);
    ground.map_base = true;
    let mut world = vec![free_cube_at(0, 0, 0), ground];
    collisions(&mut world);
    assert!(world[0].rigid_body.is_colliding);
    assert!(!world[1].rigid_body.is_colliding);
    // Resolution still moved both non-fixed bodies.
    assert_eq!(world[0].translation, Vec3::new(-100, 0, 0));
    assert_eq!(world[1].translation, Vec3::new(900, 0, 0));
}

#[test]
fn collision_flags_are_recomputed_each_tick() {
    let mut a = free_cube_at(0, 0, 0);
    a.rigid_body.is_colliding = true;
    let mut world = vec![a, free_cube_at(5000, 0, 0)];
    collisions(&mut world);
    assert!(!world[0].rigid_body.is_colliding);
}

#[test]
fn movement_adds_normalized_heading() {
    let mut player = free_cube_at(0, 0, 0);
    player.controller = true;
    let bystander = free_cube_at(9000, 0, 0);
    let mut world = vec![player, bystander];
    let input = MovementInput {
        left: false,
        right: true,
        forward: true,
        back: false,
        yaw_left: false,
        yaw_right: false,
    };
    movement(&mut world, &input);
    // Diagonal input is normalized: 1/sqrt(2) per axis.
    assert_eq!(world[0].rigid_body.linear_velocity, Vec3::new(707, 0, 707));
    assert_eq!(world[1].rigid_body.linear_velocity, Vec3::new(0, 0, 0));
}

#[test]
fn movement_single_axis_is_full_speed() {
    let mut player = free_cube_at(0, 0, 0);
    player.controller = true;
    let mut world = vec![player];
    let input = MovementInput {
        left: true,
        right: false,
        forward: false,
        back: false,
        yaw_left: false,
        yaw_right: false,
    };
    movement(&mut world, &input);
    assert_eq!(world[0].rigid_body.linear_velocity, Vec3::new(-1000, 0, 0));
}

#[test]
fn yaw_keys_spin_the_body() {
    let mut player = free_cube_at(0, 0, 0);
    player.controller = true;
    let mut world = vec![player];
    let input = MovementInput {
        left: false,
        right: false,
        forward: false,
        back: false,
        yaw_left: true,
        yaw_right: false,
    };
    movement(&mut world, &input);
    assert_eq!(world[0].rigid_body.angular_velocity, Vec3::new(0, 1000, 0));
    let opposite = MovementInput { yaw_left: false, yaw_right: true, ..input };
    movement(&mut world, &opposite);
    assert_eq!(world[0].rigid_body.angular_velocity, Vec3::new(0, 0, 0));
}

#[test]
fn outlines_are_colored_by_collision_state() {
    assert_eq!(
        outline_color(true),
        Srgba { red: SCALE, green: 0, blue: 0, alpha: SCALE }
    );
    assert_eq!(
        outline_color(false),
        Srgba { red: 0, green: SCALE, blue: 0, alpha: SCALE }
    );
    let mut shown = free_cube_at(100, 200, 300);
    shown.collider_lines = true;
    shown.rigid_body.is_colliding = true;
    let hidden = free_cube_at(0, 0, 0);
    let world = vec![hidden, shown];
    let outlines = lines(&world);
    assert_eq!(outlines.len(), 1);
    assert_eq!(outlines[0].translation, Vec3::new(100, 200, 300));
    assert_eq!(outlines[0].scale, Vec3::new(1000, 1000, 1000));
    assert_eq!(outlines[0].color.0.red, SCALE);
}

#[test]
fn component_defaults_match_the_data_model() {
    assert_eq!(Gravity::default().0, 500);
    assert_eq!(Damping::default().0, 500);
    assert_eq!(Speed::default().0, SCALE);
    assert_eq!(Velocity::default().0, Vec3::new(0, 0, 0));
    assert_eq!(ColliderColor::default().0, Srgba { red: 0, green: 0, blue: 0, alpha: 0 });
    let b = Body::default();
    assert!(!b.rigid_body.fixed);
    assert_eq!(b.rotation, Quat::identity());
    assert_eq!(b.rigid_body.damping.0, 500);
}
