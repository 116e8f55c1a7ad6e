use physics_lite::fixed::{
    clamp_fx, floor_div, floor_mod, fx_abs, fx_cos, fx_mul, fx_sin, isqrt, BOUND, SCALE,
};
use physics_lite::quat::Quat;
use physics_lite::vec3::Vec3;

#[test]
fn scalar_products_truncate_toward_zero() {
    assert_eq!(fx_mul(1500, 2000), 3000);
    assert_eq!(fx_mul(-1500, 2000), -3000);
    assert_eq!(fx_mul(999, 999), 998);
    assert_eq!(fx_mul(-999, 999), -998);
    assert_eq!(fx_mul(0, 123_456), 0);
}

#[test]
fn scalar_products_saturate() {
    assert_eq!(fx_mul(BOUND, BOUND), BOUND);
    assert_eq!(fx_mul(-BOUND, BOUND), -BOUND);
    assert_eq!(clamp_fx(2_000_000_000), BOUND);
    assert_eq!(clamp_fx(-2_000_000_000), -BOUND);
    assert_eq!(clamp_fx(7), 7);
}

#[test]
fn absolute_value() {
    assert_eq!(fx_abs(-250), 250);
    assert_eq!(fx_abs(250), 250);
    assert_eq!(fx_abs(0), 0);
}

#[test]
fn integer_square_roots() {
    assert_eq!(isqrt(0), 0);
    assert_eq!(isqrt(1), 1);
    assert_eq!(isqrt(2), 1);
    assert_eq!(isqrt(999_999), 999);
    assert_eq!(isqrt(1_000_000), 1000);
    assert_eq!(isqrt(2_000_000), 1414);
    assert_eq!(isqrt(4_000_000_000_000_000_000), 2_000_000_000);
}

#[test]
fn floor_division_rounds_down() {
    assert_eq!(floor_div(999, 1000), 0);
    assert_eq!(floor_div(1000, 1000), 1);
    assert_eq!(floor_div(-1, 1000), -1);
    assert_eq!(floor_div(-1000, 1000), -1);
    assert_eq!(floor_div(-1001, 1000), -2);
    assert_eq!(floor_mod(-1, 1000), 999);
    assert_eq!(floor_mod(2500, 1000), 500);
}

#[test]
fn sine_and_cosine_quarter_points() {
    assert_eq!(fx_sin(0), 0);
    assert_eq!(fx_sin(1571), SCALE);
    assert_eq!(fx_sin(-1571), -SCALE);
    assert_eq!(fx_cos(0), SCALE);
    // Half a turn: the truncated series is within one thousandth of zero.
    assert!(fx_sin(3142).abs() <= 2);
    // Periodicity at the fixed-point resolution.
    assert_eq!(fx_sin(700), fx_sin(700 + 6283));
}

#[test]
fn vector_operations() {
    let a = Vec3::new(1000, 2000, 3000);
    let b = Vec3::new(4000, 5000, 6000);
    assert_eq!(a.plus(b), Vec3::new(5000, 7000, 9000));
    assert_eq!(b.minus(a), Vec3::new(3000, 3000, 3000));
    assert_eq!(a.neg(), Vec3::new(-1000, -2000, -3000));
    assert_eq!(a.scaled(500), Vec3::new(500, 1000, 1500));
    assert_eq!(a.dot(b), 32_000);
    assert_eq!(
        Vec3::new(1000, 0, 0).cross(Vec3::new(0, 1000, 0)),
        Vec3::new(0, 0, 1000)
    );
}

#[test]
fn vector_length_and_normalization() {
    let v = Vec3::new(3000, 4000, 0);
    assert_eq!(v.norm(), 5000);
    assert_eq!(v.normalized(), Vec3::new(600, 800, 0));
    assert_eq!(Vec3::new(7, 0, 0).normalized(), Vec3::new(1000, 0, 0));
}

#[test]
fn identity_quaternion_axes() {
    let q = Quat::identity();
    assert_eq!(q.axis_x(), Vec3::new(1000, 0, 0));
    assert_eq!(q.axis_y(), Vec3::new(0, 1000, 0));
    assert_eq!(q.axis_z(), Vec3::new(0, 0, 1000));
}

#[test]
fn quaternion_product_with_identity() {
    let q = Quat::new(100, -200, 300, 950);
    assert_eq!(Quat::identity().times(q), q);
    assert_eq!(q.times(Quat::identity()), q);
}

#[test]
fn half_turn_about_y_flips_x_axis() {
    let q = Quat::from_rotation_y(3142);
    assert_eq!(q.y, SCALE);
    assert!(q.w.abs() <= 2);
    let ax = q.axis_x();
    // Flipped X axis, up to fixed-point truncation.
    assert!((ax.x + SCALE).abs() <= 3);
    assert_eq!(ax.y, 0);
    assert!(ax.z.abs() <= 3);
}
