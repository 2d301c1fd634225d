use path_tracer::math::{clamp, fxmul, isqrt_u128, min_i64, tdiv_i128, SCALE};
use path_tracer::vec3::{dot, Vec3};

#[test]
fn truncating_division_rounds_toward_zero() {
    assert_eq!(tdiv_i128(7, 2), 3);
    assert_eq!(tdiv_i128(-7, 2), -3);
    assert_eq!(tdiv_i128(6, 3), 2);
    assert_eq!(tdiv_i128(-6, 3), -2);
    assert_eq!(tdiv_i128(0, 5), 0);
}

#[test]
fn integer_square_root_brackets_the_answer() {
    assert_eq!(isqrt_u128(0), 0);
    assert_eq!(isqrt_u128(1), 1);
    assert_eq!(isqrt_u128(3), 1);
    assert_eq!(isqrt_u128(4), 2);
    assert_eq!(isqrt_u128(10), 3);
    assert_eq!(isqrt_u128(1_000_000_000_000), 1_000_000);
    assert_eq!(isqrt_u128(999_999_999_999), 999_999);
}

#[test]
fn fixed_point_scalar_product() {
    assert_eq!(fxmul(2_500_000, 2_000_000), 5_000_000);
    assert_eq!(fxmul(-500_000, 500_000), -250_000);
    assert_eq!(fxmul(0, 123_456), 0);
}

#[test]
fn clamp_and_min() {
    assert_eq!(clamp(5, 0, 10), 5);
    assert_eq!(clamp(-5, 0, 10), 0);
    assert_eq!(clamp(15, 0, 10), 10);
    assert_eq!(min_i64(3, 4), 3);
    assert_eq!(min_i64(4, 3), 3);
}

#[test]
fn vector_componentwise_operations() {
    let a = Vec3::new(1_000_000, 2_000_000, -3_000_000);
    let b = Vec3::new(500_000, -500_000, 1_000_000);
    assert_eq!(a.add(b), Vec3::new(1_500_000, 1_500_000, -2_000_000));
    assert_eq!(a.sub(b), Vec3::new(500_000, 2_500_000, -4_000_000));
    assert_eq!(a.neg(), Vec3::new(-1_000_000, -2_000_000, 3_000_000));
    assert_eq!(a.mul(b), Vec3::new(500_000, -1_000_000, -3_000_000));
    assert_eq!(a.scale(2_000_000), Vec3::new(2_000_000, 4_000_000, -6_000_000));
    assert_eq!(a.div(2_000_000), Vec3::new(500_000, 1_000_000, -1_500_000));
}

#[test]
fn dot_and_cross_products() {
    let a = Vec3::new(1_000_000, 0, 0);
    let b = Vec3::new(0, 1_000_000, 0);
    assert_eq!(dot(a, b), 0);
    assert_eq!(dot(a, a), 1_000_000);
    assert_eq!(Vec3::cross(a, b), Vec3::new(0, 0, 1_000_000));
    assert_eq!(Vec3::cross(b, a), Vec3::new(0, 0, -1_000_000));
}

#[test]
fn length_of_scaled_pythagorean_triple() {
    // (3, 4, 0) has length 5, exactly representable in fixed point.
    let v = Vec3::new(3_000_000, 4_000_000, 0);
    assert_eq!(v.length(), 5_000_000);
    assert_eq!(v.length_squared(), 25_000_000);
}

#[test]
fn normalizing_a_unit_vector_is_the_identity() {
    // A fixed-point unit vector normalizes to itself and keeps length one.
    let v = Vec3::new(0, 0, -SCALE);
    let u = v.unit_vector();
    assert_eq!(u, v);
    assert_eq!(u.length(), SCALE);
    let w = Vec3::new(600_000, 800_000, 0);
    assert_eq!(w.length(), SCALE);
    assert_eq!(w.unit_vector(), w);
}

#[test]
fn normalization_length_within_tolerance() {
    let v = Vec3::new(1_234_567, -2_345_678, 3_456_789);
    let u = v.unit_vector();
    let len = u.length();
    assert!((len - SCALE).abs() <= 2, "normalized length {len}");
}

#[test]
fn near_zero_only_on_the_zero_vector() {
    assert!(Vec3::zero().near_zero());
    assert!(!Vec3::new(1, 0, 0).near_zero());
    assert!(!Vec3::new(0, 0, -1).near_zero());
}

#[test]
fn reflection_mirrors_head_on_rays() {
    let v = Vec3::new(0, 0, -SCALE);
    let n = Vec3::new(0, 0, SCALE);
    assert_eq!(Vec3::reflect(&v, &n), Vec3::new(0, 0, SCALE));
}

#[test]
fn reflection_flips_the_normal_component() {
    // dot(reflect(v, n), n) == -dot(v, n) up to fixed-point rounding.
    let v = Vec3::new(300_000, -400_000, -866_025);
    let n = Vec3::new(0, 0, SCALE);
    let r = Vec3::reflect(&v, &n);
    let before = dot(v, n);
    let after = dot(r, n);
    assert!((after + before).abs() <= 3, "before {before} after {after}");
    // The tangential components are untouched.
    assert_eq!(r.x, v.x);
    assert_eq!(r.y, v.y);
}

#[test]
fn refraction_at_index_one_is_straight_through() {
    let uv = Vec3::new(600_000, 0, -800_000);
    let n = Vec3::new(0, 0, SCALE);
    let out = Vec3::refract(&uv, &n, SCALE);
    assert_eq!(out, uv);
}

#[test]
fn random_samples_stay_in_their_ranges() {
    for _ in 0..32 {
        let p = Vec3::random_in_unit_sphere();
        let n2 = p.length_squared();
        assert!(n2 < SCALE, "sphere sample squared length {n2}");
        assert!(n2 >= 250_000, "sphere sample squared length {n2}");
        assert!(!p.near_zero());
        let d = Vec3::random_in_unit_disk();
        assert_eq!(d.z, 0);
        assert!(d.length_squared() < SCALE);
        let u = Vec3::random_unit_vector();
        assert!(u.x.abs() <= SCALE && u.y.abs() <= SCALE && u.z.abs() <= SCALE);
        let ulen = u.length();
        assert!((ulen - SCALE).abs() <= 6, "unit sample length {ulen}");
        let up = Vec3::new(0, SCALE, 0);
        let h = Vec3::random_in_hemisphere(&up);
        assert!(dot(h, up) >= 0);
        let c = Vec3::random();
        assert!(0 <= c.x && c.x < SCALE);
        assert!(0 <= c.y && c.y < SCALE);
        assert!(0 <= c.z && c.z < SCALE);
    }
}

#[test]
fn ranged_draw_hits_a_singleton_range() {
    for _ in 0..8 {
        assert_eq!(path_tracer::rng::random_double_from_range(42, 43), 42);
        let d = path_tracer::rng::random_double();
        assert!(0 <= d && d < SCALE);
    }
}
