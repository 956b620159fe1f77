use raytracer::fixed::{Fixed, LIMIT};
use raytracer::vec3::Vec3;

fn fx(x: f64) -> Fixed {
    Fixed::from_raw((x * 1e6).round() as i64)
}

fn v(x: f64, y: f64, z: f64) -> Vec3 {
    Vec3::new(fx(x), fx(y), fx(z))
}

fn raw(a: Vec3) -> (i64, i64, i64) {
    (a.x.raw(), a.y.raw(), a.z.raw())
}

#[test]
fn new_sets_the_components() {
    let a = v(1.0, -2.0, 3.5);
    assert_eq!(raw(a), (1_000_000, -2_000_000, 3_500_000));
    assert_eq!(raw(Vec3::default()), (0, 0, 0));
}

#[test]
fn axis_val_picks_a_component() {
    let a = v(1.0, 2.0, 3.0);
    assert_eq!(a.axis_val(0), fx(1.0));
    assert_eq!(a.axis_val(1), fx(2.0));
    assert_eq!(a.axis_val(2), fx(3.0));
    assert_eq!(a.axis_val(3), fx(1.0));
    assert_eq!(a.axis_val(usize::MAX), fx(1.0));
}

#[test]
fn componentwise_arithmetic() {
    let a = v(1.0, 2.0, 3.0);
    let b = v(4.0, -5.0, 0.5);
    assert_eq!(a.plus(b), v(5.0, -3.0, 3.5));
    assert_eq!(a.minus(b), v(-3.0, 7.0, 2.5));
    assert_eq!(a.negated(), v(-1.0, -2.0, -3.0));
    assert_eq!(a.scaled(fx(0.5)), v(0.5, 1.0, 1.5));
    assert_eq!(a.times(b), v(4.0, -10.0, 1.5));
    assert_eq!(a.shrunk(fx(4.0)), v(0.25, 0.5, 0.75));
}

#[test]
fn division_by_zero_saturates_each_component() {
    let a = v(1.0, -2.0, 0.0);
    assert_eq!(raw(a.shrunk(Fixed::zero())), (LIMIT, -LIMIT, 0));
}

#[test]
fn dot_product() {
    assert_eq!(v(1.0, 2.0, 3.0).dot(v(4.0, -5.0, 6.0)), fx(12.0));
    assert_eq!(v(1.0, 0.0, 0.0).dot(v(0.0, 1.0, 0.0)), fx(0.0));
    assert_eq!(v(0.3, 0.4, 0.0).dot(v(0.3, 0.4, 0.0)), fx(0.25));
}

#[test]
fn cross_product_follows_the_right_hand_rule() {
    assert_eq!(v(1.0, 0.0, 0.0).cross(v(0.0, 1.0, 0.0)), v(0.0, 0.0, 1.0));
    assert_eq!(v(0.0, 1.0, 0.0).cross(v(1.0, 0.0, 0.0)), v(0.0, 0.0, -1.0));
    assert_eq!(v(1.0, 2.0, 3.0).cross(v(4.0, 5.0, 6.0)), v(-3.0, 6.0, -3.0));
}

#[test]
fn magnitude_is_the_root_of_the_squared_length() {
    assert_eq!(v(3.0, 4.0, 0.0).magnitude(), fx(5.0));
    assert_eq!(v(1.0, 1.0, 1.0).magnitude().raw(), 1_732_050);
    assert_eq!(v(0.0, 0.0, 0.0).magnitude(), fx(0.0));
}

#[test]
fn unit_in_ball_normalises_inside_the_ball() {
    let a = v(0.3, 0.4, 0.0);
    assert!(a.in_unit_ball());
    assert_eq!(a.unit_in_ball(), Some(v(0.6, 0.8, 0.0)));
    assert_eq!(v(0.0, 0.0, -0.5).unit_in_ball(), Some(v(0.0, 0.0, -1.0)));
    assert_eq!(
        v(0.2, -0.1, 0.2).unit_in_ball(),
        Some(Vec3::new(Fixed::from_raw(666_666), Fixed::from_raw(-333_333), Fixed::from_raw(666_666)))
    );
}

#[test]
fn unit_in_ball_rejects_vectors_outside_the_ball() {
    let outside = v(0.9, 0.9, 0.9);
    assert!(!outside.in_unit_ball());
    assert_eq!(outside.unit_in_ball(), None);
    assert_eq!(v(1.0, 0.001, 0.0).unit_in_ball(), None);
}

#[test]
fn unit_in_ball_rejects_vectors_too_short_to_normalise() {
    let nothing = v(0.0, 0.0, 0.0);
    assert!(!nothing.in_unit_ball());
    assert_eq!(nothing.unit_in_ball(), None);
    let tiny = Vec3::new(Fixed::from_raw(1), Fixed::from_raw(1), Fixed::from_raw(1));
    assert_eq!(tiny.unit_in_ball(), None);
    assert_eq!(v(0.001414, 0.0, 0.0).unit_in_ball(), None);
    // A squared length of exactly 0.01 is not above the threshold.
    assert_eq!(v(0.1, 0.0, 0.0).unit_in_ball(), None);
    assert_eq!(v(0.100001, 0.0, 0.0).unit_in_ball(), None);
    assert_eq!(
        v(0.10001, 0.0, 0.0).unit_in_ball(),
        Some(Vec3::new(Fixed::from_raw(1_000_009), Fixed::zero(), Fixed::zero()))
    );
}

#[test]
fn the_unit_sphere_itself_is_in_the_ball() {
    assert!(v(1.0, 0.0, 0.0).in_unit_ball());
    assert_eq!(v(0.0, -1.0, 0.0).unit_in_ball(), Some(v(0.0, -1.0, 0.0)));
}

#[test]
fn every_accepted_sample_has_unit_length() {
    // A grid over the cube: what is accepted comes out with length one
    // within a thousandth.
    let mut accepted = 0;
    let mut rejected = 0;
    let mut x = -1_000_000i64;
    while x < 1_000_000 {
        let mut y = -1_000_000i64;
        while y < 1_000_000 {
            let mut z = -1_000_000i64;
            while z < 1_000_000 {
                let s = Vec3::new(Fixed::from_raw(x), Fixed::from_raw(y), Fixed::from_raw(z));
                match s.unit_in_ball() {
                    Some(u) => {
                        let len = u.magnitude().raw();
                        assert!((len - 1_000_000).abs() <= 1_000, "length {} of {:?}", len, s);
                        let squared = u.dot(u).raw();
                        assert!((squared - 1_000_000).abs() <= 1_000);
                        accepted += 1;
                    }
                    None => rejected += 1,
                }
                z += 62_501;
            }
            y += 62_501;
        }
        x += 62_501;
    }
    assert!(accepted > 10_000 && rejected > 10_000);
}

#[test]
fn operators_agree_with_the_methods() {
    let a = v(1.0, 2.0, 3.0);
    let b = v(4.0, -5.0, 0.5);
    let c = fx(0.5);
    assert_eq!(a + b, a.plus(b));
    assert_eq!(a + b, v(5.0, -3.0, 3.5));
    assert_eq!(a - b, v(-3.0, 7.0, 2.5));
    assert_eq!(-a, v(-1.0, -2.0, -3.0));
    assert_eq!(a * c, v(0.5, 1.0, 1.5));
    assert_eq!(c * a, v(0.5, 1.0, 1.5));
    assert_eq!(a * b, v(4.0, -10.0, 1.5));
    assert_eq!(a / fx(4.0), v(0.25, 0.5, 0.75));
    assert_eq!(a / Fixed::zero(), a.shrunk(Fixed::zero()));
}

#[test]
fn random_lies_in_the_unit_cube() {
    let mut varied = false;
    let first = Vec3::random();
    for _ in 0..200 {
        let r = Vec3::random();
        for c in [r.x, r.y, r.z] {
            assert!(c >= fx(0.0) && c < fx(1.0));
        }
        if r != first {
            varied = true;
        }
    }
    assert!(varied);
}

#[test]
fn random_range_lies_in_the_range() {
    for _ in 0..200 {
        let r = Vec3::random_range(fx(-2.0), fx(3.0));
        for c in [r.x, r.y, r.z] {
            assert!(c >= fx(-2.0) && c < fx(3.0));
        }
    }
}

#[test]
fn random_unit_has_unit_length() {
    for _ in 0..1000 {
        let u = Vec3::random_unit();
        let len = u.magnitude().raw();
        assert!((len - 1_000_000).abs() <= 1_000, "length {}", len);
    }
}

#[test]
fn random_unit_is_drawn_afresh() {
    let first = Vec3::random_unit();
    let mut varied = false;
    for _ in 0..50 {
        if Vec3::random_unit() != first {
            varied = true;
        }
    }
    assert!(varied);
}

#[test]
fn short_vectors_are_boosted_to_at_least_a_half() {
    let raw = |x: i64, y: i64, z: i64| Vec3::new(Fixed::from_raw(x), Fixed::from_raw(y), Fixed::from_raw(z));
    assert_eq!(raw(0, 0, 999).boosted(), (raw(0, 0, 511_488), 512));
    assert_eq!(raw(-1, 0, 0).boosted(), (raw(-524_288, 0, 0), 524_288));
    assert_eq!(raw(3, -250_000, 100).boosted(), (raw(6, -500_000, 200), 2));
    assert_eq!(raw(249_999, 0, 0).boosted(), (raw(999_996, 0, 0), 4));
}

#[test]
fn long_vectors_and_the_zero_vector_are_not_boosted() {
    assert_eq!(v(0.5, 0.0, 0.0).boosted(), (v(0.5, 0.0, 0.0), 1));
    assert_eq!(v(0.1, -0.7, 0.2).boosted(), (v(0.1, -0.7, 0.2), 1));
    assert_eq!(v(3000000.0, 0.0, -3000.0).boosted(), (v(3000000.0, 0.0, -3000.0), 1));
    assert_eq!(v(0.0, 0.0, 0.0).boosted(), (v(0.0, 0.0, 0.0), 1));
    let far = Vec3::new(Fixed::infinity(), Fixed::neg_infinity(), Fixed::zero());
    assert_eq!(far.boosted(), (far, 1));
    assert!(v(1.0, 2.0, 3.0).is_finite());
    assert!(!far.is_finite());
}
