use raytracer::fixed::{Fixed, LIMIT};
use raytracer::ray::{Interval, Ray};
use raytracer::vec3::Vec3;

fn fx(x: f64) -> Fixed {
    Fixed::from_raw((x * 1e6).round() as i64)
}

fn v(x: f64, y: f64, z: f64) -> Vec3 {
    Vec3::new(fx(x), fx(y), fx(z))
}

#[test]
fn ray_keeps_origin_and_direction() {
    let r = Ray::new(v(1.0, 2.0, 3.0), v(0.0, 0.0, -1.0));
    assert_eq!(r.origin(), v(1.0, 2.0, 3.0));
    assert_eq!(r.dir(), v(0.0, 0.0, -1.0));
    let d = Ray::default();
    assert_eq!(d.origin(), v(0.0, 0.0, 0.0));
    assert_eq!(d.dir(), v(0.0, 0.0, 0.0));
}

#[test]
fn at_walks_along_the_direction() {
    let r = Ray::new(v(1.0, 2.0, 3.0), v(0.5, -1.0, 2.0));
    assert_eq!(r.at(fx(0.0)), v(1.0, 2.0, 3.0));
    assert_eq!(r.at(fx(2.0)), v(2.0, 0.0, 7.0));
    assert_eq!(r.at(fx(-1.5)), v(0.25, 3.5, 0.0));
}

#[test]
fn interval_contains_its_ends() {
    let i = Interval::new(fx(0.001), fx(10.0));
    assert!(i.contains(fx(0.001)));
    assert!(i.contains(fx(10.0)));
    assert!(i.contains(fx(5.0)));
    assert!(!i.contains(fx(0.000999)));
    assert!(!i.contains(fx(10.000001)));
    assert!(!i.contains(fx(-1.0)));
}

#[test]
fn interval_clamp_moves_to_the_nearer_end() {
    let i = Interval::new(fx(0.0), fx(0.999));
    assert_eq!(i.clamp(fx(0.5)), fx(0.5));
    assert_eq!(i.clamp(fx(1.5)), fx(0.999));
    assert_eq!(i.clamp(fx(-0.5)), fx(0.0));
    assert_eq!(i.clamp(fx(0.999)), fx(0.999));
    assert_eq!(i.clamp(fx(0.0)), fx(0.0));
}

#[test]
fn interval_get_val_returns_the_ends() {
    let i = Interval::new(fx(-2.0), fx(3.0));
    assert_eq!(i.get_val(0), fx(-2.0));
    assert_eq!(i.get_val(1), fx(3.0));
}

#[test]
fn empty_interval_contains_nothing() {
    let e = Interval::empty();
    assert_eq!(e.get_val(0).raw(), LIMIT);
    assert_eq!(e.get_val(1).raw(), -LIMIT);
    for t in [fx(0.0), fx(1.0), Fixed::infinity(), Fixed::neg_infinity()] {
        assert!(!e.contains(t));
    }
}

#[test]
fn any_interval_contains_everything() {
    let a = Interval::any();
    assert_eq!(a.get_val(0).raw(), -LIMIT);
    assert_eq!(a.get_val(1).raw(), LIMIT);
    for t in [fx(0.0), fx(-1e6), Fixed::infinity(), Fixed::neg_infinity()] {
        assert!(a.contains(t));
    }
}

#[test]
fn default_interval_is_the_point_zero() {
    let d = Interval::default();
    assert!(d.contains(fx(0.0)));
    assert!(!d.contains(Fixed::from_raw(1)));
    assert!(!d.contains(Fixed::from_raw(-1)));
}
