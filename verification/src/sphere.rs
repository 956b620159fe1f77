//! Spheres and the root-finding that tells where a ray enters one.

use crate::fixed::{
    fx_div, fx_mul, fx_neg, fx_sqrt, fx_sub, lemma_mul_sign, saturate, Fixed, LIMIT, SCALE,
};
use crate::hittable::{HitInfo, HitView, Hittable};
use crate::ray::{Interval, IntervalView, Point3, Ray, RayView};
use crate::vec3::{boost, Vec3, V3};
use core::ops::Neg;
use vstd::prelude::*;

verus! {

/// The view of a [`Sphere`].
pub struct SphereView {
    pub center: V3,
    pub radius: int,
}

impl SphereView {
    /// The outward normal at a point of the surface: `(point - center) /
    /// radius`.
    pub open spec fn normal(self, point: V3) -> V3 {
        point.minus(self.center).shrunk(self.radius)
    }

    /// The vector from the ray's origin to the centre.
    pub open spec fn to_center(self, ray: RayView) -> V3 {
        self.center.minus(ray.origin)
    }

    /// The ray's direction at working size: multiplied by its boost, so that a
    /// short direction keeps a length that is not zero.
    pub open spec fn dir(self, ray: RayView) -> V3 {
        ray.dir.boosted()
    }

    /// The quadratic's leading coefficient: `dir . dir`.
    pub open spec fn a(self, ray: RayView) -> int {
        self.dir(ray).dot(self.dir(ray))
    }

    /// The quadratic's linear coefficient: `-2 (dir . (center - origin))`.
    pub open spec fn b(self, ray: RayView) -> int {
        fx_mul(-2 * SCALE, self.dir(ray).dot(self.to_center(ray)))
    }

    /// The quadratic's constant: `|center - origin|^2 - radius^2`.
    pub open spec fn c(self, ray: RayView) -> int {
        fx_sub(self.to_center(ray).dot(self.to_center(ray)), fx_mul(self.radius, self.radius))
    }

    /// The discriminant `b^2 - 4ac`.
    pub open spec fn discriminant(self, ray: RayView) -> int {
        fx_sub(
            fx_mul(self.b(ray), self.b(ray)),
            fx_mul(fx_mul(4 * SCALE, self.a(ray)), self.c(ray)),
        )
    }

    /// The smaller root of the quadratic, `(-b - sqrt(disc)) / 2a`: the
    /// parameter at which the ray's line enters the sphere. The quadratic is
    /// solved for the direction at working size, and the root is multiplied
    /// by the direction's boost to give the parameter for the ray as it is.
    /// There is no root where the discriminant is negative or the direction
    /// is the zero vector.
    pub open spec fn root(self, ray: RayView) -> Option<int> {
        if ray.dir.reach() != 0 && self.discriminant(ray) >= 0 {
            Some(
                saturate(
                    fx_div(
                        fx_sub(fx_neg(self.b(ray)), fx_sqrt(self.discriminant(ray))),
                        fx_mul(2 * SCALE, self.a(ray)),
                    ) * boost(ray.dir.reach()),
                ),
            )
        } else {
            None
        }
    }

    /// Whether the sphere takes a hit for `ray`: the ray's line enters the
    /// sphere at a parameter within `interval`.
    pub open spec fn accepts(self, ray: RayView, interval: IntervalView) -> bool {
        match self.root(ray) {
            Some(t) => interval.contains(t),
            None => false,
        }
    }
}

impl SphereView {
    /// The quadratic of a ray with a direction has a leading coefficient that
    /// is not zero, however short the direction.
    pub proof fn lemma_leading_coefficient(self, ray: RayView)
        requires
            ray.dir.reach() != 0,
        ensures
            self.a(ray) > 0,
    {
        ray.dir.lemma_boosted_has_length();
    }

    /// A root exists exactly where the direction is not the zero vector and
    /// the discriminant is not negative.
    pub proof fn lemma_root_exists(self, ray: RayView)
        ensures
            self.root(ray) is Some <==> ray.dir != V3::zero() && self.discriminant(ray) >= 0,
    {
    }

    /// A ray with a direction that starts strictly inside the sphere is
    /// always hit: where `|center - origin|^2 < radius^2`, the discriminant is
    /// not negative, so the ray's line enters the sphere somewhere, and an
    /// interval that holds every number takes that root.
    pub proof fn lemma_origin_inside_has_root(self, ray: RayView, interval: IntervalView)
        requires
            ray.dir.reach() != 0,
            self.c(ray) < 0,
            interval == (IntervalView { low: -LIMIT as int, high: LIMIT as int }),
        ensures
            self.discriminant(ray) >= 0,
            self.root(ray) is Some,
            self.accepts(ray, interval),
    {
        self.lemma_leading_coefficient(ray);
        lemma_mul_sign(self.b(ray), self.b(ray));
        lemma_mul_sign(4 * SCALE, self.a(ray));
        lemma_mul_sign(fx_mul(4 * SCALE, self.a(ray)), self.c(ray));
    }
}

/// A sphere.
#[derive(Clone, Copy, Debug)]
pub struct Sphere {
    center: Point3,
    radius: Fixed,
}

impl View for Sphere {
    type V = SphereView;

    closed spec fn view(&self) -> SphereView {
        SphereView { center: self.center@, radius: self.radius@ }
    }
}

impl Sphere {
    /// The sphere around `center` with the given radius.
    pub fn new(center: Point3, radius: Fixed) -> (r: Sphere)
        ensures
            r@ == (SphereView { center: center@, radius: radius@ }),
    {
        Sphere { center, radius }
    }

    /// The outward normal at a point of the surface.
    pub fn normal(&self, point: Point3) -> (r: Vec3)
        ensures
            r@ == self@.normal(point@),
    {
        point.minus(self.center).shrunk(self.radius)
    }

    /// The parameter at which the line of `ray` enters the sphere, if it does.
    pub fn root(&self, ray: Ray) -> (r: Option<Fixed>)
        ensures
            match r {
                Some(t) => self@.root(ray@) == Some(t@),
                None => self@.root(ray@).is_none(),
            },
    {
        let diff = self.center.minus(ray.origin());
        let (dir, boost) = ray.dir().boosted();
        let a = dir.dot(dir);
        let b = Fixed::from_int(-2) * dir.dot(diff);
        let c = diff.dot(diff) - self.radius * self.radius;
        let discriminant = b * b - Fixed::from_int(4) * a * c;
        let aimless = ray.dir().x.is_zero() && ray.dir().y.is_zero() && ray.dir().z.is_zero();
        if !aimless && discriminant >= Fixed::zero() {
            let scaled = (b.neg() - discriminant.sqrt()) / (Fixed::from_int(2) * a);
            Some(scaled.times_whole(boost))
        } else {
            None
        }
    }
}

impl Hittable for Sphere {
    open spec fn wf(&self) -> bool {
        true
    }

    open spec fn hit_record(
        &self,
        ray: RayView,
        interval: IntervalView,
        before: HitView,
    ) -> HitView {
        if self@.accepts(ray, interval) {
            HitView { t: self@.root(ray).unwrap(), ..before }
        } else {
            before
        }
    }

    open spec fn hits(&self, ray: RayView, interval: IntervalView, before: HitView) -> bool {
        self@.accepts(ray, interval)
    }

    /// Takes the parameter at which the ray's line enters the sphere where it
    /// lies within `interval`, whatever the record held. Only the parameter
    /// of the record is written.
    fn hit(&self, ray: Ray, interval: Interval, hit_info_out: &mut HitInfo) -> (r: bool) {
        match self.root(ray) {
            Some(t) => {
                if interval.contains(t) {
                    hit_info_out.t = t;
                    return true;
                }
                false
            },
            None => false,
        }
    }
}

} // verus!
