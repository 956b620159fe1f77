//! The record of a hit and the protocol by which shapes answer a ray.

use crate::fixed::{Fixed, LIMIT};
use crate::material::{Material, MaterialType, MaterialView};
use crate::ray::{Interval, IntervalView, Point3, Ray, RayView};
use crate::vec3::{Vec3, V3};
use vstd::prelude::*;

verus! {

/// The view of a [`HitInfo`].
pub struct HitView {
    pub t: int,
    pub normal: V3,
    pub point: V3,
    pub material: MaterialView,
}

impl HitView {
    /// The record of a search that has found nothing: the parameter at
    /// positive infinity, no point, no normal and the default material.
    pub open spec fn nothing() -> HitView {
        HitView {
            t: LIMIT as int,
            normal: V3::zero(),
            point: V3::zero(),
            material: MaterialView { kind: MaterialType::Metal, albedo: V3::zero() },
        }
    }
}

/// The record of the closest hit found so far along a ray: the parameter at
/// which the ray hits, the point, the surface normal turned against the ray,
/// and the material of the surface.
///
/// A search through a scene starts with `t` at positive infinity. A triangle
/// takes a hit only where its parameter is strictly below the `t` already
/// held, so that the closest hit of a mesh and of a scene wins; a sphere takes
/// its root wherever the interval holds it.
#[derive(Clone, Copy, Debug)]
pub struct HitInfo {
    pub t: Fixed,
    pub normal: Vec3,
    pub point: Point3,
    pub material: Material,
}

impl View for HitInfo {
    type V = HitView;

    open spec fn view(&self) -> HitView {
        HitView {
            t: self.t@,
            normal: self.normal@,
            point: self.point@,
            material: self.material@,
        }
    }
}

impl Default for HitInfo {
    fn default() -> (r: HitInfo)
        ensures
            r@ == (HitView {
                t: 0,
                normal: V3::zero(),
                point: V3::zero(),
                material: MaterialView { kind: MaterialType::Metal, albedo: V3::zero() },
            }),
    {
        HitInfo {
            t: Fixed::zero(),
            normal: Vec3::default(),
            point: Vec3::default(),
            material: Material::default(),
        }
    }
}

/// A shape that a ray can hit.
pub trait Hittable {
    /// Whether the shape is in a consistent state.
    spec fn wf(&self) -> bool;

    /// The record after the shape was asked about `ray` within `interval`,
    /// where `before` is the record it was handed.
    spec fn hit_record(&self, ray: RayView, interval: IntervalView, before: HitView) -> HitView;

    /// Whether the shape reports a hit for `ray` within `interval`, where
    /// `before` is the record it was handed.
    spec fn hits(&self, ray: RayView, interval: IntervalView, before: HitView) -> bool;

    /// Asks the shape about `ray` within `interval`, updates the record where
    /// the shape is hit closer than the record says, and returns whether it
    /// was.
    fn hit(&self, ray: Ray, interval: Interval, hit_info_out: &mut HitInfo) -> (r: bool)
        requires
            self.wf(),
        ensures
            r == self.hits(ray@, interval@, old(hit_info_out)@),
            final(hit_info_out)@ == self.hit_record(ray@, interval@, old(hit_info_out)@),
    ;
}

} // verus!
