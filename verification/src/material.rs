//! Surface materials: what a surface emits, and whether and where it sends
//! on a ray that hits it.

use crate::fixed::{fx_mul, Fixed, LIMIT, SCALE};
use crate::hittable::{HitInfo, HitView};
use crate::ray::{Ray, RayView};
use crate::vec3::{Vec3, V3};
use vstd::prelude::*;

verus! {

/// The kinds of scattering behaviour.
#[derive(Clone, Copy, Debug, PartialEq, Eq, Structural)]
pub enum MaterialType {
    /// A diffuse surface.
    Lambertian,
    /// A perfect mirror.
    Metal,
    /// A light: it emits and never scatters.
    Emissive,
}

impl Default for MaterialType {
    fn default() -> (r: MaterialType)
        ensures
            r == MaterialType::Metal,
    {
        MaterialType::Metal
    }
}

/// What a scattering surface makes of an incoming ray.
pub struct Scattered {
    /// The fraction of light the surface passes on, per channel.
    pub attenuation: V3,
    /// The ray that leaves the surface.
    pub ray: RayView,
}

/// The mirror image of direction `d` at a surface with normal `n`:
/// `d - (2 (d . n)) n`.
pub open spec fn reflected(d: V3, n: V3) -> V3 {
    d.minus(n.scaled(fx_mul(2 * SCALE, d.dot(n))))
}

/// The view of a [`Material`].
pub struct MaterialView {
    pub kind: MaterialType,
    pub albedo: V3,
}

impl MaterialView {
    /// The light the surface gives off by itself: its albedo for an emissive
    /// surface, nothing for any other.
    pub open spec fn emission(self) -> V3 {
        match self.kind {
            MaterialType::Emissive => self.albedo,
            _ => V3::zero(),
        }
    }

    /// Whether the surface sends a ray on.
    pub open spec fn scatters(self) -> bool {
        self.kind != MaterialType::Emissive
    }

    /// What becomes of `ray` at the hit `hit`, where `unit` is the random
    /// direction a diffuse surface adds to its normal. An emissive surface
    /// scatters nothing.
    pub open spec fn scatter(self, ray: RayView, hit: HitView, unit: V3) -> Option<Scattered> {
        match self.kind {
            MaterialType::Lambertian => Some(
                Scattered {
                    attenuation: self.albedo,
                    ray: RayView { origin: hit.point, dir: hit.normal.plus(unit) },
                },
            ),
            MaterialType::Metal => Some(
                Scattered {
                    attenuation: self.albedo,
                    ray: RayView { origin: hit.point, dir: reflected(ray.dir, hit.normal) },
                },
            ),
            MaterialType::Emissive => None,
        }
    }
}

impl MaterialView {
    /// A diffuse surface scatters along its normal plus a unit vector: the
    /// outgoing direction less the normal is the random direction it was
    /// handed, which has unit length. The normal must leave room for the sum
    /// below the limit.
    pub proof fn lemma_diffuse_direction(self, ray: RayView, hit: HitView, unit: V3)
        requires
            self.kind == MaterialType::Lambertian,
            unit.is_unit_draw(),
            10 * SCALE - LIMIT <= hit.normal.x <= LIMIT - 10 * SCALE,
            10 * SCALE - LIMIT <= hit.normal.y <= LIMIT - 10 * SCALE,
            10 * SCALE - LIMIT <= hit.normal.z <= LIMIT - 10 * SCALE,
        ensures
            self.scatter(ray, hit, unit) is Some,
            self.scatter(ray, hit, unit)->Some_0.attenuation == self.albedo,
            self.scatter(ray, hit, unit)->Some_0.ray.origin == hit.point,
            self.scatter(ray, hit, unit)->Some_0.ray.dir.minus(hit.normal) == unit,
            self.scatter(ray, hit, unit)->Some_0.ray.dir.minus(hit.normal).has_unit_length(),
    {
        unit.lemma_unit_draw_has_unit_length();
        hit.normal.lemma_plus_then_minus(unit);
    }
}

/// A surface material: a kind of scattering and a colour.
#[derive(Clone, Copy, Debug)]
pub struct Material {
    pub material_type: MaterialType,
    pub albedo: Vec3,
}

impl View for Material {
    type V = MaterialView;

    open spec fn view(&self) -> MaterialView {
        MaterialView { kind: self.material_type, albedo: self.albedo@ }
    }
}

impl Default for Material {
    fn default() -> (r: Material)
        ensures
            r@ == (MaterialView { kind: MaterialType::Metal, albedo: V3::zero() }),
    {
        Material { material_type: MaterialType::Metal, albedo: Vec3::default() }
    }
}

impl Material {
    /// Scatters `ray` at `hit_info`, drawing the random direction that a
    /// diffuse surface needs. Returns whether the surface scatters; if it
    /// does, the attenuation and the outgoing ray are written to the two
    /// outputs, which are left alone otherwise.
    pub fn scatter(
        &self,
        ray: Ray,
        hit_info: &HitInfo,
        attenuation_out: &mut Vec3,
        scatter_out: &mut Ray,
    ) -> (r: bool)
        ensures
            r == self@.scatters(),
            !r ==> *final(attenuation_out) == *old(attenuation_out) && *final(scatter_out) == *old(
                scatter_out,
            ),
            r ==> exists|unit: V3|
                unit.is_unit_draw() && unit.has_unit_length() && #[trigger] self@.scatter(
                    ray@,
                    hit_info@,
                    unit,
                ) == Some(
                    Scattered { attenuation: final(attenuation_out)@, ray: final(scatter_out)@ },
                ),
    {
        match self.material_type {
            MaterialType::Lambertian => {
                let unit = Vec3::random_unit();
                let r = self.scatter_lambertian(hit_info, unit, attenuation_out, scatter_out);
                assert(self@.scatter(ray@, hit_info@, unit@) == Some(
                    Scattered { attenuation: attenuation_out@, ray: scatter_out@ },
                ));
                r
            },
            MaterialType::Metal => {
                let r = self.scatter_metal(ray, hit_info, attenuation_out, scatter_out);
                proof {
                    V3::lemma_backward_is_unit_draw();
                    V3::backward().lemma_unit_draw_has_unit_length();
                }
                assert(self@.scatter(ray@, hit_info@, V3::backward()) == Some(
                    Scattered { attenuation: attenuation_out@, ray: scatter_out@ },
                ));
                r
            },
            MaterialType::Emissive => self.scatter_emissive(),
        }
    }

    /// Scatters `ray` at `hit_info`, where `unit` is the random direction that
    /// a diffuse surface adds to its normal. Returns whether the surface
    /// scatters; if it does, the attenuation and the outgoing ray are written
    /// to the two outputs, which are left alone otherwise.
    pub fn scatter_with(
        &self,
        ray: Ray,
        hit_info: &HitInfo,
        unit: Vec3,
        attenuation_out: &mut Vec3,
        scatter_out: &mut Ray,
    ) -> (r: bool)
        ensures
            r == self@.scatters(),
            !r ==> *final(attenuation_out) == *old(attenuation_out) && *final(scatter_out) == *old(
                scatter_out,
            ),
            r ==> self@.scatter(ray@, hit_info@, unit@) == Some(
                Scattered { attenuation: final(attenuation_out)@, ray: final(scatter_out)@ },
            ),
            !r ==> self@.scatter(ray@, hit_info@, unit@).is_none(),
    {
        match self.material_type {
            MaterialType::Lambertian => {
                self.scatter_lambertian(hit_info, unit, attenuation_out, scatter_out)
            },
            MaterialType::Metal => self.scatter_metal(ray, hit_info, attenuation_out, scatter_out),
            MaterialType::Emissive => self.scatter_emissive(),
        }
    }

    /// The light the surface gives off by itself.
    pub fn emission(&self) -> (r: Vec3)
        ensures
            r@ == self@.emission(),
    {
        match self.material_type {
            MaterialType::Emissive => self.albedo,
            _ => Vec3::new(Fixed::zero(), Fixed::zero(), Fixed::zero()),
        }
    }

    fn scatter_lambertian(
        &self,
        hit_info: &HitInfo,
        unit: Vec3,
        attenuation_out: &mut Vec3,
        scatter_out: &mut Ray,
    ) -> (r: bool)
        ensures
            r,
            final(attenuation_out)@ == self@.albedo,
            final(scatter_out)@ == (RayView {
                origin: hit_info@.point,
                dir: hit_info@.normal.plus(unit@),
            }),
    {
        let bounce_dir = hit_info.normal.plus(unit);
        *scatter_out = Ray::new(hit_info.point, bounce_dir);
        *attenuation_out = self.albedo;
        true
    }

    fn scatter_metal(
        &self,
        ray: Ray,
        hit_info: &HitInfo,
        attenuation_out: &mut Vec3,
        scatter_out: &mut Ray,
    ) -> (r: bool)
        ensures
            r,
            final(attenuation_out)@ == self@.albedo,
            final(scatter_out)@ == (RayView {
                origin: hit_info@.point,
                dir: reflected(ray@.dir, hit_info@.normal),
            }),
    {
        let two = Fixed::from_int(2);
        let reflect_dir = ray.dir().minus(
            hit_info.normal.scaled(two * ray.dir().dot(hit_info.normal)),
        );
        *scatter_out = Ray::new(hit_info.point, reflect_dir);
        *attenuation_out = self.albedo;
        true
    }

    fn scatter_emissive(&self) -> (r: bool)
        ensures
            !r,
    {
        false
    }
}

} // verus!
