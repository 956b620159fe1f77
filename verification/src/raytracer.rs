//! The path-tracing integrator: the camera, the bounce loop that follows one
//! ray through the scene, and the loop over the pixels of a canvas.

use crate::canvas::{pixel_of, to_pixel, Canvas, Pixel};
use crate::fixed::{
    fx_add, fx_div, fx_mul, fx_neg, fx_sub, lemma_floor_sqrt_is, lemma_mul_sign, saturate, Fixed,
    LIMIT, SCALE,
};
use crate::hittable::{HitInfo, HitView, Hittable};
use crate::material::{MaterialType, MaterialView};
use crate::ray::{Interval, IntervalView, Point3, Ray, RayView};
use crate::triangle_mesh::{Scene, SceneView};
use crate::vec3::{Vec3, V3};
use core::ops::Neg;
use vstd::prelude::*;

verus! {

/// The smallest ray parameter at which a hit counts, in raw units: `0.001`.
/// It keeps a scattered ray from hitting the surface it starts on.
pub const SHADOW_BIAS: i64 = 1000;

/// The range of ray parameters that a bounce searches: from the shadow bias
/// to infinity.
pub open spec fn search_interval() -> IntervalView {
    IntervalView { low: SHADOW_BIAS as int, high: LIMIT as int }
}

/// The record a bounce starts its search with.
pub open spec fn blank_hit() -> HitView {
    HitView {
        t: 0,
        normal: V3::zero(),
        point: V3::zero(),
        material: MaterialView { kind: MaterialType::Metal, albedo: V3::zero() },
    }
}

/// White, the colour of the sky at the horizon.
pub open spec fn white() -> V3 {
    V3 { x: SCALE as int, y: SCALE as int, z: SCALE as int }
}

/// The blue of the sky overhead: `(0.5, 0.7, 1.0)`.
pub open spec fn sky_blue() -> V3 {
    V3 { x: 500_000, y: 700_000, z: SCALE as int }
}

/// The colour of the sky in direction `dir`: white blended into blue by
/// `a = 0.5 (y + 1)`, where `y` is the height of the direction brought to unit
/// length.
pub open spec fn sky(dir: V3) -> V3 {
    let unit = dir.shrunk(dir.magnitude());
    let a = fx_mul(500_000, fx_add(unit.y, SCALE as int));
    white().scaled(fx_sub(SCALE as int, a)).plus(sky_blue().scaled(a))
}

/// Where a path stands after a bounce.
pub enum PathStep {
    /// The path has ended with this colour.
    Done(V3),
    /// The path goes on along `ray`; `attenuation` is the product of the
    /// attenuations of the surfaces it has left so far.
    Running { ray: RayView, attenuation: V3 },
}

/// One bounce of a path that arrives along `ray` with `attenuation`, where
/// `unit` is the random direction handed to the surface that is hit. A ray
/// that hits nothing ends the path with the sky's colour, a surface that does
/// not scatter ends it with what the surface emits, each multiplied by the
/// attenuation so far; a surface that scatters sends the path on.
pub open spec fn step(scene: SceneView, ray: RayView, attenuation: V3, unit: V3) -> PathStep {
    let found = scene.hit(ray, search_interval(), blank_hit());
    if found.t < LIMIT {
        match found.material.scatter(ray, found, unit) {
            Some(s) => PathStep::Running {
                ray: s.ray,
                attenuation: attenuation.times(s.attenuation),
            },
            None => PathStep::Done(found.material.emission().times(attenuation)),
        }
    } else {
        PathStep::Done(attenuation.times(sky(ray.dir)))
    }
}

/// The random direction for bounce `i`: `units[i]`, and the zero vector where
/// the sequence is too short.
pub open spec fn unit_at(units: Seq<V3>, i: int) -> V3 {
    if 0 <= i < units.len() {
        units[i]
    } else {
        V3::zero()
    }
}

/// Where the path that starts along `ray` stands after `k` bounces.
pub open spec fn path(scene: SceneView, ray: RayView, units: Seq<V3>, k: nat) -> PathStep
    decreases k,
{
    if k == 0 {
        PathStep::Running { ray, attenuation: white() }
    } else {
        match path(scene, ray, units, (k - 1) as nat) {
            PathStep::Done(color) => PathStep::Done(color),
            PathStep::Running { ray: r, attenuation } => step(
                scene,
                r,
                attenuation,
                unit_at(units, k - 1),
            ),
        }
    }
}

/// The colour that the path along `ray` brings back within `depth` bounces:
/// the colour it ended with, and black where it is still running when the
/// bounces are used up.
pub open spec fn path_color(scene: SceneView, ray: RayView, units: Seq<V3>, depth: int) -> V3 {
    if depth <= 0 {
        V3::zero()
    } else {
        match path(scene, ray, units, depth as nat) {
            PathStep::Done(color) => color,
            PathStep::Running { .. } => V3::zero(),
        }
    }
}

/// A path that has ended stays as it ended.
pub proof fn lemma_path_done_stays(
    scene: SceneView,
    ray: RayView,
    units: Seq<V3>,
    k: nat,
    later: nat,
)
    requires
        k <= later,
        path(scene, ray, units, k) is Done,
    ensures
        path(scene, ray, units, later) == path(scene, ray, units, k),
    decreases later,
{
    if k < later {
        lemma_path_done_stays(scene, ray, units, k, (later - 1) as nat);
    }
}

/// The first `k` bounces of a path depend on the first `k` random directions
/// only.
pub proof fn lemma_path_prefix(
    scene: SceneView,
    ray: RayView,
    units: Seq<V3>,
    others: Seq<V3>,
    k: nat,
)
    requires
        forall|i: int| 0 <= i < k ==> unit_at(units, i) == unit_at(others, i),
    ensures
        path(scene, ray, units, k) == path(scene, ray, others, k),
    decreases k,
{
    if k > 0 {
        lemma_path_prefix(scene, ray, units, others, (k - 1) as nat);
    }
}

/// What the path hits at its bounce number `i`, counted from zero: the record
/// of the scene for the ray the path runs along after `i` bounces.
pub open spec fn surface(scene: SceneView, ray: RayView, units: Seq<V3>, i: nat) -> HitView {
    match path(scene, ray, units, i) {
        PathStep::Running { ray: r, .. } => scene.hit(r, search_interval(), blank_hit()),
        PathStep::Done(_) => blank_hit(),
    }
}

/// The product of the first `k` of the given attenuations, channel by channel
/// and starting from white.
pub open spec fn attenuation_product(albedos: Seq<V3>, k: nat) -> V3
    decreases k,
{
    if k == 0 {
        white()
    } else {
        attenuation_product(albedos, (k - 1) as nat).times(albedos[k - 1])
    }
}

/// Whether a material neither emits nor scatters.
pub open spec fn absorbing(material: MaterialView) -> bool {
    material.kind == MaterialType::Emissive && material.albedo == V3::zero()
}

/// Every bounce off a scattering surface multiplies the attenuation by the
/// surface's albedo: a path whose first `k` bounces hit scattering surfaces
/// with the given albedos is still running after them, with the product of
/// those albedos as its attenuation.
pub proof fn lemma_scattering_multiplies(
    scene: SceneView,
    ray: RayView,
    units: Seq<V3>,
    albedos: Seq<V3>,
    k: nat,
)
    requires
        albedos.len() >= k,
        forall|i: nat|
            i < k ==> {
                &&& (#[trigger] surface(scene, ray, units, i)).t < LIMIT
                &&& surface(scene, ray, units, i).material.scatters()
                &&& surface(scene, ray, units, i).material.albedo == albedos[i as int]
            },
    ensures
        path(scene, ray, units, k) is Running,
        path(scene, ray, units, k)->attenuation == attenuation_product(albedos, k),
    decreases k,
{
    if k > 0 {
        let i = (k - 1) as nat;
        lemma_scattering_multiplies(scene, ray, units, albedos, i);
        assert(surface(scene, ray, units, i).t < LIMIT);
    }
}

/// Light reached after `k` bounces comes back as the light's emission times
/// the product of the attenuations on the way: a path whose first `k` bounces
/// hit scattering surfaces with the given albedos and whose next bounce hits
/// an emissive surface brings back, within any depth above `k`, that surface's
/// emission multiplied by the product of those albedos.
pub proof fn lemma_emissive_ends_path(
    scene: SceneView,
    ray: RayView,
    units: Seq<V3>,
    albedos: Seq<V3>,
    emission: V3,
    k: nat,
    depth: int,
)
    requires
        k < depth,
        albedos.len() >= k,
        forall|i: nat|
            i < k ==> {
                &&& (#[trigger] surface(scene, ray, units, i)).t < LIMIT
                &&& surface(scene, ray, units, i).material.scatters()
                &&& surface(scene, ray, units, i).material.albedo == albedos[i as int]
            },
        surface(scene, ray, units, k).t < LIMIT,
        surface(scene, ray, units, k).material == (MaterialView {
            kind: MaterialType::Emissive,
            albedo: emission,
        }),
    ensures
        path_color(scene, ray, units, depth) == emission.times(attenuation_product(albedos, k)),
{
    lemma_scattering_multiplies(scene, ray, units, albedos, k);
    assert(path(scene, ray, units, k + 1) == PathStep::Done(
        emission.times(attenuation_product(albedos, k)),
    ));
    lemma_path_done_stays(scene, ray, units, k + 1, depth as nat);
}

/// No light comes out of a scene that only absorbs: where no mesh emits or
/// scatters, a ray that hits the scene brings back black, whatever the depth
/// and the random directions.
pub proof fn lemma_absorbing_scene_is_black(
    scene: SceneView,
    ray: RayView,
    units: Seq<V3>,
    depth: int,
)
    requires
        forall|i: int|
            0 <= i < scene.meshes.len() ==> absorbing(#[trigger] scene.meshes[i].material),
        scene.hits(ray, search_interval(), blank_hit()),
    ensures
        path_color(scene, ray, units, depth) == V3::zero(),
{
    if depth > 0 {
        scene.lemma_hit_is_closest(ray, search_interval(), blank_hit());
        let found = scene.hit(ray, search_interval(), blank_hit());
        let i = choose|i: int|
            0 <= i < scene.meshes.len() && scene.boxes[i].intersects(ray) && found
                == #[trigger] scene.meshes[i].closest(ray, search_interval());
        scene.meshes[i].lemma_closest_material(ray, search_interval());
        assert(absorbing(scene.meshes[i].material));
        white().lemma_times_zero();
        assert(path(scene, ray, units, 0) == PathStep::Running { ray, attenuation: white() });
        assert(path(scene, ray, units, 1) == PathStep::Done(V3::zero()));
        lemma_path_done_stays(scene, ray, units, 1, depth as nat);
    }
}

/// What one bounce made of a path.
pub enum Bounce {
    /// The path has ended with this colour.
    Done(Vec3),
    /// The path goes on along `ray` with the given attenuation.
    Running { ray: Ray, attenuation: Vec3 },
}

impl View for Bounce {
    type V = PathStep;

    open spec fn view(&self) -> PathStep {
        match self {
            Bounce::Done(color) => PathStep::Done(color@),
            Bounce::Running { ray, attenuation } => PathStep::Running {
                ray: ray@,
                attenuation: attenuation@,
            },
        }
    }
}

/// The colour of the sky in direction `dir`.
pub fn sky_color(dir: Vec3) -> (r: Vec3)
    ensures
        r@ == sky(dir@),
{
    let dir_u = dir.shrunk(dir.magnitude());
    let a = Fixed::from_raw(500_000) * (dir_u.y + Fixed::one());
    let white = Vec3::new(Fixed::one(), Fixed::one(), Fixed::one());
    let blue = Vec3::new(Fixed::from_raw(500_000), Fixed::from_raw(700_000), Fixed::one());
    white.scaled(Fixed::one() - a).plus(blue.scaled(a))
}

/// Follows the path that arrives along `ray` with `total_attenuation` through
/// one bounce, where `unit` is the random direction for a diffuse surface.
pub fn bounce(scene: &Scene, ray: Ray, total_attenuation: Vec3, unit: Vec3) -> (r: Bounce)
    requires
        scene.wf(),
    ensures
        r@ == step(scene@, ray@, total_attenuation@, unit@),
{
    let hit_interval = Interval::new(Fixed::from_raw(SHADOW_BIAS), Fixed::infinity());
    let mut hit_info = HitInfo::default();
    if scene.hit(ray, hit_interval, &mut hit_info) {
        let material = hit_info.material;
        let mut attenuation = Vec3::default();
        let mut scattered_ray = ray;
        let emitted = material.emission();
        if material.scatter_with(ray, &hit_info, unit, &mut attenuation, &mut scattered_ray) {
            Bounce::Running {
                ray: scattered_ray,
                attenuation: total_attenuation.times(attenuation),
            }
        } else {
            Bounce::Done(emitted.times(total_attenuation))
        }
    } else {
        Bounce::Done(total_attenuation.times(sky_color(ray.dir())))
    }
}

/// The views of a list of vectors.
pub open spec fn views(units: Seq<Vec3>) -> Seq<V3> {
    units.map_values(|v: Vec3| v@)
}

/// The colour that the path along `ray` brings back within `rec_depth`
/// bounces, where bounce `i` is handed `units[i]` as its random direction,
/// and the zero vector where the list is too short.
pub fn trace_path(ray: Ray, scene: &Scene, rec_depth: i16, units: &Vec<Vec3>) -> (r: Vec3)
    requires
        scene.wf(),
    ensures
        r@ == path_color(scene@, ray@, views(units@), rec_depth as int),
{
    let mut scattered_ray = ray;
    let mut total_attenuation = Vec3::new(Fixed::one(), Fixed::one(), Fixed::one());

    let mut i: i16 = 0;
    while i < rec_depth
        invariant
            scene.wf(),
            0 <= i,
            i <= rec_depth || rec_depth < 0,
            path(scene@, ray@, views(units@), i as nat) == (PathStep::Running {
                ray: scattered_ray@,
                attenuation: total_attenuation@,
            }),
        decreases rec_depth - i,
    {
        let unit = if (i as usize) < units.len() {
            units[i as usize]
        } else {
            Vec3::default()
        };
        assert(unit@ == unit_at(views(units@), i as int));
        match bounce(scene, scattered_ray, total_attenuation, unit) {
            Bounce::Done(color) => {
                proof {
                    lemma_path_done_stays(
                        scene@,
                        ray@,
                        views(units@),
                        (i + 1) as nat,
                        rec_depth as nat,
                    );
                }
                return color;
            },
            Bounce::Running { ray: next, attenuation } => {
                scattered_ray = next;
                total_attenuation = attenuation;
            },
        }
        i += 1;
    }

    Vec3::new(Fixed::zero(), Fixed::zero(), Fixed::zero())
}

/// Whether every vector of the list is what [`Vec3::random_unit`] can
/// return.
pub open spec fn all_unit_draws(units: Seq<V3>) -> bool {
    forall|i: int| 0 <= i < units.len() ==> (#[trigger] units[i]).is_unit_draw()
}

/// The colour that the path along `ray` brings back within `rec_depth`
/// bounces, with a fresh random direction drawn for every bounce.
pub fn ray_color(ray: Ray, scene: &Scene, rec_depth: i16) -> (r: Vec3)
    requires
        scene.wf(),
    ensures
        exists|units: Seq<V3>|
            all_unit_draws(units) && r@ == #[trigger] path_color(
                scene@,
                ray@,
                units,
                rec_depth as int,
            ),
{
    let mut scattered_ray = ray;
    let mut total_attenuation = Vec3::new(Fixed::one(), Fixed::one(), Fixed::one());
    let ghost mut units: Seq<V3> = Seq::empty();

    let mut i: i16 = 0;
    while i < rec_depth
        invariant
            scene.wf(),
            0 <= i,
            i <= rec_depth || rec_depth < 0,
            units.len() == i,
            all_unit_draws(units),
            path(scene@, ray@, units, i as nat) == (PathStep::Running {
                ray: scattered_ray@,
                attenuation: total_attenuation@,
            }),
        decreases rec_depth - i,
    {
        let unit = Vec3::random_unit();
        let ghost drawn = units.push(unit@);
        proof {
            lemma_path_prefix(scene@, ray@, units, drawn, i as nat);
            units = drawn;
        }
        match bounce(scene, scattered_ray, total_attenuation, unit) {
            Bounce::Done(color) => {
                proof {
                    lemma_path_done_stays(scene@, ray@, units, (i + 1) as nat, rec_depth as nat);
                    assert(color@ == path_color(scene@, ray@, units, rec_depth as int));
                }
                return color;
            },
            Bounce::Running { ray: next, attenuation } => {
                scattered_ray = next;
                total_attenuation = attenuation;
            },
        }
        i += 1;
    }
    let black = Vec3::new(Fixed::zero(), Fixed::zero(), Fixed::zero());
    assert(black@ == path_color(scene@, ray@, units, rec_depth as int));
    black
}

/// The whole number `n` in raw units, clamped to the limit.
pub open spec fn whole(n: int) -> int {
    saturate(n * SCALE)
}

/// One sample of a pixel: where in the pixel's footprint the ray was aimed, as
/// fractions of the distance to the next pixel, and the random directions
/// that its bounces were handed.
pub struct Shot {
    pub x_offset: int,
    pub y_offset: int,
    pub units: Seq<V3>,
}

impl Shot {
    /// Whether the shot is one that rendering can draw: both offsets lie in
    /// `[-0.5, 0.5)`, and every random direction is what
    /// [`Vec3::random_unit`] can return.
    pub open spec fn is_draw(self) -> bool {
        &&& -500_000 <= self.x_offset < 500_000
        &&& -500_000 <= self.y_offset < 500_000
        &&& all_unit_draws(self.units)
    }
}

/// One sample of a pixel as [`RayTracer::render_pixel_with`] takes it: the two
/// offsets within the pixel's footprint and the random directions for the
/// bounces.
pub struct Sample {
    pub x_offset: Fixed,
    pub y_offset: Fixed,
    pub units: Vec<Vec3>,
}

impl View for Sample {
    type V = Shot;

    open spec fn view(&self) -> Shot {
        Shot { x_offset: self.x_offset@, y_offset: self.y_offset@, units: views(self.units@) }
    }
}

/// The views of a list of samples.
pub open spec fn shots(samples: Seq<Sample>) -> Seq<Shot> {
    samples.map_values(|s: Sample| s@)
}

/// The view of a [`RayTracer`].
pub struct RayTracerView {
    pub viewport_height: int,
    pub viewport_width: int,
    pub focal_len: int,
    pub camera_pos: V3,
}

impl RayTracerView {
    /// The step from one pixel to the next in a row, on a canvas `width`
    /// pixels wide.
    pub open spec fn x_delta(self, width: int) -> V3 {
        (V3 { x: self.viewport_width, y: 0, z: 0 }).shrunk(whole(width))
    }

    /// The step from one row to the next, on a canvas `height` rows high. It
    /// points down.
    pub open spec fn y_delta(self, height: int) -> V3 {
        (V3 { x: 0, y: fx_neg(self.viewport_height), z: 0 }).shrunk(whole(height))
    }

    /// The direction from the camera to the middle of the top left pixel.
    pub open spec fn top_left(self, width: int, height: int) -> V3 {
        self.camera_pos.minus(V3 { x: 0, y: 0, z: self.focal_len }).minus(
            (V3 { x: self.viewport_width, y: 0, z: 0 }).shrunk(2 * SCALE),
        ).minus((V3 { x: 0, y: fx_neg(self.viewport_height), z: 0 }).shrunk(2 * SCALE)).plus(
            self.x_delta(width).shrunk(2 * SCALE),
        ).plus(self.y_delta(height).shrunk(2 * SCALE))
    }

    /// The direction from the camera to the middle of the pixel in column `x`
    /// of row `y`.
    pub open spec fn pixel_dir(self, width: int, height: int, x: int, y: int) -> V3 {
        self.top_left(width, height).plus(self.x_delta(width).scaled(whole(x))).plus(
            self.y_delta(height).scaled(whole(y)),
        )
    }

    /// The ray from the camera through the pixel in column `x` of row `y`,
    /// moved off the pixel's middle by the two offsets, each a fraction of
    /// the distance to the next pixel.
    pub open spec fn camera_ray(
        self,
        width: int,
        height: int,
        x: int,
        y: int,
        x_offset: int,
        y_offset: int,
    ) -> RayView {
        let base = self.pixel_dir(width, height, x, y);
        RayView {
            origin: self.camera_pos,
            dir: V3 {
                x: fx_add(base.x, fx_mul(self.x_delta(width).x, x_offset)),
                y: fx_add(base.y, fx_mul(self.y_delta(height).y, y_offset)),
                z: base.z,
            },
        }
    }

    /// The sum of the colours that the first `k` shots at a pixel bring back.
    pub open spec fn gathered(
        self,
        scene: SceneView,
        width: int,
        height: int,
        x: int,
        y: int,
        shots: Seq<Shot>,
        depth: int,
        k: nat,
    ) -> V3
        decreases k,
    {
        if k == 0 {
            V3::zero()
        } else {
            self.gathered(scene, width, height, x, y, shots, depth, (k - 1) as nat).plus(
                path_color(
                    scene,
                    self.camera_ray(
                        width,
                        height,
                        x,
                        y,
                        shots[k - 1].x_offset,
                        shots[k - 1].y_offset,
                    ),
                    shots[k - 1].units,
                    depth,
                ),
            )
        }
    }

    /// The linear colour of a pixel: the sum of what its shots bring back,
    /// divided by the number of samples asked for.
    pub open spec fn pixel_color(
        self,
        scene: SceneView,
        width: int,
        height: int,
        x: int,
        y: int,
        shots: Seq<Shot>,
        samples: int,
        depth: int,
    ) -> V3 {
        self.gathered(scene, width, height, x, y, shots, depth, shots.len()).shrunk(
            whole(samples),
        )
    }

    /// Whether `pixel` is what some `samples` shots that rendering can draw
    /// render the pixel in column `x` of row `y` as.
    #[verifier::opaque]
    pub open spec fn rendered(
        self,
        pixel: Pixel,
        scene: SceneView,
        width: int,
        height: int,
        x: int,
        y: int,
        samples: int,
        depth: int,
    ) -> bool {
        exists|shots: Seq<Shot>|
            {
                &&& shots.len() == if samples > 0 {
                    samples
                } else {
                    0
                }
                &&& forall|k: int| 0 <= k < shots.len() ==> (#[trigger] shots[k]).is_draw()
                &&& pixel == pixel_of(
                    #[trigger] self.pixel_color(scene, width, height, x, y, shots, samples, depth),
                )
            }
    }

    /// Without bounces nothing is gathered: where the depth is zero or less,
    /// the shots at a pixel bring back black.
    pub proof fn lemma_gathered_black(
        self,
        scene: SceneView,
        width: int,
        height: int,
        x: int,
        y: int,
        shots: Seq<Shot>,
        depth: int,
        k: nat,
    )
        requires
            depth <= 0,
        ensures
            self.gathered(scene, width, height, x, y, shots, depth, k) == V3::zero(),
        decreases k,
    {
        if k > 0 {
            self.lemma_gathered_black(scene, width, height, x, y, shots, depth, (k - 1) as nat);
        }
    }

    /// A pixel rendered without samples or without bounces is black.
    pub proof fn lemma_rendered_black(
        self,
        pixel: Pixel,
        scene: SceneView,
        width: int,
        height: int,
        x: int,
        y: int,
        samples: int,
        depth: int,
    )
        requires
            samples <= 0 || depth <= 0,
            self.rendered(pixel, scene, width, height, x, y, samples, depth),
        ensures
            pixel == (Pixel { r: 0, g: 0, b: 0 }),
    {
        reveal(RayTracerView::rendered);
        let shots = choose|shots: Seq<Shot>|
            {
                &&& shots.len() == if samples > 0 {
                    samples
                } else {
                    0
                }
                &&& forall|k: int| 0 <= k < shots.len() ==> (#[trigger] shots[k]).is_draw()
                &&& pixel == pixel_of(
                    #[trigger] self.pixel_color(scene, width, height, x, y, shots, samples, depth),
                )
            };
        if depth <= 0 {
            self.lemma_gathered_black(scene, width, height, x, y, shots, depth, shots.len());
        }
        let sum = self.gathered(scene, width, height, x, y, shots, depth, shots.len());
        assert(sum == V3::zero());
        assert(sum.shrunk(whole(samples)) == V3::zero());
        lemma_floor_sqrt_is(0, 0);
        lemma_mul_sign(256 * SCALE, 0);
    }

    /// What the first `k` shots bring back does not depend on later shots.
    pub proof fn lemma_gathered_prefix(
        self,
        scene: SceneView,
        width: int,
        height: int,
        x: int,
        y: int,
        shots: Seq<Shot>,
        shot: Shot,
        depth: int,
        k: nat,
    )
        requires
            k <= shots.len(),
        ensures
            self.gathered(scene, width, height, x, y, shots.push(shot), depth, k) == self.gathered(
                scene,
                width,
                height,
                x,
                y,
                shots,
                depth,
                k,
            ),
        decreases k,
    {
        if k > 0 {
            self.lemma_gathered_prefix(
                scene,
                width,
                height,
                x,
                y,
                shots,
                shot,
                depth,
                (k - 1) as nat,
            );
        }
    }
}

/// A pinhole camera at the world's origin that looks down the negative `z`
/// axis at a viewport one focal length away.
pub struct RayTracer {
    viewport_height: Fixed,
    viewport_width: Fixed,
    focal_len: Fixed,
    camera_pos: Point3,
}

impl View for RayTracer {
    type V = RayTracerView;

    closed spec fn view(&self) -> RayTracerView {
        RayTracerView {
            viewport_height: self.viewport_height@,
            viewport_width: self.viewport_width@,
            focal_len: self.focal_len@,
            camera_pos: self.camera_pos@,
        }
    }
}

impl RayTracer {
    /// The camera for `canvas`: the viewport is `viewport_height` high and as
    /// wide as the canvas's proportions ask for.
    pub fn new<C: Canvas>(
        canvas: &C,
        viewport_height: Fixed,
        focal_length: Fixed,
    ) -> (r: RayTracer)
        ensures
            r@ == (RayTracerView {
                viewport_height: viewport_height@,
                viewport_width: fx_mul(
                    viewport_height@,
                    fx_div(whole(canvas.spec_width()), whole(canvas.spec_height())),
                ),
                focal_len: focal_length@,
                camera_pos: V3::zero(),
            }),
    {
        let viewport_width = viewport_height * (Fixed::from_int(canvas.width() as i64)
            / Fixed::from_int(canvas.height() as i64));

        RayTracer {
            viewport_height: viewport_height,
            viewport_width: viewport_width,
            focal_len: focal_length,
            camera_pos: Vec3::new(Fixed::zero(), Fixed::zero(), Fixed::zero()),
        }
    }

    fn x_delta(&self, width: u32) -> (r: Vec3)
        ensures
            r@ == self@.x_delta(width as int),
    {
        let x_viewport = Vec3::new(self.viewport_width, Fixed::zero(), Fixed::zero());
        x_viewport.shrunk(Fixed::from_int(width as i64))
    }

    fn y_delta(&self, height: u32) -> (r: Vec3)
        ensures
            r@ == self@.y_delta(height as int),
    {
        let y_viewport = Vec3::new(Fixed::zero(), self.viewport_height.neg(), Fixed::zero());
        y_viewport.shrunk(Fixed::from_int(height as i64))
    }

    fn top_left(&self, width: u32, height: u32) -> (r: Vec3)
        ensures
            r@ == self@.top_left(width as int, height as int),
    {
        let x_viewport = Vec3::new(self.viewport_width, Fixed::zero(), Fixed::zero());
        let y_viewport = Vec3::new(Fixed::zero(), self.viewport_height.neg(), Fixed::zero());
        let two = Fixed::from_int(2);
        self.camera_pos.minus(Vec3::new(Fixed::zero(), Fixed::zero(), self.focal_len)).minus(
            x_viewport.shrunk(two),
        ).minus(y_viewport.shrunk(two)).plus(self.x_delta(width).shrunk(two)).plus(
            self.y_delta(height).shrunk(two),
        )
    }

    /// The ray from the camera through the pixel in column `x` of row `y` of a
    /// canvas of the given size, moved off the pixel's middle by the two
    /// offsets.
    pub fn camera_ray(
        &self,
        width: u32,
        height: u32,
        x: u32,
        y: u32,
        x_offset: Fixed,
        y_offset: Fixed,
    ) -> (r: Ray)
        ensures
            r@ == self@.camera_ray(
                width as int,
                height as int,
                x as int,
                y as int,
                x_offset@,
                y_offset@,
            ),
    {
        let x_delta = self.x_delta(width);
        let y_delta = self.y_delta(height);
        let base_dir = self.top_left(width, height).plus(
            x_delta.scaled(Fixed::from_int(x as i64)),
        ).plus(y_delta.scaled(Fixed::from_int(y as i64)));
        let dir = Vec3::new(
            base_dir.x + x_delta.x * x_offset,
            base_dir.y + y_delta.y * y_offset,
            base_dir.z,
        );
        Ray::new(self.camera_pos, dir)
    }

    /// The pixel in column `x` of row `y` of a canvas of the given size, from
    /// the given shots: the tone-mapped sum of what they bring back from
    /// `scene`, divided by `samples`.
    pub fn render_pixel_with(
        &self,
        scene: &Scene,
        width: u32,
        height: u32,
        x: u32,
        y: u32,
        taken: &Vec<Sample>,
        samples: i32,
        max_bounces: i16,
    ) -> (pixel: Pixel)
        requires
            scene.wf(),
        ensures
            pixel == pixel_of(
                self@.pixel_color(
                    scene@,
                    width as int,
                    height as int,
                    x as int,
                    y as int,
                    shots(taken@),
                    samples as int,
                    max_bounces as int,
                ),
            ),
    {
        let mut color = Vec3::new(Fixed::zero(), Fixed::zero(), Fixed::zero());
        let mut i: usize = 0;
        while i < taken.len()
            invariant
                scene.wf(),
                i <= taken@.len(),
                color@ == self@.gathered(
                    scene@,
                    width as int,
                    height as int,
                    x as int,
                    y as int,
                    shots(taken@),
                    max_bounces as int,
                    i as nat,
                ),
            decreases taken@.len() - i,
        {
            let shot = &taken[i];
            let ray = self.camera_ray(width, height, x, y, shot.x_offset, shot.y_offset);
            assert(shots(taken@)[i as int] == shot@);
            color = color.plus(trace_path(ray, scene, max_bounces, &shot.units));
            i += 1;
        }
        color = color.shrunk(Fixed::from_int(samples as i64));
        to_pixel(color)
    }

    /// The pixel in column `x` of row `y` of a canvas of the given size: the
    /// tone-mapped mean of what `samples` shots within the pixel's footprint
    /// bring back from `scene`.
    pub fn render_pixel(
        &self,
        scene: &Scene,
        width: u32,
        height: u32,
        x: u32,
        y: u32,
        samples: i32,
        max_bounces: i16,
    ) -> (pixel: Pixel)
        requires
            scene.wf(),
        ensures
            self@.rendered(
                pixel,
                scene@,
                width as int,
                height as int,
                x as int,
                y as int,
                samples as int,
                max_bounces as int,
            ),
    {
        let x_delta = self.x_delta(width);
        let y_delta = self.y_delta(height);
        let low = Fixed::from_raw(-500_000);
        let high = Fixed::from_raw(500_000);
        let base_dir = self.top_left(width, height).plus(
            x_delta.scaled(Fixed::from_int(x as i64)),
        ).plus(y_delta.scaled(Fixed::from_int(y as i64)));

        let mut color = Vec3::new(Fixed::zero(), Fixed::zero(), Fixed::zero());
        let ghost mut shots: Seq<Shot> = Seq::empty();
        let mut s: i32 = 0;
        while s < samples
            invariant
                scene.wf(),
                0 <= s,
                s <= samples || s == 0,
                shots.len() == s,
                low@ == -500_000,
                high@ == 500_000,
                x_delta@ == self@.x_delta(width as int),
                y_delta@ == self@.y_delta(height as int),
                base_dir@ == self@.pixel_dir(width as int, height as int, x as int, y as int),
                forall|k: int| 0 <= k < shots.len() ==> (#[trigger] shots[k]).is_draw(),
                color@ == self@.gathered(
                    scene@,
                    width as int,
                    height as int,
                    x as int,
                    y as int,
                    shots,
                    max_bounces as int,
                    s as nat,
                ),
            decreases samples - s,
        {
            let x_offset = Fixed::random_range(low, high);
            let y_offset = Fixed::random_range(low, high);

            let dir = Vec3::new(
                base_dir.x + x_delta.x * x_offset,
                base_dir.y + y_delta.y * y_offset,
                base_dir.z,
            );

            let ray = Ray::new(self.camera_pos, dir);
            let shot_color = ray_color(ray, scene, max_bounces);
            proof {
                let units = choose|units: Seq<V3>|
                    all_unit_draws(units) && shot_color@ == #[trigger] path_color(
                        scene@,
                        ray@,
                        units,
                        max_bounces as int,
                    );
                let shot = Shot { x_offset: x_offset@, y_offset: y_offset@, units };
                self@.lemma_gathered_prefix(
                    scene@,
                    width as int,
                    height as int,
                    x as int,
                    y as int,
                    shots,
                    shot,
                    max_bounces as int,
                    s as nat,
                );
                shots = shots.push(shot);
            }
            color = color.plus(shot_color);
            s += 1;
        }

        color = color.shrunk(Fixed::from_int(samples as i64));
        let pixel = to_pixel(color);
        proof {
            reveal(RayTracerView::rendered);
            assert(pixel == pixel_of(
                self@.pixel_color(
                    scene@,
                    width as int,
                    height as int,
                    x as int,
                    y as int,
                    shots,
                    samples as int,
                    max_bounces as int,
                ),
            ));
        }
        pixel
    }

    /// Renders `scene` onto `canvas`. Every pixel is shot at `samples` times,
    /// each time somewhere within its footprint, each shot is followed
    /// through at most `max_bounces` bounces, and the pixel is set to the tone
    /// mapped mean of what the shots bring back.
    pub fn draw<C: Canvas>(&self, canvas: &mut C, scene: &Scene, samples: i32, max_bounces: i16)
        requires
            old(canvas).wf(),
            scene.wf(),
        ensures
            final(canvas).wf(),
            final(canvas).spec_width() == old(canvas).spec_width(),
            final(canvas).spec_height() == old(canvas).spec_height(),
            forall|i: int, j: int|
                0 <= i < old(canvas).spec_width() && 0 <= j < old(canvas).spec_height()
                    ==> self@.rendered(
                    #[trigger] final(canvas).pixel_at(i, j),
                    scene@,
                    old(canvas).spec_width(),
                    old(canvas).spec_height(),
                    i,
                    j,
                    samples as int,
                    max_bounces as int,
                ),
    {
        let width = canvas.width();
        let height = canvas.height();
        let mut y: u32 = 0;
        while y < height
            invariant
                canvas.wf(),
                scene.wf(),
                canvas.spec_width() == width,
                canvas.spec_height() == height,
                y <= height,
                forall|i: int, j: int|
                    0 <= i < width && 0 <= j < y ==> self@.rendered(
                        #[trigger] canvas.pixel_at(i, j),
                        scene@,
                        width as int,
                        height as int,
                        i,
                        j,
                        samples as int,
                        max_bounces as int,
                    ),
            decreases height - y,
        {
            let mut x: u32 = 0;
            while x < width
                invariant
                    canvas.wf(),
                    scene.wf(),
                    canvas.spec_width() == width,
                    canvas.spec_height() == height,
                    y < height,
                    x <= width,
                    forall|i: int, j: int|
                        0 <= i < width && (0 <= j < y || (j == y && i < x)) ==> self@.rendered(
                            #[trigger] canvas.pixel_at(i, j),
                            scene@,
                            width as int,
                            height as int,
                            i,
                            j,
                            samples as int,
                            max_bounces as int,
                        ),
                decreases width - x,
            {
                let pixel = self.render_pixel(
                    scene,
                    width,
                    height,
                    x,
                    y,
                    samples,
                    max_bounces,
                );
                canvas.set_pixel(x, y, pixel);
                x += 1;
            }
            y += 1;
        }
    }
}

} // verus!
