//! Triangle meshes, the scene that holds them, and the ray-triangle test.

use crate::bbox::{within_faces, Bbox, BboxView};
use crate::fixed::{
    finite, fx_add, fx_div, fx_max, fx_min, fx_mul_div, fx_sub, lemma_mul_div_signs,
    lemma_mul_div_within_one, Fixed, LIMIT,
};
use crate::hittable::{HitInfo, HitView, Hittable};
use crate::material::{Material, MaterialView};
use crate::ray::{Interval, IntervalView, Point3, Ray, RayView};
use crate::vec3::{Vec3, V3};
use crate::wide::{
    exact_cross, exact_cross_of, exact_dot, exact_dot_of, lemma_unit_of, sized, sized_of, unit_of,
    unit_of_wide,
};
use vstd::prelude::*;

verus! {

/// By how much a mesh's bounding box is widened on every side, in raw units:
/// `0.0001`.
pub const BBOX_PAD: i64 = 100;

/// By how much the point of a hit may lie outside the extent of its
/// triangle along an axis, in raw units: half of [`BBOX_PAD`]. A point that
/// the arithmetic puts farther out is no point of the triangle.
pub const HIT_SLACK: i64 = 50;

/// A triangle with the normal that was stored for it.
pub struct Triangle {
    pub a: V3,
    pub b: V3,
    pub c: V3,
    pub normal: V3,
}

/// The exact cross product `(b - a) x (c - a)` of the triangle `a`, `b`, `c`,
/// in squared raw units. It is zero where the three corners lie on a line.
pub open spec fn edge_cross(a: V3, b: V3, c: V3) -> V3 {
    exact_cross(b.minus(a), c.minus(a))
}

/// The unit normal of the triangle `a`, `b`, `c` by the right-hand rule:
/// the exact cross product `(b - a) x (c - a)` brought to unit length. Three
/// corners on a line have the zero vector for their normal, and so are never
/// hit.
pub open spec fn unit_normal(a: V3, b: V3, c: V3) -> V3 {
    unit_of(edge_cross(a, b, c))
}

/// The normal of a triangle whose corners do not lie on a line has unit
/// length, however small the triangle.
pub proof fn lemma_unit_normal(a: V3, b: V3, c: V3)
    requires
        edge_cross(a, b, c) != V3::zero(),
    ensures
        unit_normal(a, b, c).has_unit_length(),
        unit_normal(a, b, c).bounded(),
{
    lemma_unit_of(edge_cross(a, b, c));
}

impl Triangle {
    /// `normal . dir`: negative where the ray runs against the normal, zero
    /// where it runs parallel to the triangle's plane.
    pub open spec fn facing(self, ray: RayView) -> int {
        self.normal.dot(ray.dir)
    }

    /// How far the plane lies from the ray's origin along the normal:
    /// `normal . a - normal . origin`.
    pub open spec fn rise(self, ray: RayView) -> int {
        fx_sub(self.normal.dot(self.a), self.normal.dot(ray.origin))
    }

    /// The parameter at which the ray crosses the triangle's plane:
    /// `(normal . a - normal . origin) / (normal . dir)`.
    pub open spec fn param(self, ray: RayView) -> int {
        fx_div(self.rise(ray), self.facing(ray))
    }

    /// The step from the ray's origin to the plane: the direction multiplied
    /// by the parameter as the exact fraction `rise / facing`, so that the
    /// rounding of the parameter does not move the point.
    pub open spec fn step(self, ray: RayView) -> V3 {
        V3 {
            x: fx_mul_div(ray.dir.x, self.rise(ray), self.facing(ray)),
            y: fx_mul_div(ray.dir.y, self.rise(ray), self.facing(ray)),
            z: fx_mul_div(ray.dir.z, self.rise(ray), self.facing(ray)),
        }
    }

    /// The point at which the ray meets the triangle's plane.
    pub open spec fn point(self, ray: RayView) -> V3 {
        ray.origin.plus(self.step(ray))
    }

    /// On which side of the edge from `from` to `to` the point `q` lies:
    /// `((to - from) x (q - from)) . normal`, not negative on the inner side.
    /// The cross product is formed without rounding and brought to working
    /// size before the dot product, which is not rounded either, so that the
    /// sign is right for small triangles too.
    pub open spec fn side(self, from: V3, to: V3, q: V3) -> int {
        exact_dot(sized(exact_cross(to.minus(from), q.minus(from))), self.normal)
    }

    /// Whether `q` lies on the inner side of all three edges.
    pub open spec fn encloses(self, q: V3) -> bool {
        &&& self.side(self.a, self.b, q) >= 0
        &&& self.side(self.b, self.c, q) >= 0
        &&& self.side(self.c, self.a, q) >= 0
    }

    /// The smallest coordinate of the three corners along `axis`.
    pub open spec fn low(self, axis: int) -> int {
        fx_min(self.a.axis(axis), fx_min(self.b.axis(axis), self.c.axis(axis)))
    }

    /// The largest coordinate of the three corners along `axis`.
    pub open spec fn high(self, axis: int) -> int {
        fx_max(self.a.axis(axis), fx_max(self.b.axis(axis), self.c.axis(axis)))
    }

    /// Whether `q` lies within the extent of the three corners along every
    /// axis, give or take [`HIT_SLACK`].
    pub open spec fn near(self, q: V3) -> bool {
        &&& self.low(0) - HIT_SLACK <= q.x <= self.high(0) + HIT_SLACK
        &&& self.low(1) - HIT_SLACK <= q.y <= self.high(1) + HIT_SLACK
        &&& self.low(2) - HIT_SLACK <= q.z <= self.high(2) + HIT_SLACK
    }

    /// Whether the ray's line crosses the triangle: it is not parallel to the
    /// plane, the point at which it meets the plane is a finite point reached
    /// by a finite step, and that point lies within the extent of the corners
    /// and on the inner side of all three edges.
    pub open spec fn crossed(self, ray: RayView) -> bool {
        &&& self.facing(ray) != 0
        &&& self.step(ray).finite()
        &&& self.point(ray).finite()
        &&& self.near(self.point(ray))
        &&& self.encloses(self.point(ray))
    }

    /// Whether the triangle takes a hit for `ray`: the ray's line crosses it
    /// at a parameter within `interval` and strictly below `best`.
    pub open spec fn accepts(self, ray: RayView, interval: IntervalView, best: int) -> bool {
        &&& self.crossed(ray)
        &&& self.param(ray) < best
        &&& interval.contains(self.param(ray))
    }

    /// The stored normal, turned so that it points against the ray.
    pub open spec fn toward(self, ray: RayView) -> V3 {
        if self.facing(ray) < 0 {
            self.normal
        } else {
            self.normal.negated()
        }
    }

    /// The record after the triangle was asked about `ray`: the triangle's
    /// own hit where it takes one, and `before` otherwise. The material is
    /// left as it was.
    pub open spec fn hit(self, ray: RayView, interval: IntervalView, before: HitView) -> HitView {
        if self.accepts(ray, interval, before.t) {
            HitView {
                t: self.param(ray),
                normal: self.toward(ray),
                point: self.point(ray),
                material: before.material,
            }
        } else {
            before
        }
    }
}

impl Triangle {
    /// The normal of a hit faces the viewer: where the triangle takes a hit,
    /// the normal in the record points against the ray.
    pub proof fn lemma_hit_faces_ray(self, ray: RayView, interval: IntervalView, before: HitView)
        requires
            self.normal.bounded(),
            self.accepts(ray, interval, before.t),
        ensures
            self.hit(ray, interval, before).normal.dot(ray.dir) < 0,
    {
        self.normal.lemma_dot_negated(ray.dir);
    }
}

/// Whether `q` lies between the smallest and the largest of `a`, `b` and `c`,
/// give or take [`HIT_SLACK`].
fn within_slack(q: Fixed, a: Fixed, b: Fixed, c: Fixed) -> (r: bool)
    ensures
        r == (fx_min(a@, fx_min(b@, c@)) - HIT_SLACK <= q@ <= fx_max(a@, fx_max(b@, c@))
            + HIT_SLACK),
{
    let low = a.min(b.min(c)).raw() as i128;
    let high = a.max(b.max(c)).raw() as i128;
    let at = q.raw() as i128;
    low - (HIT_SLACK as i128) <= at && at <= high + (HIT_SLACK as i128)
}

/// A finite point reached by a finite step lies less than one raw unit from
/// the ray: for a step along the fraction `p / q` of the direction, the ray's
/// exact coordinate at parameter `p / q` lies strictly between the point's
/// coordinate less one and plus one.
pub proof fn lemma_step_on_ray(origin: int, dir: int, p: int, q: int)
    requires
        q > 0,
        finite(fx_mul_div(dir, p, q)),
        finite(fx_add(origin, fx_mul_div(dir, p, q))),
    ensures
        (fx_add(origin, fx_mul_div(dir, p, q)) - 1) * q < origin * q + p * dir < (fx_add(
            origin,
            fx_mul_div(dir, p, q),
        ) + 1) * q,
{
    lemma_mul_div_within_one(dir, p, q);
    assert(dir * p == p * dir) by (nonlinear_arith);
    let step = fx_mul_div(dir, p, q);
    let at = fx_add(origin, step);
    assert(at == origin + step);
    assert((at - 1) * q == origin * q + (step - 1) * q) by (nonlinear_arith)
        requires
            at == origin + step,
    ;
    assert((at + 1) * q == origin * q + (step + 1) * q) by (nonlinear_arith)
        requires
            at == origin + step,
    ;
}

/// On which side of the edge from `from` to `to` the point `q` lies, seen
/// against `normal`: not negative on the inner side.
fn side_of(from: Point3, to: Point3, q: Point3, normal: Vec3) -> (r: i128)
    ensures
        r == exact_dot(sized(exact_cross(to@.minus(from@), q@.minus(from@))), normal@),
{
    let cross = exact_cross_of(to.minus(from), q.minus(from));
    let w = sized_of(cross);
    exact_dot_of(&w, normal)
}

/// Tests `ray` against the triangle `a`, `b`, `c` with the given normal. Where
/// the ray's line crosses the triangle at a parameter within `interval` and
/// strictly below the one in the record, the record takes the parameter, the
/// point and the normal turned against the ray, and the result is true. The
/// record is left alone otherwise.
pub fn triangle_hit(
    a: Point3,
    b: Point3,
    c: Point3,
    normal: Vec3,
    ray: Ray,
    interval: Interval,
    hit_info_out: &mut HitInfo,
) -> (r: bool)
    ensures
        r == (Triangle { a: a@, b: b@, c: c@, normal: normal@ }).accepts(
            ray@,
            interval@,
            old(hit_info_out)@.t,
        ),
        final(hit_info_out)@ == (Triangle { a: a@, b: b@, c: c@, normal: normal@ }).hit(
            ray@,
            interval@,
            old(hit_info_out)@,
        ),
        r ==> final(hit_info_out)@.normal.dot(ray@.dir) < 0,
        r ==> final(hit_info_out)@.t < old(hit_info_out)@.t,
        !r ==> *final(hit_info_out) == *old(hit_info_out),
{
    let d = normal.dot(ray.dir());

    if d.is_zero() {
        return false;
    }
    let rise = normal.dot(a) - normal.dot(ray.origin());
    let t = rise / d;

    if !(t < hit_info_out.t) || !interval.contains(t) {
        return false;
    }
    let dir = ray.dir();
    let step = Vec3::new(dir.x.mul_div(rise, d), dir.y.mul_div(rise, d), dir.z.mul_div(rise, d));
    let q = ray.origin().plus(step);

    if !step.is_finite() || !q.is_finite() {
        return false;
    }
    if !within_slack(q.x, a.x, b.x, c.x) || !within_slack(q.y, a.y, b.y, c.y) || !within_slack(
        q.z,
        a.z,
        b.z,
        c.z,
    ) {
        return false;
    }
    if side_of(a, b, q, normal) < 0 {
        return false;
    }
    if side_of(b, c, q, normal) < 0 {
        return false;
    }
    if side_of(c, a, q, normal) < 0 {
        return false;
    }
    if d < Fixed::zero() {
        hit_info_out.normal = normal;
    } else {
        proof {
            use_type_invariant(&normal.x);
            use_type_invariant(&normal.y);
            use_type_invariant(&normal.z);
            normal@.lemma_dot_negated(ray@.dir);
        }
        hit_info_out.normal = normal.negated();
    }

    hit_info_out.t = t;
    hit_info_out.point = q;

    true
}

/// The view of a [`TriangleMesh`]: its vertices, its triangles in the order
/// they were added, and the material that all of them share.
pub struct MeshView {
    pub vertices: Seq<V3>,
    pub triangles: Seq<Triangle>,
    pub material: MaterialView,
}

impl MeshView {
    /// The record after the first `k` triangles were asked about `ray` in
    /// turn, starting from `before`.
    pub open spec fn sweep(
        self,
        ray: RayView,
        interval: IntervalView,
        before: HitView,
        k: nat,
    ) -> HitView
        decreases k,
    {
        if k == 0 {
            before
        } else {
            self.triangles[k - 1].hit(
                ray,
                interval,
                self.sweep(ray, interval, before, (k - 1) as nat),
            )
        }
    }

    /// Whether some triangle of the mesh takes a hit closer than `before`.
    pub open spec fn hits(self, ray: RayView, interval: IntervalView, before: HitView) -> bool {
        self.sweep(ray, interval, before, self.triangles.len()).t < before.t
    }

    /// The record after the mesh was asked about `ray`: where a triangle takes
    /// a hit, the closest such hit with the mesh's material, and `before`
    /// otherwise.
    pub open spec fn hit(self, ray: RayView, interval: IntervalView, before: HitView) -> HitView {
        if self.hits(ray, interval, before) {
            HitView {
                material: self.material,
                ..self.sweep(ray, interval, before, self.triangles.len())
            }
        } else {
            before
        }
    }

    /// The smallest coordinate along `axis` among the first `k` vertices, and
    /// positive infinity for none.
    pub open spec fn lowest(self, axis: int, k: nat) -> int
        decreases k,
    {
        if k == 0 {
            LIMIT as int
        } else {
            fx_min(self.lowest(axis, (k - 1) as nat), self.vertices[k - 1].axis(axis))
        }
    }

    /// The largest coordinate along `axis` among the first `k` vertices, and
    /// negative infinity for none.
    pub open spec fn highest(self, axis: int, k: nat) -> int
        decreases k,
    {
        if k == 0 {
            -LIMIT as int
        } else {
            fx_max(self.highest(axis, (k - 1) as nat), self.vertices[k - 1].axis(axis))
        }
    }

    /// The extent of the mesh's bounding box along `axis`: from the smallest
    /// to the largest coordinate of its vertices, widened by the pad.
    pub open spec fn extent(self, axis: int) -> IntervalView {
        IntervalView {
            low: fx_sub(self.lowest(axis, self.vertices.len()), BBOX_PAD as int),
            high: fx_add(self.highest(axis, self.vertices.len()), BBOX_PAD as int),
        }
    }

    /// The mesh's bounding box.
    pub open spec fn bounding_box(self) -> BboxView {
        BboxView { x: self.extent(0), y: self.extent(1), z: self.extent(2) }
    }

    /// A sweep never raises the parameter, and leaves the whole record alone
    /// where it does not lower it.
    pub proof fn lemma_sweep_lowers(
        self,
        ray: RayView,
        interval: IntervalView,
        before: HitView,
        k: nat,
    )
        ensures
            self.sweep(ray, interval, before, k).t <= before.t,
            self.sweep(ray, interval, before, k).t == before.t ==> self.sweep(
                ray,
                interval,
                before,
                k,
            ) == before,
            self.sweep(ray, interval, before, k).material == before.material,
        decreases k,
    {
        if k > 0 {
            self.lemma_sweep_lowers(ray, interval, before, (k - 1) as nat);
        }
    }

    /// What a sweep finds does not depend on what the record held besides its
    /// parameter: two sweeps that start from the same parameter end at the
    /// same parameter, and where they lower it, at the same point and normal.
    pub proof fn lemma_sweep_ignores_rest(
        self,
        ray: RayView,
        interval: IntervalView,
        first: HitView,
        second: HitView,
        k: nat,
    )
        requires
            first.t == second.t,
        ensures
            self.sweep(ray, interval, first, k).t == self.sweep(ray, interval, second, k).t,
            self.sweep(ray, interval, first, k).t < first.t ==> self.sweep(ray, interval, first, k)
                == (HitView {
                material: first.material,
                ..self.sweep(ray, interval, second, k)
            }),
        decreases k,
    {
        if k > 0 {
            self.lemma_sweep_ignores_rest(ray, interval, first, second, (k - 1) as nat);
            self.lemma_sweep_lowers(ray, interval, first, (k - 1) as nat);
            self.lemma_sweep_lowers(ray, interval, second, (k - 1) as nat);
        }
    }

    /// A sweep that starts from a record ends with the closer of that record
    /// and what a sweep from infinity finds, and with the record where the two
    /// are equally close.
    pub proof fn lemma_sweep_selects(
        self,
        ray: RayView,
        interval: IntervalView,
        before: HitView,
        k: nat,
    )
        requires
            before.t <= LIMIT,
        ensures
            ({
                let own = self.sweep(ray, interval, HitView { t: LIMIT as int, ..before }, k);
                self.sweep(ray, interval, before, k) == if own.t < before.t {
                    own
                } else {
                    before
                }
            }),
        decreases k,
    {
        if k > 0 {
            let top = HitView { t: LIMIT as int, ..before };
            self.lemma_sweep_selects(ray, interval, before, (k - 1) as nat);
            self.lemma_sweep_lowers(ray, interval, before, (k - 1) as nat);
            self.lemma_sweep_lowers(ray, interval, top, (k - 1) as nat);
        }
    }

    /// The mesh's own closest hit: what it reports to a search that has found
    /// nothing yet.
    pub open spec fn closest(self, ray: RayView, interval: IntervalView) -> HitView {
        self.hit(ray, interval, HitView::nothing())
    }

    /// Closest hit wins: a mesh that is handed a record returns its own
    /// closest hit where that is strictly closer than the record, and the
    /// record otherwise.
    pub proof fn lemma_hit_selects(self, ray: RayView, interval: IntervalView, before: HitView)
        requires
            before.t <= LIMIT,
        ensures
            self.closest(ray, interval).t <= LIMIT,
            self.hit(ray, interval, before) == if self.closest(ray, interval).t < before.t {
                self.closest(ray, interval)
            } else {
                before
            },
    {
        let n = self.triangles.len();
        let top = HitView { t: LIMIT as int, ..before };
        self.lemma_sweep_selects(ray, interval, before, n);
        self.lemma_sweep_ignores_rest(ray, interval, top, HitView::nothing(), n);
        self.lemma_sweep_ignores_rest(ray, interval, HitView::nothing(), top, n);
        self.lemma_sweep_lowers(ray, interval, top, n);
        self.lemma_sweep_lowers(ray, interval, HitView::nothing(), n);
        self.lemma_sweep_lowers(ray, interval, before, n);
    }

    /// Within a mesh the closest triangle wins: no triangle that the ray's
    /// line crosses at a parameter within the interval lies closer than what a
    /// sweep that includes it ends with.
    pub proof fn lemma_sweep_is_nearest(
        self,
        ray: RayView,
        interval: IntervalView,
        before: HitView,
        j: int,
        k: nat,
    )
        requires
            0 <= j < k,
            self.triangles[j].crossed(ray),
            interval.contains(self.triangles[j].param(ray)),
        ensures
            self.sweep(ray, interval, before, k).t <= self.triangles[j].param(ray),
        decreases k,
    {
        if j < k - 1 {
            self.lemma_sweep_is_nearest(ray, interval, before, j, (k - 1) as nat);
        }
    }

    /// What a sweep from infinity finds is the hit of one of the triangles
    /// that take a hit below infinity, or nothing.
    pub proof fn lemma_sweep_is_a_triangle(self, ray: RayView, interval: IntervalView, k: nat)
        ensures
            self.sweep(ray, interval, HitView::nothing(), k).t < LIMIT ==> exists|j: int|
                0 <= j < k && (#[trigger] self.triangles[j]).accepts(ray, interval, LIMIT as int)
                    && self.sweep(ray, interval, HitView::nothing(), k) == self.triangles[j].hit(
                    ray,
                    interval,
                    HitView::nothing(),
                ),
        decreases k,
    {
        if k > 0 {
            let found = self.sweep(ray, interval, HitView::nothing(), (k - 1) as nat);
            self.lemma_sweep_is_a_triangle(ray, interval, (k - 1) as nat);
            self.lemma_sweep_lowers(ray, interval, HitView::nothing(), (k - 1) as nat);
            if self.triangles[k - 1].accepts(ray, interval, found.t) {
                assert(self.sweep(ray, interval, HitView::nothing(), k) == self.triangles[k
                    - 1].hit(ray, interval, HitView::nothing()));
            } else if found.t < LIMIT {
                let j = choose|j: int|
                    0 <= j < k - 1 && (#[trigger] self.triangles[j]).accepts(
                        ray,
                        interval,
                        LIMIT as int,
                    ) && found == self.triangles[j].hit(ray, interval, HitView::nothing());
                assert(self.sweep(ray, interval, HitView::nothing(), k) == self.triangles[j].hit(
                    ray,
                    interval,
                    HitView::nothing(),
                ));
            }
        }
    }

    /// The mesh's own closest hit is the nearest of its triangles' hits: no
    /// triangle that the ray's line crosses at a parameter within the interval
    /// lies closer, and where there is a hit, it is the hit of one of the
    /// triangles, with the mesh's material.
    pub proof fn lemma_closest_is_nearest_triangle(self, ray: RayView, interval: IntervalView)
        ensures
            forall|j: int|
                0 <= j < self.triangles.len() && (#[trigger] self.triangles[j]).crossed(ray)
                    && interval.contains(self.triangles[j].param(ray)) ==> self.closest(
                    ray,
                    interval,
                ).t <= self.triangles[j].param(ray),
            self.closest(ray, interval).t < LIMIT ==> exists|j: int|
                0 <= j < self.triangles.len() && (#[trigger] self.triangles[j]).accepts(
                    ray,
                    interval,
                    LIMIT as int,
                ) && self.closest(ray, interval) == (HitView {
                    material: self.material,
                    ..self.triangles[j].hit(ray, interval, HitView::nothing())
                }),
    {
        let n = self.triangles.len();
        self.lemma_sweep_lowers(ray, interval, HitView::nothing(), n);
        self.lemma_sweep_is_a_triangle(ray, interval, n);
        assert forall|j: int|
            0 <= j < self.triangles.len() && (#[trigger] self.triangles[j]).crossed(ray)
                && interval.contains(self.triangles[j].param(ray)) implies self.closest(
            ray,
            interval,
        ).t <= self.triangles[j].param(ray) by {
            self.lemma_sweep_is_nearest(ray, interval, HitView::nothing(), j, n);
        }
    }

    /// A mesh's own closest hit, where there is one, carries the mesh's
    /// material.
    pub proof fn lemma_closest_material(self, ray: RayView, interval: IntervalView)
        ensures
            self.closest(ray, interval).t < LIMIT ==> self.closest(ray, interval).material
                == self.material,
    {
    }

    /// The first `k` vertices lie between `lowest` and `highest` on every
    /// axis.
    pub proof fn lemma_extremes_bound(self, axis: int, k: nat, i: int)
        requires
            0 <= i < k <= self.vertices.len(),
        ensures
            self.lowest(axis, k) <= self.vertices[i].axis(axis) <= self.highest(axis, k),
        decreases k,
    {
        if i < k - 1 {
            self.lemma_extremes_bound(axis, (k - 1) as nat, i);
        }
    }

    /// Whether `p` is one of the mesh's vertices.
    pub open spec fn has_vertex(self, p: V3) -> bool {
        exists|i: int| 0 <= i < self.vertices.len() && #[trigger] self.vertices[i] == p
    }

    /// Whether the mesh is one that can be built: every coordinate is a value
    /// a [`Fixed`] can hold, and the corners of every triangle are vertices of
    /// the mesh.
    pub open spec fn sound(self) -> bool {
        &&& forall|i: int| 0 <= i < self.vertices.len() ==> (#[trigger] self.vertices[i]).bounded()
        &&& forall|k: int|
            0 <= k < self.triangles.len() ==> {
                &&& self.has_vertex((#[trigger] self.triangles[k]).a)
                &&& self.has_vertex(self.triangles[k].b)
                &&& self.has_vertex(self.triangles[k].c)
            }
    }

    /// A vertex lies between the mesh's extremes on every axis.
    pub proof fn lemma_vertex_between_extremes(self, p: V3)
        requires
            self.has_vertex(p),
        ensures
            self.sound() ==> p.bounded(),
            forall|axis: int|
                #![trigger self.lowest(axis, self.vertices.len())]
                self.lowest(axis, self.vertices.len()) <= p.axis(axis) <= self.highest(
                    axis,
                    self.vertices.len(),
                ),
    {
        let i = choose|i: int| 0 <= i < self.vertices.len() && #[trigger] self.vertices[i] == p;
        assert forall|axis: int|
            #![trigger self.lowest(axis, self.vertices.len())]
            self.lowest(axis, self.vertices.len()) <= p.axis(axis) <= self.highest(
                axis,
                self.vertices.len(),
            ) by {
            self.lemma_extremes_bound(axis, self.vertices.len(), i);
        }
    }

    /// The box never hides a hit: a ray that crosses a triangle of the mesh
    /// at a parameter above zero passes through the mesh's bounding box.
    pub proof fn lemma_crossed_passes_box(self, ray: RayView, k: int)
        requires
            self.sound(),
            0 <= k < self.triangles.len(),
            self.triangles[k].crossed(ray),
            self.triangles[k].param(ray) > 0,
        ensures
            self.bounding_box().intersects(ray),
    {
        let tri = self.triangles[k];
        let rise = tri.rise(ray);
        let facing = tri.facing(ray);
        // The parameter as a fraction with a positive denominator.
        let (p, q) = if facing > 0 {
            (rise, facing)
        } else {
            (-rise, -facing)
        };
        lemma_mul_div_signs(ray.dir.x, rise, facing);
        lemma_mul_div_signs(ray.dir.y, rise, facing);
        lemma_mul_div_signs(ray.dir.z, rise, facing);
        lemma_mul_div_signs(ray.dir.x, -rise, -facing);
        lemma_mul_div_signs(ray.dir.y, -rise, -facing);
        lemma_mul_div_signs(ray.dir.z, -rise, -facing);
        assert(p >= 0) by {
            assert(rise * (1_000_000int) == rise * 1_000_000);
        }
        let at = tri.point(ray);
        let n = self.vertices.len();
        self.lemma_vertex_between_extremes(tri.a);
        self.lemma_vertex_between_extremes(tri.b);
        self.lemma_vertex_between_extremes(tri.c);
        lemma_step_on_ray(ray.origin.x, ray.dir.x, p, q);
        lemma_step_on_ray(ray.origin.y, ray.dir.y, p, q);
        lemma_step_on_ray(ray.origin.z, ray.dir.z, p, q);
        let b = self.bounding_box();
        assert(self.lowest(0, n) <= tri.low(0) && tri.high(0) <= self.highest(0, n));
        assert(self.lowest(1, n) <= tri.low(1) && tri.high(1) <= self.highest(1, n));
        assert(self.lowest(2, n) <= tri.low(2) && tri.high(2) <= self.highest(2, n));
        assert(b.x.low <= at.x - 1 && at.x + 1 <= b.x.high);
        assert(b.y.low <= at.y - 1 && at.y + 1 <= b.y.high);
        assert(b.z.low <= at.z - 1 && at.z + 1 <= b.z.high);
        assert(within_faces(b.x, ray.origin.x, ray.dir.x, p, q)) by (nonlinear_arith)
            requires
                q > 0,
                b.x.low <= at.x - 1,
                at.x + 1 <= b.x.high,
                (at.x - 1) * q < ray.origin.x * q + p * ray.dir.x < (at.x + 1) * q,
        ;
        assert(within_faces(b.y, ray.origin.y, ray.dir.y, p, q)) by (nonlinear_arith)
            requires
                q > 0,
                b.y.low <= at.y - 1,
                at.y + 1 <= b.y.high,
                (at.y - 1) * q < ray.origin.y * q + p * ray.dir.y < (at.y + 1) * q,
        ;
        assert(within_faces(b.z, ray.origin.z, ray.dir.z, p, q)) by (nonlinear_arith)
            requires
                q > 0,
                b.z.low <= at.z - 1,
                at.z + 1 <= b.z.high,
                (at.z - 1) * q < ray.origin.z * q + p * ray.dir.z < (at.z + 1) * q,
        ;
        b.lemma_ray_through_point_intersects(ray, p, q);
    }

    /// A mesh whose box the ray misses leaves the record alone, where the
    /// interval holds positive parameters only.
    pub proof fn lemma_missed_box_sweeps_nothing(
        self,
        ray: RayView,
        interval: IntervalView,
        before: HitView,
        k: nat,
    )
        requires
            self.sound(),
            interval.low > 0,
            !self.bounding_box().intersects(ray),
            k <= self.triangles.len(),
        ensures
            self.sweep(ray, interval, before, k) == before,
        decreases k,
    {
        if k > 0 {
            self.lemma_missed_box_sweeps_nothing(ray, interval, before, (k - 1) as nat);
            if self.triangles[k - 1].crossed(ray) && self.triangles[k - 1].param(ray) > 0 {
                self.lemma_crossed_passes_box(ray, k - 1);
            }
        }
    }

    /// Every vertex whose coordinates a [`Fixed`] can hold lies in the
    /// bounding box.
    pub proof fn lemma_bounding_box_contains(self, i: int)
        requires
            0 <= i < self.vertices.len(),
            self.vertices[i].bounded(),
        ensures
            self.bounding_box().contains(self.vertices[i]),
    {
        self.lemma_extremes_bound(0, self.vertices.len(), i);
        self.lemma_extremes_bound(1, self.vertices.len(), i);
        self.lemma_extremes_bound(2, self.vertices.len(), i);
    }
}

/// A mesh of triangles over a shared list of vertices, all of one material.
pub struct TriangleMesh {
    indices: Vec<u32>,
    vertices: Vec<Point3>,
    normals: Vec<Vec3>,
    material: Material,
}

impl View for TriangleMesh {
    type V = MeshView;

    closed spec fn view(&self) -> MeshView {
        MeshView {
            vertices: Seq::new(self.vertices@.len(), |i: int| self.vertices@[i]@),
            triangles: Seq::new(
                self.normals@.len(),
                |k: int|
                    Triangle {
                        a: self.vertices@[self.indices@[3 * k] as int]@,
                        b: self.vertices@[self.indices@[3 * k + 1] as int]@,
                        c: self.vertices@[self.indices@[3 * k + 2] as int]@,
                        normal: self.normals@[k]@,
                    },
            ),
            material: self.material@,
        }
    }
}

impl TriangleMesh {
    /// A mesh without vertices or triangles.
    pub fn new(material: Material) -> (mesh: TriangleMesh)
        ensures
            mesh.wf(),
            mesh@.vertices.len() == 0,
            mesh@.triangles.len() == 0,
            mesh@.material == material@,
    {
        TriangleMesh {
            indices: Vec::new(),
            vertices: Vec::new(),
            normals: Vec::new(),
            material: material,
        }
    }

    /// Every coordinate of a mesh is a value a [`Fixed`] can hold: those of
    /// its vertices, and so those of the corners and the normal of each of
    /// its triangles.
    pub proof fn lemma_bounded(&self)
        requires
            self.wf(),
        ensures
            forall|i: int|
                0 <= i < self@.vertices.len() ==> (#[trigger] self@.vertices[i]).bounded(),
            forall|k: int|
                0 <= k < self@.triangles.len() ==> {
                    &&& (#[trigger] self@.triangles[k]).a.bounded()
                    &&& self@.triangles[k].b.bounded()
                    &&& self@.triangles[k].c.bounded()
                    &&& self@.triangles[k].normal.bounded()
                },
    {
        assert forall|k: int| 0 <= k < self@.triangles.len() implies {
            &&& (#[trigger] self@.triangles[k]).a.bounded()
            &&& self@.triangles[k].b.bounded()
            &&& self@.triangles[k].c.bounded()
            &&& self@.triangles[k].normal.bounded()
        } by {
            assert(self.indices@[3 * k] < self.vertices@.len());
            assert(self.indices@[3 * k + 1] < self.vertices@.len());
            assert(self.indices@[3 * k + 2] < self.vertices@.len());
        }
    }

    /// A mesh that was built is sound.
    pub proof fn lemma_sound(&self)
        requires
            self.wf(),
        ensures
            self@.sound(),
    {
        self.lemma_bounded();
        assert forall|k: int| 0 <= k < self@.triangles.len() implies {
            &&& self@.has_vertex((#[trigger] self@.triangles[k]).a)
            &&& self@.has_vertex(self@.triangles[k].b)
            &&& self@.has_vertex(self@.triangles[k].c)
        } by {
            let i = self.indices@[3 * k] as int;
            let j = self.indices@[3 * k + 1] as int;
            let l = self.indices@[3 * k + 2] as int;
            assert(0 <= i < self.vertices@.len() && 0 <= j < self.vertices@.len() && 0 <= l
                < self.vertices@.len());
            assert(self@.vertices[i] == self@.triangles[k].a);
            assert(self@.vertices[j] == self@.triangles[k].b);
            assert(self@.vertices[l] == self@.triangles[k].c);
        }
    }

    /// Every vertex of a mesh lies in the mesh's bounding box.
    pub proof fn lemma_vertices_in_bounding_box(&self)
        requires
            self.wf(),
        ensures
            forall|i: int|
                0 <= i < self@.vertices.len() ==> self@.bounding_box().contains(
                    #[trigger] self@.vertices[i],
                ),
    {
        self.lemma_bounded();
        assert forall|i: int| 0 <= i < self@.vertices.len() implies self@.bounding_box().contains(
            #[trigger] self@.vertices[i],
        ) by {
            self@.lemma_bounding_box_contains(i);
        }
    }

    /// The number of vertices.
    pub fn vertex_count(&self) -> (n: usize)
        ensures
            n == self@.vertices.len(),
    {
        self.vertices.len()
    }

    /// The number of triangles.
    pub fn triangle_count(&self) -> (n: usize)
        ensures
            n == self@.triangles.len(),
    {
        self.normals.len()
    }

    /// Appends a vertex.
    pub fn add_vertex(&mut self, new_vertex: Point3)
        requires
            old(self).wf(),
        ensures
            final(self).wf(),
            final(self)@.vertices == old(self)@.vertices.push(new_vertex@),
            final(self)@.triangles == old(self)@.triangles,
            final(self)@.material == old(self)@.material,
    {
        proof {
            use_type_invariant(&new_vertex.x);
            use_type_invariant(&new_vertex.y);
            use_type_invariant(&new_vertex.z);
        }
        self.vertices.push(new_vertex);
        assert(self@.vertices =~= old(self)@.vertices.push(new_vertex@));
        assert(self@.triangles =~= old(self)@.triangles);
    }

    /// Appends the triangle over the three vertices with the given indices,
    /// and stores its unit normal by the right-hand rule.
    pub fn add_triangle(&mut self, vertex_index_1: u32, vertex_index_2: u32, vertex_index_3: u32)
        requires
            old(self).wf(),
            vertex_index_1 < old(self)@.vertices.len(),
            vertex_index_2 < old(self)@.vertices.len(),
            vertex_index_3 < old(self)@.vertices.len(),
        ensures
            final(self).wf(),
            final(self)@.vertices == old(self)@.vertices,
            final(self)@.material == old(self)@.material,
            final(self)@.triangles == old(self)@.triangles.push(
                Triangle {
                    a: old(self)@.vertices[vertex_index_1 as int],
                    b: old(self)@.vertices[vertex_index_2 as int],
                    c: old(self)@.vertices[vertex_index_3 as int],
                    normal: unit_normal(
                        old(self)@.vertices[vertex_index_1 as int],
                        old(self)@.vertices[vertex_index_2 as int],
                        old(self)@.vertices[vertex_index_3 as int],
                    ),
                },
            ),
            edge_cross(
                old(self)@.vertices[vertex_index_1 as int],
                old(self)@.vertices[vertex_index_2 as int],
                old(self)@.vertices[vertex_index_3 as int],
            ) != V3::zero() ==> unit_normal(
                old(self)@.vertices[vertex_index_1 as int],
                old(self)@.vertices[vertex_index_2 as int],
                old(self)@.vertices[vertex_index_3 as int],
            ).has_unit_length(),
    {
        proof {
            let (a, b, c) = (
                old(self)@.vertices[vertex_index_1 as int],
                old(self)@.vertices[vertex_index_2 as int],
                old(self)@.vertices[vertex_index_3 as int],
            );
            if edge_cross(a, b, c) != V3::zero() {
                lemma_unit_normal(a, b, c);
            }
        }
        self.indices.push(vertex_index_1);
        self.indices.push(vertex_index_2);
        self.indices.push(vertex_index_3);

        let a = self.vertices[vertex_index_1 as usize];
        let b = self.vertices[vertex_index_2 as usize];
        let c = self.vertices[vertex_index_3 as usize];

        let normal = unit_of_wide(exact_cross_of(b.minus(a), c.minus(a)));
        proof {
            use_type_invariant(&normal.x);
            use_type_invariant(&normal.y);
            use_type_invariant(&normal.z);
        }
        self.normals.push(normal);
        assert(self@.vertices =~= old(self)@.vertices);
        assert(self@.triangles =~= old(self)@.triangles.push(
            Triangle { a: a@, b: b@, c: c@, normal: unit_normal(a@, b@, c@) },
        ));
    }
}

impl Hittable for TriangleMesh {
    closed spec fn wf(&self) -> bool {
        &&& self.indices@.len() == 3 * self.normals@.len()
        &&& forall|i: int|
            0 <= i < self.indices@.len() ==> #[trigger] self.indices@[i] < self.vertices@.len()
        &&& forall|i: int|
            0 <= i < self.vertices@.len() ==> (#[trigger] self.vertices@[i])@.bounded()
        &&& forall|k: int| 0 <= k < self.normals@.len() ==> (#[trigger] self.normals@[k])@.bounded()
    }

    open spec fn hit_record(
        &self,
        ray: RayView,
        interval: IntervalView,
        before: HitView,
    ) -> HitView {
        self@.hit(ray, interval, before)
    }

    open spec fn hits(&self, ray: RayView, interval: IntervalView, before: HitView) -> bool {
        self@.hits(ray, interval, before)
    }

    /// Asks every triangle in turn. Where one of them takes a hit, the record
    /// holds the closest of these hits and the mesh's material.
    fn hit(&self, ray: Ray, interval: Interval, hit_info_out: &mut HitInfo) -> (r: bool)
        ensures
            r ==> final(hit_info_out)@.normal.dot(ray@.dir) < 0,
            r ==> final(hit_info_out)@.material == self@.material,
            !r ==> *final(hit_info_out) == *old(hit_info_out),
    {
        let mut i: usize = 0;
        let mut hit = false;
        let ghost before = hit_info_out@;
        let ghost entry = *hit_info_out;

        while i < self.indices.len()
            invariant
                self.wf(),
                i <= self.indices@.len(),
                i % 3 == 0,
                before == entry@,
                hit_info_out@ == self@.sweep(ray@, interval@, before, (i / 3) as nat),
                hit == (hit_info_out@.t < before.t),
                hit ==> hit_info_out@.normal.dot(ray@.dir) < 0,
                !hit ==> *hit_info_out == entry,
            decreases self.indices@.len() - i,
        {
            let a = self.vertices[self.indices[i] as usize];
            let b = self.vertices[self.indices[i + 1] as usize];
            let c = self.vertices[self.indices[i + 2] as usize];

            let normal = self.normals[i / 3];
            proof {
                self@.lemma_sweep_lowers(ray@, interval@, before, (i / 3) as nat);
                assert(self@.triangles[(i / 3) as int] == (Triangle {
                    a: a@,
                    b: b@,
                    c: c@,
                    normal: normal@,
                }));
            }
            let found = triangle_hit(a, b, c, normal, ray, interval, hit_info_out);
            hit = hit || found;

            i += 3;
        }
        assert(i / 3 == self@.triangles.len());
        if hit {
            hit_info_out.material = self.material;
            return true;
        }
        false
    }
}

/// The view of a [`Scene`]: its meshes in the order they were added, each with
/// its bounding box.
pub struct SceneView {
    pub meshes: Seq<MeshView>,
    pub boxes: Seq<BboxView>,
}

impl SceneView {
    /// The record after the first `k` meshes were asked about `ray` in turn,
    /// each only where the ray passes through its box. The search starts with
    /// the parameter at positive infinity and the rest of `before`.
    pub open spec fn sweep(
        self,
        ray: RayView,
        interval: IntervalView,
        before: HitView,
        k: nat,
    ) -> HitView
        decreases k,
    {
        if k == 0 {
            HitView { t: LIMIT as int, ..before }
        } else {
            let found = self.sweep(ray, interval, before, (k - 1) as nat);
            if self.boxes[k - 1].intersects(ray) {
                self.meshes[k - 1].hit(ray, interval, found)
            } else {
                found
            }
        }
    }

    /// The record after the scene was asked about `ray`.
    pub open spec fn hit(self, ray: RayView, interval: IntervalView, before: HitView) -> HitView {
        self.sweep(ray, interval, before, self.meshes.len())
    }

    /// The record after the first `k` meshes were asked about `ray` in turn,
    /// every one of them, whatever its box.
    pub open spec fn plain_sweep(
        self,
        ray: RayView,
        interval: IntervalView,
        before: HitView,
        k: nat,
    ) -> HitView
        decreases k,
    {
        if k == 0 {
            HitView { t: LIMIT as int, ..before }
        } else {
            self.meshes[k - 1].hit(
                ray,
                interval,
                self.plain_sweep(ray, interval, before, (k - 1) as nat),
            )
        }
    }

    /// Whether the scene is one that can be built: every mesh is sound and
    /// stands beside its bounding box.
    pub open spec fn sound(self) -> bool {
        &&& self.meshes.len() == self.boxes.len()
        &&& forall|i: int| 0 <= i < self.meshes.len() ==> (#[trigger] self.meshes[i]).sound()
        &&& forall|i: int|
            0 <= i < self.meshes.len() ==> #[trigger] self.boxes[i]
                == self.meshes[i].bounding_box()
    }

    /// The boxes hide nothing: for an interval that holds positive parameters
    /// only, the scene reports what it would report if it asked every mesh,
    /// whatever its box.
    pub proof fn lemma_gate_hides_nothing(
        self,
        ray: RayView,
        interval: IntervalView,
        before: HitView,
        k: nat,
    )
        requires
            self.sound(),
            interval.low > 0,
            k <= self.meshes.len(),
        ensures
            self.sweep(ray, interval, before, k) == self.plain_sweep(ray, interval, before, k),
        decreases k,
    {
        if k > 0 {
            self.lemma_gate_hides_nothing(ray, interval, before, (k - 1) as nat);
            let found = self.sweep(ray, interval, before, (k - 1) as nat);
            let mesh = self.meshes[k - 1];
            assert(mesh.sound());
            assert(self.boxes[k - 1] == mesh.bounding_box());
            if !self.boxes[k - 1].intersects(ray) {
                mesh.lemma_missed_box_sweeps_nothing(ray, interval, found, mesh.triangles.len());
            }
        }
    }

    /// Whether some mesh of the scene is hit.
    pub open spec fn hits(self, ray: RayView, interval: IntervalView, before: HitView) -> bool {
        self.hit(ray, interval, before).t < LIMIT
    }
}

impl SceneView {
    /// The scene of two meshes, each with a box, in the given order.
    pub open spec fn pair(
        first: MeshView,
        first_box: BboxView,
        second: MeshView,
        second_box: BboxView,
    ) -> SceneView {
        SceneView { meshes: seq![first, second], boxes: seq![first_box, second_box] }
    }

    /// What the first `k` meshes make of a search: the record never ends
    /// above infinity; where it ends at infinity nothing but the parameter of
    /// `before` was touched; and where it ends below, it is the own closest hit
    /// of one of the meshes whose box the ray passes through.
    pub proof fn lemma_sweep_is_own_hit(
        self,
        ray: RayView,
        interval: IntervalView,
        before: HitView,
        k: nat,
    )
        requires
            k <= self.meshes.len(),
        ensures
            self.sweep(ray, interval, before, k).t <= LIMIT,
            self.sweep(ray, interval, before, k).t == LIMIT ==> self.sweep(ray, interval, before, k)
                == (HitView { t: LIMIT as int, ..before }),
            self.sweep(ray, interval, before, k).t < LIMIT ==> exists|i: int|
                0 <= i < k && self.boxes[i].intersects(ray) && self.sweep(ray, interval, before, k)
                    == #[trigger] self.meshes[i].closest(ray, interval),
        decreases k,
    {
        if k > 0 {
            self.lemma_sweep_is_own_hit(ray, interval, before, (k - 1) as nat);
            let found = self.sweep(ray, interval, before, (k - 1) as nat);
            if self.boxes[k - 1].intersects(ray) {
                self.meshes[k - 1].lemma_hit_selects(ray, interval, found);
                let own = self.meshes[k - 1].closest(ray, interval);
                if own.t < found.t {
                    assert(self.sweep(ray, interval, before, k) == self.meshes[k - 1].closest(
                        ray,
                        interval,
                    ));
                } else if found.t < LIMIT {
                    let i = choose|i: int|
                        0 <= i < k - 1 && self.boxes[i].intersects(ray) && found
                            == #[trigger] self.meshes[i].closest(ray, interval);
                    assert(self.sweep(ray, interval, before, k) == self.meshes[i].closest(
                        ray,
                        interval,
                    ));
                }
            } else if found.t < LIMIT {
                let i = choose|i: int|
                    0 <= i < k - 1 && self.boxes[i].intersects(ray) && found
                        == #[trigger] self.meshes[i].closest(ray, interval);
                assert(self.sweep(ray, interval, before, k) == self.meshes[i].closest(
                    ray,
                    interval,
                ));
            }
        }
    }

    /// No mesh among the first `k` whose box the ray passes through has an
    /// own closest hit that is closer than what the sweep over them ends
    /// with.
    pub proof fn lemma_sweep_is_closest(
        self,
        ray: RayView,
        interval: IntervalView,
        before: HitView,
        k: nat,
        i: int,
    )
        requires
            0 <= i < k <= self.meshes.len(),
            self.boxes[i].intersects(ray),
        ensures
            self.sweep(ray, interval, before, k).t <= self.meshes[i].closest(ray, interval).t,
        decreases k,
    {
        let found = self.sweep(ray, interval, before, (k - 1) as nat);
        self.lemma_sweep_is_own_hit(ray, interval, before, (k - 1) as nat);
        if self.boxes[k - 1].intersects(ray) {
            self.meshes[k - 1].lemma_hit_selects(ray, interval, found);
        }
        if i < k - 1 {
            self.lemma_sweep_is_closest(ray, interval, before, (k - 1) as nat, i);
        }
    }

    /// Across the scene the closest triangle wins: no triangle that the ray's
    /// line crosses at a parameter within the interval, in a mesh whose box
    /// the ray passes through, lies closer than what the scene reports.
    pub proof fn lemma_hit_is_nearest_triangle(
        self,
        ray: RayView,
        interval: IntervalView,
        before: HitView,
        i: int,
        j: int,
    )
        requires
            0 <= i < self.meshes.len(),
            self.boxes[i].intersects(ray),
            0 <= j < self.meshes[i].triangles.len(),
            self.meshes[i].triangles[j].crossed(ray),
            interval.contains(self.meshes[i].triangles[j].param(ray)),
        ensures
            self.hit(ray, interval, before).t <= self.meshes[i].triangles[j].param(ray),
    {
        self.lemma_hit_is_closest(ray, interval, before);
        self.meshes[i].lemma_closest_is_nearest_triangle(ray, interval);
    }

    /// Across a scene that was built the closest triangle wins, box or no
    /// box: for an interval that holds positive parameters only, no triangle
    /// that the ray's line crosses at a parameter within the interval lies
    /// closer than what the scene reports.
    pub proof fn lemma_hit_is_nearest_of_all(
        self,
        ray: RayView,
        interval: IntervalView,
        before: HitView,
        i: int,
        j: int,
    )
        requires
            self.sound(),
            interval.low > 0,
            0 <= i < self.meshes.len(),
            0 <= j < self.meshes[i].triangles.len(),
            self.meshes[i].triangles[j].crossed(ray),
            interval.contains(self.meshes[i].triangles[j].param(ray)),
        ensures
            self.hit(ray, interval, before).t <= self.meshes[i].triangles[j].param(ray),
    {
        self.meshes[i].lemma_crossed_passes_box(ray, j);
        self.lemma_hit_is_nearest_triangle(ray, interval, before, i, j);
    }

    /// Closest hit, whatever the order: what the scene reports is never
    /// farther than the own closest hit of any mesh whose box the ray passes
    /// through, and where the scene reports a hit, it is the own closest hit of
    /// one such mesh.
    pub proof fn lemma_hit_is_closest(self, ray: RayView, interval: IntervalView, before: HitView)
        ensures
            forall|i: int|
                0 <= i < self.meshes.len() && self.boxes[i].intersects(ray) ==> self.hit(
                    ray,
                    interval,
                    before,
                ).t <= (#[trigger] self.meshes[i].closest(ray, interval)).t,
            self.hits(ray, interval, before) ==> exists|i: int|
                0 <= i < self.meshes.len() && self.boxes[i].intersects(ray) && self.hit(
                    ray,
                    interval,
                    before,
                ) == #[trigger] self.meshes[i].closest(ray, interval),
            !self.hits(ray, interval, before) ==> self.hit(ray, interval, before) == (HitView {
                t: LIMIT as int,
                ..before
            }),
    {
        let n = self.meshes.len();
        self.lemma_sweep_is_own_hit(ray, interval, before, n);
        assert forall|i: int|
            0 <= i < self.meshes.len() && self.boxes[i].intersects(ray) implies self.hit(
            ray,
            interval,
            before,
        ).t <= (#[trigger] self.meshes[i].closest(ray, interval)).t by {
            self.lemma_sweep_is_closest(ray, interval, before, n, i);
        }
    }

    /// What a scene of two meshes reports: the first mesh is asked with the
    /// parameter at infinity, the second with what the first left, each only
    /// where the ray passes through its box.
    pub proof fn lemma_pair_hit(
        first: MeshView,
        first_box: BboxView,
        second: MeshView,
        second_box: BboxView,
        ray: RayView,
        interval: IntervalView,
        before: HitView,
    )
        ensures
            ({
                let start = HitView { t: LIMIT as int, ..before };
                let middle = if first_box.intersects(ray) {
                    first.hit(ray, interval, start)
                } else {
                    start
                };
                SceneView::pair(first, first_box, second, second_box).hit(ray, interval, before)
                    == if second_box.intersects(ray) {
                    second.hit(ray, interval, middle)
                } else {
                    middle
                }
            }),
    {
        let scene = SceneView::pair(first, first_box, second, second_box);
        assert(scene.meshes.len() == 2);
        assert(scene.meshes[0] == first && scene.meshes[1] == second);
        assert(scene.boxes[0] == first_box && scene.boxes[1] == second_box);
        let s0 = scene.sweep(ray, interval, before, 0);
        let s1 = scene.sweep(ray, interval, before, 1);
        let s2 = scene.sweep(ray, interval, before, 2);
        assert(s0 == (HitView { t: LIMIT as int, ..before }));
        assert(s1 == if scene.boxes[0].intersects(ray) {
            scene.meshes[0].hit(ray, interval, s0)
        } else {
            s0
        });
        assert(s2 == if scene.boxes[1].intersects(ray) {
            scene.meshes[1].hit(ray, interval, s1)
        } else {
            s1
        });
    }

    /// Of two meshes along one ray, the one whose own closest hit is strictly
    /// closer is the one the scene reports, in whichever order the two were
    /// added.
    pub proof fn lemma_closer_mesh_wins(
        near: MeshView,
        near_box: BboxView,
        far: MeshView,
        far_box: BboxView,
        ray: RayView,
        interval: IntervalView,
        before: HitView,
    )
        requires
            near_box.intersects(ray),
            far_box.intersects(ray),
            near.closest(ray, interval).t < far.closest(ray, interval).t,
        ensures
            SceneView::pair(near, near_box, far, far_box).hit(ray, interval, before)
                == near.closest(ray, interval),
            SceneView::pair(far, far_box, near, near_box).hit(ray, interval, before)
                == near.closest(ray, interval),
    {
        let start = HitView { t: LIMIT as int, ..before };
        near.lemma_hit_selects(ray, interval, start);
        far.lemma_hit_selects(ray, interval, start);
        far.lemma_hit_selects(ray, interval, near.closest(ray, interval));
        near.lemma_hit_selects(ray, interval, far.closest(ray, interval));
        SceneView::lemma_pair_hit(near, near_box, far, far_box, ray, interval, before);
        SceneView::lemma_pair_hit(far, far_box, near, near_box, ray, interval, before);
    }
}

/// An ordered collection of meshes, each with its bounding box.
pub struct Scene {
    meshes: Vec<TriangleMesh>,
    nodes: Vec<Bbox>,
}

impl View for Scene {
    type V = SceneView;

    closed spec fn view(&self) -> SceneView {
        SceneView {
            meshes: Seq::new(self.meshes@.len(), |i: int| self.meshes@[i]@),
            boxes: Seq::new(self.nodes@.len(), |i: int| self.nodes@[i]@),
        }
    }
}

impl Default for Scene {
    fn default() -> (scene: Scene)
        ensures
            scene.wf(),
            scene@.meshes.len() == 0,
            scene@.boxes.len() == 0,
    {
        Scene { meshes: Vec::new(), nodes: Vec::new() }
    }
}

impl Scene {
    /// Appends a mesh, and with it the box around its vertices, widened by the
    /// pad on every side.
    pub fn add_mesh(&mut self, mesh: TriangleMesh)
        requires
            old(self).wf(),
            mesh.wf(),
        ensures
            final(self).wf(),
            final(self)@.meshes == old(self)@.meshes.push(mesh@),
            final(self)@.boxes == old(self)@.boxes.push(mesh@.bounding_box()),
    {
        let mut min_x = Fixed::infinity();
        let mut min_y = Fixed::infinity();
        let mut min_z = Fixed::infinity();

        let mut max_x = Fixed::neg_infinity();
        let mut max_y = Fixed::neg_infinity();
        let mut max_z = Fixed::neg_infinity();

        let mut i: usize = 0;
        while i < mesh.vertices.len()
            invariant
                i <= mesh.vertices@.len(),
                mesh@.vertices.len() == mesh.vertices@.len(),
                forall|j: int|
                    0 <= j < mesh.vertices@.len() ==> mesh@.vertices[j] == mesh.vertices@[j]@,
                min_x@ == mesh@.lowest(0, i as nat),
                min_y@ == mesh@.lowest(1, i as nat),
                min_z@ == mesh@.lowest(2, i as nat),
                max_x@ == mesh@.highest(0, i as nat),
                max_y@ == mesh@.highest(1, i as nat),
                max_z@ == mesh@.highest(2, i as nat),
            decreases mesh.vertices@.len() - i,
        {
            let vertex = mesh.vertices[i];
            min_x = min_x.min(vertex.x);
            max_x = max_x.max(vertex.x);

            min_y = min_y.min(vertex.y);
            max_y = max_y.max(vertex.y);

            min_z = min_z.min(vertex.z);
            max_z = max_z.max(vertex.z);
            i += 1;
        }

        let epsilon = Fixed::from_raw(BBOX_PAD);

        self.nodes.push(
            Bbox::new(
                Interval::new(min_x - epsilon, max_x + epsilon),
                Interval::new(min_y - epsilon, max_y + epsilon),
                Interval::new(min_z - epsilon, max_z + epsilon),
            ),
        );
        self.meshes.push(mesh);
        assert(self@.meshes =~= old(self)@.meshes.push(mesh@));
        assert(self@.boxes =~= old(self)@.boxes.push(mesh@.bounding_box()));
    }

    /// A scene that was built is sound.
    pub proof fn lemma_sound(&self)
        requires
            self.wf(),
        ensures
            self@.sound(),
    {
        assert forall|i: int| 0 <= i < self@.meshes.len() implies (#[trigger] self@.meshes[
            i
        ]).sound() by {
            self.meshes@[i].lemma_sound();
        }
    }

    /// Every box of a scene is the bounding box of its mesh.
    pub proof fn lemma_boxes_bound_meshes(&self)
        requires
            self.wf(),
        ensures
            self@.meshes.len() == self@.boxes.len(),
            forall|i: int|
                0 <= i < self@.meshes.len() ==> #[trigger] self@.boxes[i]
                    == self@.meshes[i].bounding_box(),
    {
    }

    /// The number of meshes.
    pub fn mesh_count(&self) -> (n: usize)
        ensures
            n == self@.meshes.len(),
    {
        self.meshes.len()
    }
}

impl Hittable for Scene {
    closed spec fn wf(&self) -> bool {
        &&& self.meshes@.len() == self.nodes@.len()
        &&& forall|i: int| 0 <= i < self.meshes@.len() ==> (#[trigger] self.meshes@[i]).wf()
        &&& forall|i: int|
            0 <= i < self.meshes@.len() ==> (#[trigger] self.nodes@[i])@
                == self.meshes@[i]@.bounding_box()
    }

    open spec fn hit_record(
        &self,
        ray: RayView,
        interval: IntervalView,
        before: HitView,
    ) -> HitView {
        self@.hit(ray, interval, before)
    }

    open spec fn hits(&self, ray: RayView, interval: IntervalView, before: HitView) -> bool {
        self@.hits(ray, interval, before)
    }

    /// Starts the record at positive infinity and asks, in the order they were
    /// added, every mesh whose box the ray passes through. The result says
    /// whether the record's parameter ended below infinity.
    fn hit(&self, ray: Ray, interval: Interval, hit_info_out: &mut HitInfo) -> (r: bool)
        ensures
            r ==> final(hit_info_out)@.normal.dot(ray@.dir) < 0,
            interval@.low > 0 ==> final(hit_info_out)@ == self@.plain_sweep(
                ray@,
                interval@,
                old(hit_info_out)@,
                self@.meshes.len(),
            ),
    {
        proof {
            self.lemma_sound();
            if interval@.low > 0 {
                self@.lemma_gate_hides_nothing(
                    ray@,
                    interval@,
                    hit_info_out@,
                    self@.meshes.len(),
                );
            }
        }
        hit_info_out.t = Fixed::infinity();
        let ghost before = old(hit_info_out)@;

        let mut i: usize = 0;
        while i < self.meshes.len()
            invariant
                self.wf(),
                i <= self.meshes@.len(),
                hit_info_out@ == self@.sweep(ray@, interval@, before, i as nat),
                hit_info_out@.t < LIMIT ==> hit_info_out@.normal.dot(ray@.dir) < 0,
            decreases self.meshes@.len() - i,
        {
            if self.nodes[i].intersects(ray) {
                proof {
                    self@.lemma_sweep_is_own_hit(ray@, interval@, before, i as nat);
                    self@.meshes[i as int].lemma_hit_selects(ray@, interval@, hit_info_out@);
                }
                self.meshes[i].hit(ray, interval, hit_info_out);
            }
            i += 1;
        }

        hit_info_out.t < Fixed::infinity()
    }
}

} // verus!
