//! Axis-aligned bounding boxes and the slab test that tells whether a ray
//! passes through one.
//!
//! The test is carried out on exact fractions: the parameters at which the ray
//! crosses the faces of the box are kept as pairs of a numerator and a
//! positive denominator and compared by cross-multiplication, so no rounding
//! enters the answer.

use crate::fixed::{fx_max, fx_min, Fixed, LIMIT};
use crate::ray::{Interval, IntervalView, Point3, Ray, RayView};
use crate::vec3::V3;
use vstd::prelude::*;

verus! {

/// A fraction `num / den` with a positive denominator.
pub struct Ratio {
    pub num: int,
    pub den: int,
}

impl Ratio {
    /// Whether `self <= o` as fractions.
    pub open spec fn le(self, o: Ratio) -> bool {
        self.num * o.den <= o.num * self.den
    }

    /// The larger of two fractions, and `self` where they are equal.
    pub open spec fn max(self, o: Ratio) -> Ratio {
        if o.le(self) {
            self
        } else {
            o
        }
    }

    /// The smaller of two fractions, and `self` where they are equal.
    pub open spec fn min(self, o: Ratio) -> Ratio {
        if self.le(o) {
            self
        } else {
            o
        }
    }
}

/// The part of a ray, as a range of its parameter, that lies between the two
/// faces of a box that are perpendicular to one axis.
pub enum Slab {
    /// The ray runs parallel to the faces and outside them.
    Nothing,
    /// The ray runs parallel to the faces and between them.
    All,
    /// The ray enters at `near` and leaves at `far`.
    Between { near: Ratio, far: Ratio },
}

/// The slab of a ray with the given origin and direction along one axis, for a
/// box that spans `extent` on that axis.
pub open spec fn slab_of(extent: IntervalView, origin: int, dir: int) -> Slab {
    if dir > 0 {
        Slab::Between {
            near: Ratio { num: extent.low - origin, den: dir },
            far: Ratio { num: extent.high - origin, den: dir },
        }
    } else if dir < 0 {
        Slab::Between {
            near: Ratio { num: origin - extent.high, den: -dir },
            far: Ratio { num: origin - extent.low, den: -dir },
        }
    } else if extent.contains(origin) {
        Slab::All
    } else {
        Slab::Nothing
    }
}

/// The range of the ray parameter that is still inside every slab seen so
/// far: from `tmin` to `tmax`, where no `tmax` stands for positive infinity.
/// `open` is false once a slab was found to hold nothing.
pub struct Span {
    pub open: bool,
    pub tmin: Ratio,
    pub tmax: Option<Ratio>,
}

impl Span {
    /// The whole ray: from zero on.
    pub open spec fn whole() -> Span {
        Span { open: true, tmin: Ratio { num: 0, den: 1 }, tmax: None }
    }

    /// The span cut down to what also lies inside `slab`.
    pub open spec fn narrowed(self, slab: Slab) -> Span {
        match slab {
            Slab::Nothing => Span { open: false, tmin: self.tmin, tmax: self.tmax },
            Slab::All => self,
            Slab::Between { near, far } => Span {
                open: self.open,
                tmin: self.tmin.max(near),
                tmax: match self.tmax {
                    None => Some(far),
                    Some(t) => Some(t.min(far)),
                },
            },
        }
    }

    /// Whether the span holds a parameter: `tmin <= tmax`.
    pub open spec fn nonempty(self) -> bool {
        self.open && match self.tmax {
            None => true,
            Some(t) => self.tmin.le(t),
        }
    }
}

/// The view of a [`Bbox`]: its extent along each axis.
pub struct BboxView {
    pub x: IntervalView,
    pub y: IntervalView,
    pub z: IntervalView,
}

impl BboxView {
    /// The extent along axis `i`: `x` for 0, `y` for 1, `z` otherwise.
    pub open spec fn axis(self, i: int) -> IntervalView {
        if i == 0 {
            self.x
        } else if i == 1 {
            self.y
        } else {
            self.z
        }
    }

    /// The span of `ray` inside the box.
    pub open spec fn span(self, ray: RayView) -> Span {
        Span::whole().narrowed(slab_of(self.x, ray.origin.x, ray.dir.x)).narrowed(
            slab_of(self.y, ray.origin.y, ray.dir.y),
        ).narrowed(slab_of(self.z, ray.origin.z, ray.dir.z))
    }

    /// Whether `ray` passes through the box at some parameter from zero on.
    pub open spec fn intersects(self, ray: RayView) -> bool {
        self.span(ray).nonempty()
    }

    /// The smallest box around three points.
    pub open spec fn around(a: V3, b: V3, c: V3) -> BboxView {
        BboxView {
            x: IntervalView {
                low: fx_min(a.x, fx_min(b.x, c.x)),
                high: fx_max(a.x, fx_max(b.x, c.x)),
            },
            y: IntervalView {
                low: fx_min(a.y, fx_min(b.y, c.y)),
                high: fx_max(a.y, fx_max(b.y, c.y)),
            },
            z: IntervalView {
                low: fx_min(a.z, fx_min(b.z, c.z)),
                high: fx_max(a.z, fx_max(b.z, c.z)),
            },
        }
    }

    /// Whether the point lies in the box, its faces included.
    pub open spec fn contains(self, p: V3) -> bool {
        self.x.contains(p.x) && self.y.contains(p.y) && self.z.contains(p.z)
    }
}

/// Whether the point of the ray at parameter `p / q` lies between the faces of
/// a box that spans `extent` along one axis.
pub open spec fn within_faces(extent: IntervalView, origin: int, dir: int, p: int, q: int) -> bool {
    extent.low * q <= origin * q + p * dir <= extent.high * q
}

impl Span {
    /// Whether the span still holds the parameter `p / q`.
    pub open spec fn holds(self, p: int, q: int) -> bool {
        &&& self.open
        &&& self.tmin.den > 0
        &&& self.tmin.le(Ratio { num: p, den: q })
        &&& match self.tmax {
            None => true,
            Some(t) => t.den > 0 && (Ratio { num: p, den: q }).le(t),
        }
    }

    /// Whether the span starts at zero or later and has positive
    /// denominators.
    pub open spec fn forward(self) -> bool {
        &&& self.tmin.num >= 0
        &&& self.tmin.den > 0
        &&& match self.tmax {
            None => true,
            Some(t) => t.den > 0,
        }
    }

    /// Whether the span is known to hold nothing: a slab held nothing, or the
    /// span ends before zero.
    pub open spec fn spent(self) -> bool {
        !self.open || match self.tmax {
            None => false,
            Some(t) => t.num < 0,
        }
    }

    /// A span that holds a parameter still holds it after it was cut down to a
    /// slab that the ray's point at that parameter lies in.
    pub proof fn lemma_narrowed_holds(
        self,
        extent: IntervalView,
        origin: int,
        dir: int,
        p: int,
        q: int,
    )
        requires
            q > 0,
            self.holds(p, q),
            within_faces(extent, origin, dir, p, q),
        ensures
            self.narrowed(slab_of(extent, origin, dir)).holds(p, q),
    {
        assert((extent.low - origin) * q == extent.low * q - origin * q) by (nonlinear_arith);
        assert((extent.high - origin) * q == extent.high * q - origin * q) by (nonlinear_arith);
        assert((origin - extent.low) * q == origin * q - extent.low * q) by (nonlinear_arith);
        assert((origin - extent.high) * q == origin * q - extent.high * q) by (nonlinear_arith);
        assert(p * (-dir) == -(p * dir)) by (nonlinear_arith);
        if dir == 0 {
            assert(p * dir == 0) by (nonlinear_arith)
                requires
                    dir == 0,
            ;
            assert(extent.low <= origin <= extent.high) by (nonlinear_arith)
                requires
                    q > 0,
                    extent.low * q <= origin * q,
                    origin * q <= extent.high * q,
            ;
        }
    }

    /// A span that holds a parameter is not empty.
    pub proof fn lemma_holds_nonempty(self, p: int, q: int)
        requires
            q > 0,
            self.holds(p, q),
        ensures
            self.nonempty(),
    {
        match self.tmax {
            None => {},
            Some(t) => {
                let a = self.tmin;
                assert(a.num * t.den <= t.num * a.den) by (nonlinear_arith)
                    requires
                        a.num * q <= p * a.den,
                        p * t.den <= t.num * q,
                        q > 0,
                        a.den > 0,
                        t.den > 0,
                {
                    assert(a.num * q * t.den <= p * a.den * t.den);
                    assert(p * t.den * a.den <= t.num * q * a.den);
                    assert((a.num * t.den) * q <= (t.num * a.den) * q);
                }
            },
        }
    }

    /// Cutting a span down keeps it starting at zero or later.
    pub proof fn lemma_narrowed_forward(self, extent: IntervalView, origin: int, dir: int)
        requires
            self.forward(),
        ensures
            self.narrowed(slab_of(extent, origin, dir)).forward(),
    {
        match slab_of(extent, origin, dir) {
            Slab::Between { near, far } => {
                let a = self.tmin;
                if !near.le(a) {
                    assert(near.num >= 0) by (nonlinear_arith)
                        requires
                            a.num >= 0,
                            a.den > 0,
                            near.den > 0,
                            near.num * a.den > a.num * near.den,
                    ;
                }
            },
            _ => {},
        }
    }

    /// A span that holds nothing holds nothing after it was cut down further.
    pub proof fn lemma_narrowed_spent(self, extent: IntervalView, origin: int, dir: int)
        requires
            self.forward(),
            self.spent(),
        ensures
            self.narrowed(slab_of(extent, origin, dir)).spent(),
    {
        match (self.tmax, slab_of(extent, origin, dir)) {
            (Some(t), Slab::Between { near, far }) => {
                if self.open && !t.le(far) {
                    assert(far.num < 0) by (nonlinear_arith)
                        requires
                            t.num < 0,
                            t.den > 0,
                            far.den > 0,
                            t.num * far.den > far.num * t.den,
                    ;
                }
            },
            _ => {},
        }
    }

    /// Cutting a span down to the slab of an axis along which the ray starts
    /// beyond the box and does not move toward it leaves nothing.
    pub proof fn lemma_narrowed_by_missed_axis(self, extent: IntervalView, origin: int, dir: int)
        requires
            self.forward(),
            (origin > extent.high && dir >= 0) || (origin < extent.low && dir <= 0),
        ensures
            self.narrowed(slab_of(extent, origin, dir)).spent(),
    {
        match (self.tmax, slab_of(extent, origin, dir)) {
            (Some(t), Slab::Between { near, far }) => {
                if t.le(far) {
                    assert(t.num < 0) by (nonlinear_arith)
                        requires
                            far.num < 0,
                            t.den > 0,
                            far.den > 0,
                            t.num * far.den <= far.num * t.den,
                    ;
                }
            },
            _ => {},
        }
    }

    /// A span that is known to hold nothing is empty.
    pub proof fn lemma_spent_empty(self)
        requires
            self.forward(),
            self.spent(),
        ensures
            !self.nonempty(),
    {
        match self.tmax {
            None => {},
            Some(t) => if self.open {
                let a = self.tmin;
                assert(!(a.num * t.den <= t.num * a.den)) by (nonlinear_arith)
                    requires
                        a.num >= 0,
                        a.den > 0,
                        t.den > 0,
                        t.num < 0,
                ;
            },
        }
    }
}

impl Ratio {
    /// The order of fractions with positive denominators is transitive.
    pub proof fn lemma_le_transitive(self, b: Ratio, c: Ratio)
        requires
            self.den > 0,
            b.den > 0,
            c.den > 0,
            self.le(b),
            b.le(c),
        ensures
            self.le(c),
    {
        let a = self;
        assert(a.num * c.den <= c.num * a.den) by (nonlinear_arith)
            requires
                a.num * b.den <= b.num * a.den,
                b.num * c.den <= c.num * b.den,
                a.den > 0,
                b.den > 0,
                c.den > 0,
        {
            assert((a.num * b.den) * c.den <= (b.num * a.den) * c.den);
            assert((b.num * c.den) * a.den <= (c.num * b.den) * a.den);
            assert((a.num * c.den) * b.den <= (c.num * a.den) * b.den);
        }
    }
}

impl Span {
    /// Whether every parameter of the span lies in the slab.
    pub open spec fn within(self, slab: Slab) -> bool {
        match slab {
            Slab::Nothing => !self.open,
            Slab::All => true,
            Slab::Between { near, far } => {
                &&& near.den > 0
                &&& far.den > 0
                &&& near.le(self.tmin)
                &&& match self.tmax {
                    None => false,
                    Some(t) => t.le(far),
                }
            },
        }
    }

    /// A span that was cut down to a slab lies in that slab.
    pub proof fn lemma_narrowed_within(self, extent: IntervalView, origin: int, dir: int)
        requires
            self.forward(),
        ensures
            self.narrowed(slab_of(extent, origin, dir)).within(slab_of(extent, origin, dir)),
    {
    }

    /// A span that lies in a slab still lies in it after it was cut down
    /// further.
    pub proof fn lemma_narrowed_stays_within(
        self,
        seen: Slab,
        extent: IntervalView,
        origin: int,
        dir: int,
    )
        requires
            self.forward(),
            self.within(seen),
        ensures
            self.narrowed(slab_of(extent, origin, dir)).within(seen),
    {
        let after = self.narrowed(slab_of(extent, origin, dir));
        match (seen, slab_of(extent, origin, dir)) {
            (Slab::Between { near, far }, Slab::Between { near: n2, far: f2 }) => {
                if !n2.le(self.tmin) {
                    assert(self.tmin.le(n2));
                    near.lemma_le_transitive(self.tmin, n2);
                }
                let t = self.tmax->Some_0;
                if !t.le(f2) {
                    assert(f2.le(t));
                    f2.lemma_le_transitive(t, far);
                }
            },
            _ => {},
        }
    }

    /// Where a span that is not empty lies in the slab of an axis, the
    /// ray's point at the span's lower end lies between the faces of that
    /// axis; and so does its point at zero where the span has no upper end.
    pub proof fn lemma_within_gives_faces(
        self,
        extent: IntervalView,
        origin: int,
        dir: int,
        p: int,
        q: int,
    )
        requires
            self.forward(),
            self.nonempty(),
            self.within(slab_of(extent, origin, dir)),
            match self.tmax {
                None => p == 0 && q == 1,
                Some(t) => p == self.tmin.num && q == self.tmin.den,
            },
        ensures
            q > 0,
            p >= 0,
            within_faces(extent, origin, dir, p, q),
    {
        match slab_of(extent, origin, dir) {
            Slab::Between { near, far } => {
                let t = self.tmax->Some_0;
                let m = self.tmin;
                m.lemma_le_transitive(t, far);
                assert((extent.low - origin) * q == extent.low * q - origin * q)
                    by (nonlinear_arith);
                assert((extent.high - origin) * q == extent.high * q - origin * q)
                    by (nonlinear_arith);
                assert((origin - extent.low) * q == origin * q - extent.low * q)
                    by (nonlinear_arith);
                assert((origin - extent.high) * q == origin * q - extent.high * q)
                    by (nonlinear_arith);
                assert(p * (-dir) == -(p * dir)) by (nonlinear_arith);
            },
            Slab::All => {
                assert(p * dir == 0) by (nonlinear_arith)
                    requires
                        dir == 0,
                ;
                assert(extent.low * q <= origin * q <= extent.high * q) by (nonlinear_arith)
                    requires
                        extent.low <= origin <= extent.high,
                        q > 0,
                ;
            },
            Slab::Nothing => {},
        }
    }
}

impl BboxView {
    /// A ray that passes through a point of the box is found to intersect it:
    /// where the ray's point at some parameter `p / q`, zero or later, lies
    /// between the faces of the box along every axis, the test succeeds.
    pub proof fn lemma_ray_through_point_intersects(self, ray: RayView, p: int, q: int)
        requires
            q > 0,
            p >= 0,
            within_faces(self.x, ray.origin.x, ray.dir.x, p, q),
            within_faces(self.y, ray.origin.y, ray.dir.y, p, q),
            within_faces(self.z, ray.origin.z, ray.dir.z, p, q),
        ensures
            self.intersects(ray),
    {
        let s0 = Span::whole();
        assert(s0.holds(p, q)) by (nonlinear_arith)
            requires
                s0 == Span::whole(),
                p >= 0,
                q > 0,
        ;
        s0.lemma_narrowed_holds(self.x, ray.origin.x, ray.dir.x, p, q);
        let s1 = s0.narrowed(slab_of(self.x, ray.origin.x, ray.dir.x));
        s1.lemma_narrowed_holds(self.y, ray.origin.y, ray.dir.y, p, q);
        let s2 = s1.narrowed(slab_of(self.y, ray.origin.y, ray.dir.y));
        s2.lemma_narrowed_holds(self.z, ray.origin.z, ray.dir.z, p, q);
        let s3 = s2.narrowed(slab_of(self.z, ray.origin.z, ray.dir.z));
        s3.lemma_holds_nonempty(p, q);
    }

    /// A ray along one axis that passes through the middle of the box is found
    /// to intersect it: the ray runs along `axis`, its origin agrees with the
    /// point `center` of the box in the two other coordinates, and `center` is
    /// not behind it.
    pub proof fn lemma_axis_ray_through_center_intersects(self, ray: RayView, center: V3, axis: int)
        requires
            0 <= axis < 3,
            self.contains(center),
            ray.dir.axis(axis) != 0,
            forall|i: int| 0 <= i < 3 && i != axis ==> ray.dir.axis(i) == 0,
            forall|i: int| 0 <= i < 3 && i != axis ==> ray.origin.axis(i) == center.axis(i),
            ray.dir.axis(axis) > 0 ==> ray.origin.axis(axis) <= center.axis(axis),
            ray.dir.axis(axis) < 0 ==> ray.origin.axis(axis) >= center.axis(axis),
        ensures
            self.intersects(ray),
    {
        let d = ray.dir.axis(axis);
        let o = ray.origin.axis(axis);
        let c = center.axis(axis);
        let q = if d > 0 {
            d
        } else {
            -d
        };
        let p = if d > 0 {
            c - o
        } else {
            o - c
        };
        assert(ray.dir.axis(0) == ray.dir.x && ray.dir.axis(1) == ray.dir.y && ray.dir.axis(2)
            == ray.dir.z);
        assert(ray.origin.axis(0) == ray.origin.x && ray.origin.axis(1) == ray.origin.y
            && ray.origin.axis(2) == ray.origin.z);
        assert(center.axis(0) == center.x && center.axis(1) == center.y && center.axis(2)
            == center.z);
        assert(o * q + p * d == c * q) by (nonlinear_arith)
            requires
                (d > 0 && q == d && p == c - o) || (d < 0 && q == -d && p == o - c),
        ;
        assert forall|e: IntervalView, v: int| e.contains(v) implies #[trigger] within_faces(
            e,
            v,
            0,
            p,
            q,
        ) by {
            assert(e.low * q <= v * q + p * 0 <= e.high * q) by (nonlinear_arith)
                requires
                    e.low <= v <= e.high,
                    q > 0,
            ;
        }
        assert forall|e: IntervalView| e.contains(c) implies #[trigger] within_faces(
            e,
            o,
            d,
            p,
            q,
        ) by {
            assert(e.low * q <= c * q <= e.high * q) by (nonlinear_arith)
                requires
                    e.low <= c <= e.high,
                    q > 0,
            ;
        }
        if axis == 0 {
            assert(within_faces(self.x, ray.origin.x, ray.dir.x, p, q));
            assert(within_faces(self.y, center.y, 0, p, q));
            assert(within_faces(self.z, center.z, 0, p, q));
        } else if axis == 1 {
            assert(within_faces(self.y, ray.origin.y, ray.dir.y, p, q));
            assert(within_faces(self.x, center.x, 0, p, q));
            assert(within_faces(self.z, center.z, 0, p, q));
        } else {
            assert(within_faces(self.z, ray.origin.z, ray.dir.z, p, q));
            assert(within_faces(self.x, center.x, 0, p, q));
            assert(within_faces(self.y, center.y, 0, p, q));
        }
        self.lemma_ray_through_point_intersects(ray, p, q);
    }

    /// A ray that is found to intersect the box passes through it: there is
    /// a parameter `p / q`, zero or later, at which the ray's point lies between
    /// the faces of the box along every axis.
    pub proof fn lemma_intersecting_ray_passes_through(self, ray: RayView)
        requires
            self.intersects(ray),
        ensures
            exists|p: int, q: int|
                {
                    &&& q > 0
                    &&& p >= 0
                    &&& #[trigger] within_faces(self.x, ray.origin.x, ray.dir.x, p, q)
                    &&& within_faces(self.y, ray.origin.y, ray.dir.y, p, q)
                    &&& within_faces(self.z, ray.origin.z, ray.dir.z, p, q)
                },
    {
        let sx = slab_of(self.x, ray.origin.x, ray.dir.x);
        let sy = slab_of(self.y, ray.origin.y, ray.dir.y);
        let sz = slab_of(self.z, ray.origin.z, ray.dir.z);
        let s0 = Span::whole();
        let s1 = s0.narrowed(sx);
        let s2 = s1.narrowed(sy);
        let s3 = s2.narrowed(sz);
        s0.lemma_narrowed_forward(self.x, ray.origin.x, ray.dir.x);
        s1.lemma_narrowed_forward(self.y, ray.origin.y, ray.dir.y);
        s2.lemma_narrowed_forward(self.z, ray.origin.z, ray.dir.z);
        s0.lemma_narrowed_within(self.x, ray.origin.x, ray.dir.x);
        s1.lemma_narrowed_within(self.y, ray.origin.y, ray.dir.y);
        s2.lemma_narrowed_within(self.z, ray.origin.z, ray.dir.z);
        s1.lemma_narrowed_stays_within(sx, self.y, ray.origin.y, ray.dir.y);
        s2.lemma_narrowed_stays_within(sx, self.z, ray.origin.z, ray.dir.z);
        s2.lemma_narrowed_stays_within(sy, self.z, ray.origin.z, ray.dir.z);
        let (p, q) = match s3.tmax {
            None => (0int, 1int),
            Some(t) => (s3.tmin.num, s3.tmin.den),
        };
        s3.lemma_within_gives_faces(self.x, ray.origin.x, ray.dir.x, p, q);
        s3.lemma_within_gives_faces(self.y, ray.origin.y, ray.dir.y, p, q);
        s3.lemma_within_gives_faces(self.z, ray.origin.z, ray.dir.z, p, q);
    }

    /// A ray that starts beyond the box along some axis and does not move
    /// toward it along that axis is found to miss it.
    pub proof fn lemma_ray_outside_misses(self, ray: RayView, axis: int)
        requires
            0 <= axis < 3,
            (ray.origin.axis(axis) > self.axis(axis).high && ray.dir.axis(axis) >= 0) || (
            ray.origin.axis(axis) < self.axis(axis).low && ray.dir.axis(axis) <= 0),
        ensures
            !self.intersects(ray),
    {
        let s0 = Span::whole();
        let s1 = s0.narrowed(slab_of(self.x, ray.origin.x, ray.dir.x));
        let s2 = s1.narrowed(slab_of(self.y, ray.origin.y, ray.dir.y));
        let s3 = s2.narrowed(slab_of(self.z, ray.origin.z, ray.dir.z));
        s0.lemma_narrowed_forward(self.x, ray.origin.x, ray.dir.x);
        s1.lemma_narrowed_forward(self.y, ray.origin.y, ray.dir.y);
        s2.lemma_narrowed_forward(self.z, ray.origin.z, ray.dir.z);
        if axis == 0 {
            s0.lemma_narrowed_by_missed_axis(self.x, ray.origin.x, ray.dir.x);
            s1.lemma_narrowed_spent(self.y, ray.origin.y, ray.dir.y);
            s2.lemma_narrowed_spent(self.z, ray.origin.z, ray.dir.z);
        } else if axis == 1 {
            s1.lemma_narrowed_by_missed_axis(self.y, ray.origin.y, ray.dir.y);
            s2.lemma_narrowed_spent(self.z, ray.origin.z, ray.dir.z);
        } else {
            s2.lemma_narrowed_by_missed_axis(self.z, ray.origin.z, ray.dir.z);
        }
        s3.lemma_spent_empty();
    }
}

/// A fraction as the slab test holds it while it runs.
#[derive(Clone, Copy)]
struct Bound {
    num: i128,
    den: i128,
}

impl Bound {
    spec fn fits(self) -> bool {
        &&& -2 * LIMIT <= self.num <= 2 * LIMIT
        &&& 0 < self.den <= LIMIT
    }

    spec fn ratio(self) -> Ratio {
        Ratio { num: self.num as int, den: self.den as int }
    }

    fn le(self, o: Bound) -> (r: bool)
        requires
            self.fits(),
            o.fits(),
        ensures
            r == self.ratio().le(o.ratio()),
    {
        proof {
            lemma_cross_product_fits(self.num as int, o.den as int);
            lemma_cross_product_fits(o.num as int, self.den as int);
        }
        self.num * o.den <= o.num * self.den
    }
}

/// A numerator times a denominator fits in 128 bits.
proof fn lemma_cross_product_fits(num: int, den: int)
    requires
        -2 * LIMIT <= num <= 2 * LIMIT,
        0 < den <= LIMIT,
    ensures
        -2 * LIMIT * LIMIT <= num * den <= 2 * LIMIT * LIMIT,
{
    let m = LIMIT as int;
    assert(-2 * m * m <= num * den <= 2 * m * m) by (nonlinear_arith)
        requires
            -2 * m <= num <= 2 * m,
            0 < den <= m,
    ;
}

/// The slab test's running state.
struct Reach {
    open: bool,
    tmin: Bound,
    tmax: Option<Bound>,
}

impl Reach {
    spec fn fits(self) -> bool {
        &&& self.tmin.fits()
        &&& match self.tmax {
            None => true,
            Some(t) => t.fits(),
        }
    }

    spec fn span(self) -> Span {
        Span {
            open: self.open,
            tmin: self.tmin.ratio(),
            tmax: match self.tmax {
                None => None,
                Some(t) => Some(t.ratio()),
            },
        }
    }

    fn narrow(self, extent: Interval, origin: Fixed, dir: Fixed) -> (r: Reach)
        requires
            self.fits(),
        ensures
            r.fits(),
            r.span() == self.span().narrowed(slab_of(extent@, origin@, dir@)),
    {
        let low = extent.get_val(0).raw() as i128;
        let high = extent.get_val(1).raw() as i128;
        let o = origin.raw() as i128;
        let d = dir.raw() as i128;
        if d == 0 {
            if low <= o && o <= high {
                self
            } else {
                Reach { open: false, tmin: self.tmin, tmax: self.tmax }
            }
        } else {
            let (near, far) = if d > 0 {
                (Bound { num: low - o, den: d }, Bound { num: high - o, den: d })
            } else {
                (Bound { num: o - high, den: -d }, Bound { num: o - low, den: -d })
            };
            let tmin = if near.le(self.tmin) {
                self.tmin
            } else {
                near
            };
            let tmax = match self.tmax {
                None => far,
                Some(t) => if t.le(far) {
                    t
                } else {
                    far
                },
            };
            Reach { open: self.open, tmin, tmax: Some(tmax) }
        }
    }
}

/// An axis-aligned box around a group of primitives.
#[derive(Clone, Copy)]
pub struct Bbox {
    x: Interval,
    y: Interval,
    z: Interval,
}

impl View for Bbox {
    type V = BboxView;

    closed spec fn view(&self) -> BboxView {
        BboxView { x: self.x@, y: self.y@, z: self.z@ }
    }
}

impl Bbox {
    /// The box with the given extent along each axis.
    pub fn new(x: Interval, y: Interval, z: Interval) -> (r: Bbox)
        ensures
            r@ == (BboxView { x: x@, y: y@, z: z@ }),
    {
        Bbox { x, y, z }
    }

    /// The smallest box around three points.
    pub fn from_points(a: Point3, b: Point3, c: Point3) -> (r: Bbox)
        ensures
            r@ == BboxView::around(a@, b@, c@),
            r@.contains(a@) && r@.contains(b@) && r@.contains(c@),
    {
        Bbox {
            x: Interval::new(a.x.min(b.x.min(c.x)), a.x.max(b.x.max(c.x))),
            y: Interval::new(a.y.min(b.y.min(c.y)), a.y.max(b.y.max(c.y))),
            z: Interval::new(a.z.min(b.z.min(c.z)), a.z.max(b.z.max(c.z))),
        }
    }

    /// The extent along axis `i`.
    pub fn axis_interval(&self, i: usize) -> (r: Interval)
        requires
            i < 3,
        ensures
            r@ == self@.axis(i as int),
    {
        if i == 0 {
            self.x
        } else if i == 1 {
            self.y
        } else {
            self.z
        }
    }

    /// Whether `ray` passes through the box at some parameter from zero on:
    /// whether, after the span of the ray has been cut down to each of the
    /// three slabs in turn, its lower end is still no greater than its upper
    /// end.
    pub fn intersects(&self, ray: Ray) -> (r: bool)
        ensures
            r == self@.intersects(ray@),
    {
        let origin = ray.origin();
        let dir = ray.dir();
        let mut reach = Reach { open: true, tmin: Bound { num: 0, den: 1 }, tmax: None };
        reach = reach.narrow(self.x, origin.x, dir.x);
        reach = reach.narrow(self.y, origin.y, dir.y);
        reach = reach.narrow(self.z, origin.z, dir.z);
        reach.open && match reach.tmax {
            None => true,
            Some(t) => reach.tmin.le(t),
        }
    }
}

impl Default for Bbox {
    fn default() -> (r: Bbox)
        ensures
            r@ == (BboxView {
                x: IntervalView { low: 0, high: 0 },
                y: IntervalView { low: 0, high: 0 },
                z: IntervalView { low: 0, high: 0 },
            }),
    {
        Bbox { x: Interval::default(), y: Interval::default(), z: Interval::default() }
    }
}

} // verus!
