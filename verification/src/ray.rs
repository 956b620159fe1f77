//! Rays and the closed intervals of the ray parameter that a search is
//! confined to.

use crate::fixed::{Fixed, LIMIT};
use crate::vec3::{Vec3, V3};
use vstd::prelude::*;

verus! {

/// A point in space: a vector from the world's origin.
pub type Point3 = Vec3;

/// The view of a [`Ray`].
pub struct RayView {
    pub origin: V3,
    pub dir: V3,
}

impl RayView {
    /// The point `origin + t * dir`.
    pub open spec fn at(self, t: int) -> V3 {
        self.origin.plus(self.dir.scaled(t))
    }
}

/// A half-line from an origin along a direction.
#[derive(Clone, Copy, Debug)]
pub struct Ray {
    origin: Point3,
    dir: Vec3,
}

impl View for Ray {
    type V = RayView;

    closed spec fn view(&self) -> RayView {
        RayView { origin: self.origin@, dir: self.dir@ }
    }
}

impl Ray {
    /// The ray from `origin` along `dir`.
    pub fn new(origin: Point3, dir: Vec3) -> (r: Ray)
        ensures
            r@ == (RayView { origin: origin@, dir: dir@ }),
    {
        Ray { origin, dir }
    }

    /// The point at parameter `t`.
    pub fn at(&self, t: Fixed) -> (r: Point3)
        ensures
            r@ == self@.at(t@),
    {
        self.origin.plus(self.dir.scaled(t))
    }

    /// Where the ray starts.
    pub fn origin(&self) -> (r: Point3)
        ensures
            r@ == self@.origin,
    {
        self.origin
    }

    /// The direction the ray runs in.
    pub fn dir(&self) -> (r: Vec3)
        ensures
            r@ == self@.dir,
    {
        self.dir
    }
}

impl Default for Ray {
    fn default() -> (r: Ray)
        ensures
            r@ == (RayView { origin: V3::zero(), dir: V3::zero() }),
    {
        Ray { origin: Vec3::default(), dir: Vec3::default() }
    }
}

/// The view of an [`Interval`]: its two ends in raw units.
pub struct IntervalView {
    pub low: int,
    pub high: int,
}

impl IntervalView {
    /// Whether `t` lies between the two ends, the ends included.
    pub open spec fn contains(self, t: int) -> bool {
        self.low <= t <= self.high
    }

    /// `t` moved to the nearer end where it lies outside. The upper end is
    /// tried first, so an interval whose ends are crossed sends a `t` above its
    /// upper end there.
    pub open spec fn clamp(self, t: int) -> int {
        if t > self.high {
            self.high
        } else if t < self.low {
            self.low
        } else {
            t
        }
    }

    /// End `i`: the lower for 0, the upper for 1.
    pub open spec fn end(self, i: int) -> int {
        if i == 0 {
            self.low
        } else {
            self.high
        }
    }
}

/// A closed range `[low, high]` of a scalar.
#[derive(Clone, Copy, Debug)]
pub struct Interval {
    low: Fixed,
    high: Fixed,
}

impl View for Interval {
    type V = IntervalView;

    closed spec fn view(&self) -> IntervalView {
        IntervalView { low: self.low@, high: self.high@ }
    }
}

impl Interval {
    /// The interval from `begin` to `end`.
    pub fn new(begin: Fixed, end: Fixed) -> (r: Interval)
        ensures
            r@ == (IntervalView { low: begin@, high: end@ }),
    {
        Interval { low: begin, high: end }
    }

    /// The interval that holds nothing: from positive to negative infinity.
    pub fn empty() -> (r: Interval)
        ensures
            r@ == (IntervalView { low: LIMIT as int, high: -LIMIT as int }),
            forall|t: int| !r@.contains(t),
    {
        Interval { low: Fixed::infinity(), high: Fixed::neg_infinity() }
    }

    /// The interval that holds every number.
    pub fn any() -> (r: Interval)
        ensures
            r@ == (IntervalView { low: -LIMIT as int, high: LIMIT as int }),
    {
        Interval { low: Fixed::neg_infinity(), high: Fixed::infinity() }
    }

    /// Whether `t` lies in the interval.
    pub fn contains(&self, t: Fixed) -> (r: bool)
        ensures
            r == self@.contains(t@),
    {
        t >= self.low && t <= self.high
    }

    /// `t` moved to the nearer end where it lies outside.
    pub fn clamp(&self, t: Fixed) -> (r: Fixed)
        ensures
            r@ == self@.clamp(t@),
    {
        if t > self.high {
            return self.high;
        } else if t < self.low {
            return self.low;
        }
        t
    }

    /// End `i`: the lower for 0, the upper for 1.
    pub fn get_val(&self, i: usize) -> (r: Fixed)
        requires
            i < 2,
        ensures
            r@ == self@.end(i as int),
    {
        if i == 0 {
            self.low
        } else {
            self.high
        }
    }
}

impl Default for Interval {
    fn default() -> (r: Interval)
        ensures
            r@ == (IntervalView { low: 0, high: 0 }),
    {
        Interval { low: Fixed::zero(), high: Fixed::zero() }
    }
}

} // verus!
