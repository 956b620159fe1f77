//! Exact cross products and their normalisation.
//!
//! The cross product of two vectors of fixed-point numbers is formed without
//! rounding, as three wide integers. To bring it to unit length it is first
//! brought to a working size, doubled or halved until its longest component
//! lies between `WORK_LOW` and `WORK_HIGH`, so that the length of a small
//! product is known as finely as that of a large one. A product that is not
//! zero therefore always has a normal of unit length.

use crate::fixed::{
    floor_sqrt, floor_sqrt_wide, fx_mul, lemma_floor_sqrt_exists, lemma_square_parts, quotient,
    Fixed, LIMIT, SCALE,
};
use crate::vec3::{Vec3, UNIT_TOLERANCE, V3};
use vstd::prelude::*;

verus! {

/// The least magnitude of the longest component at working size: `2^38`.
pub const WORK_LOW: i128 = 0x40_0000_0000;

/// The bound below which the longest component lies at working size: `2^39`.
pub const WORK_HIGH: i128 = 0x80_0000_0000;

/// The magnitude of `v`.
pub open spec fn magnitude(v: int) -> int {
    if v < 0 {
        -v
    } else {
        v
    }
}

/// The magnitude of the longest of three values.
pub open spec fn reach(v: V3) -> int {
    let (x, y, z) = (magnitude(v.x), magnitude(v.y), magnitude(v.z));
    if x >= y && x >= z {
        x
    } else if y >= z {
        y
    } else {
        z
    }
}

/// The exact cross product of two vectors, in squared raw units.
pub open spec fn exact_cross(a: V3, b: V3) -> V3 {
    V3 { x: a.y * b.z - a.z * b.y, y: a.z * b.x - a.x * b.z, z: a.x * b.y - a.y * b.x }
}

/// Every component doubled.
pub open spec fn doubled(v: V3) -> V3 {
    V3 { x: 2 * v.x, y: 2 * v.y, z: 2 * v.z }
}

/// Every component halved, rounded toward zero.
pub open spec fn halved(v: V3) -> V3 {
    V3 { x: quotient(v.x, 2), y: quotient(v.y, 2), z: quotient(v.z, 2) }
}

/// The vector doubled until its longest component reaches [`WORK_LOW`]; the
/// zero vector as it is.
pub open spec fn grown(v: V3) -> V3
    decreases 2 * WORK_LOW - reach(v),
{
    if reach(v) <= 0 || reach(v) >= WORK_LOW {
        v
    } else {
        grown(doubled(v))
    }
}

/// The vector halved until its longest component lies below [`WORK_HIGH`].
pub open spec fn shrunken(v: V3) -> V3
    decreases reach(v),
{
    if reach(v) < WORK_HIGH {
        v
    } else {
        shrunken(halved(v))
    }
}

/// The vector at working size.
pub open spec fn sized(v: V3) -> V3 {
    if reach(v) < WORK_LOW {
        grown(v)
    } else {
        shrunken(v)
    }
}

/// The squared length of a vector of whole numbers.
pub open spec fn square_sum(v: V3) -> int {
    v.x * v.x + v.y * v.y + v.z * v.z
}

/// The vector of unit length, in raw units, along a vector of whole numbers
/// at working size: every component times `SCALE`, divided by the length and
/// rounded toward zero.
pub open spec fn unit_at_size(w: V3) -> V3 {
    let m = floor_sqrt(square_sum(w));
    V3 {
        x: quotient(w.x * SCALE, m),
        y: quotient(w.y * SCALE, m),
        z: quotient(w.z * SCALE, m),
    }
}

/// The vector of unit length along a vector of whole numbers, and the zero
/// vector for the zero vector.
pub open spec fn unit_of(v: V3) -> V3 {
    if reach(v) == 0 {
        V3::zero()
    } else {
        unit_at_size(sized(v))
    }
}

/// Doubling and halving do to the longest component what they do to every
/// component.
pub proof fn lemma_reach_scaled(v: V3)
    ensures
        reach(doubled(v)) == 2 * reach(v),
        reach(halved(v)) == reach(v) / 2,
        reach(v) >= 0,
{
}

/// A vector that is not zero has, at working size, a longest component
/// between [`WORK_LOW`] and [`WORK_HIGH`].
pub proof fn lemma_sized(v: V3)
    requires
        reach(v) != 0,
    ensures
        WORK_LOW <= reach(sized(v)) < WORK_HIGH,
{
    lemma_reach_scaled(v);
    if reach(v) < WORK_LOW {
        lemma_grown(v);
    } else {
        lemma_shrunken(v);
    }
}

/// Growing stops between the two bounds.
pub proof fn lemma_grown(v: V3)
    requires
        0 < reach(v) < WORK_LOW,
    ensures
        WORK_LOW <= reach(grown(v)) < WORK_HIGH,
    decreases 2 * WORK_LOW - reach(v),
{
    lemma_reach_scaled(v);
    assert(grown(v) == grown(doubled(v)));
    if reach(doubled(v)) < WORK_LOW {
        lemma_grown(doubled(v));
    } else {
        assert(grown(doubled(v)) == doubled(v));
    }
}

/// Shrinking stops between the two bounds.
pub proof fn lemma_shrunken(v: V3)
    requires
        WORK_LOW <= reach(v),
    ensures
        WORK_LOW <= reach(shrunken(v)) < WORK_HIGH,
    decreases reach(v),
{
    lemma_reach_scaled(v);
    if reach(v) >= WORK_HIGH {
        lemma_shrunken(halved(v));
    }
}

/// A vector at working size comes out with unit length: the squared length of
/// its unit vector is one within the tolerance, and no component is longer
/// than one.
pub proof fn lemma_unit_at_size(w: V3)
    requires
        WORK_LOW <= reach(w) < WORK_HIGH,
    ensures
        unit_at_size(w).has_unit_length(),
        -SCALE <= unit_at_size(w).x <= SCALE,
        -SCALE <= unit_at_size(w).y <= SCALE,
        -SCALE <= unit_at_size(w).z <= SCALE,
{
    let s: int = 1_000_000;
    let t: int = 1_000;
    let lo: int = 0x40_0000_0000;
    let hi: int = 0x80_0000_0000;
    assert(SCALE == s && UNIT_TOLERANCE == t && WORK_LOW == lo && WORK_HIGH == hi);
    let (ax, ay, az) = (magnitude(w.x), magnitude(w.y), magnitude(w.z));
    let a2 = ax * ax + ay * ay + az * az;
    assert(square_sum(w) == a2) by (nonlinear_arith)
        requires
            ax == w.x || ax == -w.x,
            ay == w.y || ay == -w.y,
            az == w.z || az == -w.z,
            a2 == ax * ax + ay * ay + az * az,
            square_sum(w) == w.x * w.x + w.y * w.y + w.z * w.z,
    ;
    assert(lo * lo <= a2 < 3 * (hi * hi)) by (nonlinear_arith)
        requires
            0 <= ax < hi,
            0 <= ay < hi,
            0 <= az < hi,
            ax >= lo || ay >= lo || az >= lo,
            a2 == ax * ax + ay * ay + az * az,
            0 < lo,
    ;
    lemma_floor_sqrt_exists(a2);
    let m = floor_sqrt(a2);
    assert(lo <= m && ax <= m && ay <= m && az <= m) by (nonlinear_arith)
        requires
            0 <= m,
            a2 < (m + 1) * (m + 1),
            lo * lo <= a2,
            a2 == ax * ax + ay * ay + az * az,
            0 <= ax,
            0 <= ay,
            0 <= az,
            0 < lo,
    {
        if m + 1 <= lo {
            assert((m + 1) * (m + 1) <= lo * lo);
        }
        if ax >= m + 1 {
            assert(ax * ax >= (m + 1) * (m + 1));
        }
        if ay >= m + 1 {
            assert(ay * ay >= (m + 1) * (m + 1));
        }
        if az >= m + 1 {
            assert(az * az >= (m + 1) * (m + 1));
        }
    }
    let u = unit_at_size(w);
    lemma_unit_component(w.x, m);
    lemma_unit_component(w.y, m);
    lemma_unit_component(w.z, m);
    let (vx, vy, vz) = (magnitude(u.x), magnitude(u.y), magnitude(u.z));
    lemma_square_parts(u.x);
    lemma_square_parts(u.y);
    lemma_square_parts(u.z);
    let (dx, dy, dz) = (fx_mul(u.x, u.x), fx_mul(u.y, u.y), fx_mul(u.z, u.z));
    let d = dx + dy + dz;
    let v2 = vx * vx + vy * vy + vz * vz;
    assert(d * s <= v2 < (d + 3) * s) by (nonlinear_arith)
        requires
            dx * s <= u.x * u.x < (dx + 1) * s,
            dy * s <= u.y * u.y < (dy + 1) * s,
            dz * s <= u.z * u.z < (dz + 1) * s,
            u.x * u.x == vx * vx,
            u.y * u.y == vy * vy,
            u.z * u.z == vz * vz,
            d == dx + dy + dz,
            v2 == vx * vx + vy * vy + vz * vz,
    ;
    assert(0 <= d <= 3 * s) by (nonlinear_arith)
        requires
            d * s <= v2,
            0 <= dx,
            0 <= dy,
            0 <= dz,
            d == dx + dy + dz,
            v2 == vx * vx + vy * vy + vz * vz,
            0 <= vx <= s,
            0 <= vy <= s,
            0 <= vz <= s,
            s == 1_000_000,
    ;
    assert(u.dot(u) == d);
    let mm = m * m;
    assert(mm > 0 && mm <= a2 && a2 < mm + 2 * m + 1) by (nonlinear_arith)
        requires
            mm == m * m,
            m >= lo,
            lo > 0,
            m * m <= a2,
            a2 < (m + 1) * (m + 1),
    ;
    assert(0 <= vx * m && 0 <= vy * m && 0 <= vz * m) by (nonlinear_arith)
        requires
            0 <= vx,
            0 <= vy,
            0 <= vz,
            0 <= m,
    ;
    lemma_scaled_square(vx, m, ax, s);
    lemma_scaled_square(vy, m, ay, s);
    lemma_scaled_square(vz, m, az, s);
    assert(v2 * mm == (vx * vx) * mm + (vy * vy) * mm + (vz * vz) * mm) by (nonlinear_arith)
        requires
            v2 == vx * vx + vy * vy + vz * vz,
    ;
    assert(a2 * (s * s) == (ax * ax) * (s * s) + (ay * ay) * (s * s) + (az * az) * (s * s))
        by (nonlinear_arith)
        requires
            a2 == ax * ax + ay * ay + az * az,
    ;
    assert(v2 * mm <= a2 * (s * s));
    assert((2 * m + 1) * s <= t * mm) by (nonlinear_arith)
        requires
            mm == m * m,
            m >= 0x40_0000_0000,
            s == 1_000_000,
            t == 1_000,
    ;
    assert(v2 < (s + t) * s) by (nonlinear_arith)
        requires
            v2 * mm <= a2 * (s * s),
            a2 < mm + 2 * m + 1,
            (2 * m + 1) * s <= t * mm,
            mm > 0,
            s == 1_000_000,
            0 <= v2,
    {
        assert(a2 * (s * s) < (mm + 2 * m + 1) * (s * s));
        assert((mm + 2 * m + 1) * (s * s) == mm * (s * s) + ((2 * m + 1) * s) * s);
        assert(((2 * m + 1) * s) * s <= (t * mm) * s);
        assert(v2 * mm < ((s + t) * s) * mm);
    }
    assert(d < s + t) by (nonlinear_arith)
        requires
            d * s <= v2,
            v2 < (s + t) * s,
            s == 1_000_000,
    ;
    let w2 = (vx + 1) * (vx + 1) + (vy + 1) * (vy + 1) + (vz + 1) * (vz + 1);
    assert(ax * s >= 0 && ay * s >= 0 && az * s >= 0) by (nonlinear_arith)
        requires
            0 <= ax,
            0 <= ay,
            0 <= az,
            s == 1_000_000,
    ;
    lemma_scaled_square_above(vx + 1, m, ax, s);
    lemma_scaled_square_above(vy + 1, m, ay, s);
    lemma_scaled_square_above(vz + 1, m, az, s);
    assert(w2 * mm == ((vx + 1) * (vx + 1)) * mm + ((vy + 1) * (vy + 1)) * mm + ((vz + 1) * (vz
        + 1)) * mm) by (nonlinear_arith)
        requires
            w2 == (vx + 1) * (vx + 1) + (vy + 1) * (vy + 1) + (vz + 1) * (vz + 1),
    ;
    assert(w2 * mm > a2 * (s * s));
    assert(w2 > s * s) by (nonlinear_arith)
        requires
            w2 * mm > a2 * (s * s),
            a2 >= mm,
            mm > 0,
            s == 1_000_000,
    {
        assert(a2 * (s * s) >= mm * (s * s));
        assert(w2 * mm > (s * s) * mm);
    }
    assert(w2 == v2 + 2 * (vx + vy + vz) + 3) by (nonlinear_arith)
        requires
            w2 == (vx + 1) * (vx + 1) + (vy + 1) * (vy + 1) + (vz + 1) * (vz + 1),
            v2 == vx * vx + vy * vy + vz * vz,
    ;
    assert(d > s - t) by (nonlinear_arith)
        requires
            v2 < (d + 3) * s,
            v2 + 6 * s + 3 >= s * s + 1,
            s == 1_000_000,
            t == 1_000,
    ;
}

/// Squaring keeps the order of two products that are not negative.
proof fn lemma_scaled_square(v: int, m: int, a: int, s: int)
    requires
        0 <= v * m <= a * s,
    ensures
        (v * v) * (m * m) <= (a * a) * (s * s),
{
    let p = v * m;
    let q = a * s;
    assert(p * p <= q * q) by (nonlinear_arith)
        requires
            0 <= p <= q,
    ;
    assert(p * p == (v * v) * (m * m)) by (nonlinear_arith)
        requires
            p == v * m,
    ;
    assert(q * q == (a * a) * (s * s)) by (nonlinear_arith)
        requires
            q == a * s,
    ;
}

/// Squaring keeps the strict order of two products, the smaller of which is
/// not negative.
proof fn lemma_scaled_square_above(v: int, m: int, a: int, s: int)
    requires
        v * m > a * s,
        a * s >= 0,
    ensures
        (v * v) * (m * m) > (a * a) * (s * s),
{
    let p = v * m;
    let q = a * s;
    assert(p * p > q * q) by (nonlinear_arith)
        requires
            p > q,
            q >= 0,
    ;
    assert(p * p == (v * v) * (m * m)) by (nonlinear_arith)
        requires
            p == v * m,
    ;
    assert(q * q == (a * a) * (s * s)) by (nonlinear_arith)
        requires
            q == a * s,
    ;
}

/// One component of a unit vector: its magnitude `v` is the largest with
/// `v * m <= |x| * SCALE`, and it is at most one.
pub proof fn lemma_unit_component(x: int, m: int)
    requires
        0 < m,
        magnitude(x) <= m,
    ensures
        ({
            let u = quotient(x * SCALE, m);
            let v = magnitude(u);
            let a = magnitude(x);
            &&& 0 <= v <= SCALE
            &&& v * m <= a * SCALE < (v + 1) * m
            &&& u * u == v * v
        }),
{
    let s: int = 1_000_000;
    let a = magnitude(x);
    let n = a * s;
    vstd::arithmetic::div_mod::lemma_fundamental_div_mod(n, m);
    let v = n / m;
    assert(m * v <= n < m * v + m);
    assert(0 <= v <= s) by (nonlinear_arith)
        requires
            m * v <= n,
            n < m * v + m,
            n == a * s,
            0 <= a <= m,
            0 < m,
            s == 1_000_000,
    ;
    assert(x * s == if x < 0 {
        -n
    } else {
        n
    });
    let u = quotient(x * SCALE, m);
    assert(u == if x < 0 {
        -v
    } else {
        v
    });
    assert(u * u == v * v) by (nonlinear_arith)
        requires
            u == v || u == -v,
    ;
    assert(v * m == m * v) by (nonlinear_arith);
    assert((v + 1) * m == m * v + m) by (nonlinear_arith);
}

/// The unit vector along a vector that is not zero has unit length.
pub proof fn lemma_unit_of(v: V3)
    requires
        reach(v) != 0,
    ensures
        unit_of(v).has_unit_length(),
        unit_of(v).bounded(),
{
    lemma_sized(v);
    lemma_unit_at_size(sized(v));
}

/// Three wide whole numbers.
pub struct Wide3 {
    pub x: i128,
    pub y: i128,
    pub z: i128,
}

impl View for Wide3 {
    type V = V3;

    open spec fn view(&self) -> V3 {
        V3 { x: self.x as int, y: self.y as int, z: self.z as int }
    }
}

/// The magnitude of a wide number above the least.
fn wide_magnitude(v: i128) -> (r: i128)
    requires
        v > i128::MIN,
    ensures
        r == magnitude(v as int),
{
    if v < 0 {
        -v
    } else {
        v
    }
}

/// One component of an exact cross product: `a * b - c * d`.
fn cross_component(a: Fixed, b: Fixed, c: Fixed, d: Fixed) -> (r: i128)
    ensures
        r == a@ * b@ - c@ * d@,
        -0x7fff_ffff_ffff_ffff_ffff_ffff_ffff_ffff <= r,
{
    let (a, b, c, d) = (a.raw() as i128, b.raw() as i128, c.raw() as i128, d.raw() as i128);
    let m: i128 = LIMIT as i128;
    assert(-(m * m) <= a * b <= m * m && -(m * m) <= c * d <= m * m) by (nonlinear_arith)
        requires
            -m <= a <= m,
            -m <= b <= m,
            -m <= c <= m,
            -m <= d <= m,
            m >= 0,
    ;
    assert(m * m == 0x3fff_ffff_ffff_ffff_0000_0000_0000_0001) by (nonlinear_arith)
        requires
            m == 0x7fff_ffff_ffff_ffff,
    ;
    a * b - c * d
}

/// The exact cross product of two vectors.
pub fn exact_cross_of(a: Vec3, b: Vec3) -> (r: Wide3)
    ensures
        r@ == exact_cross(a@, b@),
        r.x > i128::MIN && r.y > i128::MIN && r.z > i128::MIN,
{
    Wide3 {
        x: cross_component(a.y, b.z, a.z, b.y),
        y: cross_component(a.z, b.x, a.x, b.z),
        z: cross_component(a.x, b.y, a.y, b.x),
    }
}

/// The longest magnitude among the components.
fn reach_of(v: &Wide3) -> (r: i128)
    requires
        v.x > i128::MIN && v.y > i128::MIN && v.z > i128::MIN,
    ensures
        r == reach(v@),
{
    let (x, y, z) = (wide_magnitude(v.x), wide_magnitude(v.y), wide_magnitude(v.z));
    if x >= y && x >= z {
        x
    } else if y >= z {
        y
    } else {
        z
    }
}

/// The vector at working size.
pub fn sized_of(v: Wide3) -> (w: Wide3)
    requires
        v.x > i128::MIN && v.y > i128::MIN && v.z > i128::MIN,
    ensures
        w@ == sized(v@),
        reach(w@) < WORK_HIGH,
        -WORK_HIGH < w.x < WORK_HIGH && -WORK_HIGH < w.y < WORK_HIGH && -WORK_HIGH < w.z
            < WORK_HIGH,
{
    let first = reach_of(&v);
    if first == 0 {
        return v;
    }
    let mut w = v;
    let mut r = first;
    if first < WORK_LOW {
        while r < WORK_LOW
            invariant
                0 < r < WORK_HIGH,
                r == reach(w@),
                grown(v@) == grown(w@),
                first < WORK_LOW,
            decreases 2 * WORK_LOW - r,
        {
            proof {
                lemma_reach_scaled(w@);
            }
            w = Wide3 { x: 2 * w.x, y: 2 * w.y, z: 2 * w.z };
            r = 2 * r;
        }
    } else {
        while r >= WORK_HIGH
            invariant
                WORK_LOW <= r,
                r == reach(w@),
                shrunken(v@) == shrunken(w@),
                w.x > i128::MIN && w.y > i128::MIN && w.z > i128::MIN,
            decreases r,
        {
            proof {
                lemma_reach_scaled(w@);
            }
            w = Wide3 { x: w.x / 2, y: w.y / 2, z: w.z / 2 };
            r = r / 2;
        }
    }
    w
}

/// The dot product of a vector of whole numbers with a vector in raw units,
/// without rounding.
pub open spec fn exact_dot(w: V3, n: V3) -> int {
    w.x * n.x + w.y * n.y + w.z * n.z
}

/// The dot product of a vector at working size with a vector of fixed-point
/// numbers, without rounding.
pub fn exact_dot_of(w: &Wide3, n: Vec3) -> (r: i128)
    requires
        -WORK_HIGH < w.x < WORK_HIGH && -WORK_HIGH < w.y < WORK_HIGH && -WORK_HIGH < w.z
            < WORK_HIGH,
    ensures
        r == exact_dot(w@, n@),
{
    let (x, y, z) = (n.x.raw() as i128, n.y.raw() as i128, n.z.raw() as i128);
    let hi: i128 = WORK_HIGH;
    let m: i128 = LIMIT as i128;
    assert(-(hi * m) <= w.x * x <= hi * m && -(hi * m) <= w.y * y <= hi * m && -(hi * m) <= w.z
        * z <= hi * m) by (nonlinear_arith)
        requires
            -hi < w.x < hi,
            -hi < w.y < hi,
            -hi < w.z < hi,
            -m <= x <= m,
            -m <= y <= m,
            -m <= z <= m,
            hi > 0,
            m > 0,
    ;
    assert(hi * m < 0x80_0000_0000_0000_0000_0000_0000) by (nonlinear_arith)
        requires
            hi == 0x80_0000_0000,
            m == 0x7fff_ffff_ffff_ffff,
    ;
    w.x * x + w.y * y + w.z * z
}

/// The vector of unit length along `v`, and the zero vector for the zero
/// vector.
pub fn unit_of_wide(v: Wide3) -> (r: Vec3)
    requires
        v.x > i128::MIN && v.y > i128::MIN && v.z > i128::MIN,
    ensures
        r@ == unit_of(v@),
        reach(v@) != 0 ==> r@.has_unit_length(),
{
    let first = reach_of(&v);
    if first == 0 {
        return Vec3::default();
    }
    let w = sized_of(v);
    assert(w@ == sized(v@));
    proof {
        lemma_sized(v@);
        lemma_unit_at_size(w@);
    }
    assert(-WORK_HIGH < w.x < WORK_HIGH && -WORK_HIGH < w.y < WORK_HIGH && -WORK_HIGH < w.z
        < WORK_HIGH);
    let hi: i128 = WORK_HIGH;
    assert(0 <= w.x * w.x < hi * hi && 0 <= w.y * w.y < hi * hi && 0 <= w.z * w.z < hi * hi)
        by (nonlinear_arith)
        requires
            -hi < w.x < hi,
            -hi < w.y < hi,
            -hi < w.z < hi,
    ;
    assert(hi * hi == 0x4000_0000_0000_0000_0000) by (nonlinear_arith)
        requires
            hi == 0x80_0000_0000,
    ;
    let squares: u128 = (w.x * w.x + w.y * w.y + w.z * w.z) as u128;
    let m = floor_sqrt_wide(squares) as i128;
    proof {
        crate::fixed::lemma_floor_sqrt_is(squares as int, m as int);
    }
    assert(m == floor_sqrt(square_sum(w@)));
    assert(m >= WORK_LOW) by (nonlinear_arith)
        requires
            0 <= m,
            (w.x * w.x + w.y * w.y + w.z * w.z) < (m + 1) * (m + 1),
            reach(w@) >= 0x40_0000_0000,
            reach(w@) == magnitude(w.x as int) || reach(w@) == magnitude(w.y as int) || reach(w@)
                == magnitude(w.z as int),
            magnitude(w.x as int) == w.x || magnitude(w.x as int) == -w.x,
            magnitude(w.y as int) == w.y || magnitude(w.y as int) == -w.y,
            magnitude(w.z as int) == w.z || magnitude(w.z as int) == -w.z,
    {
        let k: int = 0x40_0000_0000;
        if m + 1 <= k {
            assert((m + 1) * (m + 1) <= k * k);
            assert(w.x * w.x >= 0 && w.y * w.y >= 0 && w.z * w.z >= 0);
            if reach(w@) == magnitude(w.x as int) {
                assert(w.x * w.x >= k * k);
            } else if reach(w@) == magnitude(w.y as int) {
                assert(w.y * w.y >= k * k);
            } else {
                assert(w.z * w.z >= k * k);
            }
        }
    }
    let scale: i128 = SCALE as i128;
    let x = (w.x * scale) / m;
    let y = (w.y * scale) / m;
    let z = (w.z * scale) / m;
    assert(x == unit_at_size(w@).x && y == unit_at_size(w@).y && z == unit_at_size(w@).z);
    Vec3::new(Fixed::from_raw(x as i64), Fixed::from_raw(y as i64), Fixed::from_raw(z as i64))
}

} // verus!
