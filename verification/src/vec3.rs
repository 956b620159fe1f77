//! Three-component vectors of fixed-point numbers, used for points,
//! directions, normals and colours alike.

use crate::fixed::{
    finite, floor_sqrt, fx_add, fx_div, fx_max, fx_mul, fx_neg, fx_sqrt, fx_sub, in_range,
    is_floor_sqrt, lemma_floor_sqrt_exists, lemma_floor_sqrt_is, lemma_mul_negated,
    lemma_mul_sign, lemma_quotient_parts, lemma_square_above_one, lemma_square_parts, saturate,
    Fixed, LIMIT, SCALE,
};
use core::ops::Neg;
use vstd::prelude::*;

verus! {

/// How many samples [`Vec3::random_unit`] draws before it gives up looking
/// for one inside the unit ball.
pub const UNIT_ATTEMPTS: u32 = 32;

/// By how much the squared length of a vector that was brought to unit
/// length can differ from one, in raw units: `0.001`.
pub const UNIT_TOLERANCE: i64 = 1_000;

/// The squared length, in raw units, that a sample must exceed to be brought
/// to unit length: `0.01`. Shorter samples are rejected, since their length
/// is known too coarsely for the division.
pub const UNIT_EPSILON: i64 = 10_000;

/// The power of two that brings a magnitude `m` below a half to at least a
/// half: the factor by which a short vector is multiplied before its length
/// is squared. It is one for zero and for a magnitude of a half or more.
pub open spec fn boost(m: int) -> int
    decreases SCALE - m,
{
    if m <= 0 || 2 * m >= SCALE {
        1
    } else {
        2 * boost(2 * m)
    }
}

/// A boost is a whole number from one on that brings the magnitude below
/// one, and to at least a half where the magnitude is not zero.
pub proof fn lemma_boost(m: int)
    requires
        0 <= m,
    ensures
        1 <= boost(m),
        2 * m >= SCALE ==> boost(m) == 1,
        0 < m && 2 * m < SCALE ==> SCALE <= 2 * (m * boost(m)) && m * boost(m) < SCALE,
        m == 0 ==> m * boost(m) == 0,
    decreases SCALE - m,
{
    if m > 0 && 2 * m < SCALE {
        lemma_boost(2 * m);
        let k = boost(2 * m);
        assert(m * (2 * k) == (2 * m) * k) by (nonlinear_arith);
        if 2 * (2 * m) >= SCALE {
            assert(k == 1);
        }
    } else {
        assert(m * 1 == m);
    }
}

/// The magnitude of a value multiplied by a whole number from one on, and
/// clamped, is the smaller of the product of the magnitudes and the limit.
pub proof fn lemma_scaled_magnitude(x: int, k: int)
    requires
        1 <= k,
    ensures
        ({
            let a = if x < 0 {
                -x
            } else {
                x
            };
            let s = saturate(x * k);
            let b = if s < 0 {
                -s
            } else {
                s
            };
            b == if a * k > LIMIT {
                LIMIT as int
            } else {
                a * k
            }
        }),
{
    assert((-x) * k == -(x * k)) by (nonlinear_arith);
    assert(x >= 0 ==> x * k >= 0) by (nonlinear_arith)
        requires
            1 <= k,
    ;
    assert(x < 0 ==> x * k < 0) by (nonlinear_arith)
        requires
            1 <= k,
    ;
}

/// The square of a value of a half or more is not zero.
pub proof fn lemma_square_of_half(x: int)
    ensures
        2 * x >= SCALE || 2 * x <= -SCALE ==> fx_mul(x, x) > 0,
{
    if 2 * x >= SCALE || 2 * x <= -SCALE {
        let s: int = 1_000_000;
        let p = x * x;
        assert(p >= 250_000 * s) by (nonlinear_arith)
            requires
                p == x * x,
                2 * x >= s || 2 * x <= -s,
                s == 1_000_000,
        ;
        vstd::arithmetic::div_mod::lemma_fundamental_div_mod(p, s);
        assert(p / s >= 250_000) by (nonlinear_arith)
            requires
                p == s * (p / s) + p % s,
                0 <= p % s < s,
                p >= 250_000 * s,
                s == 1_000_000,
        ;
    }
}

/// The view of a [`Vec3`]: its three components in raw units.
pub struct V3 {
    pub x: int,
    pub y: int,
    pub z: int,
}

impl V3 {
    /// The vector whose components are all zero.
    pub open spec fn zero() -> V3 {
        V3 { x: 0, y: 0, z: 0 }
    }

    /// Whether every component is a value a [`Fixed`] can hold.
    pub open spec fn bounded(self) -> bool {
        in_range(self.x) && in_range(self.y) && in_range(self.z)
    }

    /// Component `i`, and the first component for an `i` above 2.
    pub open spec fn axis(self, i: int) -> int {
        if i == 1 {
            self.y
        } else if i == 2 {
            self.z
        } else {
            self.x
        }
    }

    /// The componentwise negation.
    pub open spec fn negated(self) -> V3 {
        V3 { x: fx_neg(self.x), y: fx_neg(self.y), z: fx_neg(self.z) }
    }

    /// The componentwise sum.
    pub open spec fn plus(self, o: V3) -> V3 {
        V3 { x: fx_add(self.x, o.x), y: fx_add(self.y, o.y), z: fx_add(self.z, o.z) }
    }

    /// The componentwise difference.
    pub open spec fn minus(self, o: V3) -> V3 {
        V3 { x: fx_sub(self.x, o.x), y: fx_sub(self.y, o.y), z: fx_sub(self.z, o.z) }
    }

    /// Every component multiplied by `k`.
    pub open spec fn scaled(self, k: int) -> V3 {
        V3 { x: fx_mul(self.x, k), y: fx_mul(self.y, k), z: fx_mul(self.z, k) }
    }

    /// Every component divided by `k`.
    pub open spec fn shrunk(self, k: int) -> V3 {
        V3 { x: fx_div(self.x, k), y: fx_div(self.y, k), z: fx_div(self.z, k) }
    }

    /// The componentwise product.
    pub open spec fn times(self, o: V3) -> V3 {
        V3 { x: fx_mul(self.x, o.x), y: fx_mul(self.y, o.y), z: fx_mul(self.z, o.z) }
    }

    /// The dot product, summed from the first component on.
    pub open spec fn dot(self, o: V3) -> int {
        fx_add(fx_add(fx_mul(self.x, o.x), fx_mul(self.y, o.y)), fx_mul(self.z, o.z))
    }

    /// The cross product.
    pub open spec fn cross(self, o: V3) -> V3 {
        V3 {
            x: fx_sub(fx_mul(self.y, o.z), fx_mul(self.z, o.y)),
            y: fx_sub(fx_mul(self.z, o.x), fx_mul(self.x, o.z)),
            z: fx_sub(fx_mul(self.x, o.y), fx_mul(self.y, o.x)),
        }
    }

    /// The length.
    pub open spec fn magnitude(self) -> int {
        fx_sqrt(self.dot(self))
    }

    /// Whether every component lies strictly within the limit.
    pub open spec fn finite(self) -> bool {
        finite(self.x) && finite(self.y) && finite(self.z)
    }

    /// The magnitude of the longest component.
    pub open spec fn reach(self) -> int {
        let ax = if self.x < 0 {
            -self.x
        } else {
            self.x
        };
        let ay = if self.y < 0 {
            -self.y
        } else {
            self.y
        };
        let az = if self.z < 0 {
            -self.z
        } else {
            self.z
        };
        fx_max(ax, fx_max(ay, az))
    }

    /// Every component multiplied by the whole number `k`, without rounding.
    pub open spec fn times_whole(self, k: int) -> V3 {
        V3 { x: saturate(self.x * k), y: saturate(self.y * k), z: saturate(self.z * k) }
    }

    /// The vector multiplied by its [`boost`], so that its longest component
    /// is at least a half. No precision is lost, and a vector that is not zero
    /// has a squared length that is not zero.
    pub open spec fn boosted(self) -> V3 {
        self.times_whole(boost(self.reach()))
    }

    /// A vector with a component of a half or more has a squared length that
    /// is not zero.
    pub proof fn lemma_half_reach_has_length(self)
        requires
            2 * self.reach() >= SCALE,
        ensures
            self.dot(self) > 0,
    {
        lemma_mul_sign(self.x, self.x);
        lemma_mul_sign(self.y, self.y);
        lemma_mul_sign(self.z, self.z);
        lemma_square_of_half(self.x);
        lemma_square_of_half(self.y);
        lemma_square_of_half(self.z);
    }

    /// A boosted vector that is not zero has a component of a half or more,
    /// and so a squared length that is not zero.
    pub proof fn lemma_boosted_has_length(self)
        requires
            self.reach() != 0,
        ensures
            2 * self.boosted().reach() >= SCALE,
            self.boosted().dot(self.boosted()) > 0,
    {
        let m = self.reach();
        let k = boost(m);
        lemma_boost(m);
        lemma_scaled_magnitude(self.x, k);
        lemma_scaled_magnitude(self.y, k);
        lemma_scaled_magnitude(self.z, k);
        assert(2 * (m * k) >= SCALE) by {
            if 2 * m >= SCALE {
                assert(m * 1 == m);
            }
        }
        self.boosted().lemma_half_reach_has_length();
    }

    /// The vector brought to unit length: divided by its length.
    pub open spec fn unit(self) -> V3 {
        self.shrunk(self.magnitude())
    }

    /// The unit vector that looks down the negative `z` axis.
    pub open spec fn backward() -> V3 {
        V3 { x: 0, y: 0, z: -SCALE as int }
    }

    /// Whether the vector is what [`Vec3::random_unit`] can return: a sample
    /// from the cube `[-1, 1)^3` that lies in the unit ball, brought to unit
    /// length.
    pub open spec fn is_unit_draw(self) -> bool {
        exists|sample: V3|
            sample.within(-SCALE as int, SCALE as int) && sample.in_unit_ball() && self
                == #[trigger] sample.unit()
    }

    /// Whether the squared length is one within [`UNIT_TOLERANCE`].
    pub open spec fn has_unit_length(self) -> bool {
        SCALE - UNIT_TOLERANCE <= self.dot(self) <= SCALE + UNIT_TOLERANCE
    }

    /// A vector of the unit ball that was brought to unit length has unit
    /// length: its squared length is one within the tolerance.
    pub proof fn lemma_unit_has_unit_length(self)
        requires
            -SCALE <= self.x <= SCALE,
            -SCALE <= self.y <= SCALE,
            -SCALE <= self.z <= SCALE,
            self.in_unit_ball(),
        ensures
            self.unit().has_unit_length(),
            self.unit().within(-10 * SCALE, 10 * SCALE + 1),
    {
        let s: int = 1_000_000;
        let t: int = 1_000;
        assert(SCALE == s && UNIT_TOLERANCE == t && UNIT_EPSILON == 10_000);
        let (x, y, z) = (self.x, self.y, self.z);
        let ax = if x < 0 {
            -x
        } else {
            x
        };
        let ay = if y < 0 {
            -y
        } else {
            y
        };
        let az = if z < 0 {
            -z
        } else {
            z
        };
        // The squared length of the sample.
        lemma_square_parts(x);
        lemma_square_parts(y);
        lemma_square_parts(z);
        let (qx, qy, qz) = (fx_mul(x, x), fx_mul(y, y), fx_mul(z, z));
        assert(x * x == ax * ax && y * y == ay * ay && z * z == az * az) by (nonlinear_arith)
            requires
                ax == x || ax == -x,
                ay == y || ay == -y,
                az == z || az == -z,
        ;
        assert(qx <= s && qy <= s && qz <= s) by (nonlinear_arith)
            requires
                qx * s <= ax * ax,
                qy * s <= ay * ay,
                qz * s <= az * az,
                0 <= ax <= s,
                0 <= ay <= s,
                0 <= az <= s,
                s == 1_000_000,
        ;
        let m2 = qx + qy + qz;
        assert(self.dot(self) == m2);
        let a2 = ax * ax + ay * ay + az * az;
        assert(m2 * s <= a2 < (m2 + 3) * s) by (nonlinear_arith)
            requires
                qx * s <= ax * ax < (qx + 1) * s,
                qy * s <= ay * ay < (qy + 1) * s,
                qz * s <= az * az < (qz + 1) * s,
                m2 == qx + qy + qz,
                a2 == ax * ax + ay * ay + az * az,
        ;
        // Its length.
        assert(0 <= m2 * s) by (nonlinear_arith)
            requires
                0 <= m2,
                s == 1_000_000,
        ;
        lemma_floor_sqrt_exists(m2 * s);
        let m = floor_sqrt(m2 * s);
        assert(m == self.magnitude());
        assert(100_000 <= m <= s) by (nonlinear_arith)
            requires
                0 <= m,
                m * m <= m2 * s,
                m2 * s < (m + 1) * (m + 1),
                10_000 < m2 <= s,
                s == 1_000_000,
        {
            if m + 1 <= 100_000 {
                assert((m + 1) * (m + 1) <= 100_000 * 100_000);
            }
            if m > s {
                assert(m * m > s * s);
            }
        }
        assert(m * m + 2 * m >= m2 * s) by (nonlinear_arith)
            requires
                m2 * s < (m + 1) * (m + 1),
        ;
        // The components of the unit vector.
        lemma_quotient_parts(x, m);
        lemma_quotient_parts(y, m);
        lemma_quotient_parts(z, m);
        let (ux, uy, uz) = (fx_div(x, m), fx_div(y, m), fx_div(z, m));
        let vx = if ux < 0 {
            -ux
        } else {
            ux
        };
        let vy = if uy < 0 {
            -uy
        } else {
            uy
        };
        let vz = if uz < 0 {
            -uz
        } else {
            uz
        };
        // The squared length of the unit vector.
        lemma_square_parts(ux);
        lemma_square_parts(uy);
        lemma_square_parts(uz);
        let (dx, dy, dz) = (fx_mul(ux, ux), fx_mul(uy, uy), fx_mul(uz, uz));
        let d = dx + dy + dz;
        let v2 = vx * vx + vy * vy + vz * vz;
        assert(d * s <= v2 < (d + 3) * s) by (nonlinear_arith)
            requires
                dx * s <= ux * ux < (dx + 1) * s,
                dy * s <= uy * uy < (dy + 1) * s,
                dz * s <= uz * uz < (dz + 1) * s,
                ux * ux == vx * vx,
                uy * uy == vy * vy,
                uz * uz == vz * vz,
                d == dx + dy + dz,
                v2 == vx * vx + vy * vy + vz * vz,
        ;
        assert(0 <= d <= 400_000_000) by (nonlinear_arith)
            requires
                d * s <= v2,
                0 <= dx,
                0 <= dy,
                0 <= dz,
                d == dx + dy + dz,
                v2 == vx * vx + vy * vy + vz * vz,
                0 <= vx <= 10_000_000,
                0 <= vy <= 10_000_000,
                0 <= vz <= 10_000_000,
                s == 1_000_000,
        ;
        assert(self.unit().dot(self.unit()) == d);
        // From above: v2 * m^2 <= a2 * s^2 < (m2 + 3) * s^3 <= (s + t) * s * m^2.
        assert(v2 * (m * m) <= a2 * (s * s)) by (nonlinear_arith)
            requires
                0 <= vx * m <= ax * s,
                0 <= vy * m <= ay * s,
                0 <= vz * m <= az * s,
                v2 == vx * vx + vy * vy + vz * vz,
                a2 == ax * ax + ay * ay + az * az,
        {
            assert((vx * m) * (vx * m) <= (ax * s) * (ax * s));
            assert((vy * m) * (vy * m) <= (ay * s) * (ay * s));
            assert((vz * m) * (vz * m) <= (az * s) * (az * s));
            assert((vx * m) * (vx * m) == (vx * vx) * (m * m));
            assert((vy * m) * (vy * m) == (vy * vy) * (m * m));
            assert((vz * m) * (vz * m) == (vz * vz) * (m * m));
            assert((ax * s) * (ax * s) == (ax * ax) * (s * s));
            assert((ay * s) * (ay * s) == (ay * ay) * (s * s));
            assert((az * s) * (az * s) == (az * az) * (s * s));
        }
        let mm = m * m;
        assert(mm > 0) by (nonlinear_arith)
            requires
                mm == m * m,
                m >= 100_000,
        ;
        assert((m2 + 3) * (s * s) <= (s + t) * mm) by (nonlinear_arith)
            requires
                mm + 2 * m >= m2 * s,
                m <= s,
                10_000 < m2,
                s == 1_000_000,
                t == 1_000,
        ;
        assert(v2 < (s + t) * s) by (nonlinear_arith)
            requires
                v2 * mm <= a2 * (s * s),
                a2 < (m2 + 3) * s,
                (m2 + 3) * (s * s) <= (s + t) * mm,
                mm > 0,
                s == 1_000_000,
                0 <= v2,
        {
            assert(a2 * (s * s) < ((m2 + 3) * s) * (s * s));
            assert(((m2 + 3) * s) * (s * s) == ((m2 + 3) * (s * s)) * s);
            assert(((m2 + 3) * (s * s)) * s <= ((s + t) * mm) * s);
            assert(v2 * mm < ((s + t) * s) * mm);
        }
        assert(d < s + t) by (nonlinear_arith)
            requires
                d * s <= v2,
                v2 < (s + t) * s,
                s == 1_000_000,
        ;
        // From below: (v + 1)^2 summed is above s^2.
        let w2 = (vx + 1) * (vx + 1) + (vy + 1) * (vy + 1) + (vz + 1) * (vz + 1);
        assert(w2 * mm > a2 * (s * s)) by (nonlinear_arith)
            requires
                (vx + 1) * m > ax * s,
                (vy + 1) * m > ay * s,
                (vz + 1) * m > az * s,
                0 <= ax,
                0 <= ay,
                0 <= az,
                s == 1_000_000,
                mm == m * m,
                w2 == (vx + 1) * (vx + 1) + (vy + 1) * (vy + 1) + (vz + 1) * (vz + 1),
                a2 == ax * ax + ay * ay + az * az,
        {
            assert(((vx + 1) * m) * ((vx + 1) * m) > (ax * s) * (ax * s));
            assert(((vy + 1) * m) * ((vy + 1) * m) > (ay * s) * (ay * s));
            assert(((vz + 1) * m) * ((vz + 1) * m) > (az * s) * (az * s));
            assert(((vx + 1) * m) * ((vx + 1) * m) == ((vx + 1) * (vx + 1)) * (m * m));
            assert(((vy + 1) * m) * ((vy + 1) * m) == ((vy + 1) * (vy + 1)) * (m * m));
            assert(((vz + 1) * m) * ((vz + 1) * m) == ((vz + 1) * (vz + 1)) * (m * m));
            assert((ax * s) * (ax * s) == (ax * ax) * (s * s));
            assert((ay * s) * (ay * s) == (ay * ay) * (s * s));
            assert((az * s) * (az * s) == (az * az) * (s * s));
        }
        assert(w2 > s * s) by (nonlinear_arith)
            requires
                w2 * mm > a2 * (s * s),
                a2 >= m2 * s,
                m2 * s >= mm,
                mm > 0,
                s == 1_000_000,
        {
            assert(a2 * (s * s) >= mm * (s * s));
            assert(w2 * mm > (s * s) * mm);
        }
        assert(w2 == v2 + 2 * (vx + vy + vz) + 3) by (nonlinear_arith)
            requires
                w2 == (vx + 1) * (vx + 1) + (vy + 1) * (vy + 1) + (vz + 1) * (vz + 1),
                v2 == vx * vx + vy * vy + vz * vz,
        ;
        assert(d > s - t) by (nonlinear_arith)
            requires
                v2 < (d + 3) * s,
                v2 + 60_000_003 >= s * s + 1,
                s == 1_000_000,
                t == 1_000,
        ;
    }

    /// A vector of the unit ball lies in the cube around it: no component is
    /// longer than one.
    pub proof fn lemma_ball_in_cube(self)
        requires
            self.in_unit_ball(),
        ensures
            -SCALE <= self.x <= SCALE,
            -SCALE <= self.y <= SCALE,
            -SCALE <= self.z <= SCALE,
    {
        lemma_mul_sign(self.x, self.x);
        lemma_mul_sign(self.y, self.y);
        lemma_mul_sign(self.z, self.z);
        lemma_square_above_one(self.x);
        lemma_square_above_one(self.y);
        lemma_square_above_one(self.z);
    }

    /// The length of a vector of unit length is one within the tolerance.
    pub proof fn lemma_unit_length_magnitude(self)
        requires
            self.has_unit_length(),
        ensures
            SCALE - UNIT_TOLERANCE <= self.magnitude() <= SCALE + UNIT_TOLERANCE,
    {
        let s: int = 1_000_000;
        let t: int = 1_000;
        let d = self.dot(self);
        let n = d * s;
        assert((s - t) * s <= n <= (s + t) * s) by (nonlinear_arith)
            requires
                s - t <= d <= s + t,
                n == d * s,
                s == 1_000_000,
        ;
        lemma_floor_sqrt_exists(n);
        let r = floor_sqrt(n);
        assert(s - t <= r <= s + t) by (nonlinear_arith)
            requires
                0 <= r,
                r * r <= n,
                n < (r + 1) * (r + 1),
                (s - t) * s <= n <= (s + t) * s,
                s == 1_000_000,
                t == 1_000,
        {
            if r > s + t {
                assert(r * r > (s + t) * (s + t));
            }
            if r + 1 <= s - t {
                assert((r + 1) * (r + 1) <= (s - t) * (s - t));
            }
        }
    }

    /// Adding a vector and taking the first away again gives the vector back,
    /// where the sum stays within the limit.
    pub proof fn lemma_plus_then_minus(self, o: V3)
        requires
            self.bounded(),
            in_range(self.x + o.x) && in_range(self.y + o.y) && in_range(self.z + o.z),
            o.bounded(),
        ensures
            self.plus(o).minus(self) == o,
    {
    }

    /// Whatever [`Vec3::random_unit`] can return has unit length.
    pub proof fn lemma_unit_draw_has_unit_length(self)
        requires
            self.is_unit_draw(),
        ensures
            self.has_unit_length(),
            self.within(-10 * SCALE, 10 * SCALE + 1),
    {
        let sample = choose|sample: V3|
            sample.within(-SCALE as int, SCALE as int) && sample.in_unit_ball() && self
                == #[trigger] sample.unit();
        sample.lemma_unit_has_unit_length();
    }

    /// The unit vector down the negative `z` axis is its own unit vector, and
    /// so one of the vectors that a draw can give.
    pub proof fn lemma_backward_is_unit_draw()
        ensures
            V3::backward().in_unit_ball(),
            V3::backward().unit() == V3::backward(),
            V3::backward().is_unit_draw(),
    {
        let b = V3::backward();
        lemma_mul_sign(0, 0);
        assert(SCALE == 1_000_000);
        assert((-1_000_000int) * (-1_000_000int) == 1_000_000int * 1_000_000int);
        assert(fx_mul(b.z, b.z) == SCALE);
        assert(b.dot(b) == SCALE);
        assert(is_floor_sqrt(1_000_000int * 1_000_000int, 1_000_000int));
        lemma_floor_sqrt_is(1_000_000int * 1_000_000int, 1_000_000int);
        assert(b.magnitude() == SCALE);
        assert(b.within(-SCALE as int, SCALE as int));
        assert(b.unit() == b);
    }

    /// Turning a vector round turns the sign of its dot products.
    pub proof fn lemma_dot_negated(self, o: V3)
        requires
            self.bounded(),
        ensures
            self.negated().dot(o) == -self.dot(o),
    {
        lemma_mul_negated(self.x, o.x);
        lemma_mul_negated(self.y, o.y);
        lemma_mul_negated(self.z, o.z);
    }

    /// The componentwise product with the zero vector is the zero vector.
    pub proof fn lemma_times_zero(self)
        ensures
            V3::zero().times(self) == V3::zero(),
            self.times(V3::zero()) == V3::zero(),
    {
        lemma_mul_sign(self.x, 0);
        lemma_mul_sign(self.y, 0);
        lemma_mul_sign(self.z, 0);
        lemma_mul_sign(0, self.x);
        lemma_mul_sign(0, self.y);
        lemma_mul_sign(0, self.z);
    }

    /// Whether every component lies in `[low, high)`.
    pub open spec fn within(self, low: int, high: int) -> bool {
        &&& low <= self.x < high
        &&& low <= self.y < high
        &&& low <= self.z < high
    }

    /// Whether the squared length is above [`UNIT_EPSILON`] and at most one,
    /// so that the vector can be brought to unit length.
    pub open spec fn in_unit_ball(self) -> bool {
        UNIT_EPSILON < self.dot(self) <= SCALE
    }

}

/// A vector of three fixed-point numbers.
#[derive(Clone, Copy, Debug, PartialEq, Eq, Structural)]
pub struct Vec3 {
    pub x: Fixed,
    pub y: Fixed,
    pub z: Fixed,
}

impl View for Vec3 {
    type V = V3;

    open spec fn view(&self) -> V3 {
        V3 { x: self.x@, y: self.y@, z: self.z@ }
    }
}

impl Vec3 {
    /// The vector with the given view, each component clamped to the limit.
    pub open spec fn of(v: V3) -> Vec3 {
        Vec3 { x: Fixed::of(v.x), y: Fixed::of(v.y), z: Fixed::of(v.z) }
    }

    /// The vector with the given components.
    pub fn new(x: Fixed, y: Fixed, z: Fixed) -> (r: Vec3)
        ensures
            r@ == (V3 { x: x@, y: y@, z: z@ }),
            r == (Vec3 { x, y, z }),
    {
        Vec3 { x, y, z }
    }

    /// A vector whose components are drawn independently from `[0, 1)`.
    pub fn random() -> (r: Vec3)
        ensures
            r@.within(0, SCALE as int),
    {
        let low = Fixed::zero();
        let high = Fixed::one();
        Vec3 {
            x: Fixed::random_range(low, high),
            y: Fixed::random_range(low, high),
            z: Fixed::random_range(low, high),
        }
    }

    /// A vector whose components are drawn independently from `[min, max)`.
    pub fn random_range(min: Fixed, max: Fixed) -> (r: Vec3)
        requires
            min@ < max@,
        ensures
            r@.within(min@, max@),
    {
        Vec3 {
            x: Fixed::random_range(min, max),
            y: Fixed::random_range(min, max),
            z: Fixed::random_range(min, max),
        }
    }

    /// The vector multiplied by the power of two that brings its longest
    /// component to at least a half, and that power. A vector whose longest
    /// component is a half or more, and the zero vector, are returned as they
    /// are.
    pub fn boosted(self) -> (r: (Vec3, i64))
        ensures
            r.0@ == self@.boosted(),
            r.1 == boost(self@.reach()),
            1 <= r.1 <= SCALE,
    {
        let reach = self.x.abs_raw().max(self.y.abs_raw().max(self.z.abs_raw()));
        let mut m: i64 = reach;
        let mut k: i64 = 1;
        proof {
            assert(reach * 1 == reach);
            assert(1 * boost(reach as int) == boost(reach as int));
        }
        while m > 0 && m < SCALE - m
            invariant
                0 <= m,
                1 <= k,
                m == reach * k,
                boost(reach as int) == k * boost(m as int),
                reach == self@.reach(),
                0 < m ==> k <= m,
                m == 0 ==> k == 1,
            decreases SCALE - m,
        {
            proof {
                let b = boost(2 * m);
                assert(boost(m as int) == 2 * b);
                assert(k * (2 * b) == (2 * k) * b) by (nonlinear_arith);
                assert(reach * (2 * k) == 2 * (reach * k)) by (nonlinear_arith);
            }
            m = 2 * m;
            k = 2 * k;
        }
        proof {
            lemma_boost(m as int);
            assert(boost(m as int) == 1);
            assert(k * 1 == k);
            lemma_boost(reach as int);
        }
        (Vec3 { x: self.x.times_whole(k), y: self.y.times_whole(k), z: self.z.times_whole(k) }, k)
    }

    /// Whether every component lies strictly within the limit.
    pub fn is_finite(self) -> (r: bool)
        ensures
            r == self@.finite(),
    {
        self.x.is_finite() && self.y.is_finite() && self.z.is_finite()
    }

    /// Whether the squared length is above [`UNIT_EPSILON`] and at most one.
    pub fn in_unit_ball(self) -> (r: bool)
        ensures
            r == self@.in_unit_ball(),
    {
        let mag_squared = self.dot(self);
        Fixed::from_raw(UNIT_EPSILON) < mag_squared && mag_squared <= Fixed::one()
    }

    /// The vector brought to unit length, for a vector that lies in the unit
    /// ball; none for any other.
    pub fn unit_in_ball(self) -> (r: Option<Vec3>)
        ensures
            r is Some <==> self@.in_unit_ball(),
            r is Some ==> r->Some_0@ == self@.unit() && r->Some_0@.has_unit_length(),
    {
        if self.in_unit_ball() {
            proof {
                self@.lemma_ball_in_cube();
                self@.lemma_unit_has_unit_length();
            }
            Some(self.shrunk(self.magnitude()))
        } else {
            None
        }
    }

    /// A random direction: samples are drawn from the cube `[-1, 1)^3` until
    /// one lies in the unit ball, and that one is brought to unit length. After
    /// [`UNIT_ATTEMPTS`] samples outside the ball the result is the unit vector
    /// down the negative `z` axis.
    pub fn random_unit() -> (r: Vec3)
        ensures
            r@.is_unit_draw(),
            r@.has_unit_length(),
    {
        let low = Fixed::one().neg();
        let high = Fixed::one();
        let mut attempts: u32 = 0;
        while attempts < UNIT_ATTEMPTS
            invariant
                low@ == -SCALE,
                high@ == SCALE,
            decreases UNIT_ATTEMPTS - attempts,
        {
            let sample = Vec3::random_range(low, high);
            match sample.unit_in_ball() {
                Some(unit) => {
                    assert(unit@ == sample@.unit());
                    return unit;
                },
                None => {},
            }
            attempts = attempts + 1;
        }
        proof {
            V3::lemma_backward_is_unit_draw();
            V3::backward().lemma_unit_draw_has_unit_length();
        }
        Vec3::new(Fixed::zero(), Fixed::zero(), low)
    }

    /// Component `i`, and the first component for an `i` above 2.
    pub fn axis_val(&self, i: usize) -> (r: Fixed)
        ensures
            r@ == self@.axis(i as int),
    {
        match i {
            0 => self.x,
            1 => self.y,
            2 => self.z,
            _ => self.x,
        }
    }

    /// The length.
    pub fn magnitude(&self) -> (r: Fixed)
        ensures
            r@ == self@.magnitude(),
    {
        self.dot(*self).sqrt()
    }

    /// The dot product.
    pub fn dot(&self, other: Vec3) -> (r: Fixed)
        ensures
            r@ == self@.dot(other@),
    {
        self.x * other.x + self.y * other.y + self.z * other.z
    }

    /// The cross product.
    pub fn cross(&self, other: Vec3) -> (r: Vec3)
        ensures
            r@ == self@.cross(other@),
    {
        Vec3 {
            x: self.y * other.z - self.z * other.y,
            y: self.z * other.x - self.x * other.z,
            z: self.x * other.y - self.y * other.x,
        }
    }
}

impl Default for Vec3 {
    fn default() -> (r: Vec3)
        ensures
            r@ == V3::zero(),
    {
        Vec3 { x: Fixed::zero(), y: Fixed::zero(), z: Fixed::zero() }
    }
}

impl Vec3 {
    /// The componentwise negation.
    pub fn negated(self) -> (r: Vec3)
        ensures
            r@ == self@.negated(),
            r == Vec3::of(self@.negated()),
    {
        Vec3 { x: self.x.neg(), y: self.y.neg(), z: self.z.neg() }
    }

    /// The componentwise sum.
    pub fn plus(self, other: Vec3) -> (r: Vec3)
        ensures
            r@ == self@.plus(other@),
            r == Vec3::of(self@.plus(other@)),
    {
        Vec3 { x: self.x + other.x, y: self.y + other.y, z: self.z + other.z }
    }

    /// The componentwise difference.
    pub fn minus(self, other: Vec3) -> (r: Vec3)
        ensures
            r@ == self@.minus(other@),
            r == Vec3::of(self@.minus(other@)),
    {
        Vec3 { x: self.x - other.x, y: self.y - other.y, z: self.z - other.z }
    }

    /// Every component multiplied by `c`.
    pub fn scaled(self, c: Fixed) -> (r: Vec3)
        ensures
            r@ == self@.scaled(c@),
            r == Vec3::of(self@.scaled(c@)),
    {
        Vec3 { x: self.x * c, y: self.y * c, z: self.z * c }
    }

    /// The componentwise product.
    pub fn times(self, vec: Vec3) -> (r: Vec3)
        ensures
            r@ == self@.times(vec@),
            r == Vec3::of(self@.times(vec@)),
    {
        Vec3 { x: self.x * vec.x, y: self.y * vec.y, z: self.z * vec.z }
    }

    /// Every component divided by `c`.
    pub fn shrunk(self, c: Fixed) -> (r: Vec3)
        ensures
            r@ == self@.shrunk(c@),
            r == Vec3::of(self@.shrunk(c@)),
    {
        Vec3 { x: self.x / c, y: self.y / c, z: self.z / c }
    }
}

impl core::ops::Neg for Vec3 {
    type Output = Vec3;

    /// The componentwise negation, as `-v`.
    fn neg(self) -> (r: Vec3)
        ensures
            r@ == self@.negated(),
    {
        Vec3::negated(self)
    }
}

impl vstd::std_specs::ops::NegSpecImpl for Vec3 {
    open spec fn obeys_neg_spec() -> bool {
        true
    }

    open spec fn neg_req(self) -> bool {
        true
    }

    open spec fn neg_spec(self) -> Vec3 {
        Vec3::of(self@.negated())
    }
}

impl core::ops::Add for Vec3 {
    type Output = Vec3;

    /// The componentwise sum, as `v + w`.
    fn add(self, other: Vec3) -> (r: Vec3)
        ensures
            r@ == self@.plus(other@),
    {
        Vec3::plus(self, other)
    }
}

impl vstd::std_specs::ops::AddSpecImpl for Vec3 {
    open spec fn obeys_add_spec() -> bool {
        true
    }

    open spec fn add_req(self, other: Vec3) -> bool {
        true
    }

    open spec fn add_spec(self, other: Vec3) -> Vec3 {
        Vec3::of(self@.plus(other@))
    }
}

impl core::ops::Sub for Vec3 {
    type Output = Vec3;

    /// The componentwise difference, as `v - w`.
    fn sub(self, other: Vec3) -> (r: Vec3)
        ensures
            r@ == self@.minus(other@),
    {
        Vec3::minus(self, other)
    }
}

impl vstd::std_specs::ops::SubSpecImpl for Vec3 {
    open spec fn obeys_sub_spec() -> bool {
        true
    }

    open spec fn sub_req(self, other: Vec3) -> bool {
        true
    }

    open spec fn sub_spec(self, other: Vec3) -> Vec3 {
        Vec3::of(self@.minus(other@))
    }
}

impl core::ops::Mul<Fixed> for Vec3 {
    type Output = Vec3;

    /// Every component multiplied by `c`, as `v * c`.
    fn mul(self, c: Fixed) -> (r: Vec3)
        ensures
            r@ == self@.scaled(c@),
    {
        Vec3::scaled(self, c)
    }
}

impl vstd::std_specs::ops::MulSpecImpl<Fixed> for Vec3 {
    open spec fn obeys_mul_spec() -> bool {
        true
    }

    open spec fn mul_req(self, c: Fixed) -> bool {
        true
    }

    open spec fn mul_spec(self, c: Fixed) -> Vec3 {
        Vec3::of(self@.scaled(c@))
    }
}

impl core::ops::Mul<Vec3> for Vec3 {
    type Output = Vec3;

    /// The componentwise product, as `v * w`.
    fn mul(self, vec: Vec3) -> (r: Vec3)
        ensures
            r@ == self@.times(vec@),
    {
        Vec3::times(self, vec)
    }
}

impl vstd::std_specs::ops::MulSpecImpl<Vec3> for Vec3 {
    open spec fn obeys_mul_spec() -> bool {
        true
    }

    open spec fn mul_req(self, vec: Vec3) -> bool {
        true
    }

    open spec fn mul_spec(self, vec: Vec3) -> Vec3 {
        Vec3::of(self@.times(vec@))
    }
}

impl core::ops::Div<Fixed> for Vec3 {
    type Output = Vec3;

    /// Every component divided by `c`, as `v / c`.
    fn div(self, c: Fixed) -> (r: Vec3)
        ensures
            r@ == self@.shrunk(c@),
    {
        Vec3::shrunk(self, c)
    }
}

impl vstd::std_specs::ops::DivSpecImpl<Fixed> for Vec3 {
    open spec fn obeys_div_spec() -> bool {
        true
    }

    open spec fn div_req(self, c: Fixed) -> bool {
        true
    }

    open spec fn div_spec(self, c: Fixed) -> Vec3 {
        Vec3::of(self@.shrunk(c@))
    }
}

impl core::ops::Mul<Vec3> for Fixed {
    type Output = Vec3;

    /// Every component of `vec` multiplied by the number, as `c * v`.
    fn mul(self, vec: Vec3) -> (r: Vec3)
        ensures
            r@ == vec@.scaled(self@),
    {
        Vec3::scaled(vec, self)
    }
}

impl vstd::std_specs::ops::MulSpecImpl<Vec3> for Fixed {
    open spec fn obeys_mul_spec() -> bool {
        true
    }

    open spec fn mul_req(self, vec: Vec3) -> bool {
        true
    }

    open spec fn mul_spec(self, vec: Vec3) -> Vec3 {
        Vec3::of(vec@.scaled(self@))
    }
}

} // verus!
