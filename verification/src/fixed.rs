//! Saturating fixed-point numbers.
//!
//! A [`Fixed`] is a count of millionths held in an `i64`. Sums, differences,
//! products and quotients are computed exactly, rounded toward zero to a whole
//! number of millionths, and then clamped to `[-LIMIT, LIMIT]`. The two ends of
//! that range stand for "infinitely far" in either direction: they compare
//! above and below every other value and are what an overflowing operation
//! returns.
//!
//! Every contract in this crate speaks of a number through its view, the count
//! of millionths as an `int`.

use rand::Rng;
use vstd::prelude::*;

verus! {

/// The number of raw units in `1.0`.
pub const SCALE: i64 = 1_000_000;

/// The largest magnitude a [`Fixed`] can hold, in raw units.
pub const LIMIT: i64 = 0x7fff_ffff_ffff_ffff;

/// Whether `v` is a raw value that a [`Fixed`] can hold.
pub open spec fn in_range(v: int) -> bool {
    -LIMIT <= v <= LIMIT
}

/// Whether `v` lies strictly within the limit, and so stands for a number
/// and not for an infinity. Where the result of an operation is finite, it
/// was not clamped.
pub open spec fn finite(v: int) -> bool {
    -LIMIT < v < LIMIT
}

/// `v` clamped to `[-LIMIT, LIMIT]`.
pub open spec fn saturate(v: int) -> int {
    if v > LIMIT {
        LIMIT as int
    } else if v < -LIMIT {
        -LIMIT as int
    } else {
        v
    }
}

/// `a / b` rounded toward zero.
pub open spec fn quotient(a: int, b: int) -> int
    recommends
        b != 0,
{
    if b > 0 {
        if a >= 0 {
            a / b
        } else {
            -((-a) / b)
        }
    } else {
        if a >= 0 {
            -(a / (-b))
        } else {
            (-a) / (-b)
        }
    }
}

/// Raw sum of two raw values.
pub open spec fn fx_add(a: int, b: int) -> int {
    saturate(a + b)
}

/// Raw difference of two raw values.
pub open spec fn fx_sub(a: int, b: int) -> int {
    saturate(a - b)
}

/// Raw negation of a raw value.
pub open spec fn fx_neg(a: int) -> int {
    saturate(-a)
}

/// Raw product of two raw values: the exact product brought back to
/// millionths, rounded toward zero.
pub open spec fn fx_mul(a: int, b: int) -> int {
    saturate(quotient(a * b, SCALE as int))
}

/// Raw quotient of two raw values, rounded toward zero. Dividing by zero
/// gives the limit on the side of the dividend's sign, and `0 / 0` is `0`.
pub open spec fn fx_div(a: int, b: int) -> int {
    if b == 0 {
        if a > 0 {
            LIMIT as int
        } else if a < 0 {
            -LIMIT as int
        } else {
            0
        }
    } else {
        saturate(quotient(a * SCALE, b))
    }
}

/// `a * b / c`, where the product is not rounded and the quotient is rounded
/// toward zero and clamped: a raw value multiplied by the fraction `b / c`.
pub open spec fn fx_mul_div(a: int, b: int, c: int) -> int
    recommends
        c != 0,
{
    saturate(quotient(a * b, c))
}

/// Whether `r` is the integer square root of `n`: the largest `r` with
/// `r * r <= n`.
pub open spec fn is_floor_sqrt(n: int, r: int) -> bool {
    0 <= r && r * r <= n < (r + 1) * (r + 1)
}

/// The integer square root of `n`, and `0` for a negative `n`.
pub open spec fn floor_sqrt(n: int) -> int {
    if n < 0 {
        0
    } else {
        choose|r: int| is_floor_sqrt(n, r)
    }
}

/// Raw square root of a raw value, rounded down; `0` for a negative value.
pub open spec fn fx_sqrt(a: int) -> int {
    floor_sqrt(a * SCALE)
}

/// The smaller of two raw values.
pub open spec fn fx_min(a: int, b: int) -> int {
    if a <= b {
        a
    } else {
        b
    }
}

/// The larger of two raw values.
pub open spec fn fx_max(a: int, b: int) -> int {
    if a >= b {
        a
    } else {
        b
    }
}

/// An integer square root is unique.
pub proof fn lemma_floor_sqrt_unique(n: int, r: int, s: int)
    requires
        is_floor_sqrt(n, r),
        is_floor_sqrt(n, s),
    ensures
        r == s,
{
    assert(r == s) by (nonlinear_arith)
        requires
            0 <= r,
            0 <= s,
            r * r <= n,
            n < (r + 1) * (r + 1),
            s * s <= n,
            n < (s + 1) * (s + 1),
    {
        if r < s {
            assert((r + 1) * (r + 1) <= s * s);
        } else if s < r {
            assert((s + 1) * (s + 1) <= r * r);
        }
    }
}

/// Any `r` that is an integer square root of `n` is `floor_sqrt(n)`.
pub proof fn lemma_floor_sqrt_is(n: int, r: int)
    requires
        is_floor_sqrt(n, r),
    ensures
        floor_sqrt(n) == r,
{
    assert(n >= 0) by (nonlinear_arith)
        requires
            r * r <= n,
    ;
    let s = choose|s: int| is_floor_sqrt(n, s);
    lemma_floor_sqrt_unique(n, r, s);
}

/// Every number that is not negative has an integer square root.
pub proof fn lemma_floor_sqrt_exists(n: int)
    requires
        n >= 0,
    ensures
        is_floor_sqrt(n, floor_sqrt(n)),
    decreases n,
{
    if n == 0 {
        assert(is_floor_sqrt(0, 0));
    } else {
        lemma_floor_sqrt_exists(n - 1);
        let r = floor_sqrt(n - 1);
        if (r + 1) * (r + 1) <= n {
            assert(is_floor_sqrt(n, r + 1)) by (nonlinear_arith)
                requires
                    0 <= r,
                    n - 1 < (r + 1) * (r + 1),
                    (r + 1) * (r + 1) <= n,
            ;
        } else {
            assert(is_floor_sqrt(n, r));
        }
    }
}

/// The square of a value of at most a hundred, in raw units: the exact square
/// brought back to millionths and rounded down, without clamping.
pub proof fn lemma_square_parts(a: int)
    requires
        -100_000_000 <= a <= 100_000_000,
    ensures
        0 <= fx_mul(a, a),
        fx_mul(a, a) * SCALE <= a * a < (fx_mul(a, a) + 1) * SCALE,
{
    let s: int = 1_000_000;
    let p = a * a;
    assert(0 <= p <= 10_000_000_000_000_000) by (nonlinear_arith)
        requires
            p == a * a,
            -100_000_000 <= a <= 100_000_000,
    ;
    vstd::arithmetic::div_mod::lemma_fundamental_div_mod(p, s);
    let q = p / s;
    assert(s * q <= p < s * q + s);
    assert(0 <= q <= 10_000_000_000);
    assert(fx_mul(a, a) == q);
    assert(q * s == s * q) by (nonlinear_arith);
    assert((q + 1) * s == s * q + s) by (nonlinear_arith);
}

/// A value multiplied by a fraction lies less than one raw unit from the
/// exact result: where `u = fx_mul_div(a, p, q)` is finite and `q` is
/// positive, `a * p` lies strictly between `(u - 1) * q` and `(u + 1) * q`.
pub proof fn lemma_mul_div_within_one(a: int, p: int, q: int)
    requires
        q > 0,
        finite(fx_mul_div(a, p, q)),
    ensures
        (fx_mul_div(a, p, q) - 1) * q < a * p < (fx_mul_div(a, p, q) + 1) * q,
{
    let x = a * p;
    if x >= 0 {
        vstd::arithmetic::div_mod::lemma_fundamental_div_mod(x, q);
        let u = x / q;
        assert(fx_mul_div(a, p, q) == u);
        assert((u - 1) * q < x < (u + 1) * q) by (nonlinear_arith)
            requires
                x == q * u + x % q,
                0 <= x % q < q,
        ;
    } else {
        vstd::arithmetic::div_mod::lemma_fundamental_div_mod(-x, q);
        let u = (-x) / q;
        assert(fx_mul_div(a, p, q) == -u);
        assert((-u - 1) * q < x < (-u + 1) * q) by (nonlinear_arith)
            requires
                -x == q * u + (-x) % q,
                0 <= (-x) % q < q,
        ;
    }
}

/// Turning the signs of both parts of a fraction leaves the result as it is.
pub proof fn lemma_mul_div_signs(a: int, b: int, c: int)
    requires
        c != 0,
    ensures
        fx_mul_div(a, -b, -c) == fx_mul_div(a, b, c),
{
    assert(a * (-b) == -(a * b)) by (nonlinear_arith);
}

/// The square of a value longer than one is above one.
pub proof fn lemma_square_above_one(a: int)
    ensures
        a < -SCALE || a > SCALE ==> fx_mul(a, a) > SCALE,
{
    if a < -SCALE || a > SCALE {
        let s: int = 1_000_000;
        let p = a * a;
        assert(p >= (s + 1) * (s + 1)) by (nonlinear_arith)
            requires
                p == a * a,
                a <= -(s + 1) || a >= s + 1,
                s == 1_000_000,
        ;
        vstd::arithmetic::div_mod::lemma_fundamental_div_mod(p, s);
        let q = p / s;
        assert(q > s) by (nonlinear_arith)
            requires
                p == s * q + p % s,
                0 <= p % s < s,
                p >= (s + 1) * (s + 1),
                s == 1_000_000,
        ;
    }
}

/// The quotient of a value of at most one by a divisor between a tenth and
/// one, in raw units: the exact quotient rounded toward zero, without
/// clamping. Its magnitude `v` is the largest with `v * m <= |x| * SCALE`.
pub proof fn lemma_quotient_parts(x: int, m: int)
    requires
        -SCALE <= x <= SCALE,
        100_000 <= m <= SCALE,
    ensures
        ({
            let u = fx_div(x, m);
            let v = if u < 0 {
                -u
            } else {
                u
            };
            let a = if x < 0 {
                -x
            } else {
                x
            };
            &&& 0 <= v <= 10_000_000
            &&& v * m <= a * SCALE < (v + 1) * m
            &&& u * u == v * v
        }),
{
    let s: int = 1_000_000;
    let a = if x < 0 {
        -x
    } else {
        x
    };
    let n = a * s;
    assert(0 <= n <= 1_000_000_000_000);
    vstd::arithmetic::div_mod::lemma_fundamental_div_mod(n, m);
    let v = n / m;
    assert(m * v <= n < m * v + m);
    assert(0 <= v <= 10_000_000) by (nonlinear_arith)
        requires
            m * v <= n,
            n < m * v + m,
            0 <= n <= 1_000_000_000_000,
            100_000 <= m,
    ;
    assert(x * s == if x < 0 {
        -n
    } else {
        n
    });
    let u = fx_div(x, m);
    assert(u == if x < 0 {
        -v
    } else {
        v
    });
    assert(u * u == v * v) by (nonlinear_arith)
        requires
            u == v || u == -v,
    ;
    assert(v * m == m * v) by (nonlinear_arith);
    assert((v + 1) * m == m * v + m) by (nonlinear_arith);
}

/// Turning the sign of one factor turns the sign of the product.
pub proof fn lemma_mul_negated(a: int, b: int)
    ensures
        fx_mul(-a, b) == -fx_mul(a, b),
        fx_mul(a, -b) == -fx_mul(a, b),
{
    assert((-a) * b == -(a * b)) by (nonlinear_arith);
    assert(a * (-b) == -(a * b)) by (nonlinear_arith);
}

/// A product of two factors of the same sign is not negative, and a product
/// with a zero factor is zero.
pub proof fn lemma_mul_sign(a: int, b: int)
    ensures
        (a >= 0 && b >= 0) || (a <= 0 && b <= 0) ==> fx_mul(a, b) >= 0,
        (a >= 0 && b <= 0) || (a <= 0 && b >= 0) ==> fx_mul(a, b) <= 0,
        a == 0 || b == 0 ==> fx_mul(a, b) == 0,
{
    assert((a >= 0 && b >= 0) || (a <= 0 && b <= 0) ==> a * b >= 0) by (nonlinear_arith);
    assert((a >= 0 && b <= 0) || (a <= 0 && b >= 0) ==> a * b <= 0) by (nonlinear_arith);
    assert(a == 0 || b == 0 ==> a * b == 0) by (nonlinear_arith);
}

/// The product of two values within the limit stays within its square.
pub proof fn lemma_product_bound(a: int, b: int)
    requires
        in_range(a),
        in_range(b),
    ensures
        -(LIMIT * LIMIT) <= a * b <= LIMIT * LIMIT,
{
    let m = LIMIT as int;
    assert(-(m * m) <= a * b <= m * m) by (nonlinear_arith)
        requires
            -m <= a <= m,
            -m <= b <= m,
            m >= 0,
    ;
}

/// A draw of rand's `Rng::random_range` on the thread-local generator that
/// `rand::rng` hands out, over the half-open range `low..high` of `i64`. The
/// range must not be empty, since the draw panics on an empty one; the result
/// lies in the range. Nothing is said of which value comes out. A thread's
/// generator is seeded from the operating system at its first draw and again
/// whenever it has handed out its quota; the draw panics where the operating
/// system gives no entropy then, which no precondition can rule out.
#[verifier::external_body]
fn random_raw(low: i64, high: i64) -> (r: i64)
    requires
        low < high,
    ensures
        low <= r < high,
{
    rand::rng().random_range(low..high)
}

/// A fixed-point number: a count of millionths, never below `-LIMIT`.
#[derive(Clone, Copy, PartialEq, Eq, Structural, Debug)]
pub struct Fixed {
    raw: i64,
}

impl View for Fixed {
    type V = int;

    closed spec fn view(&self) -> int {
        self.raw as int
    }
}

impl Fixed {
    /// Every number lies within the limit.
    #[verifier::type_invariant]
    pub open spec fn within_limit(self) -> bool {
        in_range(self@)
    }

    /// The number whose view is `saturate(v)`.
    pub closed spec fn of(v: int) -> Fixed {
        Fixed { raw: saturate(v) as i64 }
    }

    /// `Fixed::of(v)` is viewed as `saturate(v)`.
    pub proof fn lemma_of_view(v: int)
        ensures
            Fixed::of(v)@ == saturate(v),
    {
    }

    /// The number with the given count of millionths, clamped to the limit.
    pub fn from_raw(raw: i64) -> (r: Fixed)
        ensures
            r@ == saturate(raw as int),
    {
        if raw < -LIMIT {
            Fixed { raw: -LIMIT }
        } else {
            Fixed { raw }
        }
    }

    /// The count of millionths.
    pub fn raw(self) -> (r: i64)
        ensures
            r == self@,
            in_range(r as int),
    {
        proof {
            use_type_invariant(&self);
        }
        self.raw
    }

    /// The whole number `n`, clamped to the limit.
    pub fn from_int(n: i64) -> (r: Fixed)
        ensures
            r@ == saturate(n * SCALE),
    {
        assert(-0x8000_0000_0000_0000 * 1_000_000 <= n * 1_000_000 <= 0x8000_0000_0000_0000
            * 1_000_000);
        let wide: i128 = (n as i128) * (SCALE as i128);
        Fixed::clamped(wide)
    }

    /// `num / den`, rounded toward zero and clamped to the limit; the limit
    /// itself where `den` is zero, as [`fx_div`] has it.
    pub fn from_ratio(num: i64, den: i64) -> (r: Fixed)
        ensures
            r@ == fx_div(saturate(num as int), saturate(den as int)),
    {
        Fixed::from_raw(num) / Fixed::from_raw(den)
    }

    /// The whole part of the number: its value rounded toward zero.
    pub fn trunc(self) -> (r: i64)
        ensures
            r == quotient(self@, SCALE as int),
    {
        self.raw / SCALE
    }

    /// The number multiplied by the whole number `k`, without rounding and
    /// clamped to the limit.
    pub fn times_whole(self, k: i64) -> (r: Fixed)
        ensures
            r@ == saturate(self@ * k),
    {
        proof {
            use_type_invariant(&self);
            let m: int = 0x8000_0000_0000_0000;
            assert(-(m * m) <= self.raw * k <= m * m) by (nonlinear_arith)
                requires
                    -m <= self.raw <= m,
                    -m <= k <= m,
                    m >= 0,
            ;
        }
        Fixed::clamped((self.raw as i128) * (k as i128))
    }

    /// The magnitude of the count of millionths.
    pub fn abs_raw(self) -> (r: i64)
        ensures
            r == if self@ < 0 {
                -self@
            } else {
                self@
            },
            0 <= r <= LIMIT,
    {
        proof {
            use_type_invariant(&self);
        }
        if self.raw < 0 {
            -self.raw
        } else {
            self.raw
        }
    }

    /// The number multiplied by the fraction `num / den`: the product is not
    /// rounded, the quotient is rounded toward zero and clamped.
    pub fn mul_div(self, num: Fixed, den: Fixed) -> (r: Fixed)
        requires
            den@ != 0,
        ensures
            r@ == fx_mul_div(self@, num@, den@),
    {
        proof {
            use_type_invariant(&self);
            use_type_invariant(&num);
            use_type_invariant(&den);
        }
        let a = self.magnitude();
        let b = num.magnitude();
        let c = den.magnitude();
        let m: u128 = LIMIT as u128;
        assert(0 <= a * b <= m * m) by (nonlinear_arith)
            requires
                0 <= a <= m,
                0 <= b <= m,
        ;
        assert(m * m < 0x4000_0000_0000_0000_0000_0000_0000_0000) by (nonlinear_arith)
            requires
                m == 0x7fff_ffff_ffff_ffff,
        ;
        let product: u128 = a * b;
        let q: u128 = product / c;
        let positive = (self.raw < 0) == (num.raw < 0);
        let negative = (!positive && product != 0) != (den.raw < 0);
        proof {
            let x = self.raw as int * num.raw as int;
            assert(x == if positive {
                product as int
            } else {
                -(product as int)
            }) by (nonlinear_arith)
                requires
                    x == self.raw * num.raw,
                    product == a * b,
                    a == self.raw || a == -self.raw,
                    b == num.raw || b == -num.raw,
                    a >= 0,
                    b >= 0,
                    positive == ((self.raw < 0) == (num.raw < 0)),
                    a == 0 <==> self.raw == 0,
                    b == 0 <==> num.raw == 0,
            ;
            assert(product % c < c);
        }
        if product == 0 {
            return Fixed { raw: 0 };
        }
        Fixed::signed(negative, q)
    }

    /// Whether the number lies strictly within the limit.
    pub fn is_finite(self) -> (r: bool)
        ensures
            r == finite(self@),
    {
        -LIMIT < self.raw && self.raw < LIMIT
    }

    /// Whether the number is zero.
    pub fn is_zero(self) -> (r: bool)
        ensures
            r == (self@ == 0),
    {
        self.raw == 0
    }

    /// A number drawn from `[min, max)`.
    pub fn random_range(min: Fixed, max: Fixed) -> (r: Fixed)
        requires
            min@ < max@,
        ensures
            min@ <= r@ < max@,
    {
        proof {
            use_type_invariant(&min);
            use_type_invariant(&max);
        }
        Fixed { raw: random_raw(min.raw, max.raw) }
    }

    /// Zero.
    pub fn zero() -> (r: Fixed)
        ensures
            r@ == 0,
    {
        Fixed { raw: 0 }
    }

    /// One.
    pub fn one() -> (r: Fixed)
        ensures
            r@ == SCALE,
    {
        Fixed { raw: SCALE }
    }

    /// The upper limit, which stands for positive infinity.
    pub fn infinity() -> (r: Fixed)
        ensures
            r@ == LIMIT,
    {
        Fixed { raw: LIMIT }
    }

    /// The lower limit, which stands for negative infinity.
    pub fn neg_infinity() -> (r: Fixed)
        ensures
            r@ == -LIMIT,
    {
        Fixed { raw: -LIMIT }
    }

    /// The number with the given count of millionths, clamped to the limit.
    fn clamped(wide: i128) -> (r: Fixed)
        ensures
            r@ == saturate(wide as int),
    {
        if wide > LIMIT as i128 {
            Fixed { raw: LIMIT }
        } else if wide < -(LIMIT as i128) {
            Fixed { raw: -LIMIT }
        } else {
            Fixed { raw: wide as i64 }
        }
    }

    /// The absolute value of the count of millionths.
    fn magnitude(self) -> (m: u128)
        ensures
            m == if self@ < 0 { -self@ } else { self@ },
            m <= LIMIT,
    {
        proof {
            use_type_invariant(&self);
        }
        if self.raw < 0 {
            (-self.raw) as u128
        } else {
            self.raw as u128
        }
    }

    /// The number with the given sign and magnitude, clamped to the limit.
    fn signed(negative: bool, magnitude: u128) -> (r: Fixed)
        ensures
            r@ == saturate(if negative { -(magnitude as int) } else { magnitude as int }),
    {
        let m: i64 = if magnitude > LIMIT as u128 {
            LIMIT
        } else {
            magnitude as i64
        };
        if negative {
            Fixed { raw: -m }
        } else {
            Fixed { raw: m }
        }
    }

    /// The smaller of two numbers.
    pub fn min(self, other: Fixed) -> (r: Fixed)
        ensures
            r@ == fx_min(self@, other@),
    {
        if self.raw <= other.raw {
            self
        } else {
            other
        }
    }

    /// The larger of two numbers.
    pub fn max(self, other: Fixed) -> (r: Fixed)
        ensures
            r@ == fx_max(self@, other@),
    {
        if self.raw >= other.raw {
            self
        } else {
            other
        }
    }

    /// The square root, rounded down to a whole number of millionths; zero for
    /// a negative number.
    pub fn sqrt(self) -> (r: Fixed)
        ensures
            r@ == fx_sqrt(self@),
    {
        proof {
            use_type_invariant(&self);
        }
        if self.raw <= 0 {
            proof {
                if self.raw == 0 {
                    assert(is_floor_sqrt(0, 0));
                    lemma_floor_sqrt_is(0, 0);
                }
            }
            return Fixed { raw: 0 };
        }
        let n: u128 = (self.raw as u128) * (SCALE as u128);
        let root = floor_sqrt_of(n);
        proof {
            lemma_floor_sqrt_is(n as int, root as int);
        }
        Fixed { raw: root as i64 }
    }
}

/// The largest `r` with `r * r <= n`, for an `n` of at most `LIMIT * SCALE`.
pub fn floor_sqrt_wide(n: u128) -> (r: u128)
    requires
        n <= LIMIT * SCALE,
    ensures
        is_floor_sqrt(n as int, r as int),
        r < 0x400_0000_0000,
{
    floor_sqrt_of(n)
}

/// The largest `r` with `r * r <= n`, by bisection.
fn floor_sqrt_of(n: u128) -> (r: u128)
    requires
        n <= LIMIT * SCALE,
    ensures
        is_floor_sqrt(n as int, r as int),
        r < 0x400_0000_0000,
{
    let mut low: u128 = 0;
    let mut high: u128 = 0x400_0000_0000;
    assert(n < 0x400_0000_0000 * 0x400_0000_0000);
    while high - low > 1
        invariant
            low < high <= 0x400_0000_0000,
            low * low <= n < high * high,
        decreases high - low,
    {
        let mid: u128 = low + (high - low) / 2;
        assert(mid * mid <= 0x400_0000_0000 * 0x400_0000_0000) by (nonlinear_arith)
            requires
                mid <= 0x400_0000_0000,
        ;
        if mid * mid <= n {
            low = mid;
        } else {
            high = mid;
        }
    }
    low
}

impl core::ops::Neg for Fixed {
    type Output = Fixed;

    fn neg(self) -> (r: Fixed)
        ensures
            r@ == fx_neg(self@),
            r@ == -self@,
    {
        proof {
            use_type_invariant(&self);
        }
        Fixed { raw: -self.raw }
    }
}

impl vstd::std_specs::ops::NegSpecImpl for Fixed {
    open spec fn obeys_neg_spec() -> bool {
        true
    }

    open spec fn neg_req(self) -> bool {
        true
    }

    open spec fn neg_spec(self) -> Fixed {
        Fixed::of(fx_neg(self@))
    }
}

impl core::ops::Add for Fixed {
    type Output = Fixed;

    fn add(self, rhs: Fixed) -> (r: Fixed)
        ensures
            r@ == fx_add(self@, rhs@),
    {
        Fixed::clamped(self.raw as i128 + rhs.raw as i128)
    }
}

impl vstd::std_specs::ops::AddSpecImpl for Fixed {
    open spec fn obeys_add_spec() -> bool {
        true
    }

    open spec fn add_req(self, rhs: Fixed) -> bool {
        true
    }

    open spec fn add_spec(self, rhs: Fixed) -> Fixed {
        Fixed::of(fx_add(self@, rhs@))
    }
}

impl core::ops::Sub for Fixed {
    type Output = Fixed;

    fn sub(self, rhs: Fixed) -> (r: Fixed)
        ensures
            r@ == fx_sub(self@, rhs@),
    {
        Fixed::clamped(self.raw as i128 - rhs.raw as i128)
    }
}

impl vstd::std_specs::ops::SubSpecImpl for Fixed {
    open spec fn obeys_sub_spec() -> bool {
        true
    }

    open spec fn sub_req(self, rhs: Fixed) -> bool {
        true
    }

    open spec fn sub_spec(self, rhs: Fixed) -> Fixed {
        Fixed::of(fx_sub(self@, rhs@))
    }
}

impl core::ops::Mul for Fixed {
    type Output = Fixed;

    fn mul(self, rhs: Fixed) -> (r: Fixed)
        ensures
            r@ == fx_mul(self@, rhs@),
    {
        proof {
            use_type_invariant(&self);
            use_type_invariant(&rhs);
            lemma_product_bound(self.raw as int, rhs.raw as int);
        }
        let product: i128 = (self.raw as i128) * (rhs.raw as i128);
        Fixed::clamped(product / (SCALE as i128))
    }
}

impl vstd::std_specs::ops::MulSpecImpl for Fixed {
    open spec fn obeys_mul_spec() -> bool {
        true
    }

    open spec fn mul_req(self, rhs: Fixed) -> bool {
        true
    }

    open spec fn mul_spec(self, rhs: Fixed) -> Fixed {
        Fixed::of(fx_mul(self@, rhs@))
    }
}

impl core::ops::Div for Fixed {
    type Output = Fixed;

    fn div(self, rhs: Fixed) -> (r: Fixed)
        ensures
            r@ == fx_div(self@, rhs@),
    {
        proof {
            use_type_invariant(&self);
            use_type_invariant(&rhs);
        }
        if rhs.raw == 0 {
            if self.raw > 0 {
                Fixed { raw: LIMIT }
            } else if self.raw < 0 {
                Fixed { raw: -LIMIT }
            } else {
                Fixed { raw: 0 }
            }
        } else {
            let negative = (self.raw < 0) != (rhs.raw < 0);
            let dividend: u128 = self.magnitude();
            let divisor: u128 = rhs.magnitude();
            assert(dividend * SCALE <= LIMIT * SCALE) by (nonlinear_arith)
                requires
                    dividend <= LIMIT,
            ;
            let scaled: u128 = dividend * (SCALE as u128);
            let q: u128 = scaled / divisor;
            Fixed::signed(negative, q)
        }
    }
}

impl vstd::std_specs::ops::DivSpecImpl for Fixed {
    open spec fn obeys_div_spec() -> bool {
        true
    }

    open spec fn div_req(self, rhs: Fixed) -> bool {
        true
    }

    open spec fn div_spec(self, rhs: Fixed) -> Fixed {
        Fixed::of(fx_div(self@, rhs@))
    }
}

impl PartialOrd for Fixed {
    fn partial_cmp(&self, other: &Fixed) -> (r: Option<core::cmp::Ordering>) {
        if self.raw < other.raw {
            Some(core::cmp::Ordering::Less)
        } else if self.raw > other.raw {
            Some(core::cmp::Ordering::Greater)
        } else {
            Some(core::cmp::Ordering::Equal)
        }
    }
}

impl vstd::std_specs::cmp::PartialOrdSpecImpl for Fixed {
    open spec fn obeys_partial_cmp_spec() -> bool {
        true
    }

    open spec fn partial_cmp_spec(&self, other: &Fixed) -> Option<core::cmp::Ordering> {
        if self@ < other@ {
            Some(core::cmp::Ordering::Less)
        } else if self@ > other@ {
            Some(core::cmp::Ordering::Greater)
        } else {
            Some(core::cmp::Ordering::Equal)
        }
    }
}

impl Default for Fixed {
    fn default() -> (r: Fixed)
        ensures
            r@ == 0,
    {
        Fixed { raw: 0 }
    }
}

} // verus!
