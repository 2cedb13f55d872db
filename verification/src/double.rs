//! Double-precision numbers as plain values.
//!
//! Each number is held as its IEEE 754 bit pattern (`f64::to_bits`). Comparing
//! goes by the pattern, and the results of arithmetic are what the standard asks
//! for: the double nearest to the exact result, which [`crate::rounding`] finds in
//! whole numbers.

use crate::rounding;
use vstd::prelude::*;

verus! {

/// The sign bit.
pub const SIGN: u64 = 0x8000_0000_0000_0000;

/// The pattern of positive infinity; the patterns above it, sign aside, are not
/// numbers.
pub const INFINITY: u64 = 0x7ff0_0000_0000_0000;

/// A pattern that is not a number.
pub const NAN: u64 = 0x7ff8_0000_0000_0000;

/// One.
pub const ONE: u64 = 0x3ff0_0000_0000_0000;

/// Ten.
pub const TEN: u64 = 0x4024_0000_0000_0000;

/// A hundred.
pub const HUNDRED: u64 = 0x4059_0000_0000_0000;

/// A million.
pub const MILLION: u64 = 0x412e_8480_0000_0000;

/// A double-precision number, by its bit pattern.
#[derive(Debug, Clone, Copy, PartialEq, Eq, Structural)]
pub struct Double {
    pub bits: u64,
}

impl Double {
    /// The pattern without its sign.
    pub open spec fn magnitude(self) -> int {
        if self.bits >= SIGN {
            self.bits - SIGN
        } else {
            self.bits as int
        }
    }

    pub open spec fn is_negative(self) -> bool {
        self.bits >= SIGN
    }

    pub open spec fn is_number(self) -> bool {
        self.magnitude() <= INFINITY
    }

    pub open spec fn is_finite(self) -> bool {
        self.magnitude() < INFINITY
    }

    /// A finite number above zero.
    pub open spec fn is_positive(self) -> bool {
        0 < self.bits < INFINITY
    }

    /// The number in units of the smallest one above zero. For finite numbers.
    pub open spec fn count(self) -> int {
        if self.is_negative() {
            -rounding::units(self.magnitude())
        } else {
            rounding::units(self.magnitude())
        }
    }

    /// Numbers order as their ranks do; both zeros have rank zero.
    pub open spec fn rank(self) -> int {
        if self.bits >= SIGN {
            -self.magnitude()
        } else {
            self.magnitude()
        }
    }

    /// `self >= other` on doubles: false where either is not a number.
    pub open spec fn at_least(self, other: Double) -> bool {
        self.is_number() && other.is_number() && self.rank() >= other.rank()
    }

    /// `self > other` on doubles: false where either is not a number.
    pub open spec fn above(self, other: Double) -> bool {
        self.is_number() && other.is_number() && self.rank() > other.rank()
    }

    /// The rank of the number.
    pub fn signed_rank(self) -> (r: i64)
        ensures
            r == self.rank(),
    {
        if self.bits >= SIGN {
            0 - ((self.bits - SIGN) as i64)
        } else {
            self.bits as i64
        }
    }

    /// The pattern without its sign.
    fn pattern(self) -> (r: u64)
        ensures
            r == self.magnitude(),
    {
        if self.bits >= SIGN {
            self.bits - SIGN
        } else {
            self.bits
        }
    }

    /// Whether the number is at least another.
    pub fn is_at_least(self, other: Double) -> (r: bool)
        ensures
            r == self.at_least(other),
    {
        self.pattern() <= INFINITY && other.pattern() <= INFINITY && self.signed_rank()
            >= other.signed_rank()
    }

    /// Whether the number is above another.
    pub fn is_above(self, other: Double) -> (r: bool)
        ensures
            r == self.above(other),
    {
        self.pattern() <= INFINITY && other.pattern() <= INFINITY && self.signed_rank()
            > other.signed_rank()
    }
}

/// An optional number, or a default.
pub open spec fn double_or(x: Option<Double>, default: u64) -> Double {
    match x {
        Some(v) => v,
        None => Double { bits: default },
    }
}

/// An optional number, or a default.
pub fn or_default(x: Option<Double>, default: u64) -> (r: Double)
    ensures
        r == double_or(x, default),
{
    match x {
        Some(v) => v,
        None => Double { bits: default },
    }
}

// --- Bounds ------------------------------------------------------------------

/// `x`, or the cap where `x` is above it or not a number.
pub open spec fn capped(x: Double, cap: u64) -> Double {
    if (Double { bits: cap }).at_least(x) {
        x
    } else {
        Double { bits: cap }
    }
}

/// `x` between zero and one; what is not a number stays so.
pub open spec fn clamped(x: Double) -> Double {
    if (Double { bits: 0 }).above(x) {
        Double { bits: 0 }
    } else if x.above(Double { bits: ONE }) {
        Double { bits: ONE }
    } else {
        x
    }
}

/// A number between zero and one.
pub open spec fn is_fraction(x: Double) -> bool {
    x.at_least(Double { bits: 0 }) && (Double { bits: ONE }).at_least(x)
}

/// `x`, or the cap where `x` is above it or not a number.
pub fn cap_at(x: Double, cap: u64) -> (r: Double)
    ensures
        r == capped(x, cap),
{
    if (Double { bits: cap }).is_at_least(x) {
        x
    } else {
        Double { bits: cap }
    }
}

/// `x` between zero and one; what is not a number stays so.
pub fn clamp(x: Double) -> (r: Double)
    ensures
        r == clamped(x),
{
    if (Double { bits: 0 }).is_above(x) {
        Double { bits: 0 }
    } else if x.is_above(Double { bits: ONE }) {
        Double { bits: ONE }
    } else {
        x
    }
}

// --- Arithmetic --------------------------------------------------------------

/// The double of a sign and a pattern; infinity where the pattern is past it.
pub open spec fn made(negative: bool, pattern: int) -> Double {
    let p = if pattern < INFINITY {
        pattern
    } else {
        INFINITY as int
    };
    Double {
        bits: (p + if negative {
            SIGN as int
        } else {
            0
        }) as u64,
    }
}

/// The double nearest to a whole number.
pub open spec fn integer(n: int) -> Double {
    made(false, rounding::nearest(n * rounding::unit(), 1))
}

pub open spec fn negated(x: Double) -> Double {
    if x.is_negative() {
        Double { bits: (x.bits - SIGN) as u64 }
    } else {
        Double { bits: (x.bits + SIGN) as u64 }
    }
}

/// `x + y` on doubles.
pub open spec fn sum(x: Double, y: Double) -> Double {
    let total = x.count() + y.count();
    if !x.is_number() || !y.is_number() || (!x.is_finite() && !y.is_finite() && x != y) {
        Double { bits: NAN }
    } else if !x.is_finite() {
        x
    } else if !y.is_finite() {
        y
    } else if total > 0 {
        made(false, rounding::nearest(total, 1))
    } else if total < 0 {
        made(true, rounding::nearest(-total, 1))
    } else {
        made(x.is_negative() && y.is_negative(), 0)
    }
}

/// `x - y` on doubles.
pub open spec fn difference(x: Double, y: Double) -> Double {
    sum(x, negated(y))
}

/// `x * y` on doubles, for a positive `y`.
pub open spec fn product(x: Double, y: Double) -> Double {
    if !x.is_number() {
        Double { bits: NAN }
    } else if !x.is_finite() {
        x
    } else {
        made(
            x.is_negative(),
            rounding::nearest(
                rounding::units(x.magnitude()) * rounding::units(y.magnitude()),
                rounding::unit(),
            ),
        )
    }
}

/// `x / y` on doubles, for a positive `y`.
pub open spec fn quotient(x: Double, y: Double) -> Double {
    if !x.is_number() {
        Double { bits: NAN }
    } else if !x.is_finite() {
        x
    } else {
        made(
            x.is_negative(),
            rounding::nearest(
                rounding::units(x.magnitude()) * rounding::unit(),
                rounding::units(y.magnitude()),
            ),
        )
    }
}

/// The nearest multiple of one, in units; of two as near, the greater.
pub open spec fn whole_units(u: int) -> int {
    (2 * u + rounding::unit()) / (2 * rounding::unit()) * rounding::unit()
}

/// The whole number nearest to `x`; of two as near, the one further from zero.
pub open spec fn whole(x: Double) -> Double {
    if !x.is_finite() {
        x
    } else {
        made(
            x.is_negative(),
            rounding::nearest(whole_units(rounding::units(x.magnitude())), 1),
        )
    }
}

/// `x` rounded to the parts of one that `scale` counts.
pub open spec fn rounded_to(x: Double, scale: u64) -> Double {
    quotient(whole(product(x, Double { bits: scale })), Double { bits: scale })
}

/// The part of a whole in percent.
pub open spec fn percent(part: int, whole: int) -> Double {
    product(quotient(integer(part), integer(whole)), Double { bits: HUNDRED })
}

/// The whole number that a number above zero holds; zero for any other, and what
/// does not fit in 64 bits for infinity.
pub open spec fn truncated(x: Double) -> int {
    if x.is_negative() || !x.is_number() {
        0
    } else if !x.is_finite() {
        u64::MAX + 1
    } else {
        x.count() / rounding::unit()
    }
}

fn make(negative: bool, pattern: u64) -> (r: Double)
    ensures
        r == made(negative, pattern as int),
{
    let p: u64 = if pattern < INFINITY {
        pattern
    } else {
        INFINITY
    };
    if negative {
        Double { bits: p + SIGN }
    } else {
        Double { bits: p }
    }
}

/// The double nearest to a whole number.
pub fn from_integer(n: u128) -> (r: Double)
    ensures
        r == integer(n as int),
        r.is_finite(),
        n > 0 ==> r.is_positive(),
{
    let pattern: u64 = rounding::encode(n, rounding::POWER_OF_ONE, 1);
    proof {
        lemma_integer_range(n as int);
    }
    make(false, pattern)
}

/// Whole numbers above zero are positive doubles.
pub proof fn lemma_integer_range(n: int)
    requires
        0 <= n <= u128::MAX,
    ensures
        0 <= rounding::nearest(n * rounding::unit(), 1) < INFINITY,
        n > 0 ==> rounding::nearest(n * rounding::unit(), 1) >= ONE,
{
    let one = rounding::unit();
    vstd::arithmetic::power2::lemma2_to64();
    vstd::arithmetic::power2::lemma2_to64_rest();
    vstd::arithmetic::power2::lemma_pow2_pos(1074);
    // Two to the 128th, times one.
    let top = 0x4800_0000_0000_0000int;
    rounding::lemma_units(0x10_0000_0000_0000, 1150);
    vstd::arithmetic::power2::lemma_pow2_adds(76, 1074);
    vstd::arithmetic::power2::lemma_pow2_adds(64, 12);
    assert(rounding::units(0x10_0000_0000_0000 + 1150 * rounding::FRACTIONS) == 0x10_0000_0000_0000
        * (0x1000_0000_0000_0000_0000 * one)) by (nonlinear_arith)
        requires
            rounding::units(0x10_0000_0000_0000 + 1150 * rounding::FRACTIONS)
                == 0x10_0000_0000_0000 * rounding::power(1150),
            rounding::power(1150) == 0x1000_0000_0000_0000_0000 * one,
    ;
    let most = rounding::units(0x10_0000_0000_0000 + 1150 * rounding::FRACTIONS);
    assert(0 <= n * one <= most) by (nonlinear_arith)
        requires
            0 <= n <= u128::MAX,
            one > 0,
            most == 0x10_0000_0000_0000 * (0x1000_0000_0000_0000_0000 * one),
    ;
    rounding::lemma_nearest_grows(n * one, most, 1);
    rounding::lemma_nearest_exact(0x10_0000_0000_0000 + 1150 * rounding::FRACTIONS);
    if n > 0 {
        lemma_units_of_one();
        rounding::lemma_nearest_exact(ONE as int);
        assert(one <= n * one) by (nonlinear_arith)
            requires
                n >= 1,
                one > 0,
        ;
        rounding::lemma_nearest_grows(one, n * one, 1);
    }
}

/// The pattern of one has the units of one.
pub proof fn lemma_units_of_one()
    ensures
        rounding::units(ONE as int) == rounding::unit(),
        rounding::unit() > 0,
{
    vstd::arithmetic::power2::lemma2_to64_rest();
    vstd::arithmetic::power2::lemma_pow2_adds(52, 1022);
    vstd::arithmetic::power2::lemma_pow2_pos(1074);
    rounding::lemma_units(0x10_0000_0000_0000, 1022);
}

/// What is less than a quarter of the last bit of a number does not change it.
proof fn lemma_far(m: int, s: nat, little: int)
    requires
        rounding::FRACTIONS <= m < rounding::DENSE,
        s >= 2,
        0 <= little <= rounding::power((s - 2) as nat),
    ensures
        rounding::nearest(m * rounding::power(s) + little, 1) == m + s * rounding::FRACTIONS,
        rounding::nearest(m * rounding::power(s) - little, 1) == m + s * rounding::FRACTIONS,
{
    let rest = (s - 2) as nat;
    let p = rounding::power(rest);
    vstd::arithmetic::power2::lemma_pow2_unfold(s);
    vstd::arithmetic::power2::lemma_pow2_unfold((s - 1) as nat);
    vstd::arithmetic::power2::lemma_pow2_pos(rest);
    assert(m * rounding::power(s) == (4 * m) * p && (4 * m + 1) * p == (4 * m) * p + p && (4 * m
        - 1) * p == (4 * m) * p - p) by (nonlinear_arith)
        requires
            rounding::power(s) == 4 * p,
    ;
    let low = 4 * m - 1;
    let high = 4 * m + 1;
    assert(rounding::nearest(high, 1) == m + 2 * rounding::FRACTIONS) by {
        reveal_with_fuel(rounding::nearest, 3);
    }
    assert(rounding::nearest(low, 1) == m + 2 * rounding::FRACTIONS) by {
        reveal_with_fuel(rounding::nearest, 3);
    }
    rounding::lemma_nearest_shifts(low, rest, 1);
    rounding::lemma_nearest_shifts(high, rest, 1);
    assert(2 * rounding::FRACTIONS + rest * rounding::FRACTIONS == s * rounding::FRACTIONS)
        by (nonlinear_arith)
        requires
            s == rest + 2,
    ;
    assert(low * p >= 0) by (nonlinear_arith)
        requires
            low >= 0,
            p > 0,
    ;
    let x = m * rounding::power(s);
    rounding::lemma_nearest_grows(low * p, x - little, 1);
    rounding::lemma_nearest_grows(x - little, high * p, 1);
    rounding::lemma_nearest_grows(low * p, x + little, 1);
    rounding::lemma_nearest_grows(x + little, high * p, 1);
}

/// The pattern nearest to the units of two patterns together, or to those of the
/// first less those of the second.
fn combined(a: u64, b: u64, subtract: bool) -> (r: u64)
    requires
        b <= a < INFINITY,
    ensures
        r == rounding::nearest(
            rounding::units(a as int) + if subtract {
                -rounding::units(b as int)
            } else {
                rounding::units(b as int)
            },
            1,
        ),
{
    let (m, s) = rounding::parts(a);
    let (n, t) = rounding::parts(b);
    proof {
        rounding::lemma_units_grow(b as int, a as int);
        assert(t <= s) by (nonlinear_arith)
            requires
                n + t * rounding::FRACTIONS <= m + s * rounding::FRACTIONS,
                m < rounding::DENSE,
                rounding::DENSE == 2 * rounding::FRACTIONS,
                t > 0 ==> n >= rounding::FRACTIONS,
                s > 0 || s == 0,
        ;
    }
    let apart: u64 = s - t;
    if apart > 64 {
        proof {
            vstd::arithmetic::power2::lemma2_to64_rest();
            vstd::arithmetic::power2::lemma_pow2_adds(53, t as nat);
            vstd::arithmetic::power2::lemma_pow2_pos(t as nat);
            if t + 53 < s - 2 {
                vstd::arithmetic::power2::lemma_pow2_strictly_increases(
                    (t + 53) as nat,
                    (s - 2) as nat,
                );
            }
            let little = rounding::units(b as int);
            assert(0 <= little <= rounding::power((t + 53) as nat)) by (nonlinear_arith)
                requires
                    little == n * rounding::power(t as nat),
                    0 <= n < rounding::DENSE,
                    rounding::power((t + 53) as nat) == rounding::DENSE * rounding::power(t as nat),
                    rounding::power(t as nat) > 0,
            ;
            lemma_far(m as int, s as nat, little);
        }
        return a;
    }
    let scale: u128 = rounding::power_of_two(apart);
    proof {
        vstd::arithmetic::power2::lemma2_to64();
        if apart < 64 {
            vstd::arithmetic::power2::lemma_pow2_strictly_increases(apart as nat, 64);
        }
        vstd::arithmetic::power2::lemma_pow2_adds(apart as nat, t as nat);
        assert(m * scale <= 0x20_0000_0000_0000 * 0x1_0000_0000_0000_0000) by (nonlinear_arith)
            requires
                m < 0x20_0000_0000_0000,
                1 <= scale <= 0x1_0000_0000_0000_0000,
        ;
        let p = rounding::power(t as nat);
        assert(m * rounding::power(s as nat) == (m * scale) * p) by (nonlinear_arith)
            requires
                rounding::power(s as nat) == scale * p,
        ;
        vstd::arithmetic::power2::lemma_pow2_pos(t as nat);
        assert((m * scale + n) * p == (m * scale) * p + n * p && (m * scale - n) * p == (m * scale)
            * p - n * p) by (nonlinear_arith);
        assert(n <= m * scale) by (nonlinear_arith)
            requires
                n * p <= (m * scale) * p,
                p > 0,
        ;
    }
    let wide: u128 = m as u128 * scale;
    if subtract {
        rounding::encode(wide - n as u128, t, 1)
    } else {
        rounding::encode(wide + n as u128, t, 1)
    }
}

/// `x + y` on doubles.
pub fn plus(x: Double, y: Double) -> (r: Double)
    ensures
        r == sum(x, y),
{
    let a: u64 = x.pattern();
    let b: u64 = y.pattern();
    if a > INFINITY || b > INFINITY || (a == INFINITY && b == INFINITY && x.bits != y.bits) {
        return Double { bits: NAN };
    }
    if a == INFINITY {
        return x;
    }
    if b == INFINITY {
        return y;
    }
    let negative = x.bits >= SIGN;
    let other = y.bits >= SIGN;
    proof {
        rounding::lemma_units_grow(0, a as int);
        rounding::lemma_units_grow(0, b as int);
        if a <= b {
            rounding::lemma_units_grow(a as int, b as int);
        } else {
            rounding::lemma_units_grow(b as int, a as int);
        }
    }
    if a == b && (negative != other || a == 0) {
        return make(negative && other, 0);
    }
    if a >= b {
        make(negative, combined(a, b, negative != other))
    } else {
        make(other, combined(b, a, negative != other))
    }
}

/// `x - y` on doubles.
pub fn minus(x: Double, y: Double) -> (r: Double)
    ensures
        r == difference(x, y),
{
    let opposite = if y.bits >= SIGN {
        Double { bits: y.bits - SIGN }
    } else {
        Double { bits: y.bits + SIGN }
    };
    plus(x, opposite)
}

/// `x * y` on doubles, for a positive `y`.
pub fn times(x: Double, y: Double) -> (r: Double)
    requires
        y.is_positive(),
    ensures
        r == product(x, y),
{
    let a: u64 = x.pattern();
    if a > INFINITY {
        return Double { bits: NAN };
    }
    if a == INFINITY {
        return x;
    }
    let negative = x.bits >= SIGN;
    let (m, s) = rounding::parts(a);
    let (n, t) = rounding::parts(y.bits);
    assert(m * n < 0x20_0000_0000_0000 * 0x20_0000_0000_0000) by (nonlinear_arith)
        requires
            0 <= m < 0x20_0000_0000_0000,
            0 <= n < 0x20_0000_0000_0000,
    ;
    let digits: u128 = m as u128 * n as u128;
    let ghost p = rounding::power(s as nat);
    let ghost q = rounding::power(t as nat);
    let ghost one = rounding::unit();
    proof {
        vstd::arithmetic::power2::lemma_pow2_adds(s as nat, t as nat);
        vstd::arithmetic::power2::lemma_pow2_pos(1074);
        assert((m * p) * (n * q) == digits * rounding::power((s + t) as nat)) by (nonlinear_arith)
            requires
                digits == m * n,
                rounding::power((s + t) as nat) == p * q,
        ;
    }
    if s + t >= 1074 {
        let up: u64 = s + t - 1074;
        proof {
            let k = rounding::power(up as nat);
            vstd::arithmetic::power2::lemma_pow2_adds(up as nat, 1074);
            vstd::arithmetic::power2::lemma_pow2_pos(up as nat);
            assert(digits * rounding::power((s + t) as nat) == (digits * k) * one)
                by (nonlinear_arith)
                requires
                    rounding::power((s + t) as nat) == k * one,
            ;
            assert(1 * one == one) by (nonlinear_arith);
            assert(digits * k >= 0) by (nonlinear_arith)
                requires
                    digits >= 0,
                    k > 0,
            ;
            rounding::lemma_nearest_scales(digits * k, 1, one);
        }
        return make(negative, rounding::encode(digits, up, 1));
    }
    let down: u64 = 1074 - s - t;
    proof {
        let k = rounding::power(down as nat);
        let e = rounding::power((s + t) as nat);
        vstd::arithmetic::power2::lemma_pow2_adds(down as nat, (s + t) as nat);
        vstd::arithmetic::power2::lemma_pow2_pos(down as nat);
        vstd::arithmetic::power2::lemma_pow2_pos((s + t) as nat);
        rounding::lemma_nearest_scales(digits as int, k, e);
    }
    if down > 107 {
        proof {
            let k = rounding::power(down as nat);
            vstd::arithmetic::power2::lemma2_to64();
            vstd::arithmetic::power2::lemma2_to64_rest();
            vstd::arithmetic::power2::lemma_pow2_adds(64, 43);
            vstd::arithmetic::power2::lemma_pow2_strictly_increases(107, down as nat);
            lemma_rounds_away(digits as int, k);
        }
        return make(negative, 0);
    }
    make(negative, rounding::nearest_pattern(digits, rounding::power_of_two(down)))
}

/// Less than half a unit is nothing.
proof fn lemma_rounds_away(n: int, d: int)
    requires
        0 <= n,
        2 * n < d,
    ensures
        rounding::nearest(n, d) == 0,
{
    assert(n < d * rounding::DENSE) by (nonlinear_arith)
        requires
            n < d,
            d > 0,
            rounding::DENSE >= 1,
    ;
    vstd::arithmetic::div_mod::lemma_fundamental_div_mod_converse(n, d, 0, n);
}

/// `x / y` on doubles, for a positive `y`.
pub fn over(x: Double, y: Double) -> (r: Double)
    requires
        y.is_positive(),
    ensures
        r == quotient(x, y),
{
    let a: u64 = x.pattern();
    if a > INFINITY {
        return Double { bits: NAN };
    }
    if a == INFINITY {
        return x;
    }
    let negative = x.bits >= SIGN;
    let (m, s) = rounding::parts(a);
    let (n, t) = rounding::parts(y.bits);
    let ghost p = rounding::power(s as nat);
    let ghost q = rounding::power(t as nat);
    let ghost one = rounding::unit();
    proof {
        vstd::arithmetic::power2::lemma_pow2_adds(s as nat, 1074);
        vstd::arithmetic::power2::lemma_pow2_pos(t as nat);
        rounding::lemma_units_grow(1, y.bits as int);
        assert(n > 0) by (nonlinear_arith)
            requires
                n * q >= 1,
                n >= 0,
        ;
        assert((m * p) * one == m * rounding::power((s + 1074) as nat)) by (nonlinear_arith)
            requires
                rounding::power((s + 1074) as nat) == p * one,
        ;
    }
    if s + 1074 >= t {
        let up: u64 = s + 1074 - t;
        proof {
            let k = rounding::power(up as nat);
            vstd::arithmetic::power2::lemma_pow2_adds(up as nat, t as nat);
            vstd::arithmetic::power2::lemma_pow2_pos(up as nat);
            assert(m * rounding::power((s + 1074) as nat) == (m * k) * q && m * k >= 0)
                by (nonlinear_arith)
                requires
                    rounding::power((s + 1074) as nat) == k * q,
                    m >= 0,
                    k > 0,
            ;
            rounding::lemma_nearest_scales(m * k, n as int, q);
        }
        return make(negative, rounding::encode(m as u128, up, n as u128));
    }
    let down: u64 = t - s - 1074;
    proof {
        let k = rounding::power(down as nat);
        let e = rounding::power((s + 1074) as nat);
        vstd::arithmetic::power2::lemma_pow2_adds(down as nat, (s + 1074) as nat);
        vstd::arithmetic::power2::lemma_pow2_pos(down as nat);
        vstd::arithmetic::power2::lemma_pow2_pos((s + 1074) as nat);
        assert(n * q == (n * k) * e && n * k > 0) by (nonlinear_arith)
            requires
                q == k * e,
                n > 0,
                k > 0,
        ;
        rounding::lemma_nearest_scales(m as int, n * k, e);
    }
    if down > 2 {
        proof {
            let k = rounding::power(down as nat);
            vstd::arithmetic::power2::lemma2_to64();
            if down > 3 {
                vstd::arithmetic::power2::lemma_pow2_strictly_increases(3, down as nat);
            }
            assert(2 * m < n * k) by (nonlinear_arith)
                requires
                    m < 2 * rounding::FRACTIONS,
                    n >= rounding::FRACTIONS,
                    k >= 8,
            ;
            lemma_rounds_away(m as int, n * k);
        }
        return make(negative, 0);
    }
    let scale: u128 = rounding::power_of_two(down);
    proof {
        vstd::arithmetic::power2::lemma2_to64();
        assert(n * scale <= 0x20_0000_0000_0000 * 4) by (nonlinear_arith)
            requires
                n < 0x20_0000_0000_0000,
                scale <= 4,
        ;
    }
    make(negative, rounding::nearest_pattern(m as u128, n as u128 * scale))
}

/// The whole number nearest to `x`; of two as near, the one further from zero.
pub fn to_whole(x: Double) -> (r: Double)
    ensures
        r == whole(x),
{
    let a: u64 = x.pattern();
    if a >= INFINITY {
        return x;
    }
    let negative = x.bits >= SIGN;
    let (m, s) = rounding::parts(a);
    let ghost u = rounding::units(a as int);
    let ghost one = rounding::unit();
    proof {
        vstd::arithmetic::power2::lemma_pow2_pos(1074);
        vstd::arithmetic::power2::lemma_pow2_pos(s as nat);
        rounding::lemma_units_grow(0, a as int);
    }
    if s >= 1074 {
        // The number is whole already.
        proof {
            let k = m * rounding::power((s - 1074) as nat);
            vstd::arithmetic::power2::lemma_pow2_adds((s - 1074) as nat, 1074);
            assert(u == k * one) by (nonlinear_arith)
                requires
                    u == m * rounding::power(s as nat),
                    rounding::power(s as nat) == rounding::power((s - 1074) as nat) * one,
                    k == m * rounding::power((s - 1074) as nat),
            ;
            lemma_whole_units(k, one, 0);
            rounding::lemma_nearest_exact(a as int);
        }
        return make(negative, a);
    }
    let down: u64 = 1074 - s;
    let ghost p = rounding::power(s as nat);
    proof {
        vstd::arithmetic::power2::lemma_pow2_adds(down as nat, s as nat);
    }
    if down > 54 {
        proof {
            vstd::arithmetic::power2::lemma2_to64_rest();
            vstd::arithmetic::power2::lemma_pow2_strictly_increases(54, down as nat);
            assert(0 <= 2 * u < one) by (nonlinear_arith)
                requires
                    u == m * p,
                    0 <= m,
                    2 * m < rounding::power(down as nat),
                    one == rounding::power(down as nat) * p,
                    p > 0,
            ;
            lemma_whole_units(0, one, u);
            assert(0 * one == 0) by (nonlinear_arith);
        }
        return make(negative, 0);
    }
    let scale: u128 = rounding::power_of_two(down);
    proof {
        vstd::arithmetic::power2::lemma2_to64();
        vstd::arithmetic::power2::lemma2_to64_rest();
        if down < 54 {
            vstd::arithmetic::power2::lemma_pow2_strictly_increases(down as nat, 54);
        }
    }
    let n: u128 = 2 * (m as u128) + scale;
    let k: u128 = n / (2 * scale);
    proof {
        let d = 2 * scale as int;
        rounding::lemma_divides(n as int, d);
        let rest = u - k * one;
        assert(-one <= 2 * rest < one) by (nonlinear_arith)
            requires
                rest == u - k * one,
                u == m * p,
                one == scale * p,
                2 * m + scale == k * (2 * scale) + n as int % d,
                0 <= n as int % d < 2 * scale,
                p > 0,
        ;
        lemma_whole_units(k as int, one, rest);
    }
    make(negative, rounding::encode(k, rounding::POWER_OF_ONE, 1))
}

/// A number less than half of one from a whole number is rounded to it.
proof fn lemma_whole_units(k: int, one: int, rest: int)
    requires
        one == rounding::unit(),
        -one <= 2 * rest < one,
        one > 0,
    ensures
        whole_units(k * one + rest) == k * one,
{
    let n = 2 * (k * one + rest) + one;
    assert(n == k * (2 * one) + (2 * rest + one)) by (nonlinear_arith)
        requires
            n == 2 * (k * one + rest) + one,
    ;
    vstd::arithmetic::div_mod::lemma_fundamental_div_mod_converse(
        n,
        2 * one,
        k,
        2 * rest + one,
    );
}

/// `x` rounded to the parts of one that `scale` counts.
pub fn round_to(x: Double, scale: u64) -> (r: Double)
    requires
        (Double { bits: scale }).is_positive(),
    ensures
        r == rounded_to(x, scale),
{
    let by = Double { bits: scale };
    over(to_whole(times(x, by)), by)
}

/// `x` rounded to tenths.
pub fn round1(x: Double) -> (r: Double)
    ensures
        r == rounded_to(x, TEN),
{
    round_to(x, TEN)
}

/// `x` rounded to hundredths.
pub fn round2(x: Double) -> (r: Double)
    ensures
        r == rounded_to(x, HUNDRED),
{
    round_to(x, HUNDRED)
}

/// The part of a whole in percent.
pub fn percentage(part: u128, whole: u128) -> (r: Double)
    requires
        whole > 0,
    ensures
        r == percent(part as int, whole as int),
{
    times(over(from_integer(part), from_integer(whole)), Double { bits: HUNDRED })
}

/// The whole number that a number above zero holds; zero for any other, and the
/// greatest there is where it does not fit.
pub fn truncate(x: Double) -> (r: u64)
    ensures
        r == if truncated(x) <= u64::MAX {
            truncated(x)
        } else {
            u64::MAX as int
        },
{
    let a: u64 = x.pattern();
    if x.bits >= SIGN || a > INFINITY {
        return 0;
    }
    if a == INFINITY {
        return u64::MAX;
    }
    let (m, s) = rounding::parts(a);
    let ghost one = rounding::unit();
    let ghost p = rounding::power(s as nat);
    proof {
        vstd::arithmetic::power2::lemma_pow2_pos(1074);
        vstd::arithmetic::power2::lemma_pow2_pos(s as nat);
    }
    if s < 1074 {
        let down: u64 = 1074 - s;
        proof {
            vstd::arithmetic::power2::lemma_pow2_adds(down as nat, s as nat);
            vstd::arithmetic::power2::lemma_pow2_pos(down as nat);
            vstd::arithmetic::div_mod::lemma_div_denominator(
                m * p,
                p,
                rounding::power(down as nat),
            );
            assert(p * rounding::power(down as nat) == one) by (nonlinear_arith)
                requires
                    one == rounding::power(down as nat) * p,
            ;
            vstd::arithmetic::div_mod::lemma_div_by_multiple(m as int, p);
        }
        if down > 53 {
            proof {
                vstd::arithmetic::power2::lemma2_to64_rest();
                vstd::arithmetic::power2::lemma_pow2_strictly_increases(53, down as nat);
                vstd::arithmetic::div_mod::lemma_fundamental_div_mod_converse(
                    m as int,
                    rounding::power(down as nat),
                    0,
                    m as int,
                );
            }
            return 0;
        }
        return (m as u128 / rounding::power_of_two(down)) as u64;
    }
    let up: u64 = s - 1074;
    let ghost k = rounding::power(up as nat);
    proof {
        vstd::arithmetic::power2::lemma_pow2_adds(up as nat, 1074);
        vstd::arithmetic::power2::lemma_pow2_pos(up as nat);
        assert(m * p == (m * k) * one) by (nonlinear_arith)
            requires
                p == k * one,
        ;
        vstd::arithmetic::div_mod::lemma_div_by_multiple(m * k, one);
    }
    if up > 11 {
        proof {
            vstd::arithmetic::power2::lemma2_to64();
            if up > 12 {
                vstd::arithmetic::power2::lemma_pow2_strictly_increases(12, up as nat);
            }
            assert(m * k > u64::MAX) by (nonlinear_arith)
                requires
                    m >= 0x10_0000_0000_0000,
                    k >= 0x1000,
            ;
        }
        return u64::MAX;
    }
    let scale: u128 = rounding::power_of_two(up);
    proof {
        vstd::arithmetic::power2::lemma2_to64();
        assert(m * scale <= u64::MAX) by (nonlinear_arith)
            requires
                m < 0x20_0000_0000_0000,
                scale <= 0x800,
        ;
    }
    (m as u128 * scale) as u64
}

// --- Order -------------------------------------------------------------------

/// Patterns in order make numbers in order.
proof fn lemma_made_grows(negative: bool, p: int, q: int)
    requires
        0 <= p <= q,
    ensures
        made(false, q).at_least(made(false, p)),
        made(true, p).at_least(made(true, q)),
        made(negative, p).is_number(),
        made(negative, p).is_negative() == negative,
        made(negative, p).magnitude() == if p < INFINITY {
            p
        } else {
            INFINITY as int
        },
{
}

/// Multiplying by a positive number keeps numbers in order.
pub proof fn products_keep_order(less: Double, more: Double, by: Double)
    requires
        more.at_least(less),
        by.is_positive(),
    ensures
        product(more, by).at_least(product(less, by)),
        product(less, by).is_negative() == less.is_negative(),
{
    let k = rounding::units(by.magnitude());
    let one = rounding::unit();
    vstd::arithmetic::power2::lemma_pow2_pos(1074);
    rounding::lemma_units_grow(0, by.magnitude());
    let (a, b) = (less.magnitude(), more.magnitude());
    rounding::lemma_units_grow(0, a);
    rounding::lemma_units_grow(0, b);
    let (u, v) = (rounding::units(a), rounding::units(b));
    assert(u * k >= 0 && v * k >= 0) by (nonlinear_arith)
        requires
            u >= 0,
            v >= 0,
            k >= 0,
    ;
    assert(0 * k == 0) by (nonlinear_arith);
    lemma_rounds_away(0, one);
    rounding::lemma_nearest_grows(u * k, u * k, one);
    rounding::lemma_nearest_grows(v * k, v * k, one);
    lemma_made_grows(
        less.is_negative(),
        rounding::nearest(u * k, one),
        rounding::nearest(u * k, one),
    );
    lemma_made_grows(
        more.is_negative(),
        rounding::nearest(v * k, one),
        rounding::nearest(v * k, one),
    );
    if a <= b {
        rounding::lemma_units_grow(a, b);
        assert(u * k <= v * k) by (nonlinear_arith)
            requires
                u <= v,
                k >= 0,
        ;
        rounding::lemma_nearest_grows(u * k, v * k, one);
        lemma_made_grows(false, rounding::nearest(u * k, one), rounding::nearest(v * k, one));
    } else {
        rounding::lemma_units_grow(b, a);
        assert(v * k <= u * k) by (nonlinear_arith)
            requires
                v <= u,
                k >= 0,
        ;
        rounding::lemma_nearest_grows(v * k, u * k, one);
        lemma_made_grows(true, rounding::nearest(v * k, one), rounding::nearest(u * k, one));
    }
}

/// Dividing by a positive number keeps numbers in order.
pub proof fn quotients_keep_order(less: Double, more: Double, by: Double)
    requires
        more.at_least(less),
        by.is_positive(),
    ensures
        quotient(more, by).at_least(quotient(less, by)),
        quotient(less, by).is_negative() == less.is_negative(),
{
    let k = rounding::unit();
    let d = rounding::units(by.magnitude());
    vstd::arithmetic::power2::lemma_pow2_pos(1074);
    rounding::lemma_units_grow(1, by.magnitude());
    let (a, b) = (less.magnitude(), more.magnitude());
    rounding::lemma_units_grow(0, a);
    rounding::lemma_units_grow(0, b);
    let (u, v) = (rounding::units(a), rounding::units(b));
    assert(u * k >= 0 && v * k >= 0) by (nonlinear_arith)
        requires
            u >= 0,
            v >= 0,
            k >= 0,
    ;
    assert(0 * k == 0) by (nonlinear_arith);
    lemma_rounds_away(0, d);
    rounding::lemma_nearest_grows(u * k, u * k, d);
    rounding::lemma_nearest_grows(v * k, v * k, d);
    lemma_made_grows(less.is_negative(), rounding::nearest(u * k, d), rounding::nearest(u * k, d));
    lemma_made_grows(more.is_negative(), rounding::nearest(v * k, d), rounding::nearest(v * k, d));
    if a <= b {
        rounding::lemma_units_grow(a, b);
        assert(u * k <= v * k) by (nonlinear_arith)
            requires
                u <= v,
                k >= 0,
        ;
        rounding::lemma_nearest_grows(u * k, v * k, d);
        lemma_made_grows(false, rounding::nearest(u * k, d), rounding::nearest(v * k, d));
    } else {
        rounding::lemma_units_grow(b, a);
        assert(v * k <= u * k) by (nonlinear_arith)
            requires
                v <= u,
                k >= 0,
        ;
        rounding::lemma_nearest_grows(v * k, u * k, d);
        lemma_made_grows(true, rounding::nearest(v * k, d), rounding::nearest(u * k, d));
    }
}

proof fn lemma_whole_units_grow(u: int, v: int)
    requires
        0 <= u <= v,
    ensures
        0 <= whole_units(u) <= whole_units(v),
{
    let one = rounding::unit();
    vstd::arithmetic::power2::lemma_pow2_pos(1074);
    let (a, b) = ((2 * u + one) / (2 * one), (2 * v + one) / (2 * one));
    vstd::arithmetic::div_mod::lemma_div_pos_is_pos(2 * u + one, 2 * one);
    vstd::arithmetic::div_mod::lemma_div_is_ordered(2 * u + one, 2 * v + one, 2 * one);
    assert(0 <= a * one <= b * one) by (nonlinear_arith)
        requires
            0 <= a <= b,
            one > 0,
    ;
}

/// Rounding to a whole number keeps numbers in order.
proof fn lemma_wholes_keep_order(less: Double, more: Double)
    requires
        more.at_least(less),
    ensures
        whole(more).at_least(whole(less)),
        whole(less).is_negative() == less.is_negative(),
{
    let (a, b) = (less.magnitude(), more.magnitude());
    rounding::lemma_units_grow(0, a);
    rounding::lemma_units_grow(0, b);
    let (u, v) = (rounding::units(a), rounding::units(b));
    vstd::arithmetic::power2::lemma_pow2_pos(1074);
    lemma_whole_units(0, rounding::unit(), 0);
    assert(rounding::nearest(0 * rounding::unit(), 1) == 0);
    lemma_whole_units_grow(u, u);
    lemma_whole_units_grow(v, v);
    let (x, y) = (whole_units(u), whole_units(v));
    rounding::lemma_nearest_grows(x, x, 1);
    rounding::lemma_nearest_grows(y, y, 1);
    lemma_made_grows(less.is_negative(), rounding::nearest(x, 1), rounding::nearest(x, 1));
    lemma_made_grows(more.is_negative(), rounding::nearest(y, 1), rounding::nearest(y, 1));
    if a <= b {
        rounding::lemma_units_grow(a, b);
        lemma_whole_units_grow(u, v);
        rounding::lemma_nearest_grows(x, y, 1);
        lemma_made_grows(false, rounding::nearest(x, 1), rounding::nearest(y, 1));
    } else {
        rounding::lemma_units_grow(b, a);
        lemma_whole_units_grow(v, u);
        rounding::lemma_nearest_grows(y, x, 1);
        lemma_made_grows(true, rounding::nearest(y, 1), rounding::nearest(x, 1));
    }
}

/// Rounding keeps numbers in order.
pub proof fn rounding_keeps_order(less: Double, more: Double, scale: u64)
    requires
        more.at_least(less),
        (Double { bits: scale }).is_positive(),
    ensures
        rounded_to(more, scale).at_least(rounded_to(less, scale)),
{
    let by = Double { bits: scale };
    products_keep_order(less, more, by);
    lemma_wholes_keep_order(product(less, by), product(more, by));
    quotients_keep_order(whole(product(less, by)), whole(product(more, by)), by);
}

/// A whole number that has the bits of a double is held exactly.
proof fn lemma_exact(n: int, s: nat)
    requires
        0 < n < rounding::DENSE,
    ensures
        rounding::units(rounding::nearest(n * rounding::power(s), 1)) == n * rounding::power(s),
    decreases s,
{
    vstd::arithmetic::power2::lemma2_to64();
    if s == 0 {
        assert(n * rounding::power(0) == n) by (nonlinear_arith)
            requires
                rounding::power(0) == 1,
        ;
        assert(rounding::half_even(n, 1) == n);
    } else if n >= rounding::FRACTIONS {
        rounding::lemma_nearest_shifts(n, s, 1);
        rounding::lemma_nearest_exact(n);
        rounding::lemma_units(n, s);
    } else {
        vstd::arithmetic::power2::lemma_pow2_unfold(s);
        lemma_exact(2 * n, (s - 1) as nat);
        assert((2 * n) * rounding::power((s - 1) as nat) == n * rounding::power(s))
            by (nonlinear_arith)
            requires
                rounding::power(s) == 2 * rounding::power((s - 1) as nat),
        ;
    }
}

/// The units of a whole number.
pub proof fn lemma_integer(n: int)
    requires
        0 < n < rounding::DENSE,
    ensures
        integer(n).is_positive(),
        integer(n).count() == n * rounding::unit(),
        integer(n).magnitude() == rounding::nearest(n * rounding::unit(), 1),
{
    lemma_integer_range(n);
    lemma_exact(n, 1074);
}

/// A whole number that is small enough stays as it is when rounded.
pub proof fn lemma_wholes_are_round(n: int, scale: int)
    requires
        0 < n,
        0 < scale,
        0 < n * scale < rounding::DENSE,
        n < rounding::DENSE,
        scale < rounding::DENSE,
    ensures
        rounded_to(integer(n), integer(scale).bits) == integer(n),
{
    let one = rounding::unit();
    vstd::arithmetic::power2::lemma_pow2_pos(1074);
    lemma_integer(n);
    lemma_integer(scale);
    lemma_integer(n * scale);
    let by = integer(scale);
    assert((n * one) * (scale * one) == ((n * scale) * one) * one && 1 * one == one && ((n * scale)
        * one) * one == (n * one) * (scale * one) && (n * scale) * one >= 0 && n * one >= 0 && scale
        * one > 0) by (nonlinear_arith)
        requires
            n > 0,
            scale > 0,
            n * scale > 0,
            one > 0,
    ;
    rounding::lemma_nearest_scales((n * scale) * one, 1, one);
    assert(product(integer(n), by) == integer(n * scale));
    lemma_whole_units(n * scale, one, 0);
    assert(whole(integer(n * scale)) == integer(n * scale));
    assert(1 * (scale * one) == scale * one) by (nonlinear_arith);
    rounding::lemma_nearest_scales(n * one, 1, scale * one);
}

/// A pattern whose fraction is `n` times two to the `j` stands for `n`.
pub proof fn lemma_constant(bits: u64, m: int, s: nat, n: int, j: nat)
    requires
        bits == m + s * rounding::FRACTIONS,
        rounding::FRACTIONS <= m < rounding::DENSE,
        m == n * rounding::power(j),
        s + j == 1074,
        bits < INFINITY,
    ensures
        (Double { bits }) == integer(n),
{
    vstd::arithmetic::power2::lemma_pow2_adds(j, s);
    rounding::lemma_units(m, s);
    assert(m * rounding::power(s) == n * rounding::unit()) by (nonlinear_arith)
        requires
            m == n * rounding::power(j),
            rounding::unit() == rounding::power(j) * rounding::power(s),
    ;
    rounding::lemma_nearest_exact(bits as int);
}

/// Ten and a hundred.
pub proof fn lemma_scales()
    ensures
        (Double { bits: TEN }) == integer(10),
        (Double { bits: HUNDRED }) == integer(100),
        (Double { bits: ONE }) == integer(1),
{
    vstd::arithmetic::power2::lemma2_to64_rest();
    lemma_constant(TEN, 0x14_0000_0000_0000, 1025, 10, 49);
    lemma_constant(HUNDRED, 0x19_0000_0000_0000, 1028, 100, 46);
    lemma_constant(ONE, 0x10_0000_0000_0000, 1022, 1, 52);
}

/// Zero stays zero.
pub proof fn lemma_zero_is_round(scale: u64)
    requires
        (Double { bits: scale }).is_positive(),
    ensures
        rounded_to(Double { bits: 0 }, scale) == (Double { bits: 0 }),
{
    let k = rounding::units(scale as int);
    let one = rounding::unit();
    vstd::arithmetic::power2::lemma_pow2_pos(1074);
    rounding::lemma_units_grow(1, scale as int);
    assert(0 * k == 0 && 0 * one == 0) by (nonlinear_arith);
    lemma_rounds_away(0, one);
    lemma_rounds_away(0, k);
    lemma_whole_units(0, one, 0);
    assert(rounding::nearest(0, 1) == 0);
}

/// What lies between zero and a whole number still does when rounded.
pub proof fn rounding_keeps_bounds(x: Double, n: int, scale: int)
    requires
        0 < n < rounding::DENSE,
        0 < scale < rounding::DENSE,
        0 < n * scale < rounding::DENSE,
        x.at_least(Double { bits: 0 }),
        integer(n).at_least(x),
    ensures
        rounded_to(x, integer(scale).bits).at_least(Double { bits: 0 }),
        integer(n).at_least(rounded_to(x, integer(scale).bits)),
{
    let by = integer(scale).bits;
    lemma_integer(scale);
    lemma_zero_is_round(by);
    lemma_wholes_are_round(n, scale);
    rounding_keeps_order(Double { bits: 0 }, x, by);
    rounding_keeps_order(x, integer(n), by);
}

/// A part of a whole is between none and a hundred percent of it.
pub proof fn percents_are_bounded(part: int, whole: int)
    requires
        0 <= part <= whole <= u128::MAX,
        whole > 0,
    ensures
        percent(part, whole).at_least(Double { bits: 0 }),
        (Double { bits: HUNDRED }).at_least(percent(part, whole)),
{
    let one = rounding::unit();
    vstd::arithmetic::power2::lemma_pow2_pos(1074);
    lemma_integer_range(part);
    lemma_integer_range(whole);
    assert(0 <= part * one <= whole * one) by (nonlinear_arith)
        requires
            0 <= part <= whole,
            one > 0,
    ;
    rounding::lemma_nearest_grows(part * one, whole * one, 1);
    let (x, y) = (integer(part), integer(whole));
    quotients_keep_order(x, y, y);
    quotients_keep_order(x, x, y);
    let k = rounding::units(y.magnitude());
    rounding::lemma_units_grow(1, y.magnitude());
    assert(k * one == one * k && 1 * k == k) by (nonlinear_arith);
    rounding::lemma_nearest_scales(one, 1, k);
    lemma_units_of_one();
    rounding::lemma_nearest_exact(ONE as int);
    assert(quotient(y, y) == (Double { bits: ONE }));
    lemma_scales();
    let hundred = Double { bits: HUNDRED };
    products_keep_order(quotient(x, y), Double { bits: ONE }, hundred);
    products_keep_order(quotient(x, y), quotient(x, y), hundred);
    let h = rounding::units(HUNDRED as int);
    assert(one * h == h * one && 1 * one == one) by (nonlinear_arith);
    rounding::lemma_units_grow(0, HUNDRED as int);
    rounding::lemma_nearest_scales(h, 1, one);
    rounding::lemma_nearest_exact(HUNDRED as int);
}

/// A percentage in hundredths, between none and a hundred percent.
pub proof fn rounded_percents_are_bounded(part: int, whole: int)
    requires
        0 <= part <= whole <= u128::MAX,
        whole > 0,
    ensures
        rounded_to(percent(part, whole), HUNDRED).at_least(Double { bits: 0 }),
        (Double { bits: HUNDRED }).at_least(rounded_to(percent(part, whole), HUNDRED)),
{
    percents_are_bounded(part, whole);
    lemma_scales();
    rounding_keeps_bounds(percent(part, whole), 100, 100);
}

/// A number between zero and one still is when it is rounded to hundredths.
pub proof fn rounded_fractions_are_fractions(x: Double)
    requires
        is_fraction(x),
    ensures
        is_fraction(rounded_to(x, HUNDRED)),
{
    lemma_scales();
    rounding_keeps_bounds(x, 1, 100);
}

/// A number of at most `n`.
pub open spec fn is_at_most(x: Double, n: int) -> bool {
    x.is_number() && if x.is_finite() {
        x.count() <= n * rounding::unit()
    } else {
        x.is_negative()
    }
}

/// A number of at most one.
pub proof fn lemma_at_most_one(x: Double)
    requires
        (Double { bits: ONE }).at_least(x),
    ensures
        is_at_most(x, 1),
{
    lemma_units_of_one();
    rounding::lemma_units_grow(0, x.magnitude());
    if !x.is_negative() {
        rounding::lemma_units_grow(x.magnitude(), ONE as int);
    }
    assert(1 * rounding::unit() == rounding::unit()) by (nonlinear_arith);
}

/// A sum is at most the sum of what its parts are at most.
pub proof fn sums_are_bounded(x: Double, y: Double, a: int, b: int)
    requires
        is_at_most(x, a),
        is_at_most(y, b),
        0 < a,
        0 < b,
        a + b < rounding::DENSE,
    ensures
        is_at_most(sum(x, y), a + b),
{
    let one = rounding::unit();
    vstd::arithmetic::power2::lemma_pow2_pos(1074);
    assert(a * one + b * one == (a + b) * one && (a + b) * one > 0) by (nonlinear_arith)
        requires
            a > 0,
            b > 0,
            one > 0,
    ;
    if x.is_finite() && y.is_finite() {
        let total = x.count() + y.count();
        if total > 0 {
            lemma_integer(a + b);
            rounding::lemma_nearest_grows(total, (a + b) * one, 1);
            rounding::lemma_units_grow(
                rounding::nearest(total, 1),
                rounding::nearest((a + b) * one, 1),
            );
        } else if total < 0 {
            rounding::lemma_nearest_grows(0, -total, 1);
            lemma_made_grows(
                true,
                rounding::nearest(-total, 1),
                rounding::nearest(-total, 1),
            );
            rounding::lemma_units_grow(0, sum(x, y).magnitude());
        }
    }
}

/// The sum of numbers that are not negative is none either.
pub proof fn lemma_sum_of_fractions(x: Double, y: Double)
    requires
        is_fraction(x),
        is_fraction(y),
    ensures
        sum(x, y).at_least(Double { bits: 0 }),
{
    let total = x.count() + y.count();
    rounding::lemma_units_grow(0, x.magnitude());
    rounding::lemma_units_grow(0, y.magnitude());
    if total > 0 {
        rounding::lemma_nearest_grows(0, total, 1);
        lemma_made_grows(false, rounding::nearest(total, 1), rounding::nearest(total, 1));
    }
}

/// The next pattern after a small whole number is nearest to it.
proof fn lemma_small_step(n: int, extra: int)
    requires
        0 < n < 1000,
        0 <= extra <= 1,
    ensures
        integer(n).bits + extra < INFINITY,
        whole_units(rounding::units(integer(n).bits + extra)) == n * rounding::unit(),
{
    let one = rounding::unit();
    let p = integer(n).bits as int;
    lemma_integer(n);
    lemma_integer(1000);
    vstd::arithmetic::power2::lemma_pow2_pos(1074);
    vstd::arithmetic::power2::lemma2_to64();
    vstd::arithmetic::power2::lemma2_to64_rest();
    assert(n * one <= 1000 * one) by (nonlinear_arith)
        requires
            n <= 1000,
            one > 0,
    ;
    rounding::lemma_nearest_grows(n * one, 1000 * one, 1);
    lemma_constant(0x408f_4000_0000_0000, 0x1f_4000_0000_0000, 1031, 1000, 43);
    let s = (p / rounding::FRACTIONS as int - 1) as nat;
    let m = p - s * rounding::FRACTIONS;
    lemma_integer_range(n);
    assert(rounding::FRACTIONS <= m < rounding::DENSE);
    rounding::lemma_units(m, s);
    let step = rounding::power(s);
    vstd::arithmetic::power2::lemma_pow2_pos(s);
    vstd::arithmetic::power2::lemma_pow2_strictly_increases(s, 1073);
    vstd::arithmetic::power2::lemma_pow2_unfold(1074);
    let rest = rounding::units(p + extra) - n * one;
    if extra == 1 {
        if m + 1 < rounding::DENSE {
            rounding::lemma_units(m + 1, s);
            assert((m + 1) * step == m * step + step) by (nonlinear_arith);
        } else {
            rounding::lemma_units(rounding::FRACTIONS as int, s + 1);
            vstd::arithmetic::power2::lemma_pow2_unfold(s + 1);
            assert(rounding::FRACTIONS * (2 * step) == m * step + step) by (nonlinear_arith)
                requires
                    m + 1 == 2 * rounding::FRACTIONS,
            ;
            assert((s + 1) * rounding::FRACTIONS == s * rounding::FRACTIONS + rounding::FRACTIONS)
                by (nonlinear_arith);
        }
        assert(rest == step);
    }
    assert(0 <= 2 * rest < one);
    lemma_whole_units(n, one, rest);
}

/// A number stays as it is when rounded to hundredths, if a hundred times it is a
/// whole number, or the next pattern, and a hundredth of that is nearest to it.
pub proof fn lemma_hundredths_are_round(bits: u64, m: int, s: nat, n: int, extra: int)
    requires
        bits == m + s * rounding::FRACTIONS,
        rounding::FRACTIONS <= m < rounding::DENSE,
        bits < INFINITY,
        0 < n < 1000,
        0 <= extra <= 1,
        rounding::nearest(m * 100, 1) + s * rounding::FRACTIONS == integer(n).bits + extra,
        rounding::nearest(n * 0x1000_0000_0000_0000, 100) + 1014 * rounding::FRACTIONS == bits,
    ensures
        rounded_to(Double { bits }, HUNDRED) == (Double { bits }),
{
    let x = Double { bits };
    let hundred = Double { bits: HUNDRED };
    let one = rounding::unit();
    let p = rounding::power(s);
    vstd::arithmetic::power2::lemma_pow2_pos(1074);
    vstd::arithmetic::power2::lemma_pow2_pos(s);
    vstd::arithmetic::power2::lemma2_to64_rest();
    lemma_scales();
    lemma_integer(100);
    lemma_integer(n);
    rounding::lemma_units(m, s);
    assert((m * p) * (100 * one) == ((m * 100) * p) * one && 1 * one == one && (m * 100) * p >= 0)
        by (nonlinear_arith)
        requires
            m >= 0,
            p > 0,
    ;
    rounding::lemma_nearest_scales((m * 100) * p, 1, one);
    rounding::lemma_nearest_shifts(m * 100, s, 1);
    lemma_small_step(n, extra);
    assert(product(x, hundred) == (Double { bits: (integer(n).bits + extra) as u64 }));
    assert(whole(product(x, hundred)) == integer(n));
    let k = n * 0x1000_0000_0000_0000;
    vstd::arithmetic::power2::lemma_pow2_adds(60, 1014);
    assert(n * one == k * rounding::power(1014) && n * one >= 0) by (nonlinear_arith)
        requires
            one == 0x1000_0000_0000_0000 * rounding::power(1014),
            k == n * 0x1000_0000_0000_0000,
            n > 0,
            one > 0,
    ;
    rounding::lemma_nearest_scales(n * one, 100, one);
    rounding::lemma_nearest_shifts(k, 1014, 100);
}

} // verus!
