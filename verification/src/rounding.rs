//! Rounding to double precision, in whole numbers.
//!
//! A number that is not negative is counted in units of the smallest double above
//! zero, so that every finite double is a whole number of units. Doubles that are
//! not negative order as their bit patterns do, and a step of [`FRACTIONS`]
//! patterns doubles a number.

use vstd::prelude::*;

verus! {

/// The patterns of one exponent: the bits below it hold the fraction.
pub const FRACTIONS: u64 = 0x10_0000_0000_0000;

/// Patterns below this one count their units.
pub const DENSE: u64 = 0x20_0000_0000_0000;

/// The units of one are two to this power.
pub const POWER_OF_ONE: u64 = 1074;

/// Two to a power.
pub open spec fn power(k: nat) -> int {
    vstd::arithmetic::power2::pow2(k) as int
}

/// The units of one.
pub open spec fn unit() -> int {
    power(POWER_OF_ONE as nat)
}

/// The units of the number that a pattern stands for.
pub open spec fn units(pattern: int) -> int
    decreases pattern,
{
    if pattern < DENSE {
        pattern
    } else {
        2 * units(pattern - FRACTIONS)
    }
}

/// The whole number nearest to `n` over `d`; of two as near, the even one.
pub open spec fn half_even(n: int, d: int) -> int {
    let q = n / d;
    let r = n % d;
    if 2 * r < d {
        q
    } else if 2 * r > d {
        q + 1
    } else {
        q + q % 2
    }
}

/// The pattern of the double nearest to `n` over `d` units; of two as near, the
/// even one.
pub open spec fn nearest(n: int, d: int) -> int
    decreases n - d,
{
    if d <= 0 || n < d * DENSE {
        half_even(n, d)
    } else {
        FRACTIONS + nearest(n, 2 * d)
    }
}

// --- Whole numbers -----------------------------------------------------------

pub proof fn lemma_divides(n: int, d: int)
    requires
        d > 0,
    ensures
        n == (n / d) * d + n % d,
        0 <= n % d < d,
{
    vstd::arithmetic::div_mod::lemma_fundamental_div_mod(n, d);
    assert(d * (n / d) == (n / d) * d) by (nonlinear_arith);
}

/// A quotient between bounds is rounded to between them.
proof fn lemma_half_even_bounds(n: int, d: int, k: int)
    requires
        d > 0,
    ensures
        k * d <= n ==> k <= half_even(n, d),
        n <= k * d ==> half_even(n, d) <= k,
{
    lemma_divides(n, d);
    let q = n / d;
    let r = n % d;
    if k * d <= n {
        assert(k <= q) by (nonlinear_arith)
            requires
                k * d <= q * d + r,
                r < d,
                d > 0,
        ;
    }
    if n <= k * d {
        assert(q <= k && (q == k ==> r == 0)) by (nonlinear_arith)
            requires
                q * d + r <= k * d,
                0 <= r,
                d > 0,
        ;
    }
}

proof fn lemma_half_even_grows(n: int, m: int, d: int)
    requires
        n <= m,
        d > 0,
    ensures
        half_even(n, d) <= half_even(m, d),
{
    lemma_divides(n, d);
    lemma_divides(m, d);
    vstd::arithmetic::div_mod::lemma_div_is_ordered(n, m, d);
    assert(n / d == m / d ==> n % d <= m % d);
}

proof fn lemma_half_even_scales(n: int, d: int, k: int)
    requires
        d > 0,
        k > 0,
    ensures
        half_even(n * k, d * k) == half_even(n, d),
{
    lemma_divides(n, d);
    let q = n / d;
    let r = n % d;
    assert(n * k == q * (d * k) + r * k && 0 <= r * k < d * k && d * k > 0) by (nonlinear_arith)
        requires
            n == q * d + r,
            0 <= r < d,
            k > 0,
    ;
    vstd::arithmetic::div_mod::lemma_fundamental_div_mod_converse(n * k, d * k, q, r * k);
    assert((2 * r < d) == (2 * (r * k) < d * k) && (2 * r > d) == (2 * (r * k) > d * k))
        by (nonlinear_arith)
        requires
            k > 0,
    ;
}

/// A whole number is nearest to itself.
proof fn lemma_half_even_exact(n: int)
    ensures
        half_even(n, 1) == n,
{
}

// --- Patterns ----------------------------------------------------------------

proof fn lemma_units_dense(p: int)
    requires
        p >= FRACTIONS,
    ensures
        units(p) >= FRACTIONS,
    decreases p,
{
    if p >= DENSE {
        lemma_units_dense(p - FRACTIONS);
    }
}

/// Units grow with the pattern.
pub proof fn lemma_units_grow(p: int, q: int)
    requires
        0 <= p <= q,
    ensures
        0 <= units(p) <= units(q),
        p < q ==> units(p) < units(q),
    decreases q,
{
    if q >= DENSE {
        lemma_units_dense(q - FRACTIONS);
        if p >= DENSE {
            lemma_units_grow(p - FRACTIONS, q - FRACTIONS);
        } else if q < DENSE + FRACTIONS {
            assert(units(q - FRACTIONS) == q - FRACTIONS);
        }
    }
}

/// A pattern's units, by its fraction and exponent.
pub proof fn lemma_units(m: int, s: nat)
    requires
        0 <= m < DENSE,
        s > 0 ==> m >= FRACTIONS,
    ensures
        units(m + s * FRACTIONS) == m * power(s),
    decreases s,
{
    vstd::arithmetic::power2::lemma2_to64();
    if s == 0 {
        assert(m * power(0) == m) by (nonlinear_arith)
            requires
                power(0) == 1,
        ;
    } else {
        let rest = (s - 1) as nat;
        assert(s * FRACTIONS == rest * FRACTIONS + FRACTIONS) by (nonlinear_arith)
            requires
                s == rest + 1,
        ;
        assert(m + s * FRACTIONS >= DENSE) by (nonlinear_arith)
            requires
                m >= FRACTIONS,
                s >= 1,
                DENSE == 2 * FRACTIONS,
        ;
        lemma_units(m, rest);
        vstd::arithmetic::power2::lemma_pow2_unfold(s);
        assert(2 * (m * power(rest)) == m * power(s)) by (nonlinear_arith)
            requires
                power(s) == 2 * power(rest),
        ;
    }
}

/// The nearest double is no lower than a pattern whose units are no more, and no
/// higher than one whose units are no fewer.
pub proof fn lemma_nearest_grows(n: int, m: int, d: int)
    requires
        0 <= n <= m,
        d > 0,
    ensures
        0 <= nearest(n, d) <= nearest(m, d),
        m < d * DENSE ==> nearest(m, d) <= DENSE,
        m >= d * FRACTIONS ==> nearest(m, d) >= FRACTIONS,
    decreases m - d,
{
    assert(d * DENSE == (2 * d) * FRACTIONS && (2 * d) * DENSE == 2 * (d * DENSE) && d * DENSE > d)
        by (nonlinear_arith)
        requires
            DENSE == 2 * FRACTIONS,
            FRACTIONS > 1,
            d > 0,
    ;
    assert(FRACTIONS * d == d * FRACTIONS && DENSE * d == d * DENSE) by (nonlinear_arith);
    lemma_half_even_bounds(n, d, 0);
    lemma_half_even_bounds(n, d, DENSE as int);
    lemma_half_even_bounds(m, d, DENSE as int);
    lemma_half_even_bounds(m, d, FRACTIONS as int);
    if m < d * DENSE {
        lemma_half_even_grows(n, m, d);
    } else if n < d * DENSE {
        lemma_nearest_grows(0, m, 2 * d);
    } else {
        lemma_nearest_grows(n, m, 2 * d);
    }
}

/// Scaling both numbers leaves the quotient as it is.
pub proof fn lemma_nearest_scales(n: int, d: int, k: int)
    requires
        n >= 0,
        d > 0,
        k > 0,
    ensures
        nearest(n * k, d * k) == nearest(n, d),
    decreases n - d,
{
    assert(d * k > 0 && (n < d * DENSE) == (n * k < (d * k) * DENSE) && (2 * d) * k == 2 * (d * k))
        by (nonlinear_arith)
        requires
            d > 0,
            k > 0,
    ;
    if n < d * DENSE {
        lemma_half_even_scales(n, d, k);
    } else {
        assert(n > 2 * d) by (nonlinear_arith)
            requires
                n >= d * DENSE,
                DENSE > 2,
                d > 0,
        ;
        lemma_nearest_scales(n, 2 * d, k);
    }
}

/// Doubling a number that has all the bits of a double is one exponent more.
pub proof fn lemma_nearest_shifts(n: int, s: nat, d: int)
    requires
        d > 0,
        n >= d * FRACTIONS,
    ensures
        nearest(n * power(s), d) == nearest(n, d) + s * FRACTIONS,
    decreases s,
{
    vstd::arithmetic::power2::lemma2_to64();
    assert(n > 0) by (nonlinear_arith)
        requires
            n >= d * FRACTIONS,
            d > 0,
            FRACTIONS > 0,
    ;
    if s == 0 {
        assert(n * power(0) == n) by (nonlinear_arith)
            requires
                power(0) == 1,
        ;
    } else {
        let rest = (s - 1) as nat;
        vstd::arithmetic::power2::lemma_pow2_unfold(s);
        vstd::arithmetic::power2::lemma_pow2_pos(rest);
        lemma_nearest_shifts(n, rest, d);
        let x = n * power(rest);
        assert(n * power(s) == x * 2) by (nonlinear_arith)
            requires
                x == n * power(rest),
                power(s) == 2 * power(rest),
        ;
        assert(x * 2 >= d * DENSE) by (nonlinear_arith)
            requires
                x == n * power(rest),
                power(rest) >= 1,
                n >= d * FRACTIONS,
                n > 0,
                DENSE == 2 * FRACTIONS,
        ;
        lemma_nearest_scales(x, d, 2);
        assert(s * FRACTIONS == rest * FRACTIONS + FRACTIONS) by (nonlinear_arith)
            requires
                s == rest + 1,
        ;
    }
}

/// A double is nearest to its own units.
pub proof fn lemma_nearest_exact(p: int)
    requires
        p >= 0,
    ensures
        nearest(units(p), 1) == p,
    decreases p,
{
    if p < DENSE {
        lemma_half_even_exact(p);
    } else {
        let rest = p - FRACTIONS;
        lemma_nearest_exact(rest);
        lemma_units_dense(rest);
        vstd::arithmetic::power2::lemma2_to64();
        lemma_nearest_shifts(units(rest), 1, 1);
        assert(units(rest) * power(1) == units(p)) by (nonlinear_arith)
            requires
                units(p) == 2 * units(rest),
                power(1) == 2,
        ;
        assert(1nat * FRACTIONS == FRACTIONS) by (nonlinear_arith);
    }
}

// --- Computing ---------------------------------------------------------------

/// Two to a power.
pub fn power_of_two(k: u64) -> (r: u128)
    requires
        k <= 120,
    ensures
        r == power(k as nat),
        r >= 1,
{
    let mut r: u128 = 1;
    let mut i: u64 = 0;
    proof {
        vstd::arithmetic::power2::lemma2_to64();
        vstd::arithmetic::power2::lemma2_to64_rest();
        vstd::arithmetic::power2::lemma_pow2_adds(64, 56);
    }
    while i < k
        invariant
            i <= k <= 120,
            r == power(i as nat),
            r >= 1,
            power(120) == 0x100_0000_0000_0000_0000_0000_0000_0000,
        decreases k - i,
    {
        proof {
            vstd::arithmetic::power2::lemma_pow2_unfold((i + 1) as nat);
            if i + 1 < 120 {
                vstd::arithmetic::power2::lemma_pow2_strictly_increases((i + 1) as nat, 120);
            }
        }
        r = r * 2;
        i += 1;
    }
    r
}

/// The fraction of a pattern, and the power of two by which it counts units.
pub fn parts(pattern: u64) -> (r: (u64, u64))
    requires
        pattern < 0x8000_0000_0000_0000,
    ensures
        pattern == r.0 + r.1 * FRACTIONS,
        r.0 < DENSE,
        r.1 > 0 ==> r.0 >= FRACTIONS,
        r.1 < 2047,
        units(pattern as int) == r.0 * power(r.1 as nat),
{
    if pattern < DENSE {
        proof {
            lemma_units(pattern as int, 0);
        }
        return (pattern, 0);
    }
    let s: u64 = pattern / FRACTIONS - 1;
    let m: u64 = pattern - s * FRACTIONS;
    proof {
        lemma_units(m as int, s as nat);
    }
    (m, s)
}

/// The pattern of the double nearest to `n` over `d` units.
pub fn nearest_pattern(n: u128, d: u128) -> (r: u64)
    requires
        d > 0,
    ensures
        r == nearest(n as int, d as int),
        r <= 128 * FRACTIONS,
{
    let mut e: u128 = d;
    let mut steps: u64 = 0;
    proof {
        lemma_steps_bounded(n as int, d as int, 0);
    }
    while n / e >= DENSE as u128
        invariant
            e > 0,
            e >= d > 0,
            nearest(n as int, d as int) == nearest(n as int, e as int) + steps * FRACTIONS,
            steps <= 75,
            e >= power(steps as nat),
        decreases n - e,
    {
        proof {
            lemma_divides(n as int, e as int);
            assert(n >= e * DENSE) by (nonlinear_arith)
                requires
                    n as int == (n as int / e as int) * e + n as int % e as int,
                    n as int / e as int >= DENSE,
                    n as int % e as int >= 0,
                    e > 0,
            ;
            lemma_steps_bounded(n as int, e as int, steps as nat);
            vstd::arithmetic::power2::lemma_pow2_unfold((steps + 1) as nat);
        }
        e = e * 2;
        steps += 1;
    }
    proof {
        lemma_divides(n as int, e as int);
        assert(n < e * DENSE) by (nonlinear_arith)
            requires
                n as int == (n as int / e as int) * e + n as int % e as int,
                n as int / e as int + 1 <= DENSE,
                (n as int % e as int) < e,
                e > 0,
        ;
    }
    let q: u64 = (n / e) as u64;
    let r: u128 = n % e;
    let half: u64 = if r < e - r {
        q
    } else if r > e - r {
        q + 1
    } else {
        q + q % 2
    };
    half + steps * FRACTIONS
}

/// A number of 128 bits is halved no more than seventy-five times before it has
/// the bits of a double.
proof fn lemma_steps_bounded(n: int, e: int, steps: nat)
    requires
        0 <= n <= u128::MAX,
    ensures
        n >= e * DENSE && e >= power(steps) ==> steps < 75 && 2 * e <= u128::MAX && e * DENSE > e,
        power(0) == 1,
{
    vstd::arithmetic::power2::lemma2_to64();
    vstd::arithmetic::power2::lemma2_to64_rest();
    if n >= e * DENSE && e >= power(steps) {
        vstd::arithmetic::power2::lemma_pow2_pos(steps);
        assert(e * DENSE >= 2 * e && e * DENSE > e) by (nonlinear_arith)
            requires
                e >= 1,
                DENSE >= 2,
        ;
        if steps >= 75 {
            vstd::arithmetic::power2::lemma_pow2_adds(64, 11);
            if steps > 75 {
                vstd::arithmetic::power2::lemma_pow2_strictly_increases(75, steps);
            }
            assert(e * DENSE > u128::MAX) by (nonlinear_arith)
                requires
                    e >= 0x800_0000_0000_0000_0000,
                    DENSE == 0x20_0000_0000_0000u64,
            ;
        }
    }
}

/// The pattern of the double nearest to `n` times two to the power `s`, over `d`
/// units.
pub fn encode(n: u128, s: u64, d: u128) -> (r: u64)
    requires
        0 < d < 0x1000_0000_0000_0000,
        s <= 3900,
    ensures
        r == nearest(n * power(s as nat), d as int),
        r <= (s + 128) * FRACTIONS,
{
    proof {
        vstd::arithmetic::power2::lemma2_to64();
    }
    if n == 0 {
        assert(0 * power(s as nat) == 0) by (nonlinear_arith);
        assert(half_even(0, d as int) == 0) by {
            lemma_half_even_bounds(0, d as int, 0);
        }
        return 0;
    }
    let least: u128 = d * FRACTIONS as u128;
    let mut m: u128 = n;
    let mut t: u64 = s;
    while m < least && t > 0
        invariant
            t <= s <= 3900,
            0 < d < 0x1000_0000_0000_0000,
            least == d * FRACTIONS,
            m > 0,
            m * power(t as nat) == n * power(s as nat),
        decreases t,
    {
        proof {
            vstd::arithmetic::power2::lemma_pow2_unfold(t as nat);
            assert((m * 2) * power((t - 1) as nat) == m * power(t as nat)) by (nonlinear_arith)
                requires
                    power(t as nat) == 2 * power((t - 1) as nat),
            ;
        }
        m = m * 2;
        t -= 1;
    }
    proof {
        if m >= least {
            lemma_nearest_shifts(m as int, t as nat, d as int);
        } else {
            assert(m * power(0) == m) by (nonlinear_arith)
                requires
                    power(0) == 1,
            ;
        }
    }
    nearest_pattern(m, d) + t * FRACTIONS
}

// --- Laws --------------------------------------------------------------------

/// How far the number of a pattern is from `n` over `d` units, times `d`.
pub open spec fn error(n: int, d: int, pattern: int) -> int {
    let e = units(pattern) * d - n;
    if e < 0 {
        -e
    } else {
        e
    }
}

/// The number of no pattern is nearer than that of the nearest one, and where that
/// of another is as near, the pattern is even.
pub proof fn nearest_is_nearest(n: int, d: int, pattern: int)
    requires
        0 <= n,
        0 < d,
        0 <= pattern,
    ensures
        0 <= nearest(n, d),
        error(n, d, nearest(n, d)) <= error(n, d, pattern),
        error(n, d, nearest(n, d)) == error(n, d, pattern) && pattern != nearest(n, d) ==> nearest(
            n,
            d,
        ) % 2 == 0,
    decreases n - d,
{
    assert(units(DENSE - FRACTIONS) == DENSE - FRACTIONS);
    assert(units(DENSE as int) == DENSE);
    if n < d * DENSE {
        let q = n / d;
        let r = n % d;
        lemma_divides(n, d);
        assert(0 <= q < DENSE) by (nonlinear_arith)
            requires
                0 <= n < d * DENSE,
                n == q * d + r,
                0 <= r < d,
        ;
        assert((q + 1) * d == q * d + d) by (nonlinear_arith);
        assert(units(q) == q && units(q + 1) == q + 1);
        let u = units(pattern);
        if pattern <= q {
            lemma_units_grow(pattern, q);
            assert(u * d <= q * d && (u < q ==> u * d < q * d)) by (nonlinear_arith)
                requires
                    u <= q,
                    d > 0,
            ;
        } else {
            lemma_units_grow(q + 1, pattern);
            assert((q + 1) * d <= u * d && (q + 1 < u ==> (q + 1) * d < u * d)) by (nonlinear_arith)
                requires
                    q + 1 <= u,
                    d > 0,
            ;
        }
    } else {
        let h = nearest(n, 2 * d);
        let least = DENSE - FRACTIONS;
        assert(d < d * DENSE) by (nonlinear_arith)
            requires
                d > 0,
        ;
        nearest_is_nearest(n, 2 * d, least as int);
        assert(least * (2 * d) == DENSE * d) by (nonlinear_arith)
            requires
                2 * least == DENSE,
        ;
        assert(DENSE * d <= n) by (nonlinear_arith)
            requires
                d * DENSE <= n,
        ;
        if h < least {
            lemma_units_grow(h, least as int);
            assert(units(h) * (2 * d) < least * (2 * d)) by (nonlinear_arith)
                requires
                    units(h) < least,
                    d > 0,
            ;
        }
        assert((2 * units(h)) * d == units(h) * (2 * d)) by (nonlinear_arith);
        assert(error(n, d, nearest(n, d)) == error(n, 2 * d, h));
        if pattern >= DENSE {
            nearest_is_nearest(n, 2 * d, pattern - FRACTIONS);
            let v = units(pattern - FRACTIONS);
            assert((2 * v) * d == v * (2 * d)) by (nonlinear_arith);
        } else {
            assert(pattern * d < DENSE * d) by (nonlinear_arith)
                requires
                    pattern < DENSE,
                    d > 0,
            ;
        }
    }
}

} // verus!
