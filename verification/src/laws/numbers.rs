//! Laws of arithmetic on doubles: how near results are to the exact ones.

use crate::double;
use crate::double::Double;
use crate::rounding;
use crate::rounding::{DENSE, FRACTIONS};
use vstd::prelude::*;

verus! {

/// What is large enough to have all its digits is rounded by at most one part in
/// [`DENSE`]; what is small is rounded by at most half a unit.
pub proof fn rounding_errs_little(n: int, d: int)
    requires
        0 <= n,
        0 < d,
    ensures
        0 <= rounding::nearest(n, d),
        n >= d * FRACTIONS ==> rounding::error(n, d, rounding::nearest(n, d)) * DENSE <= n,
        n < d * DENSE ==> 2 * rounding::error(n, d, rounding::nearest(n, d)) <= d,
    decreases n - d,
{
    rounding::lemma_nearest_grows(n, n, d);
    if n < d * DENSE {
        let q = n / d;
        let r = n % d;
        rounding::lemma_divides(n, d);
        assert(0 <= q < DENSE) by (nonlinear_arith)
            requires
                0 <= n < d * DENSE,
                n == q * d + r,
                0 <= r < d,
        ;
        assert((q + 1) * d == q * d + d) by (nonlinear_arith);
        assert(rounding::units(DENSE - FRACTIONS) == DENSE - FRACTIONS);
        assert(rounding::units(q) == q && rounding::units(q + 1) == q + 1);
        let e = rounding::error(n, d, rounding::nearest(n, d));
        if n >= d * FRACTIONS {
            assert(e * DENSE <= n) by (nonlinear_arith)
                requires
                    2 * e <= d,
                    d * FRACTIONS <= n,
                    DENSE == 2 * FRACTIONS,
            ;
        }
    } else {
        let h = rounding::nearest(n, 2 * d);
        assert(d < d * DENSE && (2 * d) * FRACTIONS == d * DENSE) by (nonlinear_arith)
            requires
                d > 0,
                DENSE == 2 * FRACTIONS,
        ;
        rounding_errs_little(n, 2 * d);
        rounding::lemma_nearest_grows(n, n, 2 * d);
        assert((2 * rounding::units(h)) * d == rounding::units(h) * (2 * d)) by (nonlinear_arith);
        assert(rounding::error(n, d, rounding::nearest(n, d)) == rounding::error(n, 2 * d, h));
    }
}

/// `x` is within so many parts in [`DENSE`] of `n` over `d`.
pub open spec fn is_near(x: int, n: int, d: int, parts: int) -> bool {
    (DENSE - parts) * n <= (x * d) * DENSE <= (DENSE + parts) * n
}

proof fn lemma_near(n: int, d: int, x: int)
    requires
        0 < d,
        n >= d * FRACTIONS,
        x == rounding::units(rounding::nearest(n, d)),
    ensures
        is_near(x, n, d, 1),
{
    assert(n >= 0) by (nonlinear_arith)
        requires
            n >= d * FRACTIONS,
            d > 0,
    ;
    rounding_errs_little(n, d);
    let e = x * d - n;
    assert((x * d) * DENSE == n * DENSE + e * DENSE) by (nonlinear_arith)
        requires
            e == x * d - n,
    ;
    assert((DENSE - 1) * n == DENSE * n - n && (DENSE + 1) * n == DENSE * n + n && n * DENSE == DENSE
        * n) by (nonlinear_arith);
    if e < 0 {
        assert((-e) * DENSE == -(e * DENSE)) by (nonlinear_arith);
    }
}

/// Whole numbers are rounded by at most one part in [`DENSE`].
pub proof fn integers_are_near(n: int)
    requires
        0 < n <= u128::MAX,
    ensures
        is_near(double::integer(n).count(), n * rounding::unit(), 1, 1),
        0 < double::integer(n).count(),
        double::integer(n).is_positive(),
        n < DENSE ==> double::integer(n).count() == n * rounding::unit(),
{
    let one = rounding::unit();
    double::lemma_integer_range(n);
    lemma_unit_is_large();
    assert(n * one >= 1 * FRACTIONS) by (nonlinear_arith)
        requires
            n >= 1,
            one >= FRACTIONS,
    ;
    lemma_near(n * one, 1, double::integer(n).count());
    rounding::lemma_units_grow(0, double::integer(n).magnitude());
    if n < DENSE {
        double::lemma_integer(n);
    }
}

/// One counts very many units.
proof fn lemma_unit_is_large()
    ensures
        rounding::unit() >= FRACTIONS * 0x1_0000_0000_0000_0000 * 0x1_0000_0000_0000_0000 * 16,
        rounding::unit() >= FRACTIONS,
{
    vstd::arithmetic::power2::lemma2_to64();
    vstd::arithmetic::power2::lemma2_to64_rest();
    vstd::arithmetic::power2::lemma_pow2_adds(52, 64);
    vstd::arithmetic::power2::lemma_pow2_adds(116, 64);
    vstd::arithmetic::power2::lemma_pow2_adds(180, 4);
    vstd::arithmetic::power2::lemma_pow2_strictly_increases(184, 1074);
}

/// A percentage is within eight parts in [`DENSE`] of the exact one.
pub proof fn percents_are_accurate(part: int, whole: int)
    requires
        0 <= part <= whole <= u128::MAX,
        whole > 0,
    ensures
        is_near(
            double::percent(part, whole).count(),
            100 * part * rounding::unit(),
            whole,
            8,
        ),
        whole < DENSE ==> is_near(
            double::percent(part, whole).count(),
            100 * part * rounding::unit(),
            whole,
            3,
        ),
        0 <= double::percent(part, whole).count(),
{
    let one = rounding::unit();
    let k = DENSE as int;
    lemma_unit_is_large();
    double::percents_are_bounded(part, whole);
    double::lemma_scales();
    double::lemma_integer(100);
    integers_are_near(whole);
    let hundred = Double { bits: double::HUNDRED };
    let q = double::quotient(double::integer(part), double::integer(whole));
    let c = double::percent(part, whole).count();
    if part == 0 {
        assert(0 * one == 0) by (nonlinear_arith);
        assert(rounding::nearest(0, 1) == 0);
        let w = rounding::units(double::integer(whole).magnitude());
        rounding::lemma_nearest_grows(0, 0, w);
        assert(rounding::nearest(0, w) == 0) by {
            assert(0 < w * DENSE) by (nonlinear_arith)
                requires
                    w > 0,
            ;
            assert(0int / w == 0 && 0int % w == 0) by (nonlinear_arith)
                requires
                    w > 0,
            ;
        }
        assert(q == (Double { bits: 0 }));
        assert(0 * (100 * one) == 0) by (nonlinear_arith);
        assert(rounding::nearest(0, one) == 0) by {
            assert(0 < one * DENSE) by (nonlinear_arith)
                requires
                    one > 0,
            ;
            assert(0int / one == 0 && 0int % one == 0) by (nonlinear_arith)
                requires
                    one > 0,
            ;
        }
        assert(c == 0);
        assert(100 * part * one == 0) by (nonlinear_arith)
            requires
                part == 0,
        ;
        assert((c * whole) * k == 0) by (nonlinear_arith)
            requires
                c == 0,
        ;
        assert((k - 8) * 0 == 0 && (k + 8) * 0 == 0 && (k - 3) * 0 == 0 && (k + 3) * 0 == 0)
            by (nonlinear_arith);
    } else {
        integers_are_near(part);
        let a = double::integer(part).count();
        let b = double::integer(whole).count();
        let n = rounding::nearest(a * one, b);
        let x = rounding::units(n);
        // The quotient is finite, for else the product would not be.
        rounding::lemma_nearest_grows(0, 0, one);
        assert(a * one >= 0) by (nonlinear_arith)
            requires
                a > 0,
                one > 0,
        ;
        rounding::lemma_nearest_grows(a * one, a * one, b);
        assert(q.is_finite());
        assert(q.count() == x) by {
            assert(q == double::made(false, n));
        }
        assert(a * one >= b * FRACTIONS) by (nonlinear_arith)
            requires
                is_near(a, part * one, 1, 1),
                is_near(b, whole * one, 1, 1),
                part >= 1,
                whole <= u128::MAX,
                one >= FRACTIONS * 0x1_0000_0000_0000_0000 * 0x1_0000_0000_0000_0000 * 16,
        ;
        lemma_near(a * one, b, x);
        let m = rounding::nearest(x * (100 * one), one);
        rounding::lemma_units_grow(0, n);
        assert(double::percent(part, whole) == double::made(false, m));
        assert(x * (100 * one) >= 0) by (nonlinear_arith)
            requires
                x >= 0,
                one > 0,
        ;
        rounding::lemma_nearest_grows(x * (100 * one), x * (100 * one), one);
        assert(c == rounding::units(m));
        rounding::lemma_nearest_scales(x * 100, 1, one);
        assert(x * (100 * one) == (x * 100) * one && 1 * one == one) by (nonlinear_arith);
        assert(x * 100 >= 1 * FRACTIONS) by (nonlinear_arith)
            requires
                is_near(x, a * one, b, 1),
                is_near(a, part * one, 1, 1),
                is_near(b, whole * one, 1, 1),
                part >= 1,
                whole <= u128::MAX,
                one >= FRACTIONS * 0x1_0000_0000_0000_0000 * 0x1_0000_0000_0000_0000 * 16,
                b > 0,
        ;
        lemma_near(x * 100, 1, c);
        rounding::lemma_units_grow(0, m);
        lemma_compose(part, whole, one, a, b, x, c);
        if whole < DENSE {
            lemma_compose_exact(part, whole, one, a, b, x, c);
        }
    }
}

/// The greater of two shares is given no lower a percentage.
pub proof fn percents_keep_order(part: int, whole: int, more: int, other: int)
    requires
        0 < part <= whole < DENSE,
        0 < more <= other < DENSE,
        part * other <= more * whole,
    ensures
        double::percent(more, other).at_least(double::percent(part, whole)),
{
    let one = rounding::unit();
    double::lemma_units_of_one();
    double::lemma_scales();
    double::lemma_integer(100);
    double::lemma_integer(part);
    double::lemma_integer(whole);
    double::lemma_integer(more);
    double::lemma_integer(other);
    let q = double::quotient(double::integer(part), double::integer(whole));
    let r = double::quotient(double::integer(more), double::integer(other));
    assert((part * one) * one == (part * one) * one && part * one > 0 && more * one > 0)
        by (nonlinear_arith)
        requires
            part > 0,
            more > 0,
            one > 0,
    ;
    rounding::lemma_nearest_scales(part * one, whole, one);
    rounding::lemma_nearest_scales(more * one, other, one);
    rounding::lemma_nearest_scales(part * one, whole, other);
    rounding::lemma_nearest_scales(more * one, other, whole);
    assert((part * one) * other <= (more * one) * whole && 0 <= (part * one) * other)
        by (nonlinear_arith)
        requires
            part * other <= more * whole,
            one > 0,
            part > 0,
            other > 0,
    ;
    assert(whole * other == other * whole && whole * other > 0) by (nonlinear_arith)
        requires
            whole > 0,
            other > 0,
    ;
    rounding::lemma_nearest_grows(
        (part * one) * other,
        (more * one) * whole,
        whole * other,
    );
    double::products_keep_order(q, r, Double { bits: double::HUNDRED });
}

/// Twelve in a hundred are twelve percent.
pub proof fn lemma_twelve_percent()
    ensures
        double::percent(12, 100) == double::integer(12),
        (Double { bits: 0x4028_0000_0000_0000 }) == double::integer(12),
{
    let share = Double { bits: 0x3fbe_b851_eb85_1eb8 };
    let m: int = 0x001e_b851_eb85_1eb8;
    let one = rounding::unit();
    let p = rounding::power(1018);
    let k: int = 12int * 0x1000_0000_0000_0000int;
    vstd::arithmetic::power2::lemma2_to64_rest();
    vstd::arithmetic::power2::lemma_pow2_pos(1074);
    vstd::arithmetic::power2::lemma_pow2_pos(1018);
    double::lemma_scales();
    double::lemma_integer(100);
    double::lemma_integer(12);
    double::lemma_constant(0x4028_0000_0000_0000, 0x0018_0000_0000_0000, 1025, 12, 49);
    reveal_with_fuel(rounding::nearest, 10);
    // The quotient.
    vstd::arithmetic::power2::lemma_pow2_adds(60, 1014);
    assert(12 * one == k * rounding::power(1014) && 12 * one >= 0) by (nonlinear_arith)
        requires
            one == 0x1000_0000_0000_0000 * rounding::power(1014),
            k == 12 * 0x1000_0000_0000_0000,
            one > 0,
    ;
    rounding::lemma_nearest_scales(12 * one, 100, one);
    rounding::lemma_nearest_shifts(k, 1014, 100);
    assert(double::quotient(double::integer(12), double::integer(100)) == share);
    // The product.
    rounding::lemma_units(m, 1018);
    assert((m * p) * (100 * one) == ((m * 100) * p) * one && 1 * one == one && (m * 100) * p >= 0)
        by (nonlinear_arith)
        requires
            m >= 0,
            p > 0,
    ;
    rounding::lemma_nearest_scales((m * 100) * p, 1, one);
    rounding::lemma_nearest_shifts(m * 100, 1018, 1);
}

pub proof fn lemma_scaled(x: int, y: int, by: int)
    by (nonlinear_arith)
    requires
        x <= y,
        by >= 0,
    ensures
        x * by <= y * by,
{
}

proof fn lemma_regrouped(d: int, whole: int, one: int, c: int, k: int)
    by (nonlinear_arith)
    ensures
        (d * (whole * one)) * (c * k * k) == ((c * whole) * k * (d * k)) * one,
{
}

pub proof fn lemma_cancelled(x: int, y: int, by: int)
    by (nonlinear_arith)
    requires
        x * by <= y * by,
        by > 0,
    ensures
        x <= y,
{
}

/// Errors of one part each, on the part, the whole, the quotient and the product.
proof fn lemma_compose(part: int, whole: int, one: int, a: int, b: int, x: int, c: int)
    requires
        part > 0,
        whole > 0,
        one > 0,
        a > 0,
        b > 0,
        x >= 0,
        c >= 0,
        is_near(a, part * one, 1, 1),
        is_near(b, whole * one, 1, 1),
        is_near(x, a * one, b, 1),
        is_near(c, x * 100, 1, 1),
    ensures
        is_near(c, 100 * part * one, whole, 8),
{
    let k = DENSE as int;
    let p = part * one;
    let w = whole * one;
    let up = k + 1;
    let down = k - 1;
    assert(p > 0 && w > 0) by (nonlinear_arith)
        requires
            part > 0,
            whole > 0,
            one > 0,
            p == part * one,
            w == whole * one,
    ;
    // From above.
    lemma_scaled((c * 1) * k, up * (x * 100), b * k * k);
    lemma_scaled((x * b) * k, up * (a * one), up * 100 * k);
    lemma_scaled((a * 1) * k, up * p, up * up * 100 * one);
    lemma_scaled(down * w, (b * 1) * k, c * k * k);
    assert(((c * 1) * k) * (b * k * k) == ((b * 1) * k) * (c * k * k)) by (nonlinear_arith);
    assert((up * (x * 100)) * (b * k * k) == ((x * b) * k) * (up * 100 * k)) by (nonlinear_arith);
    assert((up * (a * one)) * (up * 100 * k) == ((a * 1) * k) * (up * up * 100 * one))
        by (nonlinear_arith);
    let exact = 100 * part * one;
    assert((up * p) * (up * up * 100 * one) == (up * up * up) * exact * one) by (nonlinear_arith)
        requires
            p == part * one,
            exact == 100 * part * one,
    ;
    lemma_regrouped(down, whole, one, c, k);
    lemma_cancelled((c * whole) * k * (down * k), (up * up * up) * exact, one);
    assert(exact > 0) by (nonlinear_arith)
        requires
            part > 0,
            one > 0,
            exact == 100 * part * one,
    ;
    assert(up * up * up <= (k + 8) * (down * k)) by (nonlinear_arith)
        requires
            k == 0x20_0000_0000_0000,
            up == k + 1,
            down == k - 1,
    ;
    lemma_scaled(up * up * up, (k + 8) * (down * k), exact);
    assert(((k + 8) * (down * k)) * exact == ((k + 8) * exact) * (down * k)) by (nonlinear_arith);
    lemma_cancelled((c * whole) * k, (k + 8) * exact, down * k);
    // From below.
    lemma_scaled(down * (x * 100), (c * 1) * k, b * k * k);
    lemma_scaled(down * (a * one), (x * b) * k, down * 100 * k);
    lemma_scaled(down * p, (a * 1) * k, down * down * 100 * one);
    lemma_scaled((b * 1) * k, up * w, c * k * k);
    assert((down * (x * 100)) * (b * k * k) == ((x * b) * k) * (down * 100 * k))
        by (nonlinear_arith);
    assert((down * (a * one)) * (down * 100 * k) == ((a * 1) * k) * (down * down * 100 * one))
        by (nonlinear_arith);
    assert((down * p) * (down * down * 100 * one) == (down * down * down) * exact * one)
        by (nonlinear_arith)
        requires
            p == part * one,
            exact == 100 * part * one,
    ;
    lemma_regrouped(up, whole, one, c, k);
    lemma_cancelled((down * down * down) * exact, (c * whole) * k * (up * k), one);
    assert((k - 8) * (up * k) <= down * down * down) by (nonlinear_arith)
        requires
            k == 0x20_0000_0000_0000,
            up == k + 1,
            down == k - 1,
    ;
    lemma_scaled((k - 8) * (up * k), down * down * down, exact);
    assert(((k - 8) * (up * k)) * exact == ((k - 8) * exact) * (up * k)) by (nonlinear_arith);
    lemma_cancelled((k - 8) * exact, (c * whole) * k, up * k);
}

/// Errors of one part each, on the quotient and the product alone.
proof fn lemma_compose_exact(part: int, whole: int, one: int, a: int, b: int, x: int, c: int)
    requires
        part > 0,
        whole > 0,
        one > 0,
        a == part * one,
        b == whole * one,
        x >= 0,
        c >= 0,
        is_near(x, a * one, b, 1),
        is_near(c, x * 100, 1, 1),
    ensures
        is_near(c, 100 * part * one, whole, 3),
{
    let k = DENSE as int;
    let exact = 100 * part * one;
    let up = k + 1;
    let down = k - 1;
    assert(exact > 0) by (nonlinear_arith)
        requires
            part > 0,
            one > 0,
            exact == 100 * part * one,
    ;
    assert((x * b) * k == ((x * whole) * k) * one && up * (a * one) == (up * (part * one)) * one
        && down * (a * one) == (down * (part * one)) * one) by (nonlinear_arith)
        requires
            a == part * one,
            b == whole * one,
    ;
    lemma_cancelled((x * whole) * k, up * (part * one), one);
    lemma_cancelled(down * (part * one), (x * whole) * k, one);
    // From above.
    lemma_scaled((c * 1) * k, up * (x * 100), whole * k);
    lemma_scaled((x * whole) * k, up * (part * one), up * 100);
    assert((up * (x * 100)) * (whole * k) == ((x * whole) * k) * (up * 100)) by (nonlinear_arith);
    assert((up * (part * one)) * (up * 100) == (up * up) * exact) by (nonlinear_arith)
        requires
            exact == 100 * part * one,
    ;
    assert(((c * 1) * k) * (whole * k) == ((c * whole) * k) * k) by (nonlinear_arith);
    assert(up * up <= (k + 3) * k) by (nonlinear_arith)
        requires
            k == 0x20_0000_0000_0000,
            up == k + 1,
            down == k - 1,
    ;
    lemma_scaled(up * up, (k + 3) * k, exact);
    assert(((k + 3) * k) * exact == ((k + 3) * exact) * k) by (nonlinear_arith);
    lemma_cancelled((c * whole) * k, (k + 3) * exact, k);
    // From below.
    lemma_scaled(down * (x * 100), (c * 1) * k, whole * k);
    lemma_scaled(down * (part * one), (x * whole) * k, down * 100);
    assert((down * (x * 100)) * (whole * k) == ((x * whole) * k) * (down * 100))
        by (nonlinear_arith);
    assert((down * (part * one)) * (down * 100) == (down * down) * exact) by (nonlinear_arith)
        requires
            exact == 100 * part * one,
    ;
    assert((k - 3) * k <= down * down) by (nonlinear_arith)
        requires
            k == 0x20_0000_0000_0000,
            up == k + 1,
            down == k - 1,
    ;
    lemma_scaled((k - 3) * k, down * down, exact);
    assert(((k - 3) * k) * exact == ((k - 3) * exact) * k) by (nonlinear_arith);
    lemma_cancelled((k - 3) * exact, (c * whole) * k, k);
}

/// A number from zero to a thousand.
pub open spec fn is_moderate(x: Double) -> bool {
    !x.is_negative() && x.is_finite() && x.count() <= 1000 * rounding::unit()
}

/// What is at most two thousand is finite.
proof fn lemma_moderate_is_finite(n: int)
    requires
        0 <= n <= 2000 * rounding::unit(),
    ensures
        0 <= rounding::nearest(n, 1) < double::INFINITY,
        double::made(false, rounding::nearest(n, 1)).count() == rounding::units(
            rounding::nearest(n, 1),
        ),
        !double::made(false, rounding::nearest(n, 1)).is_negative(),
        double::made(false, rounding::nearest(n, 1)).is_finite(),
        is_near(rounding::units(rounding::nearest(n, 1)), n, 1, 1),
        rounding::units(rounding::nearest(n, 1)) >= 0,
{
    double::lemma_integer(2000);
    rounding::lemma_nearest_grows(n, 2000 * rounding::unit(), 1);
    rounding::lemma_units_grow(0, rounding::nearest(n, 1));
    if n >= FRACTIONS {
        lemma_near(n, 1, rounding::units(rounding::nearest(n, 1)));
    } else {
        assert(rounding::nearest(n, 1) == n);
        assert((DENSE - 1) * n <= (n * 1) * DENSE <= (DENSE + 1) * n) by (nonlinear_arith)
            requires
                n >= 0,
        ;
    }
}

/// The sum of two moderate numbers is within one part in [`DENSE`] of the exact
/// one, and none where one of them is zero.
pub proof fn sums_are_accurate(x: Double, y: Double)
    requires
        is_moderate(x),
        is_moderate(y),
    ensures
        is_near(double::sum(x, y).count(), x.count() + y.count(), 1, 1),
        !double::sum(x, y).is_negative(),
        double::sum(x, y).is_finite(),
        y.count() == 0 ==> double::sum(x, y).count() == x.count(),
        x.count() == 0 ==> double::sum(x, y).count() == y.count(),
        double::sum(x, y).count() >= x.count(),
        double::sum(x, y).count() >= y.count(),
{
    rounding::lemma_units_grow(0, x.magnitude());
    rounding::lemma_units_grow(0, y.magnitude());
    let n = x.count() + y.count();
    lemma_moderate_is_finite(n);
    rounding::lemma_nearest_exact(x.magnitude());
    rounding::lemma_nearest_exact(y.magnitude());
    rounding::lemma_nearest_grows(x.count(), n, 1);
    rounding::lemma_nearest_grows(y.count(), n, 1);
    rounding::lemma_units_grow(x.magnitude(), rounding::nearest(n, 1));
    rounding::lemma_units_grow(y.magnitude(), rounding::nearest(n, 1));
    if n == 0 {
        assert((DENSE - 1) * 0 == 0 && (DENSE + 1) * 0 == 0 && (0 * 1) * DENSE == 0);
    }
}

/// A moderate number rounded to parts of one is at most half such a part away, but
/// for a thousandth of it.
pub proof fn rounding_stays_near(x: Double, parts: int)
    requires
        is_moderate(x),
        parts == 10 || parts == 100,
    ensures
        ({
            let r = double::rounded_to(x, double::integer(parts).bits);
            &&& !r.is_negative()
            &&& r.is_finite()
            &&& r.count() >= 0
            &&& -1001 * rounding::unit() <= 2000 * parts * (r.count() - x.count()) <= 1001
                * rounding::unit()
        }),
{
    let one = rounding::unit();
    let by = double::integer(parts);
    let c = x.count();
    double::lemma_integer(parts);
    double::lemma_units_of_one();
    rounding::lemma_units_grow(0, x.magnitude());
    // The product.
    let y = double::product(x, by);
    assert(c * (parts * one) == (c * parts) * one && 1 * one == one && c * parts >= 0)
        by (nonlinear_arith)
        requires
            c >= 0,
            parts >= 0,
    ;
    rounding::lemma_nearest_scales(c * parts, 1, one);
    lemma_large_is_finite(c * parts);
    let u = y.count();
    assert(is_near(u, c * parts, 1, 1));
    // The whole number.
    let k = (2 * u + one) / (2 * one);
    rounding::lemma_divides(2 * u + one, 2 * one);
    let rest = (2 * u + one) % (2 * one);
    assert(k >= 0) by (nonlinear_arith)
        requires
            2 * u + one == k * (2 * one) + rest,
            0 <= rest < 2 * one,
            u >= 0,
            one > 0,
    ;
    assert(k * (2 * one) == 2 * (k * one)) by (nonlinear_arith);
    assert(2 * (k * one) <= 2 * u + one && 2 * u - one < 2 * (k * one));
    assert(u <= 100_001 * one) by (nonlinear_arith)
        requires
            is_near(u, c * parts, 1, 1),
            0 <= c <= 1000 * one,
            parts <= 100,
            parts >= 0,
            one > 0,
    ;
    assert(k <= 100_002) by (nonlinear_arith)
        requires
            2 * (k * one) <= 2 * u + one,
            u <= 100_001 * one,
            one > 0,
    ;
    let w = double::whole(y);
    if k > 0 {
        double::lemma_integer(k);
    } else {
        assert(0 * one == 0) by (nonlinear_arith);
        assert(rounding::nearest(0, 1) == 0);
    }
    assert(w.count() == k * one && !w.is_negative() && w.is_finite());
    // The quotient.
    let r = double::quotient(w, by);
    rounding::lemma_nearest_scales(k * one, parts, one);
    rounding::lemma_units_grow(0, w.magnitude());
    assert(rounding::units(w.magnitude()) == k * one);
    lemma_unit_is_large();
    assert((k == 0 ==> k * one == 0) && (k >= 1 ==> k * one >= one) && k * one <= 100_002 * one)
        by (nonlinear_arith)
        requires
            0 <= k <= 100_002,
            one > 0,
    ;
    lemma_quotient_is_finite(k * one, parts);
    let v = r.count();
    assert(-1001 * one <= 2000 * parts * (v - c) <= 1001 * one) by {
        let a = v * parts;
        let b = c * parts;
        assert(-1 * one <= 4000 * (a - k * one) <= 1 * one) by (nonlinear_arith)
            requires
                is_near(v, k * one, parts, 1),
                a == v * parts,
                0 <= k <= 100_002,
                one > 0,
        ;
        assert(-1 * one <= 4000 * (u - b) <= 1 * one) by (nonlinear_arith)
            requires
                is_near(u, b, 1, 1),
                b == c * parts,
                0 <= c <= 1000 * one,
                0 <= parts <= 100,
                one > 0,
        ;
        assert(2000 * parts * (v - c) == 2000 * (a - b)) by (nonlinear_arith)
            requires
                a == v * parts,
                b == c * parts,
        ;
    }
}

/// What is at most a hundred thousand is finite.
proof fn lemma_large_is_finite(n: int)
    requires
        0 <= n <= 100_000 * rounding::unit(),
    ensures
        0 <= rounding::nearest(n, 1) < double::INFINITY,
        double::made(false, rounding::nearest(n, 1)).count() == rounding::units(
            rounding::nearest(n, 1),
        ),
        is_near(rounding::units(rounding::nearest(n, 1)), n, 1, 1),
        rounding::units(rounding::nearest(n, 1)) >= 0,
{
    double::lemma_integer(100_000);
    rounding::lemma_nearest_grows(n, 100_000 * rounding::unit(), 1);
    rounding::lemma_units_grow(0, rounding::nearest(n, 1));
    if n >= FRACTIONS {
        lemma_near(n, 1, rounding::units(rounding::nearest(n, 1)));
    } else {
        assert(rounding::nearest(n, 1) == n);
        assert((DENSE - 1) * n <= (n * 1) * DENSE <= (DENSE + 1) * n) by (nonlinear_arith)
            requires
                n >= 0,
        ;
    }
}

proof fn lemma_quotient_is_finite(n: int, d: int)
    requires
        0 <= n <= 100_002 * rounding::unit(),
        n == 0 || n >= rounding::unit(),
        0 < d <= 100,
    ensures
        0 <= rounding::nearest(n, d) < double::INFINITY,
        double::made(false, rounding::nearest(n, d)).count() == rounding::units(
            rounding::nearest(n, d),
        ),
        is_near(rounding::units(rounding::nearest(n, d)), n, d, 1),
        rounding::units(rounding::nearest(n, d)) >= 0,
{
    let most = 100_002 * rounding::unit();
    double::lemma_integer(100_002);
    rounding::lemma_nearest_scales(most, 1, d);
    assert(n <= most * d && most * d >= 0) by (nonlinear_arith)
        requires
            0 <= n <= most,
            d >= 1,
    ;
    rounding::lemma_nearest_grows(n, most * d, d);
    rounding::lemma_units_grow(0, rounding::nearest(n, d));
    lemma_unit_is_large();
    if n > 0 {
        assert(n >= d * FRACTIONS) by (nonlinear_arith)
            requires
                n >= rounding::unit(),
                d <= 100,
                rounding::unit() >= FRACTIONS * 0x1_0000_0000_0000_0000 * 0x1_0000_0000_0000_0000
                    * 16,
        ;
        lemma_near(n, d, rounding::units(rounding::nearest(n, d)));
    } else {
        assert(0 < d * DENSE) by (nonlinear_arith)
            requires
                d > 0,
        ;
        assert(0int / d == 0 && 0int % d == 0) by (nonlinear_arith)
            requires
                d > 0,
        ;
        assert((DENSE - 1) * 0 == 0 && (DENSE + 1) * 0 == 0 && (0 * d) * DENSE == 0)
            by (nonlinear_arith);
    }
}

/// Numbers compare as what they count; what is no number compares with nothing.
pub proof fn comparisons_are_by_count(x: Double, y: Double)
    ensures
        x.is_finite() && y.is_finite() ==> {
            &&& x.at_least(y) <==> x.count() >= y.count()
            &&& x.above(y) <==> x.count() > y.count()
        },
        !x.is_number() || !y.is_number() ==> !x.at_least(y) && !x.above(y),
{
    let (a, b) = (x.magnitude(), y.magnitude());
    rounding::lemma_units_grow(0, a);
    rounding::lemma_units_grow(0, b);
    if a <= b {
        rounding::lemma_units_grow(a, b);
    } else {
        rounding::lemma_units_grow(b, a);
    }
    assert(rounding::units(0) == 0);
}

} // verus!
