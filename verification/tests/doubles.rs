use rerust::double::{
    cap_at, clamp, from_integer, minus, over, percentage, plus, round1, round2, times, to_whole,
    truncate, Double, HUNDRED, MILLION, ONE, TEN,
};

fn double(x: f64) -> Double {
    Double { bits: x.to_bits() }
}

fn number(x: Double) -> f64 {
    f64::from_bits(x.bits)
}

/// The same number, with its sign; all that are no number are alike.
fn same(x: Double, y: f64) -> bool {
    x.bits == y.to_bits() || (number(x).is_nan() && y.is_nan())
}

/// Numbers of every kind: at the ends of each range, around halves, and drawn from
/// a fixed sequence.
fn samples() -> Vec<f64> {
    let mut out = vec![
        0.0,
        -0.0,
        1.0,
        -1.0,
        0.1,
        0.5,
        0.49999999999999994,
        1.5,
        2.5,
        -2.5,
        0.12,
        0.51,
        12.0,
        100.0 / 3.0,
        99.995,
        1e16,
        4503599627370495.5,
        4503599627370497.0,
        9007199254740991.0,
        9007199254740993.0,
        1e300,
        -1e300,
        f64::MAX,
        f64::MIN,
        f64::MIN_POSITIVE,
        f64::from_bits(1),
        f64::from_bits(2),
        f64::from_bits(0x000f_ffff_ffff_ffff),
        f64::from_bits(0x8000_0000_0000_0003),
        f64::INFINITY,
        f64::NEG_INFINITY,
        f64::NAN,
    ];
    let mut state: u64 = 0x9e37_79b9_7f4a_7c15;
    for i in 0..260 {
        state = state.wrapping_mul(6364136223846793005).wrapping_add(1442695040888963407);
        let bits = state ^ (state >> 29);
        out.push(f64::from_bits(bits));
        out.push((bits % 100_000) as f64 / 1000.0);
        if i % 4 == 0 {
            out.push(f64::from_bits(bits & 0x800f_ffff_ffff_ffff));
        }
    }
    out
}

#[test]
fn sums_and_differences_are_those_of_the_machine() {
    let samples = samples();
    for &x in &samples {
        for &y in &samples {
            let (a, b) = (double(x), double(y));
            assert!(same(plus(a, b), x + y), "{x:e} + {y:e}");
            assert!(same(minus(a, b), x - y), "{x:e} - {y:e}");
        }
    }
}

#[test]
fn products_and_quotients_are_those_of_the_machine() {
    let samples = samples();
    for &x in &samples {
        for &y in samples.iter().filter(|y| **y > 0.0 && y.is_finite()) {
            let (a, b) = (double(x), double(y));
            assert!(same(times(a, b), x * y), "{x:e} * {y:e}");
            assert!(same(over(a, b), x / y), "{x:e} / {y:e}");
        }
    }
}

#[test]
fn rounding_is_that_of_the_machine() {
    for x in samples() {
        let a = double(x);
        assert!(same(to_whole(a), x.round()), "{x:e}");
        assert!(same(round1(a), (x * 10.0).round() / 10.0), "{x:e}");
        assert!(same(round2(a), (x * 100.0).round() / 100.0), "{x:e}");
        assert_eq!(truncate(a), x as u64, "{x:e}");
        assert!(same(clamp(a), x.clamp(0.0, 1.0)), "{x:e}");
        for cap in [0.12, 0.5, 1.0] {
            assert!(same(cap_at(a, f64::to_bits(cap)), x.min(cap)), "{x:e}");
        }
    }
}

#[test]
fn integers_and_percentages_are_those_of_the_machine() {
    let mut n: u128 = 1;
    for i in 0..128u32 {
        for m in [n, n.wrapping_sub(1), n.wrapping_add(1), n ^ (n >> 53), n ^ (n >> 54), n | (n >> 60)] {
            assert!(same(from_integer(m), m as f64), "{m}");
            let whole = m.wrapping_mul(u128::from(i) + 2).max(1);
            assert!(same(percentage(m, whole), (m as f64 / whole as f64) * 100.0), "{m} of {whole}");
        }
        n = n.wrapping_mul(2);
    }
    assert!(same(from_integer(u128::MAX), u128::MAX as f64));
    assert!(same(from_integer(0), 0.0));
}

#[test]
fn constants_are_the_decimal_ones() {
    let named = [(ONE, 1.0), (TEN, 10.0), (HUNDRED, 100.0), (MILLION, 1_000_000.0)];
    for (bits, x) in named {
        assert_eq!(f64::from_bits(bits), x);
    }
}
