use scalable_terminal::num::Num;

fn n(x: f64) -> Num {
    Num { bits: x.to_bits() }
}

fn f(x: Num) -> f64 {
    f64::from_bits(x.bits)
}

/// Equal as doubles, or both not numbers; zeros must agree in sign.
fn alike(a: f64, b: f64) -> bool {
    (a.is_nan() && b.is_nan()) || a.to_bits() == b.to_bits()
}

fn samples() -> Vec<f64> {
    let mut v = vec![
        0.0,
        -0.0,
        1.0,
        -1.0,
        0.5,
        1.5,
        2.5,
        3.0,
        10.0,
        100.0,
        10_000.0,
        1e-6,
        1e-9,
        0.001,
        0.1,
        0.2,
        0.3,
        0.03,
        0.97,
        190.0,
        184.29999999999998,
        194.20,
        123.4567,
        1.296,
        1.338,
        1.317,
        86_400.0,
        1_789_536_607.0,
        -5.0,
        -0.73,
        1e300,
        -1e300,
        1e308,
        f64::MAX,
        f64::MIN,
        f64::MIN_POSITIVE,
        5e-324,
        -5e-324,
        2.2250738585072011e-308,
        4503599627370496.5,
        9007199254740991.0,
        9007199254740993.0,
        9.3e18,
        -9.3e18,
        1.9e19,
        f64::INFINITY,
        f64::NEG_INFINITY,
        f64::NAN,
    ];
    // Patterns spread over every exponent.
    let mut x: u64 = 0x9e37_79b9_7f4a_7c15;
    for _ in 0..120 {
        x ^= x << 13;
        x ^= x >> 7;
        x ^= x << 17;
        v.push(f64::from_bits(x));
    }
    // And some of the sizes that prices have.
    for k in 0..60 {
        x ^= x << 13;
        x ^= x >> 7;
        x ^= x << 17;
        v.push(((x >> 11) as f64) / 9007199254740992.0 * 10f64.powi(k % 12 - 4));
    }
    v
}

#[test]
fn sums_and_differences_are_those_of_doubles() {
    for a in samples() {
        for b in samples() {
            assert!(alike(f(n(a).plus(n(b))), a + b), "{a:e} + {b:e}");
            assert!(alike(f(n(a).minus(n(b))), a - b), "{a:e} - {b:e}");
        }
    }
}

#[test]
fn products_are_those_of_doubles() {
    for a in samples() {
        for b in samples() {
            assert!(alike(f(n(a).times(n(b))), a * b), "{a:e} * {b:e}");
        }
    }
}

#[test]
fn quotients_are_those_of_doubles() {
    for a in samples() {
        for b in samples() {
            assert!(alike(f(n(a).over(n(b))), a / b), "{a:e} / {b:e}");
        }
    }
}

#[test]
fn comparisons_are_those_of_doubles() {
    for a in samples() {
        for b in samples() {
            assert_eq!(n(a).lt(n(b)), a < b, "{a:e} < {b:e}");
            assert_eq!(n(a).le(n(b)), a <= b, "{a:e} <= {b:e}");
            assert_eq!(n(a).equals(n(b)), a == b, "{a:e} == {b:e}");
            let (hi, lo) = (f(n(a).max(n(b))), f(n(a).min(n(b))));
            assert!(hi == a.max(b) || (hi.is_nan() && a.max(b).is_nan()), "max {a:e} {b:e}");
            assert!(lo == a.min(b) || (lo.is_nan() && a.min(b).is_nan()), "min {a:e} {b:e}");
        }
    }
}

#[test]
fn roundings_are_those_of_doubles() {
    for a in samples() {
        assert!(alike(f(n(a).floor()), a.floor()), "floor {a:e}");
        assert_eq!(n(a).to_i64(), a as i64, "{a:e} as i64");
        assert_eq!(n(a).to_u64(), a as u64, "{a:e} as u64");
        assert_eq!(n(a).round_to_i64(), a.round() as i64, "round {a:e}");
        assert!(alike(f(n(a).abs()), a.abs()), "abs {a:e}");
        assert!(alike(f(n(a).negate()), -a), "neg {a:e}");
        assert_eq!(n(a).is_nan(), a.is_nan());
        assert_eq!(n(a).is_finite(), a.is_finite());
    }
}

#[test]
fn whole_numbers_become_the_nearest_double() {
    for i in [
        0i64,
        1,
        -1,
        86_400,
        7_776_000,
        9_007_199_254_740_992,
        9_007_199_254_740_993,
        -9_007_199_254_740_993,
        i64::MAX,
        i64::MIN,
    ] {
        assert_eq!(f(Num::from_i64(i)), i as f64, "{i}");
    }
    for i in [0u128, 1, 12_345_678_901_234_567_890, u128::MAX, u128::MAX / 3] {
        assert_eq!(f(Num::from_u128(i)), i as f64, "{i}");
    }
}

#[test]
fn fractions_are_the_literals() {
    assert_eq!(f(Num::ratio(1, 1000)), 0.001);
    assert_eq!(f(Num::ratio(1, 1_000_000)), 1e-6);
    assert_eq!(f(Num::ratio(1, 1_000_000_000)), 1e-9);
    assert_eq!(f(Num::ratio(62, 100)), 0.62);
    assert_eq!(f(Num::ratio(1, 2)), 0.5);
}

#[test]
fn whole_numbers_are_computed_with_exactly() {
    let edge = 1i64 << 53;
    for a in [-edge, -7, -1, 0, 1, 3, 6, 10_000, edge - 1, edge] {
        let x = Num::from_i64(a);
        assert_eq!(f(x), a as f64);
        assert_eq!(x.to_i64(), a);
        assert_eq!(f(x.floor()), a as f64);
        for b in [-3i64, -2, -1, 1, 2, 3] {
            let y = Num::from_i64(b);
            assert_eq!(x.plus(y).bits, Num::from_i64(a + b).bits);
            assert_eq!(x.minus(y).bits, Num::from_i64(a - b).bits);
            assert_eq!(x.lt(y), a < b);
            assert_eq!(x.equals(y), a == b);
            if a != 0 {
                let ab = x.times(y);
                assert_eq!(ab.bits, Num::from_i64(a * b).bits);
                if (a * b).abs() <= edge {
                    assert_eq!(ab.over(y).bits, x.bits);
                }
            }
        }
    }
}
