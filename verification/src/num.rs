//! Binary64 arithmetic on integers.
//!
//! Prices, quantities and chart times are doubles. A double is held here as its
//! IEEE 754 bit pattern, and every operation is computed exactly on integers and
//! rounded once, to nearest with ties to even. All finite doubles are whole
//! multiples of two to the power -1074, so the value of one is described by a
//! whole number of those units.

use vstd::arithmetic::div_mod::*;
use vstd::arithmetic::power2::*;
use vstd::bits::*;
use vstd::prelude::*;

verus! {

/// The sign bit, which is also one past the largest magnitude.
pub const SIGN: u64 = 0x8000_0000_0000_0000;

/// The magnitude of an infinity; any larger magnitude is not a number.
pub const INF: u64 = 0x7ff0_0000_0000_0000;

/// The quiet pattern that every undefined operation gives.
pub const NAN: u64 = 0x7ff8_0000_0000_0000;

/// The implicit leading bit of a normal significand.
pub const LEAD: u64 = 0x0010_0000_0000_0000;

/// A double, as its bit pattern.
#[derive(Clone, Copy, Debug)]
pub struct Num {
    pub bits: u64,
}

/// The pattern without its sign.
pub open spec fn mag(x: Num) -> int {
    if x.bits >= SIGN {
        x.bits - SIGN
    } else {
        x.bits as int
    }
}

pub open spec fn negative(x: Num) -> bool {
    x.bits >= SIGN
}

pub open spec fn is_nan(x: Num) -> bool {
    mag(x) > INF
}

pub open spec fn is_inf(x: Num) -> bool {
    mag(x) == INF
}

pub open spec fn is_finite(x: Num) -> bool {
    mag(x) < INF
}

/// The significand of magnitude `m`, with its leading bit.
pub open spec fn significand(m: int) -> int {
    if m < LEAD {
        m
    } else {
        m % (LEAD as int) + LEAD
    }
}

/// The power of two that the significand of magnitude `m` is scaled by.
pub open spec fn scale(m: int) -> nat {
    if m < LEAD {
        0
    } else {
        (m / (LEAD as int) - 1) as nat
    }
}

/// How many units magnitude `m` is worth. The formula is carried on to `INF`,
/// where it gives the value at which rounding overflows.
pub open spec fn units(m: int) -> int {
    significand(m) * pow2(scale(m))
}

/// The units of a finite double, with its sign.
pub open spec fn value(x: Num) -> int {
    if negative(x) {
        -units(mag(x))
    } else {
        units(mag(x))
    }
}

/// The pattern of magnitude `m` with the given sign.
pub open spec fn signed(neg: bool, m: int) -> Num {
    Num { bits: (if neg { m + SIGN } else { m }) as u64 }
}

/// The largest finite magnitude that is worth at most `n / d` units.
#[verifier::opaque]
pub open spec fn below(n: int, d: int) -> int {
    choose|m: int| 0 <= m < INF && #[trigger] units(m) * d <= n < units(m + 1) * d
}

/// The magnitude nearest to `n / d` units, the even one of two equally near.
#[verifier::opaque]
pub open spec fn nearest(n: int, d: int) -> int {
    if n >= units(INF as int) * d {
        INF as int
    } else {
        let m = below(n, d);
        let middle = (units(m) + units(m + 1)) * d;
        if 2 * n < middle || (2 * n == middle && m % 2 == 0) {
            m
        } else {
            m + 1
        }
    }
}

/// The units in one: two to the power 1074.
pub open spec fn one_units() -> int {
    pow2(1074) as int
}

pub open spec fn not_a_number() -> Num {
    Num { bits: NAN }
}

pub open spec fn negated(x: Num) -> Num {
    signed(!negative(x), mag(x))
}

/// The double nearest to `n / d` units; `zero_neg` is the sign of a zero sum.
pub open spec fn rounded(n: int, d: int, zero_neg: bool) -> Num {
    if n == 0 {
        signed(zero_neg, 0)
    } else if n < 0 {
        signed(true, nearest(-n, d))
    } else {
        signed(false, nearest(n, d))
    }
}

/// `x + y`.
pub open spec fn sum(x: Num, y: Num) -> Num {
    if is_nan(x) || is_nan(y) {
        not_a_number()
    } else if is_inf(x) {
        if is_inf(y) && negative(x) != negative(y) {
            not_a_number()
        } else {
            x
        }
    } else if is_inf(y) {
        y
    } else {
        rounded(value(x) + value(y), 1, negative(x) && negative(y))
    }
}

/// `x - y`.
pub open spec fn difference(x: Num, y: Num) -> Num {
    sum(x, negated(y))
}

/// `x * y`.
pub open spec fn product(x: Num, y: Num) -> Num {
    let neg = negative(x) != negative(y);
    if is_nan(x) || is_nan(y) {
        not_a_number()
    } else if is_inf(x) || is_inf(y) {
        if mag(x) == 0 || mag(y) == 0 {
            not_a_number()
        } else {
            signed(neg, INF as int)
        }
    } else {
        signed(neg, nearest(units(mag(x)) * units(mag(y)), one_units()))
    }
}

/// `x / y`.
pub open spec fn quotient(x: Num, y: Num) -> Num {
    let neg = negative(x) != negative(y);
    if is_nan(x) || is_nan(y) || (is_inf(x) && is_inf(y)) || (mag(x) == 0 && mag(y) == 0) {
        not_a_number()
    } else if is_inf(x) || mag(y) == 0 {
        signed(neg, INF as int)
    } else if is_inf(y) {
        signed(neg, 0)
    } else {
        signed(neg, nearest(units(mag(x)) * one_units(), units(mag(y))))
    }
}

/// A whole number as a double.
pub open spec fn whole(n: int) -> Num {
    rounded(n * one_units(), 1, false)
}

/// The double nearest to a fraction of two whole numbers that are doubles.
pub open spec fn ratio(n: int, d: int) -> Num {
    quotient(whole(n), whole(d))
}

/// Zero.
pub open spec fn zero() -> Num {
    Num { bits: 0 }
}

/// Negative zero, which is what a sum starts from: added to any double, it leaves
/// it as it is, the sign of a zero included.
pub open spec fn negative_zero() -> Num {
    Num { bits: SIGN }
}

/// Where `x` stands in the order of doubles; the two zeros stand together.
pub open spec fn rank(x: Num) -> int {
    if negative(x) {
        -mag(x)
    } else {
        mag(x)
    }
}

/// `x < y`, which is false where either is not a number.
pub open spec fn less(x: Num, y: Num) -> bool {
    !is_nan(x) && !is_nan(y) && rank(x) < rank(y)
}

/// `x <= y`, which is false where either is not a number.
pub open spec fn at_most(x: Num, y: Num) -> bool {
    !is_nan(x) && !is_nan(y) && rank(x) <= rank(y)
}

/// `x == y` as doubles.
pub open spec fn same(x: Num, y: Num) -> bool {
    !is_nan(x) && !is_nan(y) && rank(x) == rank(y)
}

/// The larger of two, ignoring what is not a number.
pub open spec fn larger(x: Num, y: Num) -> Num {
    if is_nan(x) || less(x, y) {
        y
    } else {
        x
    }
}

/// The smaller of two, ignoring what is not a number.
pub open spec fn smaller(x: Num, y: Num) -> Num {
    if is_nan(x) || less(y, x) {
        y
    } else {
        x
    }
}

/// The largest whole number that is at most `x`.
pub open spec fn floored(x: Num) -> Num {
    if is_nan(x) {
        not_a_number()
    } else if is_inf(x) || mag(x) == 0 {
        x
    } else {
        whole(value(x) / one_units())
    }
}

/// `x` cut towards zero, and held to the range `lo` to `hi`.
pub open spec fn cut(x: Num, lo: int, hi: int) -> int {
    if is_nan(x) {
        0
    } else if is_inf(x) {
        if negative(x) {
            lo
        } else {
            hi
        }
    } else {
        let n = units(mag(x)) / one_units();
        held(if negative(x) { -n } else { n }, lo, hi)
    }
}

/// `x` rounded to a whole number, halves away from zero, held to a range.
pub open spec fn settled(x: Num, lo: int, hi: int) -> int {
    if is_nan(x) {
        0
    } else if is_inf(x) {
        if negative(x) {
            lo
        } else {
            hi
        }
    } else {
        let n = (2 * units(mag(x)) + one_units()) / (2 * one_units());
        held(if negative(x) { -n } else { n }, lo, hi)
    }
}

pub open spec fn held(n: int, lo: int, hi: int) -> int {
    if n < lo {
        lo
    } else if n > hi {
        hi
    } else {
        n
    }
}

/// The next magnitude is one step of the current scale away.
pub proof fn lemma_step(m: int)
    requires
        0 <= m,
    ensures
        units(m + 1) == units(m) + pow2(scale(m)),
        pow2(scale(m)) > 0,
{
    let l = LEAD as int;
    lemma_pow2_pos(scale(m));
    if m < l {
        lemma2_to64();
        assert(units(m) == m);
        assert(m + 1 == l ==> (m + 1) % l == 0 && (m + 1) / l == 1);
        assert(scale(m + 1) == 0);
        assert(significand(m + 1) == m + 1);
        assert((m + 1) * 1 == m + 1);
        assert(units(m + 1) == m + 1);
    } else {
        let q = m / l;
        let r = m % l;
        assert(m == q * l + r) by (nonlinear_arith)
            requires
                q == m / l,
                r == m % l,
                l > 0,
        ;
        if r + 1 < l {
            lemma_fundamental_div_mod_converse(m + 1, l, q, r + 1);
            let p = pow2(scale(m));
            assert(units(m) == (r + l) * p);
            assert(units(m + 1) == (r + 1 + l) * p);
            assert((r + 1 + l) * p == (r + l) * p + p) by (nonlinear_arith);
        } else {
            assert(m + 1 == (q + 1) * l) by (nonlinear_arith)
                requires
                    m == q * l + r,
                    r + 1 == l,
            ;
            lemma_fundamental_div_mod_converse(m + 1, l, q + 1, 0);
            lemma_pow2_unfold(scale(m + 1));
            let p = pow2(scale(m));
            assert(pow2(scale(m + 1)) == 2 * p);
            assert(units(m + 1) == l * (2 * p));
            assert(units(m) == (r + l) * p);
            assert(l * (2 * p) == (r + l) * p + p) by (nonlinear_arith)
                requires
                    r + 1 == l,
            ;
        }
    }
}

/// A larger magnitude is worth more.
pub proof fn lemma_units_increase(a: int, b: int)
    requires
        0 <= a <= b,
    ensures
        units(a) + (b - a) <= units(b),
    decreases b - a,
{
    if a < b {
        lemma_step(b - 1);
        lemma_units_increase(a, b - 1);
    }
}

/// Only one magnitude lies just below a given number of units.
pub proof fn lemma_below(n: int, d: int, m: int)
    requires
        d > 0,
        0 <= m < INF,
        units(m) * d <= n < units(m + 1) * d,
    ensures
        below(n, d) == m,
        n < units(INF as int) * d,
{
    reveal(below);
    let k = below(n, d);
    assert(0 <= k < INF && units(k) * d <= n < units(k + 1) * d);
    if k < m {
        lemma_units_increase(k + 1, m);
        assert(units(k + 1) * d <= units(m) * d) by (nonlinear_arith)
            requires
                units(k + 1) <= units(m),
                d > 0,
        ;
    } else if m < k {
        lemma_units_increase(m + 1, k);
        assert(units(m + 1) * d <= units(k) * d) by (nonlinear_arith)
            requires
                units(m + 1) <= units(k),
                d > 0,
        ;
    }
    lemma_units_increase(m + 1, INF as int);
    assert(units(m + 1) * d <= units(INF as int) * d) by (nonlinear_arith)
        requires
            units(m + 1) <= units(INF as int),
            d > 0,
    ;
}

/// Two to the power `k`.
fn power(k: u32) -> (p: u128)
    requires
        k < 128,
    ensures
        p == pow2(k as nat),
        p > 0,
{
    proof {
        lemma_pow2_pos(k as nat);
    }
    if k < 64 {
        proof {
            lemma_u64_pow2_no_overflow(k as nat);
            lemma_u64_shl_is_mul(1, k as u64);
        }
        (1u64 << (k as u64)) as u128
    } else {
        let h: u64 = (k - 64) as u64;
        proof {
            lemma_u64_pow2_no_overflow(h as nat);
            lemma_u64_shl_is_mul(1, h);
            lemma_pow2_adds(h as nat, 64);
            lemma2_to64();
        }
        ((1u64 << h) as u128) * 0x1_0000_0000_0000_0000u128
    }
}

/// Whether `a` times two to the `i` is at most `b` times two to the `j`.
fn scaled_at_most(a: u128, i: u32, b: u128, j: u32) -> (r: bool)
    ensures
        r == (a * pow2(i as nat) <= b * pow2(j as nat)),
{
    if i >= j {
        let k: u32 = i - j;
        proof {
            lemma_common_scale(a as int, k as nat, b as int, j as nat);
        }
        if k >= 128 {
            proof {
                lemma_past_u128(k as nat);
                let p = pow2(k as nat);
                assert(a > 0 ==> a * p >= p) by (nonlinear_arith)
                    requires
                        p > 0,
                ;
            }
            a == 0
        } else {
            let p: u128 = power(k);
            proof {
                let q = (b / p) as int;
                lemma_fundamental_div_mod(b as int, p as int);
                assert((a <= q) == (a * p <= b)) by (nonlinear_arith)
                    requires
                        b == p * q + (b as int) % (p as int),
                        0 <= (b as int) % (p as int) < p,
                        p > 0,
                        a >= 0,
                ;
            }
            a <= b / p
        }
    } else {
        let k: u32 = j - i;
        proof {
            lemma_common_scale(b as int, k as nat, a as int, i as nat);
        }
        if k >= 128 {
            proof {
                lemma_past_u128(k as nat);
                let p = pow2(k as nat);
                assert(b > 0 ==> b * p >= p) by (nonlinear_arith)
                    requires
                        p > 0,
                ;
            }
            a == 0 || b != 0
        } else {
            let p: u128 = power(k);
            proof {
                let q = (a / p) as int;
                let r = (a % p) as int;
                lemma_fundamental_div_mod(a as int, p as int);
                assert((q < b || (q == b && r == 0)) == (a <= b * p)) by (nonlinear_arith)
                    requires
                        a == p * q + r,
                        0 <= r < p,
                        b >= 0,
                ;
            }
            a / p < b || (a / p == b && a % p == 0)
        }
    }
}

/// A common power of two cancels out of a comparison.
proof fn lemma_common_scale(a: int, k: nat, b: int, j: nat)
    ensures
        (a * pow2(k + j) <= b * pow2(j)) == (a * pow2(k) <= b),
        (b * pow2(j) <= a * pow2(k + j)) == (b <= a * pow2(k)),
{
    lemma_pow2_adds(k, j);
    lemma_pow2_pos(j);
    let p = pow2(k);
    let q = pow2(j);
    assert((a * (p * q) <= b * q) == (a * p <= b)) by (nonlinear_arith)
        requires
            q > 0,
    ;
    assert((b * q <= a * (p * q)) == (b <= a * p)) by (nonlinear_arith)
        requires
            q > 0,
    ;
}

proof fn lemma_past_u128(k: nat)
    requires
        k >= 128,
    ensures
        pow2(k) > u128::MAX,
{
    lemma2_to64();
    lemma_pow2_adds(64, 64);
    if k > 128 {
        lemma_pow2_strictly_increases(128, k);
    }
}

/// The significand and the scale of a magnitude.
fn split(m: u64) -> (r: (u64, u32))
    requires
        m <= INF,
    ensures
        r.0 == significand(m as int),
        r.1 == scale(m as int),
        r.0 < 2 * LEAD,
        r.1 <= 2046,
        m > 0 ==> r.0 > 0,
        r.1 > 0 ==> r.0 >= LEAD,
{
    if m < LEAD {
        (m, 0)
    } else {
        (m % LEAD + LEAD, (m / LEAD - 1) as u32)
    }
}

/// The worth of a scaled significand, over a scaled divisor.
proof fn lemma_scaled_units(s: int, k: nat, d: int, down: nat)
    ensures
        (s * pow2(k)) * (d * pow2(down)) == (s * d) * pow2(k + down),
{
    lemma_pow2_adds(k, down);
    let p = pow2(k);
    let q = pow2(down);
    assert((s * p) * (d * q) == (s * d) * (p * q)) by (nonlinear_arith);
}

/// The magnitude nearest to `x` times two to the `up`, over `d` times two to
/// the `down`: a search for the magnitude just below, and one comparison with
/// the middle of the step above it.
fn nearest_mag(x: u128, up: u32, d: u128, down: u32) -> (m: u64)
    requires
        0 < d < 2 * LEAD,
        up <= 8000,
        down <= 8000,
    ensures
        m == nearest(x * pow2(up as nat), d * pow2(down as nat)),
        m <= INF,
{
    let ghost n = x * pow2(up as nat);
    let ghost dd = d * pow2(down as nat);
    proof {
        reveal(nearest);
        lemma_pow2_pos(up as nat);
        lemma_pow2_pos(down as nat);
        assert(dd > 0) by (nonlinear_arith)
            requires
                dd == d * pow2(down as nat),
                d > 0,
                pow2(down as nat) > 0,
        ;
        assert(n >= 0) by (nonlinear_arith)
            requires
                n == x * pow2(up as nat),
                x >= 0,
                pow2(up as nat) > 0,
        ;
    }
    if worth_at_most(INF, x, up, d, down) {
        return INF;
    }
    let mut lo: u64 = 0;
    let mut hi: u64 = INF;
    proof {
        lemma_zero_units(dd);
    }
    while hi - lo > 1
        invariant
            lo < hi <= INF,
            0 < d < 2 * LEAD,
            up <= 8000,
            down <= 8000,
            n == x * pow2(up as nat),
            dd == d * pow2(down as nat),
            units(lo as int) * dd <= n < units(hi as int) * dd,
        decreases hi - lo,
    {
        let mid: u64 = lo + (hi - lo) / 2;
        if worth_at_most(mid, x, up, d, down) {
            lo = mid;
        } else {
            hi = mid;
        }
    }
    proof {
        lemma_below(n, dd, lo as int);
        lemma_step(lo as int);
    }
    let (s, k): (u64, u32) = split(lo);
    assert((2 * s + 1) * d < 0x40_0000_0000_0000 * 0x20_0000_0000_0000) by (nonlinear_arith)
        requires
            s < 0x20_0000_0000_0000,
            0 < d < 0x20_0000_0000_0000,
    ;
    let t: u128 = (2 * (s as u128) + 1) * d;
    let ghost middle = (units(lo as int) + units(lo + 1)) * dd;
    proof {
        let p = pow2(k as nat);
        assert(units(lo as int) + units(lo + 1) == (2 * s + 1) * p) by (nonlinear_arith)
            requires
                units(lo as int) == s * p,
                units(lo + 1) == units(lo as int) + p,
        ;
        lemma_scaled_units(2 * s + 1, k as nat, d as int, down as nat);
        assert(middle == t * pow2((k + down) as nat));
        lemma_pow2_unfold((up + 1) as nat);
        assert(2 * n == x * pow2((up + 1) as nat)) by (nonlinear_arith)
            requires
                n == x * pow2(up as nat),
                pow2((up + 1) as nat) == 2 * pow2(up as nat),
        ;
    }
    let low: bool = scaled_at_most(x, up + 1, t, k + down);
    let high: bool = scaled_at_most(t, k + down, x, up + 1);
    if low && (!high || lo % 2 == 0) {
        lo
    } else {
        lo + 1
    }
}

proof fn lemma_zero_units(d: int)
    ensures
        units(0) == 0,
        units(0) * d == 0,
{
    lemma2_to64();
    assert(0 * pow2(0) == 0);
    assert(0 * d == 0);
}

/// Whether magnitude `m` is worth at most the given ratio.
fn worth_at_most(m: u64, x: u128, up: u32, d: u128, down: u32) -> (r: bool)
    requires
        m <= INF,
        0 < d < 2 * LEAD,
        up <= 8000,
        down <= 8000,
    ensures
        r == (units(m as int) * (d * pow2(down as nat)) <= x * pow2(up as nat)),
{
    let (s, k): (u64, u32) = split(m);
    proof {
        lemma_scaled_units(s as int, k as nat, d as int, down as nat);
        assert(s * d < 0x20_0000_0000_0000 * 0x20_0000_0000_0000) by (nonlinear_arith)
            requires
                s < 0x20_0000_0000_0000,
                0 < d < 0x20_0000_0000_0000,
        ;
    }
    scaled_at_most((s as u128) * d, k + down, x, up)
}

/// Units within a quarter of a step of a magnitude round to it.
proof fn lemma_near(m: int, n: int)
    requires
        0 <= m < INF,
        n == units(m) || (m > 0 && 4 * (n - units(m)) < pow2(scale(m)) && 4 * (units(m) - n)
            < pow2(scale(m))),
    ensures
        nearest(n, 1) == m,
{
    reveal(nearest);
    lemma_step(m);
    if n >= units(m) {
        assert(units(m) * 1 <= n < units(m + 1) * 1);
        lemma_below(n, 1, m);
        assert((units(m) + units(m + 1)) * 1 == units(m) + units(m + 1));
    } else {
        lemma_step(m - 1);
        let l = LEAD as int;
        assert(scale(m) <= scale(m - 1) + 1) by {
            if m > l {
                assert(m / l <= (m - 1) / l + 1);
            } else if m == l {
                assert(l / l == 1);
            }
        }
        lemma_pow2_unfold(scale(m - 1) + 1);
        if scale(m) < scale(m - 1) + 1 {
            lemma_pow2_strictly_increases(scale(m), scale(m - 1) + 1);
        }
        assert(units(m - 1) * 1 <= n < units(m) * 1);
        lemma_below(n, 1, m - 1);
        assert((units(m - 1) + units(m)) * 1 == units(m - 1) + units(m));
    }
}

/// Units far below the scale of a magnitude do not move it.
proof fn lemma_far(m: int, k: nat, t: int)
    requires
        0 <= m < INF,
        scale(m) >= k + 65,
        0 <= t < 2 * LEAD,
    ensures
        nearest(units(m) + t * pow2(k), 1) == m,
        nearest(units(m) - t * pow2(k), 1) == m,
        units(m) > t * pow2(k),
        t * pow2(k) >= 0,
{
    let p = pow2(k);
    lemma_pow2_pos(k);
    lemma_pow2_adds(k, 65);
    lemma_pow2_adds(64, 1);
    lemma2_to64();
    if scale(m) > k + 65 {
        lemma_pow2_strictly_increases(k + 65, scale(m));
    }
    assert(pow2(65) == 2 * 0x1_0000_0000_0000_0000);
    assert(0 <= t * p && 8 * (t * p) < p * (2 * 0x1_0000_0000_0000_0000)) by (nonlinear_arith)
        requires
            0 <= t < 0x20_0000_0000_0000,
            p > 0,
    ;
    let w = pow2(scale(m));
    assert(units(m) >= w) by (nonlinear_arith)
        requires
            units(m) == significand(m) * w,
            significand(m) >= 1,
            w > 0,
    ;
    lemma_near(m, units(m) + t * p);
    lemma_near(m, units(m) - t * p);
}

impl Num {
    pub fn is_nan(self) -> (r: bool)
        ensures
            r == is_nan(self),
    {
        self.magnitude() > INF
    }

    pub fn is_finite(self) -> (r: bool)
        ensures
            r == is_finite(self),
    {
        self.magnitude() < INF
    }

    fn magnitude(self) -> (m: u64)
        ensures
            m == mag(self),
            m < SIGN,
    {
        if self.bits >= SIGN {
            self.bits - SIGN
        } else {
            self.bits
        }
    }

    fn of(neg: bool, m: u64) -> (r: Num)
        requires
            m < SIGN,
        ensures
            r == signed(neg, m as int),
            mag(r) == m,
            negative(r) == neg,
    {
        if neg {
            Num { bits: m + SIGN }
        } else {
            Num { bits: m }
        }
    }

    /// `-self`.
    pub fn negate(self) -> (r: Num)
        ensures
            r == negated(self),
            mag(r) == mag(self),
            negative(r) == !negative(self),
    {
        Num::of(self.bits < SIGN, self.magnitude())
    }

    /// `self + y`.
    pub fn plus(self, y: Num) -> (r: Num)
        ensures
            r == sum(self, y),
    {
        let a: u64 = self.magnitude();
        let b: u64 = y.magnitude();
        let na: bool = self.bits >= SIGN;
        let nb: bool = y.bits >= SIGN;
        if a > INF || b > INF || (a == INF && b == INF && na != nb) {
            return Num { bits: NAN };
        }
        if a == INF {
            return self;
        }
        if b == INF {
            return y;
        }
        if a / LEAD >= b / LEAD {
            proof {
                lemma_scale_order(a as int, b as int);
            }
            Num::plus_ordered(na, a, nb, b)
        } else {
            proof {
                lemma_scale_order(b as int, a as int);
                assert(value(self) + value(y) == value(y) + value(self));
            }
            Num::plus_ordered(nb, b, na, a)
        }
    }

    /// The sum of two finite doubles, the one of the larger scale first.
    fn plus_ordered(na: bool, a: u64, nb: bool, b: u64) -> (r: Num)
        requires
            a < INF,
            b < INF,
            scale(a as int) >= scale(b as int),
        ensures
            r == rounded(
                value(signed(na, a as int)) + value(signed(nb, b as int)),
                1,
                na && nb,
            ),
    {
        let (sa, ka): (u64, u32) = split(a);
        let (sb, kb): (u64, u32) = split(b);
        let gap: u32 = ka - kb;
        if gap > 64 {
            proof {
                lemma_far_sum(na, a as int, nb, b as int);
            }
            return Num::of(na, a);
        }
        let p: u128 = power(gap);
        proof {
            lemma_aligned(sa as int, ka as nat, gap as nat, kb as nat);
        }
        let u: u128 = (sa as u128) * p;
        let v: u128 = sb as u128;
        let neg: bool;
        let t: u128;
        if na == nb {
            neg = na;
            t = u + v;
        } else if u >= v {
            neg = na && u != v;
            t = u - v;
        } else {
            neg = nb;
            t = v - u;
        }
        proof {
            lemma2_to64();
            lemma_near_sum(na, a as int, nb, b as int, u as int, v as int, kb as nat, neg, t as int);
        }
        Num::of(neg, nearest_mag(t, kb, 1, 0))
    }

    /// `self - y`.
    pub fn minus(self, y: Num) -> (r: Num)
        ensures
            r == difference(self, y),
    {
        self.plus(y.negate())
    }

    /// `self * y`.
    pub fn times(self, y: Num) -> (r: Num)
        ensures
            r == product(self, y),
    {
        let a: u64 = self.magnitude();
        let b: u64 = y.magnitude();
        let neg: bool = (self.bits >= SIGN) != (y.bits >= SIGN);
        if a > INF || b > INF {
            return Num { bits: NAN };
        }
        if a == INF || b == INF {
            if a == 0 || b == 0 {
                return Num { bits: NAN };
            }
            return Num::of(neg, INF);
        }
        let (sa, ka): (u64, u32) = split(a);
        let (sb, kb): (u64, u32) = split(b);
        proof {
            assert(sa * sb < 0x20_0000_0000_0000 * 0x20_0000_0000_0000) by (nonlinear_arith)
                requires
                    0 <= sa < 0x20_0000_0000_0000,
                    0 <= sb < 0x20_0000_0000_0000,
            ;
            lemma_scaled_units(sa as int, ka as nat, sb as int, kb as nat);
            assert(1 * pow2(1074) == pow2(1074));
        }
        Num::of(neg, nearest_mag((sa as u128) * (sb as u128), ka + kb, 1, 1074))
    }

    /// `self / y`.
    pub fn over(self, y: Num) -> (r: Num)
        ensures
            r == quotient(self, y),
    {
        let a: u64 = self.magnitude();
        let b: u64 = y.magnitude();
        let neg: bool = (self.bits >= SIGN) != (y.bits >= SIGN);
        if a > INF || b > INF || (a == INF && b == INF) || (a == 0 && b == 0) {
            return Num { bits: NAN };
        }
        if a == INF || b == 0 {
            return Num::of(neg, INF);
        }
        if b == INF {
            return Num::of(neg, 0);
        }
        let (sa, ka): (u64, u32) = split(a);
        let (sb, kb): (u64, u32) = split(b);
        proof {
            lemma_scaled_units(sa as int, ka as nat, 1, 1074);
            assert(sa * 1 == sa);
            assert(1 * pow2(1074) == pow2(1074));
        }
        Num::of(neg, nearest_mag(sa as u128, ka + 1074, sb as u128, kb))
    }
}

proof fn lemma_signed_value(neg: bool, m: int)
    requires
        0 <= m < SIGN,
    ensures
        value(signed(neg, m)) == if neg { -units(m) } else { units(m) },
        mag(signed(neg, m)) == m,
        negative(signed(neg, m)) == neg,
{
}

/// Rounding a sum is rounding its size and keeping its sign.
proof fn lemma_rounded(n: int, zero_neg: bool, neg: bool)
    requires
        n > 0 ==> !neg,
        n < 0 ==> neg,
        n == 0 ==> neg == zero_neg,
    ensures
        rounded(n, 1, zero_neg) == signed(neg, nearest(if n < 0 { -n } else { n }, 1)),
{
    lemma_zero_units(1);
    lemma_near(0, 0);
}

/// A significand moved to a lower scale is worth the same.
proof fn lemma_aligned(s: int, k: nat, gap: nat, low: nat)
    requires
        0 <= s < 2 * LEAD,
        gap <= 64,
        k == gap + low,
    ensures
        s * pow2(k) == (s * pow2(gap)) * pow2(low),
        0 <= s * pow2(gap) < 0x20_0000_0000_0000 * 0x1_0000_0000_0000_0000,
{
    lemma_pow2_adds(gap, low);
    lemma_small_power(gap);
    lemma_pow2_pos(gap);
    let p = pow2(gap);
    let q = pow2(low);
    assert(s * (p * q) == (s * p) * q) by (nonlinear_arith);
    assert(0 <= s * p < 0x20_0000_0000_0000 * 0x1_0000_0000_0000_0000) by (nonlinear_arith)
        requires
            0 <= s < 0x20_0000_0000_0000,
            0 < p <= 0x1_0000_0000_0000_0000,
    ;
}

proof fn lemma_distribute(u: int, v: int, q: int)
    ensures
        (u + v) * q == u * q + v * q,
        (u - v) * q == u * q - v * q,
        (v - u) * q == v * q - u * q,
{
    assert((u + v) * q == u * q + v * q) by (nonlinear_arith);
    assert((u - v) * q == u * q - v * q) by (nonlinear_arith);
    assert((v - u) * q == v * q - u * q) by (nonlinear_arith);
}

proof fn lemma_far_sum(na: bool, a: int, nb: bool, b: int)
    requires
        0 <= a < INF,
        0 <= b < INF,
        scale(a) >= scale(b) + 65,
    ensures
        rounded(value(signed(na, a)) + value(signed(nb, b)), 1, na && nb) == signed(na, a),
{
    lemma_signed_value(na, a);
    lemma_signed_value(nb, b);
    lemma_far(a, scale(b), significand(b));
    lemma_rounded(value(signed(na, a)) + value(signed(nb, b)), na && nb, na);
}

proof fn lemma_near_sum(
    na: bool,
    a: int,
    nb: bool,
    b: int,
    u: int,
    v: int,
    k: nat,
    neg: bool,
    t: int,
)
    requires
        0 <= a < INF,
        0 <= b < INF,
        units(a) == u * pow2(k),
        units(b) == v * pow2(k),
        t >= 0,
        if neg { -t } else { t } == (if na { -u } else { u }) + (if nb { -v } else { v }),
        t == 0 ==> neg == (na && nb),
    ensures
        rounded(value(signed(na, a)) + value(signed(nb, b)), 1, na && nb) == signed(
            neg,
            nearest(t * pow2(k), 1),
        ),
{
    let q = pow2(k) as int;
    lemma_pow2_pos(k);
    lemma_signed_value(na, a);
    lemma_signed_value(nb, b);
    lemma_distribute(u, v, q);
    assert((-t) * q == -(t * q)) by (nonlinear_arith);
    assert((-u - v) * q == -((u + v) * q)) by (nonlinear_arith);
    assert((t == 0) == (t * q == 0) && t * q >= 0) by (nonlinear_arith)
        requires
            q > 0,
            t >= 0,
    ;
    lemma_rounded(value(signed(na, a)) + value(signed(nb, b)), na && nb, neg);
}

/// A larger exponent field is a larger scale.
proof fn lemma_scale_order(a: int, b: int)
    requires
        0 <= a,
        0 <= b,
        a / (LEAD as int) >= b / (LEAD as int),
    ensures
        scale(a) >= scale(b),
{
    assert(a < LEAD ==> a / (LEAD as int) == 0);
    assert(b >= LEAD ==> b / (LEAD as int) >= 1);
}

proof fn lemma_small_power(k: nat)
    requires
        k <= 64,
    ensures
        pow2(k) <= 0x1_0000_0000_0000_0000,
{
    lemma2_to64();
    if k < 64 {
        lemma_pow2_strictly_increases(k, 64);
    }
}

/// The whole part of a magnitude, exact below two to the 116 and capped there.
fn whole_part(m: u64) -> (n: u128)
    requires
        m < INF,
    ensures
        n == units(m as int) / one_units() || (n == WHOLE_CAP && units(m as int) / one_units()
            >= WHOLE_CAP),
{
    let (s, k): (u64, u32) = split(m);
    proof {
        lemma_pow2_pos(1074);
    }
    if k >= 1074 {
        let up: u32 = k - 1074;
        proof {
            lemma_pow2_adds(up as nat, 1074);
            lemma_pow2_pos(up as nat);
            let p = pow2(up as nat) as int;
            let o = one_units();
            assert(units(m as int) == (s * p) * o) by (nonlinear_arith)
                requires
                    units(m as int) == s * pow2(k as nat),
                    pow2(k as nat) == p * o,
            ;
            lemma_div_by_multiple(s * p, o);
        }
        if up >= 64 {
            proof {
                lemma2_to64();
                if up > 64 {
                    lemma_pow2_strictly_increases(64, up as nat);
                }
                let p = pow2(up as nat) as int;
                assert(s * p >= 0x10_0000_0000_0000 * 0x1_0000_0000_0000_0000)
                    by (nonlinear_arith)
                    requires
                        s >= 0x10_0000_0000_0000,
                        p >= 0x1_0000_0000_0000_0000,
                ;
            }
            WHOLE_CAP
        } else {
            let p: u128 = power(up);
            proof {
                lemma_aligned(s as int, up as nat, up as nat, 0);
            }
            (s as u128) * p
        }
    } else {
        let down: u32 = 1074 - k;
        proof {
            lemma_fraction(s as int, k as nat);
        }
        if down >= 64 {
            proof {
                lemma2_to64();
                if down > 64 {
                    lemma_pow2_strictly_increases(64, down as nat);
                }
                lemma_small_div(s as int, pow2(down as nat) as int);
            }
            0
        } else {
            let p: u128 = power(down);
            (s as u128) / p
        }
    }
}

proof fn lemma_small_div(s: int, d: int)
    requires
        0 <= s < d,
    ensures
        s / d == 0,
        s % d == s,
{
    lemma_fundamental_div_mod_converse(s, d, 0, s);
}

/// Below the scale of one, the whole part is a division of the significand.
proof fn lemma_fraction(s: int, k: nat)
    requires
        k < 1074,
        s >= 0,
    ensures
        (s * pow2(k)) / one_units() == s / (pow2((1074 - k) as nat) as int),
        (s * pow2(k)) % one_units() == 0 <==> s % (pow2((1074 - k) as nat) as int) == 0,
{
    let d = pow2((1074 - k) as nat) as int;
    let p = pow2(k) as int;
    lemma_pow2_pos(k);
    lemma_pow2_pos((1074 - k) as nat);
    lemma_pow2_adds(k, (1074 - k) as nat);
    let q = s / d;
    let r = s % d;
    lemma_fundamental_div_mod(s, d);
    assert(s * p == q * (p * d) + r * p && 0 <= r * p < p * d && (r * p == 0 <==> r == 0))
        by (nonlinear_arith)
        requires
            s == d * q + r,
            0 <= r < d,
            p > 0,
    ;
    lemma_fundamental_div_mod_converse(s * p, p * d, q, r * p);
}

/// Two to the power 116, past every integer type that a double is cut to.
const WHOLE_CAP: u128 = 0x0010_0000_0000_0000_0000_0000_0000_0000;

impl Num {
    /// A whole number as a double.
    pub fn from_i64(n: i64) -> (r: Num)
        ensures
            r == whole(n as int),
    {
        let neg: bool = n < 0;
        let a: u128 = if neg {
            (-(n as i128)) as u128
        } else {
            n as u128
        };
        proof {
            lemma2_to64();
            lemma_whole_sign(n as int, neg);
        }
        Num::of(neg, nearest_mag(a, 1074, 1, 0))
    }

    /// Whether the sign is that of a negative.
    pub fn sign_is_negative(self) -> (r: bool)
        ensures
            r == negative(self),
    {
        self.bits >= SIGN
    }

    /// A fraction.
    pub fn ratio(n: i64, d: i64) -> (r: Num)
        ensures
            r == ratio(n as int, d as int),
    {
        Num::from_i64(n).over(Num::from_i64(d))
    }

    pub fn zero() -> (r: Num)
        ensures
            r == zero(),
    {
        Num { bits: 0 }
    }

    pub fn negative_zero() -> (r: Num)
        ensures
            r == negative_zero(),
    {
        Num { bits: SIGN }
    }

    /// A whole number as a double.
    pub fn from_u128(n: u128) -> (r: Num)
        ensures
            r == whole(n as int),
    {
        proof {
            lemma2_to64();
            lemma_whole_sign(n as int, false);
        }
        Num::of(false, nearest_mag(n, 1074, 1, 0))
    }

    /// `self < y`.
    pub fn lt(self, y: Num) -> (r: bool)
        ensures
            r == less(self, y),
    {
        let a: u64 = self.magnitude();
        let b: u64 = y.magnitude();
        if a > INF || b > INF {
            false
        } else if self.bits >= SIGN {
            if y.bits >= SIGN {
                b < a
            } else {
                a > 0 || b > 0
            }
        } else {
            y.bits < SIGN && a < b
        }
    }

    /// `self <= y`.
    pub fn le(self, y: Num) -> (r: bool)
        ensures
            r == at_most(self, y),
    {
        !self.is_nan() && !y.is_nan() && !y.lt(self)
    }

    /// `self == y`.
    pub fn equals(self, y: Num) -> (r: bool)
        ensures
            r == same(self, y),
    {
        self.le(y) && y.le(self)
    }

    /// The larger of two, ignoring what is not a number.
    pub fn max(self, y: Num) -> (r: Num)
        ensures
            r == larger(self, y),
    {
        if self.is_nan() || self.lt(y) {
            y
        } else {
            self
        }
    }

    /// The smaller of two, ignoring what is not a number.
    pub fn min(self, y: Num) -> (r: Num)
        ensures
            r == smaller(self, y),
    {
        if self.is_nan() || y.lt(self) {
            y
        } else {
            self
        }
    }

    /// The size of `self`, without its sign.
    pub fn abs(self) -> (r: Num)
        ensures
            r == signed(false, mag(self)),
    {
        Num::of(false, self.magnitude())
    }

    /// The largest whole number that is at most `self`.
    pub fn floor(self) -> (r: Num)
        ensures
            r == floored(self),
    {
        let m: u64 = self.magnitude();
        if m > INF {
            return Num { bits: NAN };
        }
        if m == INF || m == 0 {
            return self;
        }
        let (s, k): (u64, u32) = split(m);
        if k >= 1074 {
            proof {
                lemma_already_whole(self);
            }
            return self;
        }
        let q: u128 = whole_part(m);
        let p: u64 = if 1074 - k >= 64 {
            0
        } else {
            power(1074 - k) as u64
        };
        proof {
            lemma_fraction(s as int, k as nat);
            lemma_pow2_pos(1074);
            lemma_whole_below(m as int);
            lemma_floor_parts(self);
            if 1074 - k >= 64 {
                lemma2_to64();
                if 1074 - k > 64 {
                    lemma_pow2_strictly_increases(64, (1074 - k) as nat);
                }
                lemma_small_div(s as int, pow2((1074 - k) as nat) as int);
            } else {
                lemma2_to64();
                lemma_pow2_strictly_increases((1074 - k) as nat, 64);
            }
        }
        if self.bits < SIGN {
            Num::from_u128(q)
        } else if p != 0 && s % p == 0 {
            Num::from_i64(-(q as i64))
        } else {
            Num::from_i64(-((q + 1) as i64))
        }
    }

    /// `self` cut towards zero, as a signed integer.
    pub fn to_i64(self) -> (n: i64)
        ensures
            n == cut(self, i64::MIN as int, i64::MAX as int),
    {
        let m: u64 = self.magnitude();
        if m > INF {
            return 0;
        }
        let neg: bool = self.bits >= SIGN;
        if m == INF {
            return if neg { i64::MIN } else { i64::MAX };
        }
        let n: u128 = whole_part(m);
        if neg {
            if n >= 0x8000_0000_0000_0000 {
                i64::MIN
            } else {
                -(n as i64)
            }
        } else if n > 0x7fff_ffff_ffff_ffff {
            i64::MAX
        } else {
            n as i64
        }
    }

    /// `self` cut towards zero, as an unsigned integer.
    pub fn to_u64(self) -> (n: u64)
        ensures
            n == cut(self, 0, u64::MAX as int),
    {
        let m: u64 = self.magnitude();
        if m > INF {
            return 0;
        }
        if m == INF {
            return if self.bits >= SIGN { 0 } else { u64::MAX };
        }
        let n: u128 = whole_part(m);
        if self.bits >= SIGN {
            proof {
                lemma_pow2_pos(1074);
                lemma_units_increase(0, m as int);
                lemma_zero_units(1);
                lemma_div_pos_is_pos(units(m as int), one_units());
            }
            0
        } else if n > 0xffff_ffff_ffff_ffff {
            u64::MAX
        } else {
            n as u64
        }
    }
}

/// Half of a unit added before cutting: the nearest whole part, halves up.
proof fn lemma_half_up(s: int, k: nat)
    requires
        k < 1074,
        0 <= s < 2 * LEAD,
    ensures
        (2 * (s * pow2(k)) + one_units()) / (2 * one_units()) == (2 * s + pow2(
            (1074 - k) as nat,
        )) / (2 * pow2((1074 - k) as nat) as int),
{
    let d = pow2((1074 - k) as nat) as int;
    let p = pow2(k) as int;
    lemma_pow2_pos(k);
    lemma_pow2_pos((1074 - k) as nat);
    lemma_pow2_adds(k, (1074 - k) as nat);
    let q = (2 * s + d) / (2 * d);
    let r = (2 * s + d) % (2 * d);
    lemma_fundamental_div_mod(2 * s + d, 2 * d);
    assert(2 * (s * p) + p * d == q * (2 * (p * d)) + r * p && 0 <= r * p < 2 * (p * d))
        by (nonlinear_arith)
        requires
            2 * s + d == (2 * d) * q + r,
            0 <= r < 2 * d,
            p > 0,
    ;
    lemma_fundamental_div_mod_converse(2 * (s * p) + p * d, 2 * (p * d), q, r * p);
}

/// The whole number nearest to a magnitude, halves up.
fn settled_part(m: u64) -> (n: u128)
    requires
        m < INF,
    ensures
        n == (2 * units(m as int) + one_units()) / (2 * one_units()) || (n == WHOLE_CAP && (2
            * units(m as int) + one_units()) / (2 * one_units()) >= WHOLE_CAP),
{
    let (s, k): (u64, u32) = split(m);
    if k >= 1074 {
        proof {
            let up = (k - 1074) as nat;
            let o = one_units();
            lemma_pow2_pos(1074);
            lemma_pow2_adds(up, 1074);
            let p = pow2(up) as int;
            assert(units(m as int) == (s * p) * o) by (nonlinear_arith)
                requires
                    units(m as int) == s * pow2(k as nat),
                    pow2(k as nat) == p * o,
            ;
            lemma_div_by_multiple(s * p, o);
            assert(2 * ((s * p) * o) + o == (s * p) * (2 * o) + o) by (nonlinear_arith);
            lemma_fundamental_div_mod_converse(2 * units(m as int) + o, 2 * o, s * p, o);
        }
        whole_part(m)
    } else {
        let down: u32 = 1074 - k;
        proof {
            lemma_half_up(s as int, k as nat);
        }
        if down >= 64 {
            proof {
                lemma2_to64();
                if down > 64 {
                    lemma_pow2_strictly_increases(64, down as nat);
                }
                lemma_small_div(2 * s + pow2(down as nat), 2 * pow2(down as nat) as int);
            }
            0
        } else {
            let p: u128 = power(down);
            proof {
                lemma_small_power(down as nat);
            }
            (2 * (s as u128) + p) / (2 * p)
        }
    }
}

impl Num {
    /// `self` rounded to a whole number, halves away from zero.
    pub fn round_to_i64(self) -> (n: i64)
        ensures
            n == settled(self, i64::MIN as int, i64::MAX as int),
    {
        let m: u64 = self.magnitude();
        if m > INF {
            return 0;
        }
        let neg: bool = self.bits >= SIGN;
        if m == INF {
            return if neg { i64::MIN } else { i64::MAX };
        }
        let n: u128 = settled_part(m);
        if neg {
            if n >= 0x8000_0000_0000_0000 {
                i64::MIN
            } else {
                -(n as i64)
            }
        } else if n > 0x7fff_ffff_ffff_ffff {
            i64::MAX
        } else {
            n as i64
        }
    }
}

proof fn lemma_whole_sign(n: int, neg: bool)
    requires
        neg == (n < 0),
    ensures
        whole(n) == signed(neg, nearest((if n < 0 { -n } else { n }) * one_units(), 1)),
{
    let o = one_units();
    lemma_pow2_pos(1074);
    assert((-n) * o == -(n * o)) by (nonlinear_arith);
    assert((n < 0) == (n * o < 0) && (n > 0) == (n * o > 0)) by (nonlinear_arith)
        requires
            o > 0,
    ;
    lemma_rounded(n * o, false, neg);
}

/// At or above the scale of one a double is whole already.
proof fn lemma_already_whole(x: Num)
    requires
        0 < mag(x) < INF,
        scale(mag(x)) >= 1074,
    ensures
        floored(x) == x,
{
    let m = mag(x);
    let o = one_units();
    let up = (scale(m) - 1074) as nat;
    lemma_pow2_pos(1074);
    lemma_pow2_pos(up);
    lemma_pow2_adds(up, 1074);
    let p = pow2(up) as int;
    let s = significand(m);
    assert(units(m) == (s * p) * o) by (nonlinear_arith)
        requires
            units(m) == s * pow2(scale(m)),
            pow2(scale(m)) == p * o,
    ;
    assert((-(s * p)) * o == -((s * p) * o)) by (nonlinear_arith);
    lemma_div_by_multiple(s * p, o);
    lemma_fundamental_div_mod_converse((-(s * p)) * o, o, -(s * p), 0);
    assert((s * p) * o > 0) by (nonlinear_arith)
        requires
            s > 0,
            p > 0,
            o > 0,
    ;
    lemma_near(m, units(m));
    lemma_rounded(value(x), false, negative(x));
}

/// Below the scale of one the whole part fits in 53 bits.
proof fn lemma_whole_below(m: int)
    requires
        0 < m < INF,
        scale(m) < 1074,
    ensures
        0 <= units(m) / one_units() < 2 * LEAD,
{
    lemma_fraction(significand(m), scale(m));
    let d = pow2((1074 - scale(m)) as nat) as int;
    lemma_pow2_pos((1074 - scale(m)) as nat);
    assert(0 <= significand(m) < 2 * LEAD);
    lemma_div_pos_is_pos(significand(m), d);
    lemma_div_is_ordered_by_denominator(significand(m), 1, d);
}

/// The floor of a double from its whole part and whether anything is left.
proof fn lemma_floor_parts(x: Num)
    requires
        0 < mag(x) < INF,
    ensures
        !negative(x) ==> value(x) / one_units() == units(mag(x)) / one_units(),
        negative(x) && units(mag(x)) % one_units() == 0 ==> value(x) / one_units() == -(units(
            mag(x),
        ) / one_units()),
        negative(x) && units(mag(x)) % one_units() != 0 ==> value(x) / one_units() == -(units(
            mag(x),
        ) / one_units()) - 1,
{
    let u = units(mag(x));
    let o = one_units();
    lemma_pow2_pos(1074);
    lemma_fundamental_div_mod(u, o);
    let q = u / o;
    let r = u % o;
    if negative(x) {
        if r == 0 {
            assert(-u == (-q) * o) by (nonlinear_arith)
                requires
                    u == o * q,
            ;
            lemma_fundamental_div_mod_converse(-u, o, -q, 0);
        } else {
            assert(-u == (-q - 1) * o + (o - r)) by (nonlinear_arith)
                requires
                    u == o * q + r,
            ;
            lemma_fundamental_div_mod_converse(-u, o, -q - 1, o - r);
        }
    }
}

} // verus!
