//! Where the bucket of a moment starts.

use crate::exact;
use crate::laws::bars::together;
use crate::laws::near::{
    is_off_by, lemma_one_is_large, law_a_product_is_near, law_a_quotient_is_near, size,
};
use crate::model::chart::{self, ChartPoint};
use crate::num::{self, Num};
use crate::order;
use vstd::prelude::*;

verus! {

proof fn lemma_bucket(t: int, b: int, q: int, n: int, s: int, o: int)
    requires
        t >= 0,
        b > 0,
        n >= 0,
        o >= 0x400_0000_0000_0000_0000,
        is_off_by(q * b, t * o, t * o, b),
        n * o <= q < n * o + o,
        is_off_by(s * o, (n * o) * b, (n * o) * b, o),
    ensures
        0x20_0000_0000_0000 * (n * b) <= 0x20_0000_0000_0001 * t + b,
        0x1f_ffff_ffff_ffff * t < 0x20_0000_0000_0000 * (n * b + b) + b,
        size(0x20_0000_0000_0000 * (s - n * b)) <= n * b + 0x10_0000_0000_0000,
{
    let (p, qb, to) = (n * b, q * b, t * o);
    assert((n * o) * b <= qb && qb < (n * o) * b + o * b) by (nonlinear_arith)
        requires
            n * o <= q < n * o + o,
            qb == q * b,
            b > 0,
    ;
    assert((n * o) * b == p * o) by (nonlinear_arith)
        requires
            p == n * b,
    ;
    assert(0x10_0000_0000_0000 * b <= b * o) by (nonlinear_arith)
        requires
            o >= 0x400_0000_0000_0000_0000,
            b > 0,
    ;
    assert(o * b == b * o) by (nonlinear_arith);
    let (po, bo, so) = (p * o, b * o, s * o);
    assert(0x20_0000_0000_0000 * po <= 0x20_0000_0000_0001 * to + bo);
    assert(0x20_0000_0000_0000 * p <= 0x20_0000_0000_0001 * t + b) by (nonlinear_arith)
        requires
            0x20_0000_0000_0000 * po <= 0x20_0000_0000_0001 * to + bo,
            po == p * o,
            to == t * o,
            bo == b * o,
            o > 0,
    ;
    assert(0x1f_ffff_ffff_ffff * to < 0x20_0000_0000_0000 * (po + bo) + bo);
    assert(0x1f_ffff_ffff_ffff * t < 0x20_0000_0000_0000 * (p + b) + b) by (nonlinear_arith)
        requires
            0x1f_ffff_ffff_ffff * to < 0x20_0000_0000_0000 * (po + bo) + bo,
            po == p * o,
            to == t * o,
            bo == b * o,
            o > 0,
    ;
    assert(size(0x20_0000_0000_0000 * (s - p)) <= p + 0x10_0000_0000_0000) by (nonlinear_arith)
        requires
            size(0x20_0000_0000_0000 * (so - po)) <= po + 0x10_0000_0000_0000 * o,
            so == s * o,
            po == p * o,
            o > 0,
    ;
}

/// The bucket of a moment starts at a multiple of its width, no later than the moment
/// and less than a width before it, but for rounding.
pub proof fn law_a_bucket_starts_at_a_multiple(t: Num, bucket: Num) -> (n: int)
    requires
        num::is_finite(t),
        num::is_finite(bucket),
        num::value(t) >= 0,
        num::value(bucket) > 0,
        num::is_finite(chart::bucket_start(t, bucket)),
    ensures
        n >= 0,
        ({
            let (m, b, s) = (
                num::value(t),
                num::value(bucket),
                num::value(chart::bucket_start(t, bucket)),
            );
            &&& 0x20_0000_0000_0000 * (n * b) <= 0x20_0000_0000_0001 * m + b
            &&& 0x1f_ffff_ffff_ffff * m < 0x20_0000_0000_0000 * (n * b + b) + b
            &&& size(0x20_0000_0000_0000 * (s - n * b)) <= n * b + 0x10_0000_0000_0000
        }),
{
    lemma_one_is_large();
    let q = num::quotient(t, bucket);
    let k = num::floored(q);
    let o = num::one_units();
    order::lemma_zero_is_nothing();
    order::lemma_order_of_values(num::zero(), bucket);
    order::lemma_order_of_values(num::zero(), t);
    assert(num::is_finite(q));
    law_a_quotient_is_near(t, bucket);
    exact::law_the_floor_is_close(q);
    order::lemma_quotient_keeps_order(num::zero(), t, bucket);
    lemma_zero_over(bucket);
    order::lemma_order_of_values(num::zero(), q);
    let n = lemma_floor_is_whole(q);
    law_a_product_is_near(k, bucket);
    let (m, b) = (num::value(t), num::value(bucket));
    let s = num::value(chart::bucket_start(t, bucket));
    assert((n * o) * b >= 0) by (nonlinear_arith)
        requires
            n >= 0,
            o > 0,
            b > 0,
    ;
    lemma_bucket(m, b, num::value(q), n, s, o);
    n
}

proof fn lemma_zero_over(b: Num)
    requires
        num::is_finite(b),
        num::rank(b) > 0,
    ensures
        num::rank(num::quotient(num::zero(), b)) == 0,
        !num::is_nan(num::quotient(num::zero(), b)),
{
    order::lemma_zero_is_nothing();
    order::lemma_order_of_values(num::zero(), b);
    assert(num::units(num::mag(num::zero())) * num::one_units() == 0) by (nonlinear_arith)
        requires
            num::units(num::mag(num::zero())) == 0,
    ;
    order::lemma_nearest_of_zero(num::units(num::mag(b)));
}

/// The floor of what is not negative is a whole number of ones.
pub proof fn lemma_floor_is_whole(q: Num) -> (n: int)
    requires
        num::is_finite(q),
        num::value(q) >= 0,
    ensures
        n >= 0,
        num::value(num::floored(q)) == n * num::one_units(),
{
    lemma_one_is_large();
    let o = num::one_units();
    order::lemma_zero_is_nothing();
    order::lemma_order_of_values(num::zero(), q);
    exact::law_the_floor_is_close(q);
    let n = num::value(q) / o;
    assert(n >= 0) by (nonlinear_arith)
        requires
            n == num::value(q) / o,
            num::value(q) >= 0,
            o > 0,
    ;
    if num::mag(q) == 0 {
        order::lemma_order_of_values(q, num::zero());
        assert(0int / o == 0) by (nonlinear_arith)
            requires
                o > 0,
        ;
        assert(n * o == 0) by (nonlinear_arith)
            requires
                n == 0,
        ;
        n
    } else {
        let f = num::floored(q);
        assert(f == num::whole(n));
        vstd::arithmetic::div_mod::lemma_fundamental_div_mod(num::value(q), o);
        let v = num::value(q);
        assert(n * o <= v < n * o + o) by (nonlinear_arith)
            requires
                v == o * n + v % o,
                0 <= v % o < o,
        ;
        order::lemma_rounded_error(n * o, 1, false);
        assert(num::value(f) * 1 == num::value(f));
        if n <= 0x20_0000_0000_0000 {
            exact::law_whole_numbers_are_exact(n);
        } else {
            lemma_large_floor(q, n);
        }
        n
    }
}

proof fn lemma_large_floor(q: Num, n: int)
    requires
        num::is_finite(q),
        n > 0x20_0000_0000_0000,
        n == num::value(q) / num::one_units(),
        num::value(q) >= 0,
    ensures
        num::value(num::floored(q)) == n * num::one_units(),
{
    lemma_one_is_large();
    let (v, o) = (num::value(q), num::one_units());
    vstd::arithmetic::div_mod::lemma_fundamental_div_mod(v, o);
    assert(v >= 0x20_0000_0000_0000 * o) by (nonlinear_arith)
        requires
            v == o * n + v % o,
            0 <= v % o,
            n > 0x20_0000_0000_0000,
            o > 0,
    ;
    order::lemma_zero_is_nothing();
    order::lemma_order_of_values(num::zero(), q);
    exact::lemma_large_is_whole(num::mag(q));
    assert(v == n * o) by (nonlinear_arith)
        requires
            v == o * n + v % o,
            v % o == 0,
    ;
    order::lemma_rounded_exact(q, false);
    let f = num::floored(q);
    order::lemma_order_of_values(f, q);
    order::lemma_order_of_values(q, f);
}

/// Of whole seconds, the start is the largest multiple of the width that is not
/// later.
pub proof fn law_whole_buckets_start_at_multiples(t: int, b: int)
    requires
        0 <= t,
        0 < b,
        t + b < 0x20_0000_0000_0000,
    ensures
        chart::bucket_start(num::whole(t), num::whole(b)) == num::whole((t / b) * b),
{
    lemma_one_is_large();
    let o = num::one_units();
    let m = t / b;
    vstd::arithmetic::div_mod::lemma_fundamental_div_mod(t, b);
    assert(0 <= m && m * b <= t && t < m * b + b && m <= t) by (nonlinear_arith)
        requires
            t == b * m + t % b,
            0 <= t % b < b,
            0 <= t,
            0 < b,
    ;
    let (x, y) = (num::whole(t), num::whole(b));
    exact::law_whole_numbers_are_exact(t);
    exact::law_whole_numbers_are_exact(b);
    exact::law_whole_numbers_are_exact(m);
    exact::law_whole_numbers_are_exact(0);
    assert(b * o > 0) by (nonlinear_arith)
        requires
            b > 0,
            o > 0,
    ;
    let q = num::quotient(x, y);
    crate::laws::near::lemma_part_near(x, b);
    order::lemma_zero_is_nothing();
    order::lemma_order_of_values(num::zero(), y);
    let v = num::value(q);
    // The quotient does not reach the next whole number.
    assert(v < (m + 1) * o) by (nonlinear_arith)
        requires
            0x20_0000_0000_0000 * (v * b - t * o) <= t * o + 0x10_0000_0000_0000 * b,
            t + 1 <= m * b + b,
            t + b < 0x20_0000_0000_0000,
            b > 0,
            t >= 0,
            o >= 0x400_0000_0000_0000_0000,
    ;
    assert(v >= m * o) by {
        if m > 0 {
            order::lemma_whole_keeps_order(m * b, t);
            order::lemma_quotient_keeps_order(num::whole(m * b), x, y);
            exact::law_whole_numbers_divide(m, b);
            order::lemma_order_of_values(num::whole(m), q);
        } else {
            exact::law_whole_numbers_compare(0, t);
            order::lemma_quotient_keeps_order(num::zero(), x, y);
            lemma_zero_over(y);
            order::lemma_order_of_values(num::zero(), q);
        }
    }
    let k = num::floored(q);
    assert(v / o == m) by {
        assert((m + 1) * o == m * o + o) by (nonlinear_arith);
        vstd::arithmetic::div_mod::lemma_fundamental_div_mod_converse(v, o, m, v - m * o);
    }
    if m == 0 {
        assert(num::units(num::mag(x)) == t * o && num::units(num::mag(y)) == b * o);
        assert((t * o) * o >= 0) by (nonlinear_arith)
            requires
                t >= 0,
                o > 0,
        ;
        order::lemma_nearest_range((t * o) * o, b * o);
        lemma_zero_start(q, y);
    } else {
        assert(num::mag(q) != 0) by {
            assert(m * o > 0) by (nonlinear_arith)
                requires
                    m > 0,
                    o > 0,
            ;
            order::lemma_order_of_values(num::zero(), q);
        }
        assert(k == num::whole(m));
        exact::law_whole_numbers_multiply(m, b);
    }
}

proof fn lemma_zero_start(q: Num, y: Num)
    requires
        num::is_finite(q),
        num::is_finite(y),
        num::value(q) >= 0,
        num::value(q) / num::one_units() == 0,
        num::rank(y) > 0,
        !num::negative(q),
    ensures
        num::product(num::floored(q), y) == num::whole(0),
{
    lemma_one_is_large();
    order::lemma_zero_is_nothing();
    let k = num::floored(q);
    assert(0 * num::one_units() == 0);
    assert(num::whole(0) == num::zero());
    assert(k == num::zero());
    assert(num::units(num::mag(k)) * num::units(num::mag(y)) == 0) by (nonlinear_arith)
        requires
            num::units(num::mag(k)) == 0,
    ;
    order::lemma_nearest_of_zero(num::one_units());
}

/// Two ticks at whole seconds fall into one bucket just where the same number of
/// widths has passed.
pub proof fn law_ticks_share_a_bucket_by_the_clock(
    p: ChartPoint,
    q: ChartPoint,
    t: int,
    u: int,
    b: int,
)
    requires
        p.t == num::whole(t),
        q.t == num::whole(u),
        0 <= t,
        0 <= u,
        0 < b,
        t + b < 0x20_0000_0000_0000,
        u + b < 0x20_0000_0000_0000,
    ensures
        together(p, q, num::whole(b)) <==> t / b == u / b,
{
    law_whole_buckets_start_at_multiples(t, b);
    law_whole_buckets_start_at_multiples(u, b);
    let (m, n) = (t / b, u / b);
    vstd::arithmetic::div_mod::lemma_fundamental_div_mod(t, b);
    vstd::arithmetic::div_mod::lemma_fundamental_div_mod(u, b);
    assert(0 <= m * b <= t && 0 <= n * b <= u) by (nonlinear_arith)
        requires
            t == b * m + t % b,
            0 <= t % b < b,
            u == b * n + u % b,
            0 <= u % b < b,
            0 <= t,
            0 <= u,
            0 < b,
    ;
    exact::law_whole_numbers_compare(m * b, n * b);
    assert(m * b == n * b ==> m == n) by (nonlinear_arith)
        requires
            b > 0,
    ;
}

} // verus!
