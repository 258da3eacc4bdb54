//! Where a trailing stop sits, and when it moves, by what the numbers are worth.

use crate::exact;
use crate::laws::near::lemma_one_is_large;
use crate::model::Trail;
use crate::model::trail;
use crate::num::{self, Num};
use crate::order;
use vstd::prelude::*;

verus! {

/// A price in ticks, with what is given back, is that many but for its rounding.
proof fn lemma_ticks_error(raw: Num)
    requires
        num::is_finite(raw),
        num::rank(raw) > 0,
        num::is_finite(trail::in_ticks(raw)),
    ensures
        ({
            let r = num::value(raw);
            let e = num::value(num::ratio(1, 1_000_000));
            let t = num::value(trail::in_ticks(raw));
            &&& 0 < r
            &&& 0 < e
            &&& 0 <= t <= 10_002 * r + 2 * e
            &&& -(20_001 * r + e) <= 0x20_0000_0000_0000 * (t - 10_000 * r - e) <= 20_001 * r + e
        }),
{
    let r = num::value(raw);
    let eps = num::ratio(1, 1_000_000);
    let e = num::value(eps);
    order::lemma_millionth();
    order::lemma_zero_is_nothing();
    order::lemma_order_of_values(num::zero(), raw);
    order::lemma_order_of_values(num::zero(), eps);
    let t1 = num::product(raw, num::whole(10_000));
    exact::lemma_product_rounds(raw, 10_000);
    order::lemma_rounded_keeps_order(0, r * 10_000, false, false);
    order::lemma_rounded_range(r * 10_000, false);
    let t = trail::in_ticks(raw);
    assert(num::is_finite(t1)) by {
        if !num::is_finite(t1) {
            assert(num::is_inf(t1));
        }
    }
    order::lemma_order_of_values(num::zero(), t1);
    order::lemma_rounded_error(r * 10_000, 1, false);
    assert(num::value(t1) * 1 == num::value(t1));
    let n = num::value(t1) + e;
    let z = num::negative(t1) && num::negative(eps);
    order::lemma_rounded_keeps_order(0, n, false, z);
    order::lemma_order_of_values(num::zero(), t);
    order::lemma_rounded_error(n, 1, z);
    assert(num::value(t) * 1 == num::value(t));
}

/// Dividing ticks back into a price.
proof fn lemma_back_to_price(ticks: Num)
    requires
        num::is_finite(ticks),
    ensures
        ({
            let k = num::value(ticks);
            let size = if k < 0 {
                -k
            } else {
                k
            };
            let stop = num::quotient(ticks, num::whole(10_000));
            &&& num::is_finite(stop)
            &&& -(size + 0x10_0000_0000_0000 * 10_000) <= 0x20_0000_0000_0000 * (10_000
                * num::value(stop) - k) <= size + 0x10_0000_0000_0000 * 10_000
        }),
{
    let k = num::value(ticks);
    let stop = num::quotient(ticks, num::whole(10_000));
    let exactly = num::rounded(k, 10_000, false);
    exact::lemma_quotient_rounds(ticks, 10_000);
    let size = if k < 0 {
        -k
    } else {
        k
    };
    order::lemma_rounded_fractions(k, 10_000, size, 1, false, false);
    order::lemma_rounded_fractions(-size, 1, k, 10_000, false, false);
    order::lemma_rounded_exact(ticks, false);
    order::lemma_negated(ticks);
    order::lemma_rounded_exact(num::negated(ticks), false);
    assert(num::is_finite(exactly));
    order::lemma_order_of_values(stop, exactly);
    order::lemma_order_of_values(exactly, stop);
    order::lemma_rounded_error(k, 10_000, false);
}

/// What a stop loses and gains by rounding, of a price that is not so large that
/// its ticks overflow.
proof fn lemma_stop_error(raw: Num)
    requires
        num::is_finite(raw),
        num::rank(raw) > 0,
        num::is_finite(trail::in_ticks(raw)),
    ensures
        ({
            let o = num::one_units();
            let r = num::value(raw);
            let e = num::value(num::ratio(1, 1_000_000));
            let stop = num::value(trail::rounded_down(raw));
            &&& num::is_finite(trail::rounded_down(raw))
            &&& 0 < r
            &&& 999_999 * o <= 1_000_000 * (1_000_000 * e) <= 1_000_001 * o
            &&& 0x20_0000_0000_0000 * (10_000 * (r - stop)) < 0x20_0000_0000_0000 * (o - e)
                + 30_003 * r + 3 * o
            &&& 0x20_0000_0000_0000 * (10_000 * (stop - r)) <= 0x20_0000_0000_0000 * e + 30_003 * r
                + 3 * o
        }),
{
    let o = num::one_units();
    let r = num::value(raw);
    let e = num::value(num::ratio(1, 1_000_000));
    lemma_one_is_large();
    trail::lemma_millionth_is_close();
    lemma_ticks_error(raw);
    let t = trail::in_ticks(raw);
    exact::law_the_floor_is_close(t);
    lemma_back_to_price(num::floored(t));
}

/// A price that is not too large has ticks that do not overflow.
proof fn lemma_ticks_are_finite(raw: Num)
    requires
        num::is_finite(raw),
        num::rank(raw) > 0,
        num::value(raw) <= 200_000_000_000_000 * num::one_units(),
    ensures
        num::is_finite(trail::in_ticks(raw)),
{
    let o = num::one_units();
    let r = num::value(raw);
    let eps = num::ratio(1, 1_000_000);
    let t1 = num::product(raw, num::whole(10_000));
    order::lemma_millionth();
    trail::lemma_millionth_is_close();
    lemma_one_is_large();
    order::lemma_zero_is_nothing();
    order::lemma_order_of_values(num::zero(), raw);
    order::lemma_order_of_values(num::zero(), eps);
    exact::lemma_product_rounds(raw, 10_000);
    order::lemma_whole_sign(2_000_000_000_000_000_000);
    order::lemma_whole_sign(3_000_000_000_000_000_000);
    let top = num::whole(2_000_000_000_000_000_000);
    order::lemma_rounded_keeps_order(
        r * 10_000,
        2_000_000_000_000_000_000 * o,
        false,
        false,
    );
    order::lemma_rounded_keeps_order(0, r * 10_000, false, false);
    assert(num::is_finite(t1));
    order::lemma_order_of_values(t1, top);
    order::lemma_order_of_values(num::zero(), t1);
    order::lemma_rounded_error(2_000_000_000_000_000_000 * o, 1, false);
    assert(num::value(top) * 1 == num::value(top));
    let n = num::value(t1) + num::value(eps);
    let z = num::negative(t1) && num::negative(eps);
    order::lemma_rounded_keeps_order(n, 3_000_000_000_000_000_000 * o, z, false);
    order::lemma_rounded_keeps_order(0, n, false, z);
}

/// A trail in prices asks for a stop that far below the high water mark, and there
/// it is: within one ten-thousandth of it, and above it by no more than what is
/// given back, for prices up to a hundred and fifty thousand. Beyond that the
/// rounding of the double comes on top.
pub proof fn law_a_stop_sits_a_price_below_the_mark(t: Trail)
    requires
        !t.percent,
        num::is_finite(t.distance),
        num::is_finite(t.high_water),
        0 < num::value(t.distance) < num::value(t.high_water),
        num::value(t.high_water) <= 100_000_000_000_000 * num::one_units(),
    ensures
        ({
            let o = num::one_units();
            let wanted = num::value(t.high_water) - num::value(t.distance);
            let stop = num::value(t.stop()->0);
            &&& t.stop() is Some
            &&& num::is_finite(t.stop()->0)
            &&& 0x20_0000_0000_0000 * (10_000 * (wanted - stop)) < 0x20_0000_0000_0000 * o + 40_004
                * wanted
            &&& 0x20_0000_0000_0000 * (10_000 * (stop - wanted)) < 0x20_0000_0000_0000 * o + 40_004
                * wanted
            &&& wanted <= 150_000 * o ==> 10_000 * (wanted - stop) < o && 5_000_000_000 * (stop
                - wanted) <= o
        }),
{
    let o = num::one_units();
    let h = t.high_water;
    let d = t.distance;
    let a = num::value(h) - num::value(d);
    let raw = num::difference(h, d);
    lemma_one_is_large();
    order::lemma_zero_is_nothing();
    order::lemma_order_of_values(num::zero(), d);
    order::lemma_order_of_values(num::zero(), h);
    order::lemma_order_of_values(d, h);
    order::lemma_positive_difference(h, d);
    order::lemma_negated(d);
    let z = num::negative(h) && num::negative(num::negated(d));
    assert(raw == num::rounded(a, 1, z));
    order::lemma_rounded_keeps_order(a, num::value(h), z, false);
    order::lemma_rounded_exact(h, false);
    assert(num::is_finite(raw));
    order::lemma_order_of_values(num::zero(), raw);
    order::lemma_rounded_error(a, 1, z);
    assert(num::value(raw) * 1 == num::value(raw));
    lemma_ticks_are_finite(raw);
    lemma_stop_error(raw);
}

/// The price a fraction below a mark, as it is computed, is that price but for the
/// rounding of a difference and a product. Both sides are taken times one.
proof fn lemma_fraction_below(h: Num, d: Num)
    requires
        num::is_finite(h),
        num::is_finite(d),
        0 < num::value(d) < num::one_units(),
        0 < num::value(h) <= 100_000_000_000_000 * num::one_units(),
        num::value(h) * (num::one_units() - num::value(d)) >= 2 * num::one_units(),
    ensures
        ({
            let o = num::one_units();
            let wanted = num::value(h) * (o - num::value(d));
            let raw = num::product(h, num::difference(num::whole(1), d));
            let r = num::value(raw);
            &&& num::is_finite(raw)
            &&& 0 < r <= 200_000_000_000_000 * o
            &&& -(3 * wanted + 0x10_0000_0000_0000 * o) <= 0x20_0000_0000_0000 * (r * o - wanted)
                <= 3 * wanted + 0x10_0000_0000_0000 * o
        }),
{
    let o = num::one_units();
    let hv = num::value(h);
    let c = o - num::value(d);
    let wanted = hv * c;
    let one = num::whole(1);
    let rest = num::difference(one, d);
    lemma_one_is_large();
    order::lemma_zero_is_nothing();
    exact::law_whole_numbers_are_exact(1);
    assert(1 * o == o);
    order::lemma_order_of_values(num::zero(), d);
    order::lemma_order_of_values(num::zero(), h);
    order::lemma_order_of_values(d, one);
    order::lemma_positive_difference(one, d);
    order::lemma_negated(d);
    let z = num::negative(one) && num::negative(num::negated(d));
    assert(rest == num::rounded(c, 1, z));
    order::lemma_rounded_keeps_order(c, o, z, false);
    assert(num::is_finite(rest));
    order::lemma_order_of_values(num::zero(), rest);
    order::lemma_order_of_values(rest, one);
    order::lemma_rounded_error(c, 1, z);
    let f = num::value(rest);
    assert(f * 1 == f);
    assert(0 < f <= o);
    let p = hv * f;
    assert(-wanted <= 0x20_0000_0000_0000 * (p - wanted) <= wanted) by (nonlinear_arith)
        requires
            hv > 0,
            p == hv * f,
            wanted == hv * c,
            -c <= 0x20_0000_0000_0000 * (f - c) <= c,
    ;
    assert(p <= hv * o) by (nonlinear_arith)
        requires
            hv > 0,
            f <= o,
            p == hv * f,
    ;
    let raw = num::product(h, rest);
    assert(raw == num::rounded(p, o, false));
    order::lemma_nearest_range(p, o);
    assert(hv * 1 == hv);
    assert(p * 1 <= hv * o);
    order::lemma_rounded_fractions(p, o, hv, 1, false, false);
    order::lemma_rounded_exact(h, false);
    assert(num::is_finite(raw));
    order::lemma_order_of_values(raw, h);
    order::lemma_rounded_error(p, o, false);
    assert(num::value(raw) > 0) by {
        if num::value(raw) <= 0 {
            assert(num::value(raw) * o <= 0) by (nonlinear_arith)
                requires
                    num::value(raw) <= 0,
                    o > 0,
            ;
        }
    }
}

/// A trail in percent asks for a stop at that fraction below the high water mark,
/// and there it is, within the same bounds. The price is taken times one, so that
/// the fraction is a whole number of units too.
pub proof fn law_a_stop_sits_a_fraction_below_the_mark(t: Trail)
    requires
        t.percent,
        num::is_finite(t.distance),
        num::is_finite(t.high_water),
        0 < num::value(t.distance) < num::one_units(),
        0 < num::value(t.high_water) <= 100_000_000_000_000 * num::one_units(),
        num::value(t.high_water) * (num::one_units() - num::value(t.distance)) >= 2
            * num::one_units(),
    ensures
        ({
            let o = num::one_units();
            let wanted = num::value(t.high_water) * (o - num::value(t.distance));
            let stop = num::value(t.stop()->0) * o;
            &&& t.stop() is Some
            &&& num::is_finite(t.stop()->0)
            &&& 0x20_0000_0000_0000 * (10_000 * (wanted - stop)) < 0x20_0000_0000_0000 * (o * o)
                + 60_008 * wanted
            &&& 0x20_0000_0000_0000 * (10_000 * (stop - wanted)) < 0x20_0000_0000_0000 * (o * o)
                + 60_008 * wanted
            &&& wanted <= 140_000 * (o * o) ==> 10_000 * (wanted - stop) < o * o && 5_000_000_000
                * (stop - wanted) <= o * o
        }),
{
    let o = num::one_units();
    let h = t.high_water;
    let d = t.distance;
    let wanted = num::value(h) * (o - num::value(d));
    let raw = num::product(h, num::difference(num::whole(1), d));
    let r = num::value(raw);
    let e = num::value(num::ratio(1, 1_000_000));
    lemma_one_is_large();
    order::lemma_zero_is_nothing();
    exact::law_whole_numbers_are_exact(1);
    assert(1 * o == o);
    order::lemma_order_of_values(num::zero(), d);
    order::lemma_order_of_values(num::zero(), h);
    order::lemma_order_of_values(d, num::whole(1));
    lemma_fraction_below(h, d);
    order::lemma_order_of_values(num::zero(), raw);
    lemma_ticks_are_finite(raw);
    lemma_stop_error(raw);
    let s = num::value(t.stop()->0);
    lemma_times_one(r, s, e, o);
    assert(o * o >= 0x400_0000_0000_0000_0000 * o) by (nonlinear_arith)
        requires
            o >= 0x400_0000_0000_0000_0000,
    ;
}

/// What holds of a price and its stop holds of both times one.
proof fn lemma_times_one(r: int, s: int, e: int, o: int)
    requires
        0 < o,
        999_999 * o <= 1_000_000 * (1_000_000 * e) <= 1_000_001 * o,
        0x20_0000_0000_0000 * (10_000 * (r - s)) < 0x20_0000_0000_0000 * (o - e) + 30_003 * r + 3
            * o,
        0x20_0000_0000_0000 * (10_000 * (s - r)) <= 0x20_0000_0000_0000 * e + 30_003 * r + 3 * o,
    ensures
        999_999 * (o * o) <= 1_000_000 * (1_000_000 * (e * o)) <= 1_000_001 * (o * o),
        0x20_0000_0000_0000 * (10_000 * (r * o - s * o)) < 0x20_0000_0000_0000 * (o * o - e * o)
            + 30_003 * (r * o) + 3 * (o * o),
        0x20_0000_0000_0000 * (10_000 * (s * o - r * o)) <= 0x20_0000_0000_0000 * (e * o) + 30_003
            * (r * o) + 3 * (o * o),
{
    assert(999_999 * (o * o) <= 1_000_000 * (1_000_000 * (e * o)) <= 1_000_001 * (o * o))
        by (nonlinear_arith)
        requires
            0 < o,
            999_999 * o <= 1_000_000 * (1_000_000 * e) <= 1_000_001 * o,
    ;
    let a = 0x20_0000_0000_0000 * (10_000 * (r - s));
    let b = 0x20_0000_0000_0000 * (o - e) + 30_003 * r + 3 * o;
    assert(a * o < b * o) by (nonlinear_arith)
        requires
            a < b,
            0 < o,
    ;
    assert(a * o == 0x20_0000_0000_0000 * (10_000 * (r * o - s * o))) by (nonlinear_arith)
        requires
            a == 0x20_0000_0000_0000 * (10_000 * (r - s)),
    ;
    assert(b * o == 0x20_0000_0000_0000 * (o * o - e * o) + 30_003 * (r * o) + 3 * (o * o))
        by (nonlinear_arith)
        requires
            b == 0x20_0000_0000_0000 * (o - e) + 30_003 * r + 3 * o,
    ;
    let c = 0x20_0000_0000_0000 * (10_000 * (s - r));
    let f = 0x20_0000_0000_0000 * e + 30_003 * r + 3 * o;
    assert(c * o <= f * o) by (nonlinear_arith)
        requires
            c <= f,
            0 < o,
    ;
    assert(c * o == 0x20_0000_0000_0000 * (10_000 * (s * o - r * o))) by (nonlinear_arith)
        requires
            c == 0x20_0000_0000_0000 * (10_000 * (s - r)),
    ;
    assert(f * o == 0x20_0000_0000_0000 * (e * o) + 30_003 * (r * o) + 3 * (o * o))
        by (nonlinear_arith)
        requires
            f == 0x20_0000_0000_0000 * e + 30_003 * r + 3 * o,
    ;
}

} // verus!
