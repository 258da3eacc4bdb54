//! When a stop moves, what half of a position is, and where a candle is drawn, by
//! what the numbers are worth.

use crate::exact;
use crate::laws::near::{
    is_off_by, law_a_difference_is_near, lemma_multiple_near, lemma_one_is_large, lemma_part_near,
    law_a_product_is_near, lemma_ratio_near, law_a_sum_is_near, size,
};
use crate::model::{Candle, Trail};
use crate::model::trail;
use crate::num::{self, Num};
use crate::order;
use crate::screen;
use vstd::prelude::*;

verus! {

/// The mark is the highest price seen. A price that is no number, or no finite one,
/// leaves it as it was.
pub proof fn law_the_mark_is_the_highest_price(high_water: Num, mid: Num)
    requires
        num::is_finite(high_water),
    ensures
        num::is_finite(mid) ==> num::value(trail::marked(high_water, mid)) == if num::value(mid)
            > num::value(high_water) {
            num::value(mid)
        } else {
            num::value(high_water)
        },
        !num::is_finite(mid) ==> trail::marked(high_water, mid) == high_water,
        trail::marked(high_water, mid) == high_water || trail::marked(high_water, mid) == mid,
{
    if num::is_finite(mid) {
        order::lemma_order_of_values(high_water, mid);
    }
}

/// A distance is one that is positive and, as a fraction, less than the whole.
pub proof fn law_a_distance_is_positive(distance: Num, percent: bool)
    requires
        num::is_finite(distance),
    ensures
        trail::is_distance(distance, percent) <==> num::value(distance) > 0 && (percent
            ==> num::value(distance) < num::one_units()),
{
    order::lemma_zero_is_nothing();
    order::lemma_order_of_values(num::zero(), distance);
    exact::law_whole_numbers_are_exact(1);
    order::lemma_order_of_values(distance, num::whole(1));
}

/// There is no stop without a distance that can be, or a price above it: not for a
/// distance that is not positive, nor a fraction of all or more, nor a mark that is not
/// positive, nor a distance that reaches the mark.
pub proof fn law_no_stop_where_none_can_be(t: Trail)
    requires
        num::is_finite(t.distance),
        num::is_finite(t.high_water),
    ensures
        num::value(t.distance) <= 0 ==> t.stop() is None,
        t.percent && num::value(t.distance) >= num::one_units() ==> t.stop() is None,
        num::value(t.high_water) <= 0 ==> t.stop() is None,
        !t.percent && num::value(t.distance) >= num::value(t.high_water) ==> t.stop() is None,
        t.stop() is None ==> !t.moves(None),
{
    law_a_distance_is_positive(t.distance, t.percent);
    order::lemma_zero_is_nothing();
    order::lemma_order_of_values(t.high_water, num::zero());
    order::lemma_order_of_values(t.distance, t.high_water);
    order::lemma_order_of_values(t.high_water, t.distance);
    order::lemma_positive_difference(t.high_water, t.distance);
}

proof fn lemma_first_part(s: int, m: int, x: int, y: int, a: int, b: int, o: int)
    requires
        o >= 0x400_0000_0000_0000_0000,
        s > 0,
        0 < a,
        0 < b <= 0x10_0000,
        x == s * m,
        y == s * o,
        is_off_by(m * b, a * o, a * o, b),
    ensures
        0x1f_ffff_ffff_fffe * (a * y) <= 0x20_0000_0000_0000 * (b * x) <= 0x20_0000_0000_0002 * (a
            * y),
{
    assert(0x20_0000_0000_0000 * (s * (m * b)) <= 0x20_0000_0000_0001 * (s * (a * o))
        + 0x10_0000_0000_0000 * (s * b)) by (nonlinear_arith)
        requires
            0x20_0000_0000_0000 * (m * b) <= 0x20_0000_0000_0001 * (a * o) + 0x10_0000_0000_0000
                * b,
            s > 0,
    ;
    assert(0x20_0000_0000_0000 * (s * (m * b)) >= 0x1f_ffff_ffff_ffff * (s * (a * o))
        - 0x10_0000_0000_0000 * (s * b)) by (nonlinear_arith)
        requires
            0x20_0000_0000_0000 * (m * b) >= 0x1f_ffff_ffff_ffff * (a * o) - 0x10_0000_0000_0000
                * b,
            s > 0,
    ;
    assert(s * (m * b) == b * x) by (nonlinear_arith)
        requires
            x == s * m,
    ;
    assert(s * (a * o) == a * y) by (nonlinear_arith)
        requires
            y == s * o,
    ;
    assert(y >= 0x400_0000_0000_0000_0000 * s) by (nonlinear_arith)
        requires
            y == s * o,
            o >= 0x400_0000_0000_0000_0000,
            s > 0,
    ;
    assert(s * b <= 0x10_0000 * s) by (nonlinear_arith)
        requires
            b <= 0x10_0000,
            s > 0,
    ;
    assert(a * y >= y) by (nonlinear_arith)
        requires
            a >= 1,
            y >= 0,
    ;
}

proof fn lemma_second_part(s: int, x: int, p: int, a: int, b: int, o: int)
    requires
        o > 0,
        s >= 0x1000_0000_0000_0000,
        0 < a,
        0 < b <= 0x10_0000,
        x > 0,
        is_off_by(p * o, x, x, o),
        0x1f_ffff_ffff_fffe * (a * (s * o)) <= 0x20_0000_0000_0000 * (b * x),
        0x20_0000_0000_0000 * (b * x) <= 0x20_0000_0000_0002 * (a * (s * o)),
    ensures
        999_999 * (a * s) <= 1_000_000 * (b * p) <= 1_000_001 * (a * s),
{
    let z = a * s;
    let w = b * p;
    let u = b * x;
    assert(a * (s * o) == z * o) by (nonlinear_arith)
        requires
            z == a * s,
    ;
    assert(z >= s) by (nonlinear_arith)
        requires
            z == a * s,
            a >= 1,
            s > 0,
    ;
    let zo = z * o;
    let wo = w * o;
    assert(0x20_0000_0000_0000 * wo <= 0x20_0000_0000_0001 * u + 0x10_0000_0000_0000 * (b * o)
        && 0x20_0000_0000_0000 * wo >= 0x1f_ffff_ffff_ffff * u - 0x10_0000_0000_0000 * (b * o))
        by (nonlinear_arith)
        requires
            0x20_0000_0000_0000 * (p * o) <= 0x20_0000_0000_0001 * x + 0x10_0000_0000_0000 * o,
            0x20_0000_0000_0000 * (p * o) >= 0x1f_ffff_ffff_ffff * x - 0x10_0000_0000_0000 * o,
            wo == w * o,
            w == b * p,
            u == b * x,
            b > 0,
    ;
    assert(b * o <= 0x10_0000 * o) by (nonlinear_arith)
        requires
            b <= 0x10_0000,
            o > 0,
    ;
    assert(zo >= 0x1000_0000_0000_0000 * o) by (nonlinear_arith)
        requires
            zo == z * o,
            z >= 0x1000_0000_0000_0000,
            o > 0,
    ;
    assert(999_999 * zo <= 1_000_000 * wo <= 1_000_001 * zo);
    assert(999_999 * z <= 1_000_000 * w <= 1_000_001 * z) by (nonlinear_arith)
        requires
            999_999 * zo <= 1_000_000 * wo <= 1_000_001 * zo,
            zo == z * o,
            wo == w * o,
            o > 0,
    ;
}

/// The product of a price and a fraction is that part of it, to a millionth.
proof fn lemma_part_of(x: Num, a: int, b: int)
    requires
        num::is_finite(x),
        num::value(x) >= 0x1000_0000_0000_0000,
        0 < a <= b <= 0x10_0000,
    ensures
        num::is_finite(num::product(x, num::ratio(a, b))),
        999_999 * (a * num::value(x)) <= 1_000_000 * (b * num::value(
            num::product(x, num::ratio(a, b)),
        )) <= 1_000_001 * (a * num::value(x)),
{
    lemma_one_is_large();
    lemma_ratio_near(a, b);
    let (s, m, o) = (num::value(x), num::value(num::ratio(a, b)), num::one_units());
    let r = num::product(x, num::ratio(a, b));
    order::lemma_zero_is_nothing();
    order::lemma_order_of_values(num::zero(), x);
    assert(num::is_finite(r)) by {
        exact::law_whole_numbers_are_exact(a);
        exact::law_whole_numbers_are_exact(b);
        exact::law_whole_numbers_are_exact(1);
        order::lemma_whole_keeps_order(a, b);
        order::lemma_quotient_keeps_order(num::whole(a), num::whole(b), num::whole(b));
        assert(b * 1 == b);
        exact::law_whole_numbers_divide(1, b);
        assert(num::at_most(num::ratio(a, b), num::whole(1)));
        lemma_at_most_itself(x, num::ratio(a, b));
    }
    law_a_product_is_near(x, num::ratio(a, b));
    let p = num::value(r);
    lemma_first_part(s, m, s * m, s * o, a, b, o);
    assert(s * m > 0) by (nonlinear_arith)
        requires
            s > 0,
            m > 0,
    ;
    lemma_second_part(s, s * m, p, a, b, o);
}

/// A positive double times a fraction of at most one is finite.
proof fn lemma_at_most_itself(x: Num, y: Num)
    requires
        num::is_finite(x),
        num::is_finite(y),
        num::rank(x) > 0,
        num::rank(y) > 0,
        num::at_most(y, num::whole(1)),
    ensures
        num::is_finite(num::product(x, y)),
{
    lemma_one_is_large();
    exact::law_whole_numbers_are_exact(1);
    order::lemma_order_of_values(y, num::whole(1));
    order::lemma_zero_is_nothing();
    order::lemma_order_of_values(num::zero(), y);
    order::lemma_order_of_values(num::zero(), x);
    let (a, b, o) = (num::units(num::mag(x)), num::units(num::mag(y)), num::one_units());
    assert(0 <= a * b) by (nonlinear_arith)
        requires
            a >= 0,
            b >= 0,
    ;
    assert((a * b) * o <= (a * o) * o) by (nonlinear_arith)
        requires
            0 <= a,
            0 <= b <= o,
            o > 0,
    ;
    order::lemma_nearest_keeps_order(a * b, o, a * o, o);
    order::lemma_exact(num::mag(x), o);
    order::lemma_nearest_range(a * b, o);
}

/// A stop is replaced when the one that is due lies above it by a thousandth of
/// itself, and by a little more than a millionth. It is not where it lies above by
/// less, or below.
pub proof fn law_a_stop_moves_by_a_thousandth(t: Trail, stop: Num, current: Num)
    requires
        t.stop() == Some(stop),
        t.min_step == num::ratio(1, 1000),
        num::is_finite(stop),
        num::is_finite(current),
        num::is_finite(num::difference(stop, current)),
        10_000 * num::value(stop) >= num::one_units(),
    ensures
        ({
            let (s, d, o) = (
                num::value(stop),
                num::value(stop) - num::value(current),
                num::one_units(),
            );
            &&& t.moves(Some(current)) ==> 1001 * d >= s && 1_100_000 * d >= o
            &&& 999 * d >= s && 900_000 * d >= o ==> t.moves(Some(current))
        }),
        t.moves(None),
{
    lemma_one_is_large();
    let (s, d, o) = (num::value(stop), num::value(stop) - num::value(current), num::one_units());
    lemma_part_of(stop, 1, 1000);
    let part = num::product(stop, num::ratio(1, 1000));
    lemma_ratio_near(1, 1_000_000);
    let e = num::ratio(1, 1_000_000);
    let g = num::difference(stop, current);
    law_a_difference_is_near(stop, current);
    let least = trail::least_step(stop, t.min_step);
    assert(least == num::larger(part, e));
    order::lemma_order_of_values(part, e);
    order::lemma_order_of_values(part, g);
    order::lemma_order_of_values(e, g);
    let (p, v) = (num::value(part), num::value(g));
    assert(999_999 * s <= 1_000_000 * (1000 * p) <= 1_000_001 * s);
}

/// Half of what is free is half of it, less at most the ten thousandth that rounding
/// down to four decimals takes away.
pub proof fn law_half_is_half_but_for_a_tick(free: Num)
    requires
        num::is_finite(free),
        0 <= num::value(free) <= 1_000_000_000 * num::one_units(),
        num::is_finite(screen::half(free)),
    ensures
        ({
            let off = 20_000 * num::value(screen::half(free)) - 10_000 * num::value(free);
            &&& 100 * off <= num::one_units()
            &&& -201 * num::one_units() <= 100 * off
        }),
{
    lemma_one_is_large();
    let a = num::quotient(free, num::whole(2));
    let t = num::product(a, num::whole(10_000));
    let k = num::floored(t);
    lemma_part_near(free, 2);
    exact::law_whole_numbers_are_exact(10_000);
    assert(num::is_finite(t));
    lemma_multiple_near(a, 10_000);
    exact::law_the_floor_is_close(t);
    lemma_part_near(k, 10_000);
}

/// Half of an even number of shares is half of them.
pub proof fn law_half_of_even_shares(n: int)
    requires
        0 < n <= 100_000_000_000,
    ensures
        screen::half(num::whole(2 * n)) == num::whole(n),
{
    exact::law_whole_numbers_divide(n, 2);
    exact::law_whole_numbers_multiply(n, 10_000);
    exact::law_whole_numbers_stay_whole(n * 10_000, 0, n * 10_000);
    exact::law_whole_numbers_divide(n, 10_000);
    assert(2 * n == n * 2);
}

/// A candle is drawn from its low to its high, with a body between its open and its
/// close, the lower of the two at the bottom.
pub proof fn law_a_candle_is_drawn_between_its_prices(c: Candle, bucket: Num)
    requires
        num::is_finite(c.open),
        num::is_finite(c.close),
    ensures
        ({
            let b = screen::box_of(c, bucket);
            let (o, k) = (num::value(c.open), num::value(c.close));
            &&& b.low == c.low
            &&& b.high == c.high
            &&& b.close == c.close
            &&& b.up <==> o <= k
            &&& num::value(b.bottom) == if o < k {
                o
            } else {
                k
            }
            &&& num::value(b.top) == if o < k {
                k
            } else {
                o
            }
        }),
{
    order::lemma_order_of_values(c.open, c.close);
}

/// A candle stands in the middle of its bucket, and is a little wider than half of it.
pub proof fn law_a_candle_stands_in_its_bucket(c: Candle, bucket: Num)
    requires
        num::is_finite(c.t),
        num::is_finite(bucket),
        num::value(bucket) >= num::one_units(),
        num::is_finite(screen::box_of(c, bucket).x),
    ensures
        ({
            let b = screen::box_of(c, bucket);
            let (t, w) = (num::value(c.t), num::value(bucket));
            &&& size(0x20_0000_0000_0000 * (2 * num::value(b.x) - (2 * t + w))) <= 4 * (size(t) + w)
                + 0x40_0000_0000_0000
            &&& num::is_finite(b.width)
            &&& 61 * w <= 100 * num::value(b.width) <= 63 * w
        }),
{
    lemma_one_is_large();
    let h = num::quotient(bucket, num::whole(2));
    lemma_part_near(bucket, 2);
    law_a_sum_is_near(c.t, h);
    lemma_part_of(bucket, 62, 100);
}

} // verus!
