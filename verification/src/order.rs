//! The order of doubles, and what of it arithmetic keeps.

use crate::num::{self, Num, INF, LEAD};
use vstd::arithmetic::power2::*;
use vstd::prelude::*;

verus! {

/// Some magnitude lies just below a number of units that does not overflow.
proof fn lemma_below_exists(n: int, d: int, hi: int)
    requires
        d > 0,
        0 <= n < num::units(hi) * d,
        0 <= hi <= INF,
    ensures
        exists|m: int|
            0 <= m < INF && #[trigger] num::units(m) * d <= n < num::units(m + 1) * d,
    decreases hi,
{
    if hi == 0 {
        lemma_units_nonnegative(0);
        assert(num::units(0) * d == 0) by (nonlinear_arith)
            requires
                num::units(0) == 0,
        ;
    } else if num::units(hi - 1) * d <= n {
        assert(num::units(hi - 1) * d <= n < num::units((hi - 1) + 1) * d);
    } else {
        lemma_below_exists(n, d, hi - 1);
    }
}

/// The magnitude just below a number of units that does not overflow.
pub proof fn lemma_below_holds(n: int, d: int)
    requires
        d > 0,
        0 <= n < num::units(INF as int) * d,
    ensures
        0 <= num::below(n, d) < INF,
        num::units(num::below(n, d)) * d <= n < num::units(num::below(n, d) + 1) * d,
{
    lemma_below_exists(n, d, INF as int);
    let m = choose|m: int|
        0 <= m < INF && #[trigger] num::units(m) * d <= n < num::units(m + 1) * d;
    num::lemma_below(n, d, m);
}

/// Nearest is a magnitude.
pub proof fn lemma_nearest_range(n: int, d: int)
    requires
        d > 0,
        0 <= n,
    ensures
        0 <= num::nearest(n, d) <= INF,
{
    reveal(num::nearest);
    if n < num::units(INF as int) * d {
        lemma_below_holds(n, d);
    }
}

proof fn lemma_cross(a: int, n: int, d: int, n2: int, d2: int)
    requires
        d > 0,
        d2 > 0,
        n * d2 <= n2 * d,
        a * d <= n,
    ensures
        a * d2 <= n2,
{
    assert((a * d) * d2 <= n * d2) by (nonlinear_arith)
        requires
            a * d <= n,
            d2 > 0,
    ;
    assert((a * d2) * d == (a * d) * d2) by (nonlinear_arith);
    assert(a * d2 <= n2) by (nonlinear_arith)
        requires
            (a * d2) * d <= n2 * d,
            d > 0,
    ;
}

/// A larger number of units is rounded to a magnitude that is as large or larger.
pub proof fn lemma_nearest_keeps_order(n: int, d: int, n2: int, d2: int)
    requires
        d > 0,
        d2 > 0,
        0 <= n,
        0 <= n2,
        n * d2 <= n2 * d,
    ensures
        num::nearest(n, d) <= num::nearest(n2, d2),
{
    reveal(num::nearest);
    lemma_nearest_range(n, d);
    lemma_nearest_range(n2, d2);
    if n2 >= num::units(INF as int) * d2 {
    } else {
        if n >= num::units(INF as int) * d {
            lemma_cross(num::units(INF as int), n, d, n2, d2);
            assert(false);
        }
        lemma_below_holds(n, d);
        lemma_below_holds(n2, d2);
        let m = num::below(n, d);
        let m2 = num::below(n2, d2);
        if m > m2 {
            lemma_cross(num::units(m), n, d, n2, d2);
            num::lemma_units_increase(m2 + 1, m);
            assert(num::units(m2 + 1) * d2 <= num::units(m) * d2) by (nonlinear_arith)
                requires
                    num::units(m2 + 1) <= num::units(m),
                    d2 > 0,
            ;
        } else if m == m2 {
            let w = num::units(m) + num::units(m + 1);
            if 2 * n >= w * d {
                assert((2 * n) * d2 <= (2 * n2) * d) by (nonlinear_arith)
                    requires
                        n * d2 <= n2 * d,
                ;
                lemma_cross(w, 2 * n, d, 2 * n2, d2);
                if 2 * n > w * d && 2 * n2 == w * d2 {
                    assert((2 * n) * d2 > (w * d) * d2) by (nonlinear_arith)
                        requires
                            2 * n > w * d,
                            d2 > 0,
                    ;
                    assert((w * d2) * d == (w * d) * d2) by (nonlinear_arith);
                    assert((2 * n2) * d == (w * d2) * d);
                }
            }
        }
    }
}

/// What is a double already is not changed by rounding.
pub proof fn lemma_exact(m: int, d: int)
    requires
        0 <= m <= INF,
        d > 0,
    ensures
        num::nearest(num::units(m) * d, d) == m,
{
    reveal(num::nearest);
    if m < INF {
        num::lemma_step(m);
        assert(num::units(m) * d < num::units(m + 1) * d) by (nonlinear_arith)
            requires
                num::units(m) < num::units(m + 1),
                d > 0,
        ;
        num::lemma_below(num::units(m) * d, d, m);
        assert(2 * (num::units(m) * d) < (num::units(m) + num::units(m + 1)) * d)
            by (nonlinear_arith)
            requires
                num::units(m) * d < num::units(m + 1) * d,
        ;
    }
}

proof fn lemma_units_nonnegative(m: int)
    requires
        0 <= m,
    ensures
        0 <= num::units(m),
        m > 0 ==> 0 < num::units(m),
        num::units(0) == 0,
{
    assert(num::units(0) == 0 * pow2(0));
    assert(0 * pow2(0) == 0);
    num::lemma_units_increase(0, m);
}

/// Zero is worth nothing.
pub proof fn lemma_zero_is_nothing()
    ensures
        num::value(num::zero()) == 0,
{
    lemma_units_nonnegative(0);
}

/// The order of finite doubles is the order of their values.
pub proof fn lemma_order_of_values(x: Num, y: Num)
    requires
        num::is_finite(x),
        num::is_finite(y),
    ensures
        (num::rank(x) <= num::rank(y)) == (num::value(x) <= num::value(y)),
        (num::rank(x) < num::rank(y)) == (num::value(x) < num::value(y)),
{
    let a = num::mag(x);
    let b = num::mag(y);
    lemma_units_nonnegative(a);
    lemma_units_nonnegative(b);
    if a < b {
        num::lemma_units_increase(a, b);
    } else {
        num::lemma_units_increase(b, a);
    }
}

/// Rounding keeps the order of fractions.
pub proof fn lemma_rounded_fractions(n: int, d: int, n2: int, d2: int, z: bool, z2: bool)
    requires
        d > 0,
        d2 > 0,
        n * d2 <= n2 * d,
    ensures
        num::at_most(num::rounded(n, d, z), num::rounded(n2, d2, z2)),
{
    let a = if n < 0 {
        -n
    } else {
        n
    };
    let b = if n2 < 0 {
        -n2
    } else {
        n2
    };
    lemma_nearest_range(a, d);
    lemma_nearest_range(b, d2);
    assert(n >= 0 ==> n2 >= 0) by (nonlinear_arith)
        requires
            d > 0,
            d2 > 0,
            n * d2 <= n2 * d,
    ;
    if n >= 0 {
        lemma_nearest_keeps_order(n, d, n2, d2);
    } else if n2 < 0 {
        assert((-n2) * d <= (-n) * d2) by (nonlinear_arith)
            requires
                n * d2 <= n2 * d,
        ;
        lemma_nearest_keeps_order(-n2, d2, -n, d);
    }
    lemma_nearest_of_zero(d);
    lemma_nearest_of_zero(d2);
}

/// Rounding keeps the order of values.
pub proof fn lemma_rounded_keeps_order(n: int, n2: int, z: bool, z2: bool)
    requires
        n <= n2,
    ensures
        num::at_most(num::rounded(n, 1, z), num::rounded(n2, 1, z2)),
{
    lemma_rounded_fractions(n, 1, n2, 1, z, z2);
}

/// Nothing is nearest to nothing.
pub proof fn lemma_nearest_of_zero(d: int)
    requires
        d > 0,
    ensures
        num::nearest(0, d) == 0,
{
    lemma_units_nonnegative(0);
    assert(0 * d == 0);
    lemma_exact(0, d);
}

/// A finite double is what its value is rounded to, but for the sign of a zero.
pub proof fn lemma_rounded_exact(x: Num, z: bool)
    requires
        num::is_finite(x),
    ensures
        num::rank(num::rounded(num::value(x), 1, z)) == num::rank(x),
        num::is_finite(num::rounded(num::value(x), 1, z)),
{
    let m = num::mag(x);
    lemma_units_nonnegative(m);
    assert(num::units(m) * 1 == num::units(m));
    lemma_exact(m, 1);
}

/// Adding the same to both keeps the order.
pub proof fn lemma_sum_keeps_order(x: Num, x2: Num, y: Num)
    requires
        num::at_most(x, x2),
        num::is_finite(y),
    ensures
        num::at_most(num::sum(x, y), num::sum(x2, y)),
{
    if num::is_finite(x) && num::is_finite(x2) {
        lemma_order_of_values(x, x2);
        lemma_rounded_keeps_order(
            num::value(x) + num::value(y),
            num::value(x2) + num::value(y),
            num::negative(x) && num::negative(y),
            num::negative(x2) && num::negative(y),
        );
    } else if num::is_finite(x) {
        let n = num::value(x) + num::value(y);
        lemma_rounded_keeps_order(n, n, num::negative(x) && num::negative(y), false);
        lemma_rounded_range(n, num::negative(x) && num::negative(y));
    } else if num::is_finite(x2) {
        let n = num::value(x2) + num::value(y);
        lemma_rounded_keeps_order(n, n, num::negative(x2) && num::negative(y), false);
        lemma_rounded_range(n, num::negative(x2) && num::negative(y));
    }
}

/// Rounding gives a double that lies between the infinities.
pub proof fn lemma_rounded_range(n: int, z: bool)
    ensures
        !num::is_nan(num::rounded(n, 1, z)),
        -INF <= num::rank(num::rounded(n, 1, z)) <= INF,
{
    if n < 0 {
        lemma_nearest_range(-n, 1);
    } else if n > 0 {
        lemma_nearest_range(n, 1);
    }
}

/// The same negated keeps the order the other way round.
pub proof fn lemma_negated(x: Num)
    ensures
        num::is_nan(num::negated(x)) == num::is_nan(x),
        num::is_finite(num::negated(x)) == num::is_finite(x),
        num::rank(num::negated(x)) == -num::rank(x),
        num::is_finite(x) ==> num::value(num::negated(x)) == -num::value(x),
{
}

/// Taking away what is not negative leaves no more.
pub proof fn lemma_difference_at_most(x: Num, w: Num)
    requires
        num::rank(w) >= 0,
        !num::is_nan(num::difference(x, w)),
    ensures
        num::at_most(num::difference(x, w), x),
{
    lemma_negated(w);
    let y = num::negated(w);
    if num::is_finite(x) && num::is_finite(w) {
        lemma_order_of_values(num::signed(false, 0), w);
        lemma_units_nonnegative(0);
        let z = num::negative(x) && num::negative(y);
        lemma_rounded_keeps_order(num::value(x) + num::value(y), num::value(x), z, false);
        lemma_rounded_exact(x, false);
    }
}

proof fn lemma_products_order(a: int, b: int, c: int)
    requires
        a <= b,
        0 <= c,
    ensures
        a * c <= b * c,
{
    assert(a * c <= b * c) by (nonlinear_arith)
        requires
            a <= b,
            0 <= c,
    ;
}

/// Multiplying both by the same positive double keeps the order.
pub proof fn lemma_product_keeps_order(x: Num, x2: Num, c: Num)
    requires
        num::at_most(x, x2),
        num::is_finite(c),
        num::rank(c) > 0,
    ensures
        num::at_most(num::product(x, c), num::product(x2, c)),
{
    lemma_pow2_pos(1074);
    let o = num::one_units();
    let k = num::units(num::mag(c));
    let a = num::units(num::mag(x));
    let b = num::units(num::mag(x2));
    lemma_units_nonnegative(num::mag(c));
    lemma_units_nonnegative(num::mag(x));
    lemma_units_nonnegative(num::mag(x2));
    lemma_products_order(0, a, k);
    lemma_products_order(0, b, k);
    lemma_nearest_range(a * k, o);
    lemma_nearest_range(b * k, o);
    if num::mag(x) <= num::mag(x2) {
        num::lemma_units_increase(num::mag(x), num::mag(x2));
        lemma_products_order(a, b, k);
        lemma_products_order(a * k, b * k, o);
        lemma_nearest_keeps_order(a * k, o, b * k, o);
    } else {
        num::lemma_units_increase(num::mag(x2), num::mag(x));
        lemma_products_order(b, a, k);
        lemma_products_order(b * k, a * k, o);
        lemma_nearest_keeps_order(b * k, o, a * k, o);
    }
    if num::mag(x) == 0 {
        assert(a * k == 0);
        lemma_nearest_of_zero(o);
    }
    if num::mag(x2) == 0 {
        assert(b * k == 0);
        lemma_nearest_of_zero(o);
    }
}

/// Dividing both by the same positive double keeps the order.
pub proof fn lemma_quotient_keeps_order(x: Num, x2: Num, c: Num)
    requires
        num::at_most(x, x2),
        num::is_finite(c),
        num::rank(c) > 0,
    ensures
        num::at_most(num::quotient(x, c), num::quotient(x2, c)),
{
    lemma_pow2_pos(1074);
    let o = num::one_units();
    let k = num::units(num::mag(c));
    let a = num::units(num::mag(x));
    let b = num::units(num::mag(x2));
    lemma_units_nonnegative(num::mag(c));
    lemma_units_nonnegative(num::mag(x));
    lemma_units_nonnegative(num::mag(x2));
    lemma_products_order(0, a, o);
    lemma_products_order(0, b, o);
    lemma_nearest_range(a * o, k);
    lemma_nearest_range(b * o, k);
    if num::mag(x) <= num::mag(x2) {
        num::lemma_units_increase(num::mag(x), num::mag(x2));
        lemma_products_order(a, b, o);
        lemma_products_order(a * o, b * o, k);
        lemma_nearest_keeps_order(a * o, k, b * o, k);
    } else {
        num::lemma_units_increase(num::mag(x2), num::mag(x));
        lemma_products_order(b, a, o);
        lemma_products_order(b * o, a * o, k);
        lemma_nearest_keeps_order(b * o, k, a * o, k);
    }
    if num::mag(x) == 0 {
        assert(a * o == 0);
        lemma_nearest_of_zero(k);
    }
    if num::mag(x2) == 0 {
        assert(b * o == 0);
        lemma_nearest_of_zero(k);
    }
}

/// Dividing a double that is not negative by more gives no more.
pub proof fn lemma_larger_divisor(x: Num, c: Num, c2: Num)
    requires
        num::is_finite(x),
        num::rank(x) >= 0,
        num::is_finite(c),
        num::is_finite(c2),
        0 < num::rank(c) <= num::rank(c2),
    ensures
        num::at_most(num::quotient(x, c2), num::quotient(x, c)),
{
    lemma_pow2_pos(1074);
    let o = num::one_units();
    let a = num::units(num::mag(x));
    let k = num::units(num::mag(c));
    let k2 = num::units(num::mag(c2));
    lemma_units_nonnegative(num::mag(x));
    lemma_units_nonnegative(num::mag(c));
    lemma_units_nonnegative(num::mag(c2));
    num::lemma_units_increase(num::mag(c), num::mag(c2));
    lemma_products_order(0, a, o);
    assert((a * o) * k <= (a * o) * k2) by (nonlinear_arith)
        requires
            0 <= a * o,
            k <= k2,
    ;
    lemma_nearest_range(a * o, k);
    lemma_nearest_range(a * o, k2);
    lemma_nearest_keeps_order(a * o, k2, a * o, k);
    if num::mag(x) == 0 {
        assert(a * o == 0);
        lemma_nearest_of_zero(k);
        lemma_nearest_of_zero(k2);
    }
}

/// Whole numbers keep their order as doubles.
pub proof fn lemma_whole_keeps_order(n: int, n2: int)
    requires
        n <= n2,
    ensures
        num::at_most(num::whole(n), num::whole(n2)),
{
    lemma_pow2_pos(1074);
    lemma_products_order(n, n2, num::one_units());
    lemma_rounded_keeps_order(n * num::one_units(), n2 * num::one_units(), false, false);
}

/// The floor keeps the order.
pub proof fn lemma_floor_keeps_order(x: Num, x2: Num)
    requires
        num::at_most(x, x2),
    ensures
        num::at_most(num::floored(x), num::floored(x2)),
{
    let o = num::one_units();
    lemma_pow2_pos(1074);
    lemma_units_nonnegative(num::mag(x));
    lemma_units_nonnegative(num::mag(x2));
    let k = if num::mag(x) == 0 {
        0
    } else {
        num::value(x) / o
    };
    let k2 = if num::mag(x2) == 0 {
        0
    } else {
        num::value(x2) / o
    };
    assert(0 * o == 0);
    assert(num::whole(0) == num::signed(false, 0));
    if num::is_finite(x) && num::is_finite(x2) {
        lemma_order_of_values(x, x2);
        assert(0int / o == 0) by {
            vstd::arithmetic::div_mod::lemma_div_basics(o);
        }
        vstd::arithmetic::div_mod::lemma_div_is_ordered(num::value(x), num::value(x2), o);
        lemma_whole_keeps_order(k, k2);
    } else if num::is_finite(x) {
        lemma_rounded_range(k * o, false);
    } else if num::is_finite(x2) {
        lemma_rounded_range(k2 * o, false);
    }
}

/// The floor is at most the double.
pub proof fn lemma_floor_at_most(x: Num)
    requires
        !num::is_nan(x),
    ensures
        num::at_most(num::floored(x), x),
{
    if num::is_finite(x) && num::mag(x) != 0 {
        let o = num::one_units();
        lemma_pow2_pos(1074);
        let k = num::value(x) / o;
        vstd::arithmetic::div_mod::lemma_fundamental_div_mod(num::value(x), o);
        assert(k * o <= num::value(x)) by (nonlinear_arith)
            requires
                num::value(x) == o * k + num::value(x) % o,
                0 <= num::value(x) % o,
        ;
        lemma_rounded_keeps_order(k * o, num::value(x), false, false);
        lemma_rounded_exact(x, false);
    }
}

/// A double is less than another exactly when the difference is positive.
pub proof fn lemma_positive_difference(x: Num, y: Num)
    requires
        num::is_finite(x),
        num::is_finite(y),
    ensures
        num::less(y, x) == num::less(num::zero(), num::difference(x, y)),
        !num::is_nan(num::difference(x, y)),
{
    lemma_negated(y);
    lemma_order_of_values(x, y);
    let n = num::value(x) - num::value(y);
    let z = num::negative(x) && num::negative(num::negated(y));
    assert(num::difference(x, y) == num::rounded(n, 1, z));
    lemma_rounded_range(n, z);
    if n > 0 {
        lemma_one_unit();
        lemma_nearest_keeps_order(1, 1, n, 1);
        lemma_nearest_range(n, 1);
    } else if n < 0 {
        lemma_nearest_range(-n, 1);
    }
}

/// One unit is a double.
proof fn lemma_one_unit()
    ensures
        num::nearest(1, 1) == 1,
{
    lemma_units_nonnegative(0);
    num::lemma_step(0);
    assert(num::units(1) == 1) by {
        lemma2_to64();
    }
    assert(num::units(1) * 1 == 1);
    lemma_exact(1, 1);
}

/// A whole number that is not zero keeps its sign, and one of a usual size is
/// finite.
pub proof fn lemma_whole_sign(n: int)
    ensures
        !num::is_nan(num::whole(n)),
        (num::rank(num::whole(n)) > 0) == (n > 0),
        (num::rank(num::whole(n)) < 0) == (n < 0),
        -0x1_0000_0000_0000_0000 <= n <= 0x1_0000_0000_0000_0000 ==> num::is_finite(num::whole(n)),
{
    let o = num::one_units();
    lemma_pow2_pos(1074);
    lemma_rounded_range(n * o, false);
    if n > 0 {
        lemma_products_order(1, n, o);
        lemma_one_unit();
        lemma_nearest_keeps_order(1, 1, n * o, 1);
        lemma_nearest_range(n * o, 1);
        if n <= 0x1_0000_0000_0000_0000 {
            lemma_usual_size(n);
        }
    } else if n < 0 {
        assert((-n) * o == -(n * o)) by (nonlinear_arith);
        lemma_products_order(1, -n, o);
        lemma_one_unit();
        lemma_nearest_keeps_order(1, 1, (-n) * o, 1);
        lemma_nearest_range((-n) * o, 1);
        if -n <= 0x1_0000_0000_0000_0000 {
            lemma_usual_size(-n);
        }
    } else {
        assert(0 * o == 0);
    }
}

proof fn lemma_usual_size(n: int)
    requires
        0 < n <= 0x1_0000_0000_0000_0000,
    ensures
        num::nearest(n * num::one_units(), 1) < INF,
{
    let o = num::one_units();
    let l = 0x10_0000_0000_0000int;
    let m = 1_139 * l;
    vstd::arithmetic::div_mod::lemma_fundamental_div_mod_converse(m, l, 1_139, 0);
    assert(num::units(m) == l * pow2(1_138));
    lemma_pow2_adds(64, 1074);
    lemma2_to64();
    assert(pow2(1_138) == 0x1_0000_0000_0000_0000 * o);
    assert(n * o <= num::units(m)) by (nonlinear_arith)
        requires
            num::units(m) == l * (0x1_0000_0000_0000_0000 * o),
            n <= 0x1_0000_0000_0000_0000,
            l >= 1,
            o >= 0,
            0 < n,
    ;
    assert(num::units(m) * 1 == num::units(m));
    lemma_pow2_pos(1074);
    lemma_products_order(0, n, o);
    lemma_exact(m, 1);
    lemma_nearest_keeps_order(n * o, 1, num::units(m), 1);
}

/// A millionth is a positive double.
pub proof fn lemma_millionth()
    ensures
        num::is_finite(num::ratio(1, 1_000_000)),
        num::rank(num::ratio(1, 1_000_000)) > 0,
{
    let o = num::one_units();
    lemma_pow2_pos(1074);
    lemma_whole_sign(1);
    lemma_whole_sign(1_000_000);
    let one = num::whole(1);
    let million = num::whole(1_000_000);
    let a = num::units(num::mag(one));
    let k = num::units(num::mag(million));
    lemma_units_nonnegative(num::mag(one));
    lemma_units_nonnegative(num::mag(million));
    lemma_whole_keeps_order(1, 1_000_000);
    num::lemma_units_increase(num::mag(one), num::mag(million));
    lemma_products_order(0, a, o);
    lemma_nearest_range(a * o, k);
    lemma_usual_size_of_million();
    // At least one unit, and no more than one.
    assert(k <= a * o) by (nonlinear_arith)
        requires
            k <= o * 0x1_0000_0000_0000_0000,
            o >= 0x1_0000_0000_0000_0000,
            a >= o,
    ;
    lemma_one_unit();
    lemma_nearest_keeps_order(1, 1, a * o, k);
    assert(a * o <= k * o) by (nonlinear_arith)
        requires
            a <= k,
            o >= 0,
    ;
    assert((a * o) * 1 <= o * k) by (nonlinear_arith)
        requires
            a * o <= k * o,
    ;
    lemma_nearest_keeps_order(a * o, k, o, 1);
    assert(1 * o == o);
    lemma_usual_size(1);
}

/// One is worth its units exactly, and a million no more than a little over them.
proof fn lemma_usual_size_of_million()
    ensures
        num::units(num::mag(num::whole(1))) >= num::one_units(),
        num::units(num::mag(num::whole(1_000_000))) <= num::one_units()
            * 0x1_0000_0000_0000_0000,
        num::one_units() >= 0x1_0000_0000_0000_0000,
{
    let o = num::one_units();
    let l = 0x10_0000_0000_0000int;
    lemma_pow2_pos(1074);
    // One is two to the power 1074 units.
    let m = 1_023 * l;
    vstd::arithmetic::div_mod::lemma_fundamental_div_mod_converse(m, l, 1_023, 0);
    lemma_pow2_adds(52, 1022);
    lemma2_to64();
    lemma2_to64_rest();
    assert(num::units(m) == l * pow2(1_022));
    assert(num::units(m) == o);
    assert(1 * o == o);
    assert(num::units(m) * 1 == o);
    lemma_exact(m, 1);
    lemma_pow2_adds(64, 1010);
    lemma_pow2_pos(1010);
    assert(o >= 0x1_0000_0000_0000_0000) by (nonlinear_arith)
        requires
            o == 0x1_0000_0000_0000_0000 * pow2(1010),
            pow2(1010) >= 1,
    ;
    // A million lies below two to the power 64.
    let m2 = 1_087 * l;
    vstd::arithmetic::div_mod::lemma_fundamental_div_mod_converse(m2, l, 1_087, 0);
    lemma_pow2_adds(52, 1086);
    lemma_pow2_adds(64, 1074);
    assert(num::units(m2) == l * pow2(1_086));
    assert(num::units(m2) == 0x1_0000_0000_0000_0000 * o);
    assert(num::units(m2) * 1 == num::units(m2));
    lemma_exact(m2, 1);
    assert(1_000_000 * o <= num::units(m2));
    lemma_nearest_keeps_order(1_000_000 * o, 1, num::units(m2), 1);
    lemma_nearest_range(1_000_000 * o, 1);
    num::lemma_units_increase(num::nearest(1_000_000 * o, 1), m2);
}

/// One less a fraction of one is finite.
pub proof fn lemma_difference_finite(x: Num, y: Num)
    requires
        num::is_finite(x),
        num::rank(y) >= 0,
        num::is_finite(y),
        num::at_most(y, x),
    ensures
        num::is_finite(num::difference(x, y)),
{
    lemma_negated(y);
    lemma_positive_difference(x, y);
    lemma_difference_at_most(x, y);
    lemma_order_of_values(y, x);
    let n = num::value(x) - num::value(y);
    let z = num::negative(x) && num::negative(num::negated(y));
    if n > 0 {
        lemma_nearest_range(n, 1);
    }
}

/// Nothing times a finite double is nothing.
pub proof fn lemma_zero_product(c: Num)
    requires
        num::is_finite(c),
    ensures
        num::rank(num::product(num::zero(), c)) == 0,
        !num::is_nan(num::product(num::zero(), c)),
{
    lemma_pow2_pos(1074);
    lemma_units_nonnegative(0);
    let k = num::units(num::mag(c));
    assert(0 * k == 0);
    lemma_nearest_of_zero(num::one_units());
}

/// Adding what is not negative gives no less.
pub proof fn lemma_sum_with(x: Num, y: Num)
    requires
        num::is_finite(x),
        num::is_finite(y),
        num::rank(y) >= 0,
    ensures
        num::at_most(x, num::sum(x, y)),
{
    lemma_units_nonnegative(0);
    lemma_order_of_values(num::zero(), y);
    let z = num::negative(x) && num::negative(y);
    lemma_rounded_keeps_order(num::value(x), num::value(x) + num::value(y), false, z);
    lemma_rounded_exact(x, false);
}

/// Taking more away leaves no more.
pub proof fn lemma_difference_shrinks(x: Num, y: Num, more: Num)
    requires
        num::is_finite(x),
        num::is_finite(y),
        num::at_most(y, more),
    ensures
        num::at_most(num::difference(x, more), num::difference(x, y)),
{
    lemma_negated(y);
    lemma_negated(more);
    let z = num::negative(x) && num::negative(num::negated(y));
    if num::is_finite(more) {
        lemma_order_of_values(y, more);
        lemma_rounded_keeps_order(
            num::value(x) - num::value(more),
            num::value(x) - num::value(y),
            num::negative(x) && num::negative(num::negated(more)),
            z,
        );
    } else {
        lemma_rounded_range(num::value(x) - num::value(y), z);
    }
}

/// What rounding changes is at most one part in two to the power 53, or half a
/// unit where that is more. Of a whole number of units it is never more.
proof fn lemma_nearest_error(n: int, d: int)
    requires
        d > 0,
        0 <= n,
        num::nearest(n, d) < INF,
    ensures
        ({
            let off = num::units(num::nearest(n, d)) * d - n;
            &&& -(n + 0x10_0000_0000_0000 * d) <= 0x20_0000_0000_0000 * off <= n + 0x10_0000_0000_0000 * d
            &&& d == 1 ==> -n <= 0x20_0000_0000_0000 * off <= n
        }),
{
    reveal(num::nearest);
    lemma_below_holds(n, d);
    let m = num::below(n, d);
    let p = pow2(num::scale(m)) as int;
    let a = num::units(m) * d;
    let q = p * d;
    num::lemma_step(m);
    assert(num::units(m + 1) * d == a + q) by (nonlinear_arith)
        requires
            num::units(m + 1) == num::units(m) + p,
            a == num::units(m) * d,
            q == p * d,
    ;
    assert((num::units(m) + num::units(m + 1)) * d == 2 * a + q) by (nonlinear_arith)
        requires
            num::units(m + 1) == num::units(m) + p,
            a == num::units(m) * d,
            q == p * d,
    ;
    let off = num::units(num::nearest(n, d)) * d - n;
    assert(-q <= 2 * off <= q);
    if num::scale(m) == 0 {
        lemma2_to64();
        assert(q == 1 * d);
    } else {
        let sig = num::significand(m);
        assert(sig >= 0x10_0000_0000_0000) by {
            vstd::arithmetic::div_mod::lemma_fundamental_div_mod(m, LEAD as int);
        }
        assert(0x10_0000_0000_0000 * q <= a) by (nonlinear_arith)
            requires
                sig >= 0x10_0000_0000_0000,
                p > 0,
                d > 0,
                q == p * d,
                a == (sig * p) * d,
        ;
    }
}

/// What rounding changes, with the sign.
pub proof fn lemma_rounded_error(n: int, d: int, z: bool)
    requires
        d > 0,
        num::is_finite(num::rounded(n, d, z)),
    ensures
        ({
            let off = num::value(num::rounded(n, d, z)) * d - n;
            let size = if n < 0 {
                -n
            } else {
                n
            };
            &&& -(size + 0x10_0000_0000_0000 * d) <= 0x20_0000_0000_0000 * off <= size + 0x10_0000_0000_0000 * d
            &&& d == 1 ==> -size <= 0x20_0000_0000_0000 * off <= size
        }),
{
    let x = num::rounded(n, d, z);
    lemma_units_nonnegative(0);
    if n < 0 {
        lemma_nearest_range(-n, d);
        lemma_nearest_error(-n, d);
        let u = num::units(num::nearest(-n, d));
        assert(num::value(x) == -u);
        assert((-u) * d == -(u * d)) by (nonlinear_arith);
    } else if n > 0 {
        lemma_nearest_range(n, d);
        lemma_nearest_error(n, d);
        assert(num::value(x) == num::units(num::nearest(n, d)));
    } else {
        assert(num::value(x) == 0);
        assert(0 * d == 0);
    }
}

} // verus!
