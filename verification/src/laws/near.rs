//! How far what is computed lies from what is meant, by what the numbers are worth.
//!
//! A double is worth a number of units, of which there are `one_units` in one. Each
//! operation rounds to a double once, so what it gives is off by at most one part in
//! two to the power 53, and where it divides units, by half a unit more.

use crate::exact;
use crate::num::{self, Num};
use crate::order;
use vstd::arithmetic::power2::*;
use vstd::prelude::*;

verus! {

/// The size of a number.
pub open spec fn size(n: int) -> int {
    if n < 0 {
        -n
    } else {
        n
    }
}

/// Whether two numbers differ by at most one part in two to the power 53 of `part`,
/// and half of `whole` more.
pub open spec fn is_off_by(x: int, y: int, part: int, whole: int) -> bool {
    size(0x20_0000_0000_0000 * (x - y)) <= part + 0x10_0000_0000_0000 * whole
}

/// One is many units.
pub proof fn lemma_one_is_large()
    ensures
        num::one_units() >= 0x400_0000_0000_0000_0000,
{
    lemma2_to64();
    lemma_pow2_adds(64, 10);
    lemma_pow2_strictly_increases(74, 1074);
}

/// Rounding a magnitude is rounding the number that it is of.
proof fn lemma_signed_rounds(neg: bool, m: int, d: int)
    requires
        0 <= m,
        0 < d,
    ensures
        num::rank(num::signed(neg, num::nearest(m, d))) == num::rank(
            num::rounded(
                if neg {
                    -m
                } else {
                    m
                },
                d,
                false,
            ),
        ),
        !num::is_nan(num::signed(neg, num::nearest(m, d))),
        num::is_finite(num::signed(neg, num::nearest(m, d))) == num::is_finite(
            num::rounded(
                if neg {
                    -m
                } else {
                    m
                },
                d,
                false,
            ),
        ),
{
    order::lemma_nearest_range(m, d);
    if m == 0 {
        order::lemma_nearest_of_zero(d);
    }
}

proof fn lemma_signed_near(neg: bool, m: int, d: int)
    requires
        0 <= m,
        0 < d,
        num::is_finite(num::signed(neg, num::nearest(m, d))),
    ensures
        ({
            let n = if neg {
                -m
            } else {
                m
            };
            let v = num::value(num::signed(neg, num::nearest(m, d)));
            &&& is_off_by(v * d, n, m, d)
            &&& d == 1 ==> is_off_by(v, n, m, 0)
        }),
{
    let n = if neg {
        -m
    } else {
        m
    };
    lemma_signed_rounds(neg, m, d);
    let x = num::signed(neg, num::nearest(m, d));
    let y = num::rounded(n, d, false);
    order::lemma_order_of_values(x, y);
    order::lemma_order_of_values(y, x);
    assert(num::value(x) == num::value(y));
    order::lemma_rounded_error(n, d, false);
    assert(d == 1 ==> num::value(y) * d == num::value(y));
}

/// A sum is what its parts are worth together, but for one rounding.
pub proof fn law_a_sum_is_near(x: Num, y: Num)
    requires
        num::is_finite(x),
        num::is_finite(y),
        num::is_finite(num::sum(x, y)),
    ensures
        is_off_by(
            num::value(num::sum(x, y)),
            num::value(x) + num::value(y),
            size(num::value(x) + num::value(y)),
            0,
        ),
{
    let n = num::value(x) + num::value(y);
    let z = num::negative(x) && num::negative(y);
    order::lemma_rounded_error(n, 1, z);
    assert(num::value(num::rounded(n, 1, z)) * 1 == num::value(num::rounded(n, 1, z)));
}

/// A difference is what the first is worth less the second, but for one rounding.
pub proof fn law_a_difference_is_near(x: Num, y: Num)
    requires
        num::is_finite(x),
        num::is_finite(y),
        num::is_finite(num::difference(x, y)),
    ensures
        is_off_by(
            num::value(num::difference(x, y)),
            num::value(x) - num::value(y),
            size(num::value(x) - num::value(y)),
            0,
        ),
{
    order::lemma_negated(y);
    law_a_sum_is_near(x, num::negated(y));
}

proof fn lemma_units(x: Num)
    requires
        num::is_finite(x),
    ensures
        num::units(num::mag(x)) == size(num::value(x)),
        num::units(num::mag(x)) >= 0,
        num::mag(x) == 0 ==> num::value(x) == 0,
        num::value(x) == 0 ==> num::mag(x) == 0,
        num::value(x) < 0 ==> num::negative(x),
        num::value(x) > 0 ==> !num::negative(x),
{
    order::lemma_zero_is_nothing();
    order::lemma_order_of_values(x, num::zero());
    order::lemma_order_of_values(num::zero(), x);
}

/// A product is what the two are worth, multiplied, but for one rounding.
pub proof fn law_a_product_is_near(x: Num, y: Num)
    requires
        num::is_finite(x),
        num::is_finite(y),
        num::is_finite(num::product(x, y)),
    ensures
        is_off_by(
            num::value(num::product(x, y)) * num::one_units(),
            num::value(x) * num::value(y),
            size(num::value(x) * num::value(y)),
            num::one_units(),
        ),
{
    lemma_one_is_large();
    lemma_units(x);
    lemma_units(y);
    let a = num::units(num::mag(x));
    let b = num::units(num::mag(y));
    let neg = num::negative(x) != num::negative(y);
    assert(a * b >= 0) by (nonlinear_arith)
        requires
            a >= 0,
            b >= 0,
    ;
    let (p, q) = (num::value(x), num::value(y));
    assert(p * q == if neg {
        -(a * b)
    } else {
        a * b
    }) by {
        assert(p * q == a * b || p * q == -(a * b)) by (nonlinear_arith)
            requires
                p == a || p == -a,
                q == b || q == -b,
        ;
        assert((-a) * b == -(a * b) && a * (-b) == -(a * b) && (-a) * (-b) == a * b)
            by (nonlinear_arith);
    }
    lemma_signed_near(neg, a * b, num::one_units());
}

/// A product with a positive whole number.
pub proof fn lemma_multiple_near(x: Num, c: int)
    requires
        num::is_finite(x),
        0 < c,
        exact::fits(c),
        num::is_finite(num::product(x, num::whole(c))),
    ensures
        is_off_by(
            num::value(num::product(x, num::whole(c))),
            c * num::value(x),
            c * size(num::value(x)),
            0,
        ),
{
    lemma_one_is_large();
    lemma_units(x);
    exact::law_whole_numbers_are_exact(c);
    lemma_units(num::whole(c));
    let o = num::one_units();
    let a = num::units(num::mag(x));
    assert(c * o > 0) by (nonlinear_arith)
        requires
            c > 0,
            o > 0,
    ;
    assert(a * (c * o) == (a * c) * o) by (nonlinear_arith);
    assert(1 * o == o);
    assert(a * c >= 0) by (nonlinear_arith)
        requires
            a >= 0,
            c > 0,
    ;
    exact::lemma_common_factor(a * c, 1, o);
    lemma_signed_near(num::negative(x), a * c, 1);
    assert(a * c == c * a && (-a) * c == -(a * c) && c * (-a) == -(a * c)) by (nonlinear_arith);
}

/// A quotient by what is positive is what the first is worth over the second, but for
/// one rounding.
pub proof fn law_a_quotient_is_near(x: Num, y: Num)
    requires
        num::is_finite(x),
        num::is_finite(y),
        num::value(y) > 0,
        num::is_finite(num::quotient(x, y)),
    ensures
        is_off_by(
            num::value(num::quotient(x, y)) * num::value(y),
            num::value(x) * num::one_units(),
            size(num::value(x)) * num::one_units(),
            num::value(y),
        ),
{
    lemma_one_is_large();
    lemma_units(x);
    lemma_units(y);
    let o = num::one_units();
    let a = num::units(num::mag(x));
    assert(a * o >= 0) by (nonlinear_arith)
        requires
            a >= 0,
            o > 0,
    ;
    assert((-a) * o == -(a * o)) by (nonlinear_arith);
    lemma_signed_near(num::negative(x), a * o, num::units(num::mag(y)));
}

/// A quotient by a positive whole number.
pub proof fn lemma_part_near(x: Num, c: int)
    requires
        num::is_finite(x),
        0 < c,
        exact::fits(c),
    ensures
        num::is_finite(num::quotient(x, num::whole(c))),
        is_off_by(
            num::value(num::quotient(x, num::whole(c))) * c,
            num::value(x),
            size(num::value(x)),
            c,
        ),
{
    exact::lemma_quotient_rounds(x, c);
    let q = num::quotient(x, num::whole(c));
    let n = num::value(x);
    let r = num::rounded(n, c, false);
    let small = if n < 0 {
        n
    } else {
        0
    };
    let large = if n < 0 {
        0
    } else {
        n
    };
    assert(small * c <= n * 1 && n * 1 <= large * c) by (nonlinear_arith)
        requires
            small <= 0,
            small <= n,
            n <= large,
            0 <= large,
            0 < c,
            n < 0 ==> small == n,
            n >= 0 ==> small == 0,
            n < 0 ==> large == 0,
            n >= 0 ==> large == n,
    ;
    order::lemma_rounded_fractions(small, 1, n, c, false, false);
    order::lemma_rounded_fractions(n, c, large, 1, false, false);
    order::lemma_rounded_exact(x, false);
    assert(num::is_finite(num::rounded(0, 1, false)));
    assert(num::is_finite(r));
    assert(num::is_finite(q));
    order::lemma_order_of_values(q, r);
    order::lemma_order_of_values(r, q);
    order::lemma_rounded_error(n, c, false);
}

/// A fraction of two whole numbers.
pub proof fn lemma_ratio_near(a: int, b: int)
    requires
        0 < a,
        exact::fits(a),
        0 < b,
        exact::fits(b),
    ensures
        num::is_finite(num::ratio(a, b)),
        num::value(num::ratio(a, b)) > 0,
        num::rank(num::ratio(a, b)) > 0,
        is_off_by(
            num::value(num::ratio(a, b)) * b,
            a * num::one_units(),
            a * num::one_units(),
            b,
        ),
{
    lemma_one_is_large();
    exact::law_whole_numbers_are_exact(a);
    lemma_part_near(num::whole(a), b);
    let o = num::one_units();
    let v = num::value(num::ratio(a, b));
    assert(a * o >= o) by (nonlinear_arith)
        requires
            a >= 1,
            o > 0,
    ;
    assert(v > 0) by (nonlinear_arith)
        requires
            0x20_0000_0000_0000 * (v * b - a * o) >= -(a * o + 0x10_0000_0000_0000 * b),
            a * o >= 0x400_0000_0000_0000_0000,
            0 < b <= 0x20_0000_0000_0000,
    ;
    lemma_units(num::ratio(a, b));
}

} // verus!
