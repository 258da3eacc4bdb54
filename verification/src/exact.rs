//! Whole numbers as doubles: up to two to the power 53 they are exact, and so are
//! their sums, differences, products and the quotients that come out even. Sums and
//! differences are exact of the multiples of any power of two.

use crate::num::{self, Num, INF, LEAD};
use crate::order;
use vstd::arithmetic::div_mod::*;
use vstd::arithmetic::power2::*;
use vstd::prelude::*;

verus! {

/// Whether a whole number is within what a double holds exactly.
pub open spec fn fits(n: int) -> bool {
    -0x20_0000_0000_0000 <= n <= 0x20_0000_0000_0000
}

/// Whether a number of units is within what a finite double can be worth.
pub open spec fn in_range(n: int) -> bool {
    -num::units(INF as int) < n < num::units(INF as int)
}

proof fn lemma_is_finite(m: int)
    requires
        num::units(m) < num::units(INF as int),
    ensures
        m < INF,
{
    if m >= INF {
        num::lemma_units_increase(INF as int, m);
    }
}

/// A number that fits is a magnitude exactly, whatever power of two it counts.
proof fn lemma_held(n: int, e: nat)
    requires
        0 < n <= 0x20_0000_0000_0000,
        in_range(n * pow2(e)),
    ensures
        exists|m: int| 0 < m < INF && #[trigger] num::units(m) == n * pow2(e),
    decreases e,
{
    let l = LEAD as int;
    if n == 2 * l {
        let m = (e + 2) * l;
        lemma_fundamental_div_mod_converse(m, l, (e + 2) as int, 0);
        lemma_pow2_unfold(e + 1);
        assert(num::units(m) == l * pow2(e + 1));
        assert(l * (2 * pow2(e)) == n * pow2(e)) by (nonlinear_arith)
            requires
                n == 2 * l,
        ;
        lemma_is_finite(m);
    } else if n >= l {
        let m = (e + 1) * l + (n - l);
        lemma_fundamental_div_mod_converse(m, l, (e + 1) as int, n - l);
        assert(num::units(m) == n * pow2(e));
        lemma_is_finite(m);
    } else if e == 0 {
        assert(num::units(n) == n * pow2(0));
    } else {
        let f = (e - 1) as nat;
        lemma_pow2_unfold(e);
        assert((2 * n) * pow2(f) == n * pow2(e)) by (nonlinear_arith)
            requires
                pow2(e) == 2 * pow2(f),
        ;
        lemma_held(2 * n, f);
    }
}

/// A multiple of a power of two that fits is exact: rounding leaves it alone.
pub proof fn law_multiples_are_exact(n: int, e: nat, zero_neg: bool)
    requires
        fits(n),
        in_range(n * pow2(e)),
    ensures
        num::is_finite(num::rounded(n * pow2(e), 1, zero_neg)),
        num::value(num::rounded(n * pow2(e), 1, zero_neg)) == n * pow2(e),
        n != 0 ==> num::negative(num::rounded(n * pow2(e), 1, zero_neg)) == (n < 0),
{
    let o = pow2(e) as int;
    lemma_pow2_pos(e);
    assert(0 * o == 0);
    assert((-n) * o == -(n * o)) by (nonlinear_arith);
    assert((n < 0) == (n * o < 0) && (n > 0) == (n * o > 0)) by (nonlinear_arith)
        requires
            o > 0,
    ;
    if n == 0 {
        assert(num::units(0) == 0 * pow2(0));
        assert(0 * pow2(0) == 0);
    } else {
        let size = if n < 0 {
            -n
        } else {
            n
        };
        lemma_held(size, e);
        let m = choose|m: int| 0 < m < INF && #[trigger] num::units(m) == size * o;
        assert(num::units(m) * 1 == num::units(m));
        order::lemma_exact(m, 1);
    }
}

/// Multiples of the same power of two are added as they are.
pub proof fn law_multiples_add(x: Num, y: Num, a: int, b: int, e: nat)
    requires
        num::is_finite(x),
        num::is_finite(y),
        num::value(x) == a * pow2(e),
        num::value(y) == b * pow2(e),
        fits(a + b),
        in_range((a + b) * pow2(e)),
    ensures
        num::is_finite(num::sum(x, y)),
        num::value(num::sum(x, y)) == (a + b) * pow2(e),
{
    law_multiples_are_exact(a + b, e, num::negative(x) && num::negative(y));
    assert(a * pow2(e) + b * pow2(e) == (a + b) * pow2(e)) by (nonlinear_arith);
}

/// Multiples of the same power of two are subtracted as they are.
pub proof fn law_multiples_subtract(x: Num, y: Num, a: int, b: int, e: nat)
    requires
        num::is_finite(x),
        num::is_finite(y),
        num::value(x) == a * pow2(e),
        num::value(y) == b * pow2(e),
        fits(a - b),
        in_range((a - b) * pow2(e)),
    ensures
        num::is_finite(num::difference(x, y)),
        num::value(num::difference(x, y)) == (a - b) * pow2(e),
{
    order::lemma_negated(y);
    assert((-b) * pow2(e) == -(b * pow2(e))) by (nonlinear_arith);
    law_multiples_add(x, num::negated(y), a, -b, e);
}

/// A whole number that fits is exact.
pub proof fn law_whole_numbers_are_exact(n: int)
    requires
        fits(n),
    ensures
        num::is_finite(num::whole(n)),
        num::value(num::whole(n)) == n * num::one_units(),
        num::negative(num::whole(n)) == (n < 0),
{
    lemma_whole_in_range(n);
    law_multiples_are_exact(n, 1074, false);
    assert(0 * num::one_units() == 0);
}

proof fn lemma_whole_in_range(n: int)
    requires
        fits(n),
    ensures
        in_range(n * pow2(1074)),
{
    let l = LEAD as int;
    let o = pow2(1074) as int;
    let far = pow2(972) as int;
    lemma_fundamental_div_mod_converse(INF as int, l, 2_047, 0);
    assert(num::units(INF as int) == l * pow2(2_046));
    lemma_pow2_adds(1074, 972);
    lemma2_to64();
    lemma_pow2_strictly_increases(2, 972);
    lemma_pow2_pos(1074);
    assert(-(l * (o * far)) < n * o < l * (o * far)) by (nonlinear_arith)
        requires
            o > 0,
            far > 4,
            l == 0x10_0000_0000_0000,
            -(2 * l) <= n <= 2 * l,
    ;
}

/// A common factor cancels out of rounding.
pub proof fn lemma_common_factor(n: int, d: int, k: int)
    requires
        0 <= n,
        d > 0,
        k > 0,
    ensures
        num::nearest(n * k, d * k) == num::nearest(n, d),
{
    assert(n * k >= 0 && d * k > 0) by (nonlinear_arith)
        requires
            0 <= n,
            d > 0,
            k > 0,
    ;
    assert(n * (d * k) == (n * k) * d) by (nonlinear_arith);
    order::lemma_nearest_keeps_order(n, d, n * k, d * k);
    order::lemma_nearest_keeps_order(n * k, d * k, n, d);
}

/// Whole numbers are compared as they are.
pub proof fn law_whole_numbers_compare(a: int, b: int)
    requires
        fits(a),
        fits(b),
    ensures
        num::less(num::whole(a), num::whole(b)) == (a < b),
        num::at_most(num::whole(a), num::whole(b)) == (a <= b),
        num::same(num::whole(a), num::whole(b)) == (a == b),
{
    let o = num::one_units();
    lemma_pow2_pos(1074);
    law_whole_numbers_are_exact(a);
    law_whole_numbers_are_exact(b);
    order::lemma_order_of_values(num::whole(a), num::whole(b));
    assert((a < b) == (a * o < b * o) && (a <= b) == (a * o <= b * o)) by (nonlinear_arith)
        requires
            o > 0,
    ;
}

/// Whole numbers are added as they are.
pub proof fn law_whole_numbers_add(a: int, b: int)
    requires
        fits(a),
        fits(b),
    ensures
        num::sum(num::whole(a), num::whole(b)) == num::whole(a + b),
{
    let o = num::one_units();
    lemma_pow2_pos(1074);
    law_whole_numbers_are_exact(a);
    law_whole_numbers_are_exact(b);
    assert(a * o + b * o == (a + b) * o) by (nonlinear_arith);
    assert((a + b) * o == 0 ==> a + b == 0) by (nonlinear_arith)
        requires
            o > 0,
    ;
}

/// Whole numbers are subtracted as they are.
pub proof fn law_whole_numbers_subtract(a: int, b: int)
    requires
        fits(a),
        fits(b),
    ensures
        num::difference(num::whole(a), num::whole(b)) == num::whole(a - b),
{
    let o = num::one_units();
    lemma_pow2_pos(1074);
    law_whole_numbers_are_exact(a);
    law_whole_numbers_are_exact(b);
    assert(a * o - b * o == (a - b) * o) by (nonlinear_arith);
    assert((a - b) * o == 0 ==> a - b == 0) by (nonlinear_arith)
        requires
            o > 0,
    ;
}

spec fn size(n: int) -> int {
    if n < 0 {
        -n
    } else {
        n
    }
}

proof fn lemma_size(n: int)
    requires
        fits(n),
    ensures
        num::units(num::mag(num::whole(n))) == size(n) * num::one_units(),
        (num::mag(num::whole(n)) == 0) == (n == 0),
{
    let o = num::one_units();
    lemma_pow2_pos(1074);
    law_whole_numbers_are_exact(n);
    assert((-n) * o == -(n * o)) by (nonlinear_arith);
    assert(num::units(0) == 0 * pow2(0));
    assert(0 * pow2(0) == 0);
    assert(n * o == 0 ==> n == 0) by (nonlinear_arith)
        requires
            o > 0,
    ;
    order::lemma_order_of_values(num::whole(n), num::zero());
    assert(0 * o == 0);
}

proof fn lemma_whole_of_size(n: int)
    requires
        n != 0,
    ensures
        num::whole(n) == num::signed(n < 0, num::nearest(size(n) * num::one_units(), 1)),
{
    let o = num::one_units();
    lemma_pow2_pos(1074);
    assert((-n) * o == -(n * o)) by (nonlinear_arith);
    assert((n < 0) == (n * o < 0) && (n > 0) == (n * o > 0)) by (nonlinear_arith)
        requires
            o > 0,
    ;
}

/// Whole numbers other than zero are multiplied as they are.
pub proof fn law_whole_numbers_multiply(a: int, b: int)
    requires
        fits(a),
        fits(b),
        a != 0,
        b != 0,
    ensures
        num::product(num::whole(a), num::whole(b)) == num::whole(a * b),
{
    let o = num::one_units();
    lemma_pow2_pos(1074);
    law_whole_numbers_are_exact(a);
    law_whole_numbers_are_exact(b);
    lemma_size(a);
    lemma_size(b);
    assert(a * b != 0 && (a * b < 0) == ((a < 0) != (b < 0)) && size(a * b) == size(a) * size(b))
        by (nonlinear_arith)
        requires
            a != 0,
            b != 0,
            size(a) == (if a < 0 { -a } else { a }),
            size(b) == (if b < 0 { -b } else { b }),
            size(a * b) == (if a * b < 0 { -(a * b) } else { a * b }),
    ;
    lemma_whole_of_size(a * b);
    let n = size(a * b) * o;
    assert((size(a) * o) * (size(b) * o) == n * o) by (nonlinear_arith)
        requires
            n == (size(a) * size(b)) * o,
    ;
    assert(n >= 0) by (nonlinear_arith)
        requires
            n == size(a * b) * o,
            size(a * b) >= 0,
            o > 0,
    ;
    assert(1 * o == o);
    lemma_common_factor(n, 1, o);
}

/// A whole number is divided by a factor of it as it is.
pub proof fn law_whole_numbers_divide(a: int, b: int)
    requires
        fits(a * b),
        fits(b),
        a != 0,
        b != 0,
    ensures
        num::quotient(num::whole(a * b), num::whole(b)) == num::whole(a),
{
    let o = num::one_units();
    lemma_pow2_pos(1074);
    assert(a * b != 0 && (a * b < 0) == ((a < 0) != (b < 0)) && size(a * b) == size(a) * size(b))
        by (nonlinear_arith)
        requires
            a != 0,
            b != 0,
            size(a) == (if a < 0 { -a } else { a }),
            size(b) == (if b < 0 { -b } else { b }),
            size(a * b) == (if a * b < 0 { -(a * b) } else { a * b }),
    ;
    law_whole_numbers_are_exact(a * b);
    law_whole_numbers_are_exact(b);
    lemma_size(a * b);
    lemma_size(b);
    lemma_whole_of_size(a);
    let n = size(a) * o;
    let k = size(b) * o;
    assert((size(a * b) * o) * o == n * k) by (nonlinear_arith)
        requires
            size(a * b) == size(a) * size(b),
            n == size(a) * o,
            k == size(b) * o,
    ;
    assert(n >= 0 && k > 0) by (nonlinear_arith)
        requires
            n == size(a) * o,
            k == size(b) * o,
            size(a) >= 0,
            size(b) > 0,
            o > 0,
    ;
    assert(1 * k == k);
    lemma_common_factor(n, 1, k);
}

/// A whole number is its own floor, and is cut to itself.
pub proof fn law_whole_numbers_stay_whole(n: int, lo: int, hi: int)
    requires
        fits(n),
        lo <= n <= hi,
    ensures
        num::floored(num::whole(n)) == num::whole(n),
        num::cut(num::whole(n), lo, hi) == n,
{
    let o = num::one_units();
    lemma_pow2_pos(1074);
    law_whole_numbers_are_exact(n);
    lemma_size(n);
    lemma_div_by_multiple(size(n), o);
    lemma_fundamental_div_mod_converse(n * o, o, n, 0);
    assert(0 * o == 0);
}

/// A quotient by a whole number is the exact fraction, rounded once.
pub proof fn lemma_quotient_rounds(x: Num, c: int)
    requires
        num::is_finite(x),
        0 < c,
        fits(c),
    ensures
        num::same(num::quotient(x, num::whole(c)), num::rounded(num::value(x), c, false)),
{
    let o = num::one_units();
    let y = num::whole(c);
    let a = num::units(num::mag(x));
    lemma_pow2_pos(1074);
    law_whole_numbers_are_exact(c);
    num::lemma_units_increase(0, num::mag(x));
    assert(num::units(0) == 0 * pow2(0));
    assert(0 * pow2(0) == 0);
    assert(c * o > 0) by (nonlinear_arith)
        requires
            c > 0,
            o > 0,
    ;
    assert(num::mag(y) != 0);
    assert(num::units(num::mag(y)) == c * o);
    lemma_common_factor(a, c, o);
    order::lemma_nearest_range(a, c);
    if num::mag(x) == 0 {
        order::lemma_nearest_of_zero(c);
    }
}

/// A product with a whole number is the exact one, rounded once.
pub proof fn lemma_product_rounds(x: Num, c: int)
    requires
        num::is_finite(x),
        num::rank(x) > 0,
        0 < c,
        fits(c),
    ensures
        num::product(x, num::whole(c)) == num::rounded(num::value(x) * c, 1, false),
{
    let o = num::one_units();
    let a = num::value(x);
    lemma_pow2_pos(1074);
    law_whole_numbers_are_exact(c);
    lemma_size(c);
    order::lemma_order_of_values(num::zero(), x);
    assert(num::units(0) == 0 * pow2(0));
    assert(0 * pow2(0) == 0);
    assert(a * (c * o) == (a * c) * o) by (nonlinear_arith);
    assert(a * c > 0) by (nonlinear_arith)
        requires
            a > 0,
            c > 0,
    ;
    assert(1 * o == o);
    lemma_common_factor(a * c, 1, o);
}

/// A double of two to the power 53 or more is a whole number.
pub proof fn lemma_large_is_whole(m: int)
    requires
        0 <= m < INF,
        num::units(m) >= 0x20_0000_0000_0000 * num::one_units(),
    ensures
        num::units(m) % num::one_units() == 0,
{
    let o = num::one_units();
    let l = LEAD as int;
    let e = num::scale(m);
    let sig = num::significand(m);
    lemma_pow2_pos(e);
    lemma_pow2_pos(1074);
    if e < 1074 {
        lemma_pow2_strictly_increases(e, 1074);
    }
    assert(e >= 1074) by {
        if e < 1074 {
            assert(sig * pow2(e) < 0x20_0000_0000_0000 * o) by (nonlinear_arith)
                requires
                    0 <= sig < 0x20_0000_0000_0000,
                    0 < pow2(e) < o,
            ;
        }
    }
    let f = (e - 1074) as nat;
    lemma_pow2_adds(1074, f);
    assert(sig * (o * pow2(f)) == (sig * pow2(f)) * o) by (nonlinear_arith);
    lemma_mod_multiples_basic(sig * pow2(f), o);
}

/// The floor lies less than one below.
pub proof fn law_the_floor_is_close(x: Num)
    requires
        num::is_finite(x),
    ensures
        num::is_finite(num::floored(x)),
        num::value(num::floored(x)) <= num::value(x) < num::value(num::floored(x))
            + num::one_units(),
{
    let o = num::one_units();
    let v = num::value(x);
    let k = v / o;
    lemma_pow2_pos(1074);
    lemma_fundamental_div_mod(v, o);
    assert(k * o == o * k) by (nonlinear_arith);
    if num::mag(x) != 0 {
        if fits(k) {
            law_whole_numbers_are_exact(k);
        } else {
            let m = num::mag(x);
            num::lemma_units_increase(0, m);
            assert(num::units(0) == 0 * pow2(0));
            assert(0 * pow2(0) == 0);
            if k > 0 {
                assert(k * o >= 0x20_0000_0000_0000 * o) by (nonlinear_arith)
                    requires
                        k >= 0x20_0000_0000_0000,
                        o > 0,
                ;
            } else {
                assert(k * o <= -0x20_0000_0000_0000 * o - o) by (nonlinear_arith)
                    requires
                        k <= -0x20_0000_0000_0000 - 1,
                        o > 0,
                ;
            }
            assert(num::units(m) >= 0x20_0000_0000_0000 * o);
            lemma_large_is_whole(m);
            lemma_fundamental_div_mod(num::units(m), o);
            let u = num::units(m) / o;
            if num::negative(x) {
                assert(v == o * (-u)) by (nonlinear_arith)
                    requires
                        v == -(o * u),
                ;
                lemma_fundamental_div_mod_converse(v, o, -u, 0);
            }
            assert(k * o == v);
            order::lemma_rounded_exact(x, false);
            order::lemma_order_of_values(num::floored(x), x);
            order::lemma_order_of_values(x, num::floored(x));
        }
    }
}

} // verus!
