//! Doubles by what they are worth: rounding, comparing, and the shades that figures
//! are shown in.

use crate::exact;
use crate::laws::near::{
    is_off_by, law_a_difference_is_near, lemma_one_is_large, lemma_part_near, lemma_ratio_near, size,
};
use crate::num::{self, Num, INF};
use crate::order;
use crate::screen::{self, Tone};
use crate::worker::quotes::{self, QuoteResult};
use vstd::prelude::*;

verus! {

/// Rounding takes the magnitude that is nearest: no other is worth something nearer,
/// and of two that are equally near it takes the even one.
pub proof fn law_no_other_magnitude_is_nearer(n: int, d: int, m: int)
    requires
        d > 0,
        0 <= n < num::units(INF as int) * d,
        0 <= m <= INF,
    ensures
        ({
            let k = num::nearest(n, d);
            &&& size(num::units(k) * d - n) <= size(num::units(m) * d - n)
            &&& m != k && size(num::units(k) * d - n) == size(num::units(m) * d - n) ==> k % 2 == 0
        }),
{
    reveal(num::nearest);
    order::lemma_below_holds(n, d);
    let b = num::below(n, d);
    let (lo, hi, at) = (num::units(b) * d, num::units(b + 1) * d, num::units(m) * d);
    assert((num::units(b) + num::units(b + 1)) * d == lo + hi) by (nonlinear_arith)
        requires
            lo == num::units(b) * d,
            hi == num::units(b + 1) * d,
    ;
    if m <= b {
        num::lemma_units_increase(m, b);
        assert(at <= lo && (m < b ==> at < lo)) by (nonlinear_arith)
            requires
                num::units(m) + (b - m) <= num::units(b),
                m <= b,
                at == num::units(m) * d,
                lo == num::units(b) * d,
                d > 0,
        ;
    } else {
        num::lemma_units_increase(b + 1, m);
        assert(at >= hi && (m > b + 1 ==> at > hi)) by (nonlinear_arith)
            requires
                num::units(b + 1) + (m - b - 1) <= num::units(m),
                m >= b + 1,
                at == num::units(m) * d,
                hi == num::units(b + 1) * d,
                d > 0,
        ;
    }
}

/// Finite doubles compare as what they are worth, and the larger and the smaller of
/// two are the one that is worth more and the one that is worth less.
pub proof fn law_doubles_compare_by_worth(x: Num, y: Num)
    requires
        num::is_finite(x),
        num::is_finite(y),
    ensures
        num::less(x, y) <==> num::value(x) < num::value(y),
        num::at_most(x, y) <==> num::value(x) <= num::value(y),
        num::same(x, y) <==> num::value(x) == num::value(y),
        num::value(num::larger(x, y)) == if num::value(x) < num::value(y) {
            num::value(y)
        } else {
            num::value(x)
        },
        num::value(num::smaller(x, y)) == if num::value(x) < num::value(y) {
            num::value(x)
        } else {
            num::value(y)
        },
        num::value(num::negated(x)) == -num::value(x),
        num::value(num::signed(false, num::mag(x))) == size(num::value(x)),
{
    order::lemma_order_of_values(x, y);
    order::lemma_order_of_values(y, x);
    order::lemma_negated(x);
    order::lemma_zero_is_nothing();
    order::lemma_order_of_values(x, num::zero());
    order::lemma_order_of_values(num::zero(), x);
}

/// What is no number compares with nothing, spoils what it is part of, and is passed
/// over by the larger and the smaller.
pub proof fn law_what_is_no_number_spoils(x: Num, y: Num)
    requires
        num::is_nan(x),
    ensures
        !num::less(x, y) && !num::less(y, x),
        !num::at_most(x, y) && !num::at_most(y, x),
        !num::same(x, y) && !num::same(y, x),
        num::is_nan(num::sum(x, y)) && num::is_nan(num::sum(y, x)),
        num::is_nan(num::difference(x, y)) && num::is_nan(num::difference(y, x)),
        num::is_nan(num::product(x, y)) && num::is_nan(num::product(y, x)),
        num::is_nan(num::quotient(x, y)) && num::is_nan(num::quotient(y, x)),
        num::larger(x, y) == y,
        num::smaller(x, y) == y,
        !num::is_nan(y) ==> num::larger(y, x) == y && num::smaller(y, x) == y,
{
    order::lemma_negated(x);
    order::lemma_negated(y);
}

/// What a round took together.
pub open spec fn taken(rs: Seq<QuoteResult>) -> int
    decreases rs.len(),
{
    if rs.len() == 0 {
        0
    } else {
        rs[0].ms + taken(rs.drop_first())
    }
}

proof fn lemma_taken(rs: Seq<QuoteResult>, r: QuoteResult)
    ensures
        taken(rs.push(r)) == taken(rs) + r.ms,
    decreases rs.len(),
{
    if rs.len() > 0 {
        lemma_taken(rs.drop_first(), r);
        assert(rs.push(r).drop_first() =~= rs.drop_first().push(r));
    } else {
        assert(rs.push(r).drop_first() =~= rs);
    }
}

proof fn lemma_all_taken(rs: Seq<QuoteResult>)
    ensures
        quotes::total_ms(rs) == taken(rs),
        taken(rs) >= 0,
    decreases rs.len(),
{
    if rs.len() > 0 {
        lemma_all_taken(rs.drop_last());
        lemma_taken(rs.drop_last(), rs.last());
        assert(rs.drop_last().push(rs.last()) =~= rs);
    }
}

/// The mean of a round is what its calls took together over their number.
pub proof fn law_the_mean_is_over_all_calls(rs: Seq<QuoteResult>)
    requires
        rs.len() > 0,
        exact::fits(rs.len() as int),
        exact::fits(taken(rs)),
    ensures
        is_off_by(
            num::value(quotes::mean_ms(rs)) * rs.len(),
            taken(rs) * num::one_units(),
            taken(rs) * num::one_units(),
            rs.len() as int,
        ),
{
    lemma_all_taken(rs);
    lemma_one_is_large();
    exact::law_whole_numbers_are_exact(taken(rs));
    lemma_part_near(num::whole(taken(rs)), rs.len() as int);
    assert(taken(rs) * num::one_units() >= 0) by (nonlinear_arith)
        requires
            taken(rs) >= 0,
            num::one_units() > 0,
    ;
}

/// A gain is good, a loss bad, and what is neither is dim.
pub proof fn law_gains_are_good_and_losses_bad(x: Num)
    requires
        num::is_finite(x),
    ensures
        screen::tone_of_sign(Some(x)) == Tone::Good <==> num::value(x) > 0,
        screen::tone_of_sign(Some(x)) == Tone::Bad <==> num::value(x) < 0,
        screen::tone_of_sign(Some(x)) == Tone::Dim <==> num::value(x) == 0,
        screen::tone_of_sign(None) == Tone::Dim,
{
    order::lemma_zero_is_nothing();
    order::lemma_order_of_values(x, num::zero());
    order::lemma_order_of_values(num::zero(), x);
}

/// A spread is bad above a hundred basis points, doubtful above thirty, and good up to
/// that.
pub proof fn law_wide_spreads_are_bad(b: Num)
    requires
        num::is_finite(b),
    ensures
        screen::tone_of_spread(Some(b)) == Tone::Bad <==> num::value(b) > 100 * num::one_units(),
        screen::tone_of_spread(Some(b)) == Tone::Warn <==> 30 * num::one_units() < num::value(b)
            <= 100 * num::one_units(),
        screen::tone_of_spread(Some(b)) == Tone::Good <==> num::value(b) <= 30 * num::one_units(),
        screen::tone_of_spread(None) == Tone::Dim,
{
    exact::law_whole_numbers_are_exact(100);
    exact::law_whole_numbers_are_exact(30);
    lemma_one_is_large();
    order::lemma_order_of_values(num::whole(100), b);
    order::lemma_order_of_values(num::whole(30), b);
}

/// A margin is good above fifteen hundredths, doubtful down to five, and bad below.
pub proof fn law_thin_margins_are_bad(d: Num)
    requires
        num::is_finite(d),
    ensures
        1_000 * num::value(d) >= 151 * num::one_units() ==> screen::tone_of_margin(Some(d))
            == Tone::Good,
        51 * num::one_units() <= 1_000 * num::value(d) <= 149 * num::one_units()
            ==> screen::tone_of_margin(Some(d)) == Tone::Warn,
        1_000 * num::value(d) <= 49 * num::one_units() ==> screen::tone_of_margin(Some(d))
            == Tone::Bad,
        screen::tone_of_margin(None) == Tone::Dim,
{
    lemma_one_is_large();
    lemma_ratio_near(15, 100);
    lemma_ratio_near(5, 100);
    order::lemma_order_of_values(num::ratio(15, 100), d);
    order::lemma_order_of_values(num::ratio(5, 100), d);
}

/// A number that is made whole is the nearest one.
pub proof fn law_made_whole_is_nearest(x: Num)
    requires
        num::is_finite(x),
        0 <= num::value(x) <= 0x10_0000_0000_0000 * num::one_units(),
    ensures
        0x1000_0000 * (2 * size(quotes::to_whole(x) * num::one_units() - num::value(x)))
            <= 0x1000_0001 * num::one_units(),
{
    lemma_one_is_large();
    let (v, o) = (num::value(x), num::one_units());
    order::lemma_zero_is_nothing();
    order::lemma_order_of_values(num::zero(), x);
    order::lemma_order_of_values(x, num::zero());
    let u = num::units(num::mag(x));
    let k = u / o;
    vstd::arithmetic::div_mod::lemma_fundamental_div_mod(u, o);
    assert(u == v);
    assert(k * o <= u < k * o + o && 0 <= k <= 0x10_0000_0000_0000) by (nonlinear_arith)
        requires
            u == o * k + u % o,
            0 <= u % o < o,
            0 <= u <= 0x10_0000_0000_0000 * o,
            o > 0,
    ;
    let n = num::cut(x, 0, u64::MAX as int);
    assert(n == k || (num::negative(x) && n == 0 && k == 0)) by {
        if num::negative(x) {
            assert(u == 0);
            assert(k == 0) by (nonlinear_arith)
                requires
                    k * o <= u,
                    u == 0,
                    k >= 0,
                    o > 0,
            ;
        }
    }
    exact::law_whole_numbers_are_exact(n);
    let rest = num::difference(x, num::whole(n));
    lemma_close_difference(x, n);
    law_a_difference_is_near(x, num::whole(n));
    lemma_ratio_near(1, 2);
    let half = num::ratio(1, 2);
    order::lemma_order_of_values(half, rest);
    order::lemma_order_of_values(rest, half);
    let (r, h) = (num::value(rest), num::value(half));
    assert((n + 1) * o == n * o + o) by (nonlinear_arith);
}

proof fn lemma_close_difference(x: Num, n: int)
    requires
        num::is_finite(x),
        num::is_finite(num::whole(n)),
        num::value(num::whole(n)) == n * num::one_units(),
        0 <= n * num::one_units() <= num::value(x),
    ensures
        num::is_finite(num::difference(x, num::whole(n))),
{
    let w = num::whole(n);
    order::lemma_zero_is_nothing();
    order::lemma_order_of_values(num::zero(), w);
    order::lemma_order_of_values(w, x);
    order::lemma_difference_finite(x, w);
}

} // verus!
