//! How far a moving average may stray from the mean of its window. A running
//! total is rounded each time a price comes in or goes out, and each time by one
//! part in two to the power 53 at the most.

use crate::exact::{self, fits, in_range};
use crate::model::average_laws::{added, lemma_added_without_first};
use crate::model::chart::{self, ChartPoint};
use crate::num::{self, Num};
use crate::order;
use vstd::arithmetic::power2::*;
use vstd::prelude::*;

verus! {

/// What the prices of a series are worth, in units.
pub open spec fn worths(points: Seq<ChartPoint>) -> Seq<int> {
    Seq::new(points.len(), |i: int| num::value(points[i].mid))
}

/// Whether the prices of a series are finite and none is worth more than two to
/// the power `k` units, and there are not so many that a total could overflow.
pub open spec fn within(points: Seq<ChartPoint>, k: nat) -> bool {
    &&& fits((2 * points.len()) as int)
    &&& in_range((2 * points.len() * pow2(k)) as int)
    &&& forall|i: int|
        0 <= i < points.len() ==> num::is_finite((#[trigger] points[i]).mid) && -pow2(k)
            <= num::value(points[i].mid) <= pow2(k)
}

/// Whether a total is near a sum after `s` additions and subtractions of prices
/// that are worth two to the power `k` at the most. The `i`th of them gives a total
/// that is worth `i` prices at the most, and rounds it by one part in two to the
/// power 53 at the most.
pub open spec fn is_near(total: Num, sum: int, s: int, k: nat) -> bool {
    &&& num::is_finite(total)
    &&& -(s * pow2(k)) <= num::value(total) <= s * pow2(k)
    &&& -(s * (s + 1) * pow2(k)) <= 0x40_0000_0000_0000 * (num::value(total) - sum) <= s * (s + 1)
        * pow2(k)
}

/// One price more, or one less.
proof fn lemma_one_more(total: Num, sum: int, s: int, k: nat, y: Num)
    requires
        0 <= s,
        fits(s + 1),
        in_range((s + 1) * pow2(k)),
        is_near(total, sum, s, k),
        num::is_finite(y),
        -pow2(k) <= num::value(y) <= pow2(k),
    ensures
        is_near(num::sum(total, y), sum + num::value(y), s + 1, k),
{
    let p = pow2(k) as int;
    let n = num::value(total) + num::value(y);
    let z = num::negative(total) && num::negative(y);
    let r = num::sum(total, y);
    lemma_pow2_pos(k);
    assert((s + 1) * p == s * p + p) by (nonlinear_arith);
    assert((-(s + 1)) * p == -((s + 1) * p)) by (nonlinear_arith);
    exact::law_multiples_are_exact(s + 1, k, false);
    exact::law_multiples_are_exact(-(s + 1), k, false);
    let top = num::rounded((s + 1) * p, 1, false);
    let bottom = num::rounded((-(s + 1)) * p, 1, false);
    order::lemma_rounded_keeps_order(n, (s + 1) * p, z, false);
    order::lemma_rounded_keeps_order((-(s + 1)) * p, n, false, z);
    assert(num::is_finite(r));
    order::lemma_order_of_values(r, top);
    order::lemma_order_of_values(bottom, r);
    order::lemma_rounded_error(n, 1, z);
    assert(num::value(r) * 1 == num::value(r));
    assert(s * (s + 1) * p + 2 * ((s + 1) * p) == (s + 1) * (s + 1 + 1) * p) by (nonlinear_arith);
}

proof fn lemma_shrunk_near(
    points: Seq<ChartPoint>,
    k: nat,
    cutoff: Num,
    lo: int,
    total: Num,
    hi: int,
)
    requires
        within(points, k),
        0 <= lo <= hi < points.len(),
        is_near(total, added(worths(points), lo, hi + 1), hi + 1 + lo, k),
    ensures
        ({
            let (first, left) = chart::shrunk(points, cutoff, lo, total, hi);
            &&& lo <= first <= hi
            &&& is_near(left, added(worths(points), first, hi + 1), hi + 1 + first, k)
        }),
    decreases hi - lo,
{
    if lo < hi && num::less(points[lo].t, cutoff) {
        let mid = points[lo].mid;
        let w = worths(points);
        assert(w[lo] == num::value(mid));
        lemma_added_without_first(w, lo, hi + 1);
        order::lemma_negated(mid);
        lemma_steps_in_range(points, k, hi + 1 + lo + 1);
        lemma_one_more(total, added(w, lo, hi + 1), hi + 1 + lo, k, num::negated(mid));
        lemma_shrunk_near(points, k, cutoff, lo + 1, num::difference(total, mid), hi);
    }
}

proof fn lemma_steps_in_range(points: Seq<ChartPoint>, k: nat, s: int)
    requires
        within(points, k),
        0 <= s <= 2 * points.len(),
    ensures
        fits(s),
        in_range(s * pow2(k)),
{
    let all = (2 * points.len()) as int;
    lemma_pow2_pos(k);
    assert(0 <= s * pow2(k) <= all * pow2(k)) by (nonlinear_arith)
        requires
            0 <= s <= all,
            pow2(k) > 0,
    ;
}

/// The running total over a window is near the sum of the prices in it.
pub proof fn law_totals_are_near_sums(points: Seq<ChartPoint>, window: Num, k: nat, n: int)
    requires
        within(points, k),
        0 <= n <= points.len(),
    ensures
        ({
            let (lo, total) = chart::rolled(points, window, n);
            &&& 0 <= lo <= n
            &&& n > 0 ==> lo < n
            &&& is_near(total, added(worths(points), lo, n), n + lo, k)
        }),
    decreases n,
{
    if n == 0 {
        assert(num::units(0) == 0 * pow2(0));
        assert(0 * pow2(0) == 0);
        assert(0 * pow2(k) == 0);
    } else {
        law_totals_are_near_sums(points, window, k, n - 1);
        let (lo, total) = chart::rolled(points, window, n - 1);
        let p = points[n - 1];
        let w = worths(points);
        assert(w[n - 1] == num::value(p.mid));
        lemma_steps_in_range(points, k, n + lo);
        lemma_one_more(total, added(w, lo, n - 1), n - 1 + lo, k, p.mid);
        lemma_shrunk_near(
            points,
            k,
            num::difference(p.t, window),
            lo,
            num::sum(total, p.mid),
            n - 1,
        );
    }
}

/// How far an average, times the number of its prices, may be from their sum, in
/// parts of two to the power 54 of a unit: the rounding of `s` additions and
/// subtractions, and that of the division, by which a price that is next to
/// nothing may lose half a unit.
pub open spec fn slack(s: int, c: int, k: nat) -> int {
    s * (s + 3) * pow2(k) + 0x20_0000_0000_0000 * c
}

/// An average is the mean of the prices in its window, but for the rounding of
/// what was added and subtracted.
pub proof fn law_averages_are_near_means(points: Seq<ChartPoint>, window: Num, k: nat, n: int)
    requires
        within(points, k),
        0 < n <= points.len(),
        num::at_most(window, num::difference(points[n - 1].t, points[0].t)),
    ensures
        ({
            let lo = chart::rolled(points, window, n).0;
            let average = chart::averages(points, window, n).last().1;
            let off = num::value(average) * (n - lo) - added(worths(points), lo, n);
            &&& 0 <= lo < n
            &&& chart::averages(points, window, n).len() > 0
            &&& num::is_finite(average)
            &&& -slack(n + lo, n - lo, k) <= 0x40_0000_0000_0000 * off <= slack(n + lo, n - lo, k)
        }),
{
    law_totals_are_near_sums(points, window, k, n);
    let (lo, total) = chart::rolled(points, window, n);
    let c = n - lo;
    let s = n + lo;
    let p = pow2(k) as int;
    let t = num::value(total);
    let average = num::quotient(total, num::whole(c));
    let exactly = num::rounded(t, c, false);
    exact::lemma_quotient_rounds(total, c);
    // Dividing by a whole number takes no finite double out of range.
    let size = if t < 0 {
        -t
    } else {
        t
    };
    assert(t * 1 <= size * c && -size * c <= t * 1) by (nonlinear_arith)
        requires
            c >= 1,
            size >= 0,
            -size <= t <= size,
    ;
    order::lemma_rounded_fractions(t, c, size, 1, false, false);
    order::lemma_rounded_fractions(-size, 1, t, c, false, false);
    order::lemma_rounded_exact(total, false);
    order::lemma_negated(total);
    order::lemma_rounded_exact(num::negated(total), false);
    assert(num::is_finite(exactly));
    order::lemma_order_of_values(average, exactly);
    order::lemma_order_of_values(exactly, average);
    order::lemma_rounded_error(t, c, false);
    assert(s * (s + 1) * p + 2 * (s * p) == s * (s + 3) * p) by (nonlinear_arith);
}

/// An average differs from the mean by less than a thousand-millionth where the
/// prices, at two to the power `j` the most, are no more than so many for it. Of
/// windows of twenty prices and more, that holds for every series of two hundred
/// points below two thousand.
pub proof fn law_averages_are_means_to_nine_decimals(
    points: Seq<ChartPoint>,
    window: Num,
    j: nat,
    n: int,
)
    requires
        within(points, 1074 + j),
        0 < n <= points.len(),
        num::at_most(window, num::difference(points[n - 1].t, points[0].t)),
        ({
            let lo = chart::rolled(points, window, n).0;
            (n + lo) * (n + lo + 3) * pow2(j) <= 18_000_000 * (n - lo)
        }),
    ensures
        ({
            let lo = chart::rolled(points, window, n).0;
            let average = chart::averages(points, window, n).last().1;
            let off = num::value(average) * (n - lo) - added(worths(points), lo, n);
            -((n - lo) * num::one_units()) < 1_000_000_000 * off < (n - lo) * num::one_units()
        }),
{
    law_averages_are_near_means(points, window, 1074 + j, n);
    let lo = chart::rolled(points, window, n).0;
    let s = n + lo;
    let c = n - lo;
    let o = num::one_units();
    let q = s * (s + 3);
    lemma_pow2_adds(1074, j);
    lemma2_to64();
    lemma_pow2_strictly_increases(64, 1074);
    assert(q * pow2(1074 + j) <= 18_000_000 * (c * o)) by (nonlinear_arith)
        requires
            q * pow2(j) <= 18_000_000 * c,
            pow2(1074 + j) == o * pow2(j),
            o > 0,
    ;
    assert(c * o >= 0x1_0000_0000_0000_0000 * c) by (nonlinear_arith)
        requires
            c > 0,
            o >= 0x1_0000_0000_0000_0000,
    ;
}

proof fn lemma_sum_between(points: Seq<ChartPoint>, lo: int, hi: int, low: Num, high: Num)
    requires
        0 <= lo <= hi <= points.len(),
        num::is_finite(low),
        num::is_finite(high),
        forall|i: int|
            lo <= i < hi ==> num::is_finite((#[trigger] points[i]).mid) && num::at_most(
                low,
                points[i].mid,
            ) && num::at_most(points[i].mid, high),
    ensures
        num::value(low) * (hi - lo) <= added(worths(points), lo, hi),
        added(worths(points), lo, hi) <= num::value(high) * (hi - lo),
    decreases hi - lo,
{
    if lo < hi {
        lemma_sum_between(points, lo, hi - 1, low, high);
        let mid = points[hi - 1].mid;
        assert(worths(points)[hi - 1] == num::value(mid));
        order::lemma_order_of_values(low, mid);
        order::lemma_order_of_values(mid, high);
        assert(num::value(low) * (hi - lo) == num::value(low) * (hi - 1 - lo) + num::value(low))
            by (nonlinear_arith);
        assert(num::value(high) * (hi - lo) == num::value(high) * (hi - 1 - lo) + num::value(high))
            by (nonlinear_arith);
    } else {
        assert(num::value(low) * 0 == 0 && num::value(high) * 0 == 0);
    }
}

/// An average is bounded by the prices that it averages, but for the rounding of
/// what was added and subtracted.
pub proof fn law_averages_are_nearly_bounded(
    points: Seq<ChartPoint>,
    window: Num,
    k: nat,
    n: int,
    low: Num,
    high: Num,
)
    requires
        within(points, k),
        0 < n <= points.len(),
        num::at_most(window, num::difference(points[n - 1].t, points[0].t)),
        num::is_finite(low),
        num::is_finite(high),
        forall|i: int|
            chart::rolled(points, window, n).0 <= i < n ==> num::at_most(
                low,
                (#[trigger] points[i]).mid,
            ) && num::at_most(points[i].mid, high),
    ensures
        ({
            let lo = chart::rolled(points, window, n).0;
            let c = n - lo;
            let average = num::value(chart::averages(points, window, n).last().1);
            &&& 0x40_0000_0000_0000 * (num::value(low) * c - average * c) <= slack(n + lo, c, k)
            &&& 0x40_0000_0000_0000 * (average * c - num::value(high) * c) <= slack(n + lo, c, k)
        }),
{
    law_averages_are_near_means(points, window, k, n);
    lemma_sum_between(points, chart::rolled(points, window, n).0, n, low, high);
}

} // verus!
