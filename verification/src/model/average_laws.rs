//! What holds of moving averages where the prices add up exactly: where each is a
//! whole number of steps, a step being a power of two, and all of them together
//! are few enough steps to be counted in a double.

use crate::exact::{self, fits, in_range};
use crate::model::chart::{self, ChartPoint};
use crate::num::{self, Num};
use crate::order;
use vstd::arithmetic::power2::*;
use vstd::prelude::*;

verus! {

/// The sum of the counts from `lo` to before `hi`.
pub open spec fn added(steps: Seq<int>, lo: int, hi: int) -> int
    decreases hi - lo,
{
    if lo >= hi {
        0
    } else {
        added(steps, lo, hi - 1) + steps[hi - 1]
    }
}

/// The sum of the first `n` counts, each without its sign.
pub open spec fn sizes(steps: Seq<int>, n: int) -> int
    decreases n,
{
    if n <= 0 {
        0
    } else {
        sizes(steps, n - 1) + if steps[n - 1] < 0 {
            -steps[n - 1]
        } else {
            steps[n - 1]
        }
    }
}

/// Whether the prices of a series are so many steps each, of two to the power `e`
/// units, and add up exactly.
pub open spec fn in_steps(points: Seq<ChartPoint>, steps: Seq<int>, e: nat) -> bool {
    &&& steps.len() == points.len()
    &&& fits(sizes(steps, steps.len() as int))
    &&& in_range(sizes(steps, steps.len() as int) * pow2(e))
    &&& forall|i: int|
        0 <= i < points.len() ==> num::is_finite((#[trigger] points[i]).mid) && num::value(
            points[i].mid,
        ) == steps[i] * pow2(e)
}

proof fn lemma_sizes_grow(steps: Seq<int>, n: int, m: int)
    requires
        0 <= n <= m <= steps.len(),
    ensures
        0 <= sizes(steps, n) <= sizes(steps, m),
    decreases m,
{
    if n < m {
        lemma_sizes_grow(steps, n, m - 1);
    } else if n > 0 {
        lemma_sizes_grow(steps, n - 1, n - 1);
    }
}

proof fn lemma_added_within(steps: Seq<int>, lo: int, hi: int)
    requires
        0 <= lo <= hi <= steps.len(),
    ensures
        -sizes(steps, steps.len() as int) <= added(steps, lo, hi) <= sizes(
            steps,
            steps.len() as int,
        ),
        -sizes(steps, hi) <= added(steps, lo, hi) <= sizes(steps, hi),
    decreases hi - lo,
{
    lemma_sizes_grow(steps, hi, steps.len() as int);
    if lo < hi {
        lemma_added_within(steps, lo, hi - 1);
    }
}

/// What is added up stays in range.
proof fn lemma_added_in_range(points: Seq<ChartPoint>, steps: Seq<int>, e: nat, lo: int, hi: int)
    requires
        in_steps(points, steps, e),
        0 <= lo <= hi <= steps.len(),
    ensures
        fits(added(steps, lo, hi)),
        in_range(added(steps, lo, hi) * pow2(e)),
{
    let all = sizes(steps, steps.len() as int);
    let some = added(steps, lo, hi);
    lemma_added_within(steps, lo, hi);
    lemma_pow2_pos(e);
    assert(-(all * pow2(e)) <= some * pow2(e) <= all * pow2(e)) by (nonlinear_arith)
        requires
            -all <= some <= all,
            pow2(e) > 0,
    ;
}

pub proof fn lemma_added_without_first(steps: Seq<int>, lo: int, hi: int)
    requires
        0 <= lo < hi <= steps.len(),
    ensures
        added(steps, lo, hi) == steps[lo] + added(steps, lo + 1, hi),
    decreases hi - lo,
{
    if lo + 1 < hi {
        lemma_added_without_first(steps, lo, hi - 1);
    } else {
        assert(added(steps, lo, lo) == 0);
    }
}

proof fn lemma_shrunk_total(
    points: Seq<ChartPoint>,
    steps: Seq<int>,
    e: nat,
    cutoff: Num,
    lo: int,
    total: Num,
    hi: int,
)
    requires
        in_steps(points, steps, e),
        0 <= lo <= hi < points.len(),
        num::is_finite(total),
        num::value(total) == added(steps, lo, hi + 1) * pow2(e),
    ensures
        ({
            let (first, left) = chart::shrunk(points, cutoff, lo, total, hi);
            &&& lo <= first <= hi
            &&& num::is_finite(left)
            &&& num::value(left) == added(steps, first, hi + 1) * pow2(e)
        }),
    decreases hi - lo,
{
    if lo < hi && num::less(points[lo].t, cutoff) {
        lemma_added_without_first(steps, lo, hi + 1);
        lemma_added_in_range(points, steps, e, lo + 1, hi + 1);
        exact::law_multiples_subtract(
            total,
            points[lo].mid,
            added(steps, lo, hi + 1),
            steps[lo],
            e,
        );
        lemma_shrunk_total(
            points,
            steps,
            e,
            cutoff,
            lo + 1,
            num::difference(total, points[lo].mid),
            hi,
        );
    }
}

/// The running total over a window is the sum of the prices in it.
pub proof fn law_exact_totals_are_sums(
    points: Seq<ChartPoint>,
    window: Num,
    steps: Seq<int>,
    e: nat,
    n: int,
)
    requires
        in_steps(points, steps, e),
        0 <= n <= points.len(),
    ensures
        ({
            let (lo, total) = chart::rolled(points, window, n);
            &&& 0 <= lo <= n
            &&& n > 0 ==> lo < n
            &&& num::is_finite(total)
            &&& num::value(total) == added(steps, lo, n) * pow2(e)
        }),
    decreases n,
{
    if n == 0 {
        assert(num::units(0) == 0 * pow2(0));
        assert(0 * pow2(0) == 0);
        assert(0 * pow2(e) == 0);
    } else {
        law_exact_totals_are_sums(points, window, steps, e, n - 1);
        let (lo, total) = chart::rolled(points, window, n - 1);
        let p = points[n - 1];
        lemma_added_in_range(points, steps, e, lo, n);
        exact::law_multiples_add(total, p.mid, added(steps, lo, n - 1), steps[n - 1], e);
        lemma_shrunk_total(
            points,
            steps,
            e,
            num::difference(p.t, window),
            lo,
            num::sum(total, p.mid),
            n - 1,
        );
    }
}

/// The mean of the prices from `lo` to before `hi`, rounded once.
pub open spec fn mean(steps: Seq<int>, e: nat, lo: int, hi: int) -> Num {
    num::rounded(added(steps, lo, hi) * pow2(e), hi - lo, false)
}

/// An average is the mean of the prices in its window, rounded once.
pub proof fn law_exact_averages_are_means(
    points: Seq<ChartPoint>,
    window: Num,
    steps: Seq<int>,
    e: nat,
    n: int,
)
    requires
        in_steps(points, steps, e),
        0 < n <= points.len(),
        fits(n),
        num::at_most(window, num::difference(points[n - 1].t, points[0].t)),
    ensures
        chart::averages(points, window, n).len() > 0,
        num::same(
            chart::averages(points, window, n).last().1,
            mean(steps, e, chart::rolled(points, window, n).0, n),
        ),
{
    law_exact_totals_are_sums(points, window, steps, e, n);
    let (lo, total) = chart::rolled(points, window, n);
    exact::lemma_quotient_rounds(total, n - lo);
}

proof fn lemma_added_between(
    points: Seq<ChartPoint>,
    steps: Seq<int>,
    e: nat,
    lo: int,
    hi: int,
    low: Num,
    high: Num,
)
    requires
        in_steps(points, steps, e),
        0 <= lo <= hi <= points.len(),
        num::is_finite(low),
        num::is_finite(high),
        forall|i: int|
            lo <= i < hi ==> num::at_most(low, (#[trigger] points[i]).mid) && num::at_most(
                points[i].mid,
                high,
            ),
    ensures
        num::value(low) * (hi - lo) <= added(steps, lo, hi) * pow2(e),
        added(steps, lo, hi) * pow2(e) <= num::value(high) * (hi - lo),
    decreases hi - lo,
{
    if lo < hi {
        lemma_added_between(points, steps, e, lo, hi - 1, low, high);
        let p = points[hi - 1];
        order::lemma_order_of_values(low, p.mid);
        order::lemma_order_of_values(p.mid, high);
        let s = added(steps, lo, hi - 1);
        let k = steps[hi - 1];
        assert((s + k) * pow2(e) == s * pow2(e) + k * pow2(e)) by (nonlinear_arith);
        assert(num::value(low) * (hi - lo) == num::value(low) * (hi - 1 - lo) + num::value(low))
            by (nonlinear_arith);
        assert(num::value(high) * (hi - lo) == num::value(high) * (hi - 1 - lo) + num::value(high))
            by (nonlinear_arith);
    } else {
        assert(num::value(low) * 0 == 0 && num::value(high) * 0 == 0 && 0 * pow2(e) == 0);
    }
}

/// An average is bounded by the prices that it averages.
pub proof fn law_exact_averages_are_bounded(
    points: Seq<ChartPoint>,
    window: Num,
    steps: Seq<int>,
    e: nat,
    n: int,
    low: Num,
    high: Num,
)
    requires
        in_steps(points, steps, e),
        0 < n <= points.len(),
        fits(n),
        num::at_most(window, num::difference(points[n - 1].t, points[0].t)),
        num::is_finite(low),
        num::is_finite(high),
        forall|i: int|
            chart::rolled(points, window, n).0 <= i < n ==> num::at_most(
                low,
                (#[trigger] points[i]).mid,
            ) && num::at_most(points[i].mid, high),
    ensures
        num::at_most(low, chart::averages(points, window, n).last().1),
        num::at_most(chart::averages(points, window, n).last().1, high),
{
    law_exact_totals_are_sums(points, window, steps, e, n);
    law_exact_averages_are_means(points, window, steps, e, n);
    let lo = chart::rolled(points, window, n).0;
    let sum = added(steps, lo, n) * pow2(e);
    lemma_added_between(points, steps, e, lo, n, low, high);
    order::lemma_rounded_exact(low, false);
    order::lemma_rounded_exact(high, false);
    order::lemma_rounded_fractions(num::value(low), 1, sum, n - lo, false, false);
    order::lemma_rounded_fractions(sum, n - lo, num::value(high), 1, false, false);
}

} // verus!
