//! Which points a moving average has, and what it is the mean of.

use crate::exact::fits;
use crate::model::average_error::{self, law_averages_are_means_to_nine_decimals, within};
use crate::model::average_laws::{added, in_steps, law_exact_averages_are_means};
use crate::model::chart::{self, ChartPoint};
use crate::model::chart_laws::{in_order, law_window_holds_the_trailing_points, timed};
use crate::num::{self, Num};
use vstd::arithmetic::power2::pow2;
use vstd::prelude::*;

verus! {

/// Whether the window that ends at point `i` lies within the series.
pub open spec fn is_covered(points: Seq<ChartPoint>, window: Num, i: int) -> bool {
    num::at_most(window, num::difference(points[i].t, points[0].t))
}

/// Whether the window that ends at point `n - 1` starts at point `lo`: what is before
/// lies before the window, and what follows within it.
pub open spec fn starts_at(points: Seq<ChartPoint>, window: Num, n: int, lo: int) -> bool {
    let cutoff = num::difference(points[n - 1].t, window);
    &&& 0 <= lo < n
    &&& forall|i: int| 0 <= i < lo ==> num::less((#[trigger] points[i]).t, cutoff)
    &&& forall|i: int| lo <= i < n ==> num::at_most(cutoff, (#[trigger] points[i]).t)
}

/// There is an average at each point whose window lies within the series, at its time,
/// and no other; a longer series has the averages of the shorter one first.
pub proof fn law_each_covered_point_has_an_average(points: Seq<ChartPoint>, window: Num, n: int)
    requires
        0 < n <= points.len(),
    ensures
        ({
            let (all, before) = (
                chart::averages(points, window, n),
                chart::averages(points, window, n - 1),
            );
            &&& is_covered(points, window, n - 1) ==> all.len() == before.len() + 1
                && all.drop_last() == before && all.last().0 == points[n - 1].t
            &&& !is_covered(points, window, n - 1) ==> all == before
        }),
        chart::averages(points, window, 0).len() == 0,
{
    let before = chart::averages(points, window, n - 1);
    let all = chart::averages(points, window, n);
    if is_covered(points, window, n - 1) {
        assert(all.drop_last() =~= before);
    }
}

proof fn lemma_start(points: Seq<ChartPoint>, window: Num, n: int, lo: int)
    requires
        in_order(points),
        !num::is_nan(window),
        num::rank(window) >= 0,
        0 < n <= points.len(),
        num::is_finite(window) || timed(points),
        starts_at(points, window, n, lo),
    ensures
        chart::rolled(points, window, n).0 == lo,
{
    law_window_holds_the_trailing_points(points, window, n);
    let at = chart::rolled(points, window, n).0;
    if at < lo {
        assert(num::less(points[at].t, num::difference(points[n - 1].t, window)));
        assert(num::at_most(num::difference(points[n - 1].t, window), points[at].t));
    }
    if lo < at {
        assert(num::less(points[lo].t, num::difference(points[n - 1].t, window)));
        assert(num::at_most(num::difference(points[n - 1].t, window), points[lo].t));
    }
}

/// An average is the mean of the prices within its window, rounded once, where the
/// prices are such that they add up without rounding.
pub proof fn law_an_average_is_the_mean_of_its_window(
    points: Seq<ChartPoint>,
    window: Num,
    steps: Seq<int>,
    e: nat,
    n: int,
    lo: int,
)
    requires
        in_order(points),
        num::is_finite(window),
        num::rank(window) >= 0,
        0 < n <= points.len(),
        starts_at(points, window, n, lo),
        is_covered(points, window, n - 1),
        in_steps(points, steps, e),
        fits(n),
    ensures
        chart::averages(points, window, n).len() > 0,
        num::same(
            chart::averages(points, window, n).last().1,
            num::rounded(added(steps, lo, n) * pow2(e), n - lo, false),
        ),
{
    lemma_start(points, window, n, lo);
    law_exact_averages_are_means(points, window, steps, e, n);
}

/// Any average is the mean of the prices within its window, to nine decimals, as long
/// as the series is not too long for its prices.
pub proof fn law_an_average_is_near_the_mean_of_its_window(
    points: Seq<ChartPoint>,
    window: Num,
    j: nat,
    n: int,
    lo: int,
)
    requires
        in_order(points),
        num::is_finite(window),
        num::rank(window) >= 0,
        0 < n <= points.len(),
        starts_at(points, window, n, lo),
        is_covered(points, window, n - 1),
        within(points, 1074 + j),
        (n + lo) * (n + lo + 3) * pow2(j) <= 18_000_000 * (n - lo),
    ensures
        chart::averages(points, window, n).len() > 0,
        ({
            let average = chart::averages(points, window, n).last().1;
            let off = num::value(average) * (n - lo) - added(
                average_error::worths(points),
                lo,
                n,
            );
            -((n - lo) * num::one_units()) < 1_000_000_000 * off < (n - lo) * num::one_units()
        }),
{
    lemma_start(points, window, n, lo);
    law_averages_are_means_to_nine_decimals(points, window, j, n);
    law_each_covered_point_has_an_average(points, window, n);
}

/// What prices are worth is each price's own worth, and what is added up is each of
/// them from the first to the last.
pub proof fn law_what_is_added_up(points: Seq<ChartPoint>, lo: int, n: int)
    requires
        0 <= lo <= n < points.len(),
    ensures
        average_error::worths(points).len() == points.len(),
        average_error::worths(points)[n] == num::value(points[n].mid),
        added(average_error::worths(points), lo, n + 1) == added(
            average_error::worths(points),
            lo,
            n,
        ) + num::value(points[n].mid),
        added(average_error::worths(points), lo, lo) == 0,
{
}

} // verus!
