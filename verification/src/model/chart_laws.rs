//! What holds of candles, moving averages and bucket widths.

use crate::model::chart::{self, Candle, ChartPoint};
use crate::num::{self, Num};
use crate::order;
use vstd::prelude::*;

verus! {

/// Whether every price is a number.
pub open spec fn priced(points: Seq<ChartPoint>) -> bool {
    forall|i: int| 0 <= i < points.len() ==> !num::is_nan((#[trigger] points[i]).mid)
}

/// Whether every time is finite.
pub open spec fn timed(points: Seq<ChartPoint>) -> bool {
    forall|i: int| 0 <= i < points.len() ==> num::is_finite((#[trigger] points[i]).t)
}

/// Whether no point is earlier than one before it.
pub open spec fn in_order(points: Seq<ChartPoint>) -> bool {
    forall|i: int, j: int|
        0 <= i <= j < points.len() ==> num::at_most(
            (#[trigger] points[i]).t,
            (#[trigger] points[j]).t,
        )
}

/// Whether a bar is one: its low is the floor of it, and its high the ceiling.
pub open spec fn is_bar(c: Candle) -> bool {
    &&& num::at_most(c.low, c.open)
    &&& num::at_most(c.low, c.close)
    &&& num::at_most(c.open, c.high)
    &&& num::at_most(c.close, c.high)
    &&& num::at_most(c.low, c.high)
}

/// Every tick is in one bar, and no bar is without one.
pub proof fn law_every_tick_is_in_one_bar(points: Seq<ChartPoint>, bucket: Num)
    requires
        points.len() <= usize::MAX,
    ensures
        chart::ticks_in(chart::bars(points, bucket)) == points.len(),
        chart::bars(points, bucket).len() <= points.len(),
        forall|i: int|
            0 <= i < chart::bars(points, bucket).len() ==> (#[trigger] chart::bars(
                points,
                bucket,
            )[i]).ticks >= 1,
    decreases points.len(),
{
    if points.len() > 0 {
        let before = chart::bars(points.drop_last(), bucket);
        let all = chart::bars(points, bucket);
        law_every_tick_is_in_one_bar(points.drop_last(), bucket);
        if all.len() == before.len() {
            assert(all.drop_last() =~= before.drop_last());
            lemma_part_of_all(before);
        } else {
            assert(all.drop_last() =~= before);
        }
    }
}

proof fn lemma_part_of_all(bs: Seq<Candle>)
    requires
        bs.len() > 0,
    ensures
        bs.last().ticks <= chart::ticks_in(bs),
{
    lemma_ticks_positive(bs.drop_last());
}

proof fn lemma_ticks_positive(bs: Seq<Candle>)
    ensures
        0 <= chart::ticks_in(bs),
    decreases bs.len(),
{
    if bs.len() > 0 {
        lemma_ticks_positive(bs.drop_last());
    }
}

/// Every bar is one.
pub proof fn law_bars_are_valid(points: Seq<ChartPoint>, bucket: Num)
    requires
        priced(points),
    ensures
        forall|i: int|
            0 <= i < chart::bars(points, bucket).len() ==> is_bar(
                #[trigger] chart::bars(points, bucket)[i],
            ),
    decreases points.len(),
{
    if points.len() > 0 {
        assert forall|i: int| 0 <= i < points.drop_last().len() implies !num::is_nan(
            (#[trigger] points.drop_last()[i]).mid,
        ) by {
            assert(points.drop_last()[i] == points[i]);
        }
        law_bars_are_valid(points.drop_last(), bucket);
        let before = chart::bars(points.drop_last(), bucket);
        if before.len() > 0 {
            assert(is_bar(before[before.len() - 1]));
        }
    }
}

/// A tick lies in the bar that it belongs to: between the low and the high of
/// it, and in the bucket that it starts.
pub proof fn law_tick_lies_in_its_bar(points: Seq<ChartPoint>, bucket: Num, i: int)
    requires
        priced(points),
        0 <= i < points.len(),
    ensures
        ({
            let all = chart::bars(points, bucket);
            let k = chart::bar_of(points, bucket, i);
            let start = chart::bucket_start(points[i].t, bucket);
            &&& 0 <= k < all.len()
            &&& num::at_most(all[k].low, points[i].mid)
            &&& num::at_most(points[i].mid, all[k].high)
            &&& all[k].t == start || num::same(all[k].t, start)
        }),
    decreases points.len(),
{
    let rest = points.drop_last();
    let before = chart::bars(rest, bucket);
    let all = chart::bars(points, bucket);
    assert(priced(rest)) by {
        assert forall|j: int| 0 <= j < rest.len() implies !num::is_nan(
            (#[trigger] rest[j]).mid,
        ) by {
            assert(rest[j] == points[j]);
        }
    }
    law_bars_are_valid(rest, bucket);
    law_bars_are_valid(points, bucket);
    if i == points.len() - 1 {
        assert(points.take(i + 1) =~= points);
        if before.len() > 0 {
            assert(is_bar(before[before.len() - 1]));
        }
        assert(all.len() > 0);
        assert(is_bar(all[all.len() - 1]));
    } else {
        law_tick_lies_in_its_bar(rest, bucket, i);
        assert(rest.take(i + 1) =~= points.take(i + 1));
        let k = chart::bar_of(points, bucket, i);
        assert(is_bar(before[k]));
    }
}

/// What the open, high, low and close of a bar are, are prices of ticks, and it
/// starts where the bucket of a tick does.
pub open spec fn is_of_ticks(c: Candle, points: Seq<ChartPoint>, bucket: Num) -> bool {
    &&& exists|j: int| 0 <= j < points.len() && c.open == (#[trigger] points[j]).mid
    &&& exists|j: int| 0 <= j < points.len() && c.high == (#[trigger] points[j]).mid
    &&& exists|j: int| 0 <= j < points.len() && c.low == (#[trigger] points[j]).mid
    &&& exists|j: int| 0 <= j < points.len() && c.close == (#[trigger] points[j]).mid
    &&& exists|j: int|
        0 <= j < points.len() && c.t == chart::bucket_start((#[trigger] points[j]).t, bucket)
}

proof fn lemma_of_more_ticks(c: Candle, points: Seq<ChartPoint>, bucket: Num)
    requires
        points.len() > 0,
        is_of_ticks(c, points.drop_last(), bucket),
    ensures
        is_of_ticks(c, points, bucket),
{
    let rest = points.drop_last();
    let a = choose|j: int| 0 <= j < rest.len() && c.open == (#[trigger] rest[j]).mid;
    let b = choose|j: int| 0 <= j < rest.len() && c.high == (#[trigger] rest[j]).mid;
    let d = choose|j: int| 0 <= j < rest.len() && c.low == (#[trigger] rest[j]).mid;
    let e = choose|j: int| 0 <= j < rest.len() && c.close == (#[trigger] rest[j]).mid;
    let f = choose|j: int|
        0 <= j < rest.len() && c.t == chart::bucket_start((#[trigger] rest[j]).t, bucket);
    assert(c.open == points[a].mid);
    assert(c.high == points[b].mid);
    assert(c.low == points[d].mid);
    assert(c.close == points[e].mid);
    assert(c.t == chart::bucket_start(points[f].t, bucket));
}

/// Bars hold nothing that was not traded: every price in one is that of a tick.
pub proof fn law_bars_are_made_of_ticks(points: Seq<ChartPoint>, bucket: Num)
    ensures
        forall|i: int|
            0 <= i < chart::bars(points, bucket).len() ==> is_of_ticks(
                #[trigger] chart::bars(points, bucket)[i],
                points,
                bucket,
            ),
    decreases points.len(),
{
    if points.len() > 0 {
        let rest = points.drop_last();
        let before = chart::bars(rest, bucket);
        let all = chart::bars(points, bucket);
        law_bars_are_made_of_ticks(rest, bucket);
        let n = points.len() - 1;
        assert forall|i: int| 0 <= i < all.len() implies is_of_ticks(
            #[trigger] all[i],
            points,
            bucket,
        ) by {
            if i < before.len() {
                assert(is_of_ticks(before[i], rest, bucket));
                lemma_of_more_ticks(before[i], points, bucket);
            }
            if i == all.len() - 1 {
                assert(points[n].mid == points.last().mid);
            }
        }
    }
}

/// The first bar opens with the first tick, and the last one closes with the
/// last.
pub proof fn law_ends_survive(points: Seq<ChartPoint>, bucket: Num)
    requires
        points.len() > 0,
    ensures
        chart::bars(points, bucket).len() > 0,
        chart::bars(points, bucket)[0].open == points[0].mid,
        chart::bars(points, bucket).last().close == points.last().mid,
    decreases points.len(),
{
    let before = chart::bars(points.drop_last(), bucket);
    if points.len() > 1 {
        law_ends_survive(points.drop_last(), bucket);
        assert(points.drop_last()[0] == points[0]);
    } else {
        assert(before.len() == 0);
    }
}

/// The buckets of later times do not start earlier.
proof fn lemma_start_keeps_order(t: Num, t2: Num, bucket: Num)
    requires
        num::at_most(t, t2),
        num::is_finite(bucket),
        num::less(num::zero(), bucket),
    ensures
        num::at_most(chart::bucket_start(t, bucket), chart::bucket_start(t2, bucket)),
{
    order::lemma_quotient_keeps_order(t, t2, bucket);
    order::lemma_floor_keeps_order(num::quotient(t, bucket), num::quotient(t2, bucket));
    order::lemma_product_keeps_order(
        num::floored(num::quotient(t, bucket)),
        num::floored(num::quotient(t2, bucket)),
        bucket,
    );
}

/// The bars of a series in order are in order, and no two start together.
pub proof fn law_bars_are_in_order(points: Seq<ChartPoint>, bucket: Num)
    requires
        in_order(points),
        num::is_finite(bucket),
        num::less(num::zero(), bucket),
    ensures
        forall|i: int, j: int|
            0 <= i < j < chart::bars(points, bucket).len() ==> num::less(
                (#[trigger] chart::bars(points, bucket)[i]).t,
                (#[trigger] chart::bars(points, bucket)[j]).t,
            ),
        points.len() > 0 ==> chart::bars(points, bucket).len() > 0 && num::at_most(
            chart::bars(points, bucket).last().t,
            chart::bucket_start(points.last().t, bucket),
        ),
    decreases points.len(),
{
    if points.len() > 0 {
        let rest = points.drop_last();
        let before = chart::bars(rest, bucket);
        let all = chart::bars(points, bucket);
        let n = points.len() - 1;
        let start = chart::bucket_start(points[n].t, bucket);
        lemma_start_keeps_order(points[n].t, points[n].t, bucket);
        if rest.len() > 0 {
            assert(in_order(rest)) by {
                assert forall|i: int, j: int| 0 <= i <= j < rest.len() implies num::at_most(
                    (#[trigger] rest[i]).t,
                    (#[trigger] rest[j]).t,
                ) by {
                    assert(rest[i] == points[i]);
                    assert(rest[j] == points[j]);
                }
            }
            law_bars_are_in_order(rest, bucket);
            assert(num::at_most(points[n - 1].t, points[n].t));
            lemma_start_keeps_order(points[n - 1].t, points[n].t, bucket);
        }
    }
}

/// The window that ends at a point of a series in order holds just the points
/// that are not older than it is long.
pub proof fn law_window_holds_the_trailing_points(points: Seq<ChartPoint>, window: Num, n: int)
    requires
        in_order(points),
        !num::is_nan(window),
        num::rank(window) >= 0,
        0 < n <= points.len(),
        num::is_finite(window) || timed(points),
    ensures
        ({
            let lo = chart::rolled(points, window, n).0;
            let cutoff = num::difference(points[n - 1].t, window);
            &&& 0 <= lo < n
            &&& forall|i: int| 0 <= i < lo ==> num::less((#[trigger] points[i]).t, cutoff)
            &&& forall|i: int| lo <= i < n ==> num::at_most(cutoff, (#[trigger] points[i]).t)
        }),
    decreases n,
{
    let (lo, total) = chart::rolled(points, window, n - 1);
    let cutoff = num::difference(points[n - 1].t, window);
    order::lemma_negated(window);
    assert(num::at_most(points[n - 1].t, points[n - 1].t));
    if num::is_finite(window) {
        order::lemma_sum_keeps_order(points[n - 1].t, points[n - 1].t, num::negated(window));
    }
    order::lemma_difference_at_most(points[n - 1].t, window);
    if n > 1 {
        law_window_holds_the_trailing_points(points, window, n - 1);
        assert(num::at_most(points[n - 2].t, points[n - 1].t));
        if num::is_finite(window) {
            order::lemma_sum_keeps_order(
                points[n - 2].t,
                points[n - 1].t,
                num::negated(window),
            );
        } else {
            assert(num::is_finite(points[n - 2].t));
        }
        let earlier = num::difference(points[n - 2].t, window);
        assert(num::at_most(earlier, cutoff));
    }
    lemma_shrunk(points, cutoff, lo, num::sum(total, points[n - 1].mid), n - 1);
}

proof fn lemma_shrunk(points: Seq<ChartPoint>, cutoff: Num, lo: int, total: Num, hi: int)
    requires
        in_order(points),
        0 <= lo <= hi < points.len(),
        !num::is_nan(cutoff),
        forall|i: int| 0 <= i < lo ==> num::less((#[trigger] points[i]).t, cutoff),
        num::at_most(cutoff, points[hi].t),
    ensures
        ({
            let r = chart::shrunk(points, cutoff, lo, total, hi).0;
            &&& 0 <= r <= hi
            &&& forall|i: int| 0 <= i < r ==> num::less((#[trigger] points[i]).t, cutoff)
            &&& forall|i: int| r <= i <= hi ==> num::at_most(cutoff, (#[trigger] points[i]).t)
        }),
    decreases hi - lo,
{
    if lo < hi && num::less(points[lo].t, cutoff) {
        lemma_shrunk(points, cutoff, lo + 1, num::difference(total, points[lo].mid), hi);
    } else {
        assert forall|i: int| lo <= i <= hi implies num::at_most(
            cutoff,
            (#[trigger] points[i]).t,
        ) by {
            assert(num::at_most(points[lo].t, points[i].t));
        }
    }
}

/// An average stands at a point of the series, and only where the series covers
/// its window in full.
pub proof fn law_averages_need_a_full_window(points: Seq<ChartPoint>, window: Num, n: int)
    requires
        0 <= n <= points.len(),
    ensures
        chart::averages(points, window, n).len() <= n,
        forall|k: int|
            0 <= k < chart::averages(points, window, n).len() ==> num::at_most(
                window,
                num::difference((#[trigger] chart::averages(points, window, n)[k]).0, points[0].t),
            ),
    decreases n,
{
    if n > 0 {
        law_averages_need_a_full_window(points, window, n - 1);
    }
}

/// A series in order that is shorter than the window has no average at all.
pub proof fn law_short_series_has_no_average(points: Seq<ChartPoint>, window: Num, n: int)
    requires
        in_order(points),
        0 <= n <= points.len(),
        points.len() > 0,
        num::less(num::difference(points.last().t, points[0].t), window),
    ensures
        chart::averages(points, window, n).len() == 0,
    decreases n,
{
    if n > 0 {
        law_short_series_has_no_average(points, window, n - 1);
        let first = points[0].t;
        let last = points[points.len() - 1].t;
        assert(num::at_most(first, points[n - 1].t));
        assert(num::at_most(points[n - 1].t, last));
        assert(num::at_most(first, last));
        order::lemma_negated(first);
        order::lemma_sum_keeps_order(points[n - 1].t, last, num::negated(first));
    }
}

/// A narrower ideal never asks for a wider bucket.
proof fn lemma_width_keeps_order(i: int, ideal: Num, ideal2: Num, least: Num)
    requires
        0 <= i <= 13,
        num::at_most(ideal, ideal2) || (num::is_nan(ideal) && num::is_nan(ideal2)),
    ensures
        num::at_most(
            chart::width_from(i, ideal, least),
            chart::width_from(i, ideal2, least),
        ),
    decreases 13 - i,
{
    order::lemma_whole_keeps_order(7_776_000, 7_776_000);
    if i < 13 {
        lemma_width_keeps_order(i + 1, ideal, ideal2, least);
        lemma_width_at_least(i, ideal2, least);
        let w = num::whole(chart::widths()[i] as int);
        if num::at_most(ideal2, w) && num::at_most(least, w) {
            assert(num::at_most(ideal, w));
        }
        order::lemma_whole_keeps_order(
            chart::widths()[i] as int,
            chart::widths()[i] as int,
        );
    }
}

proof fn lemma_width_at_least(i: int, ideal: Num, least: Num)
    requires
        0 <= i <= 13,
    ensures
        num::at_most(
            num::whole(chart::widths()[i] as int),
            chart::width_from(i, ideal, least),
        ),
    decreases 13 - i,
{
    order::lemma_whole_keeps_order(chart::widths()[i] as int, chart::widths()[i] as int);
    if i < 13 {
        lemma_width_at_least(i + 1, ideal, least);
        order::lemma_whole_keeps_order(
            chart::widths()[i] as int,
            chart::widths()[i + 1] as int,
        );
    }
}

/// Asking for fewer bars never gives a finer bucket.
pub proof fn law_fewer_bars_are_never_finer(points: Seq<ChartPoint>, fewer: int, more: int)
    requires
        0 < fewer <= more <= usize::MAX,
    ensures
        num::at_most(chart::auto_width(points, more), chart::auto_width(points, fewer)),
{
    let seconds = num::product(chart::span(points), chart::day());
    order::lemma_whole_sign(fewer);
    order::lemma_whole_sign(more);
    order::lemma_whole_sign(86_400);
    order::lemma_whole_keeps_order(fewer, more);
    if !num::at_most(seconds, num::zero()) {
        if num::is_finite(seconds) {
            order::lemma_larger_divisor(seconds, num::whole(fewer), num::whole(more));
        }
        let least = match chart::median_gap(points) {
            Some(g) => g,
            None => num::zero(),
        };
        lemma_width_keeps_order(
            0,
            num::quotient(seconds, num::whole(more)),
            num::quotient(seconds, num::whole(fewer)),
            least,
        );
    }
}

proof fn lemma_width_covers(i: int, ideal: Num, least: Num)
    requires
        0 <= i <= 13,
        !num::is_nan(least),
    ensures
        num::at_most(least, chart::width_from(i, ideal, least)),
    decreases 13 - i,
{
    order::lemma_whole_sign(7_776_000);
    if i < 13 {
        lemma_width_covers(i + 1, ideal, least);
    }
}

/// No bucket is finer than the series. A median that is not a number, which takes
/// a time that is not finite, is no measure of one.
pub proof fn law_bucket_is_not_finer_than_the_series(points: Seq<ChartPoint>, target: int)
    requires
        points.len() >= 2,
        target > 0,
        !num::at_most(num::product(chart::span(points), chart::day()), num::zero()),
        !num::is_nan(chart::median_gap(points)->0),
    ensures
        num::at_most(chart::median_gap(points)->0, chart::auto_width(points, target)),
{
    let seconds = num::product(chart::span(points), chart::day());
    lemma_width_covers(
        0,
        num::quotient(seconds, num::whole(target)),
        chart::median_gap(points)->0,
    );
}

/// Whether numbers are in ascending order.
pub open spec fn ascending(s: Seq<Num>) -> bool {
    forall|i: int, j: int|
        0 <= i <= j < s.len() ==> num::at_most(#[trigger] s[i], #[trigger] s[j])
}

proof fn lemma_placed(s: Seq<Num>, x: Num)
    requires
        ascending(s),
        !num::is_nan(x),
    ensures
        ascending(chart::placed(s, x)),
        chart::placed(s, x).to_multiset() == s.to_multiset().insert(x),
        chart::placed(s, x).len() == s.len() + 1,
    decreases s.len(),
{
    broadcast use vstd::seq_lib::group_to_multiset_ensures;

    if s.len() == 0 || num::at_most(s.last(), x) {
        let r = s.push(x);
        assert forall|i: int, j: int| 0 <= i <= j < r.len() implies num::at_most(
            #[trigger] r[i],
            #[trigger] r[j],
        ) by {
            if i < s.len() {
                assert(num::at_most(s[i], s[s.len() - 1]));
            }
        }
    } else {
        let rest = s.drop_last();
        let top = s.last();
        assert(num::at_most(s[s.len() - 1], s[s.len() - 1]));
        assert(ascending(rest)) by {
            assert forall|i: int, j: int| 0 <= i <= j < rest.len() implies num::at_most(
                #[trigger] rest[i],
                #[trigger] rest[j],
            ) by {
                assert(num::at_most(s[i], s[j]));
            }
        }
        lemma_placed(rest, x);
        let inner = chart::placed(rest, x);
        let r = inner.push(top);
        lemma_all_below(rest, x, top, s);
        assert forall|i: int, j: int| 0 <= i <= j < r.len() implies num::at_most(
            #[trigger] r[i],
            #[trigger] r[j],
        ) by {
            if j < inner.len() {
                assert(num::at_most(inner[i], inner[j]));
            } else if i < inner.len() {
                assert(inner.to_multiset().contains(inner[i]));
            }
        }
        assert(rest.push(top) =~= s);
        assert(r.to_multiset() =~= s.to_multiset().insert(x));
    }
}

proof fn lemma_all_below(rest: Seq<Num>, x: Num, top: Num, s: Seq<Num>)
    requires
        s.len() > 0,
        rest == s.drop_last(),
        top == s.last(),
        ascending(s),
        num::less(x, top),
        chart::placed(rest, x).to_multiset() == rest.to_multiset().insert(x),
    ensures
        forall|v: Num| #[trigger]
            chart::placed(rest, x).to_multiset().contains(v) ==> num::at_most(v, top),
{
    broadcast use vstd::seq_lib::group_to_multiset_ensures;

    assert forall|v: Num| #[trigger]
        chart::placed(rest, x).to_multiset().contains(v) implies num::at_most(v, top) by {
        if v != x {
            assert(rest.to_multiset().contains(v));
            assert(rest.contains(v));
            let i = choose|i: int| 0 <= i < rest.len() && rest[i] == v;
            assert(num::at_most(s[i], s[s.len() - 1]));
        }
    }
}

/// The gaps that the median is taken of are the gaps of the series, in ascending
/// order.
pub proof fn law_gaps_are_sorted(gaps: Seq<Num>)
    requires
        forall|i: int| 0 <= i < gaps.len() ==> !num::is_nan(#[trigger] gaps[i]),
    ensures
        ascending(chart::sorted(gaps)),
        chart::sorted(gaps).to_multiset() == gaps.to_multiset(),
        chart::sorted(gaps).len() == gaps.len(),
    decreases gaps.len(),
{
    broadcast use vstd::seq_lib::group_to_multiset_ensures;

    if gaps.len() > 0 {
        let rest = gaps.drop_last();
        assert forall|i: int| 0 <= i < rest.len() implies !num::is_nan(#[trigger] rest[i]) by {
            assert(rest[i] == gaps[i]);
        }
        law_gaps_are_sorted(rest);
        lemma_placed(chart::sorted(rest), gaps.last());
        assert(rest.push(gaps.last()) =~= gaps);
    }
}

/// The gaps of a series whose times are finite are numbers, and so is their
/// median.
pub proof fn law_finite_times_are_measurable(points: Seq<ChartPoint>)
    requires
        timed(points),
    ensures
        chart::is_measurable(points),
        points.len() >= 2 ==> !num::is_nan(chart::median_gap(points)->0),
{
    assert forall|i: int| 0 <= i < points.len() - 1 implies !num::is_nan(
        #[trigger] chart::gap(points, i),
    ) by {
        order::lemma_positive_difference(points[i + 1].t, points[i].t);
    }
    if points.len() >= 2 {
        let gaps = chart::gaps(points);
        assert forall|i: int| 0 <= i < gaps.len() implies !num::is_nan(#[trigger] gaps[i]) by {
            assert(gaps[i] == chart::gap(points, i));
        }
        law_gaps_are_sorted(gaps);
        let k = (points.len() - 1) / 2;
        assert(num::at_most(chart::sorted(gaps)[k], chart::sorted(gaps)[k]));
    }
}

} // verus!
