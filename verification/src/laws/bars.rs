//! What the candles of a series are, by the ticks of the series.

use crate::model::chart::{self, Candle, ChartPoint};
use crate::model::chart_laws::priced;
use crate::num::{self, Num};
use vstd::prelude::*;

verus! {

/// Whether two ticks fall into one bucket of time.
pub open spec fn together(p: ChartPoint, q: ChartPoint, bucket: Num) -> bool {
    num::same(chart::bucket_start(p.t, bucket), chart::bucket_start(q.t, bucket))
}

/// Whether the ticks of a series that belong to bar `k` are those from `first` to
/// `last`.
pub open spec fn are_its_ticks(
    points: Seq<ChartPoint>,
    bucket: Num,
    k: int,
    first: int,
    last: int,
) -> bool {
    &&& 0 <= first <= last < points.len()
    &&& forall|i: int|
        0 <= i < points.len() ==> (#[trigger] chart::bar_of(points, bucket, i) == k <==> first <= i
            <= last)
}

/// Whether a bar opens with tick `first`, closes with tick `last`, and counts what
/// lies between.
pub open spec fn spans(
    c: Candle,
    points: Seq<ChartPoint>,
    bucket: Num,
    first: int,
    last: int,
) -> bool {
    &&& c.t == chart::bucket_start(points[first].t, bucket)
    &&& c.open == points[first].mid
    &&& c.close == points[last].mid
    &&& c.ticks == last - first + 1
    &&& forall|i: int| first < i <= last ==> together(points[first], #[trigger] points[i], bucket)
}

/// Whether the high and the low of a bar are prices of ticks from `first` to
/// `last`, and no tick among them lies outside the two.
pub open spec fn bounds(c: Candle, points: Seq<ChartPoint>, first: int, last: int) -> bool {
    &&& exists|i: int| first <= i <= last && c.high == (#[trigger] points[i]).mid
    &&& exists|i: int| first <= i <= last && c.low == (#[trigger] points[i]).mid
    &&& forall|i: int|
        first <= i <= last ==> num::at_most(c.low, (#[trigger] points[i]).mid) && num::at_most(
            points[i].mid,
            c.high,
        )
}

proof fn lemma_bars_grow(points: Seq<ChartPoint>, bucket: Num, i: int)
    requires
        0 <= i < points.len(),
    ensures
        0 <= chart::bar_of(points, bucket, i) < chart::bars(points, bucket).len(),
        i == points.len() - 1 ==> chart::bar_of(points, bucket, i) == chart::bars(
            points,
            bucket,
        ).len() - 1,
        i < points.len() - 1 ==> chart::bar_of(points, bucket, i) == chart::bar_of(
            points.drop_last(),
            bucket,
            i,
        ),
    decreases points.len(),
{
    if i == points.len() - 1 {
        assert(points.take(i + 1) =~= points);
    } else {
        let rest = points.drop_last();
        assert(points.take(i + 1) =~= rest.take(i + 1));
        lemma_bars_grow(rest, bucket, i);
    }
}

/// Each bar has a run of ticks of its own. It starts with their bucket, opens with
/// the first of them, closes with the last and counts them; they all fall into one
/// bucket; and where all prices are numbers, its high and low are the extremes
/// among them.
pub proof fn law_a_bar_is_of_its_own_ticks(
    points: Seq<ChartPoint>,
    bucket: Num,
    k: int,
) -> (run: (int, int))
    requires
        points.len() <= usize::MAX,
        0 <= k < chart::bars(points, bucket).len(),
    ensures
        are_its_ticks(points, bucket, k, run.0, run.1),
        spans(chart::bars(points, bucket)[k], points, bucket, run.0, run.1),
        priced(points) ==> bounds(chart::bars(points, bucket)[k], points, run.0, run.1),
    decreases points.len(),
{
    let bars = chart::bars(points, bucket);
    let rest = points.drop_last();
    let n = points.len() - 1;
    let p = points[n];
    let old = chart::bars(rest, bucket);
    let start = chart::bucket_start(p.t, bucket);
    assert forall|i: int| 0 <= i < points.len() implies {
        &&& 0 <= #[trigger] chart::bar_of(points, bucket, i) < bars.len()
        &&& i == n ==> chart::bar_of(points, bucket, i) == bars.len() - 1
        &&& i < n ==> chart::bar_of(points, bucket, i) == chart::bar_of(rest, bucket, i)
    } by {
        lemma_bars_grow(points, bucket, i);
    }
    assert forall|i: int| 0 <= i < n implies 0 <= #[trigger] chart::bar_of(rest, bucket, i)
        < old.len() by {
        lemma_bars_grow(rest, bucket, i);
    }
    assert(forall|i: int| 0 <= i < n ==> #[trigger] rest[i] == points[i]);
    if k < old.len() {
        let run = law_a_bar_is_of_its_own_ticks(rest, bucket, k);
        if old.len() > 0 && num::same(old.last().t, start) && k == old.len() - 1 {
            lemma_bars_grow(rest, bucket, n - 1);
            lemma_run_grows(points, bucket, old[k], run.0);
            (run.0, n)
        } else {
            assert(bars[k] == old[k]);
            lemma_run_stays(points, bucket, old[k], run.0, run.1);
            run
        }
    } else {
        assert(points[n].mid == p.mid);
        (n, n)
    }
}

proof fn lemma_run_stays(
    points: Seq<ChartPoint>,
    bucket: Num,
    c: Candle,
    first: int,
    last: int,
)
    requires
        0 <= first <= last < points.len() - 1,
        spans(c, points.drop_last(), bucket, first, last),
        priced(points) ==> bounds(c, points.drop_last(), first, last),
    ensures
        spans(c, points, bucket, first, last),
        priced(points) ==> bounds(c, points, first, last),
{
    let rest = points.drop_last();
    assert forall|i: int| first < i <= last implies together(
        points[first],
        #[trigger] points[i],
        bucket,
    ) by {
        assert(rest[i] == points[i]);
    }
    if priced(points) {
        let h = choose|i: int| first <= i <= last && c.high == (#[trigger] rest[i]).mid;
        let l = choose|i: int| first <= i <= last && c.low == (#[trigger] rest[i]).mid;
        assert(points[h] == rest[h]);
        assert(points[l] == rest[l]);
        assert forall|i: int| first <= i <= last implies num::at_most(
            c.low,
            (#[trigger] points[i]).mid,
        ) && num::at_most(points[i].mid, c.high) by {
            assert(rest[i] == points[i]);
        }
    }
}

proof fn lemma_run_grows(points: Seq<ChartPoint>, bucket: Num, c: Candle, first: int)
    requires
        0 <= first < points.len() - 1,
        points.len() <= usize::MAX,
        spans(c, points.drop_last(), bucket, first, points.len() - 2),
        priced(points) ==> bounds(c, points.drop_last(), first, points.len() - 2),
        num::same(c.t, chart::bucket_start(points.last().t, bucket)),
    ensures
        spans(
            chart::extended(c, points.last().mid),
            points,
            bucket,
            first,
            points.len() - 1,
        ),
        priced(points) ==> bounds(
            chart::extended(c, points.last().mid),
            points,
            first,
            points.len() - 1,
        ),
{
    let n = points.len() - 1;
    let d = chart::extended(c, points[n].mid);
    lemma_run_stays(points, bucket, c, first, n - 1);
    if priced(points) {
        let h = choose|i: int| first <= i <= n - 1 && c.high == (#[trigger] points[i]).mid;
        let l = choose|i: int| first <= i <= n - 1 && c.low == (#[trigger] points[i]).mid;
        assert(!num::is_nan(points[h].mid) && !num::is_nan(points[l].mid) && !num::is_nan(
            points[n].mid,
        ));
        assert(d.high == points[h].mid || d.high == points[n].mid);
        assert(d.low == points[l].mid || d.low == points[n].mid);
        assert forall|i: int| first <= i <= n implies num::at_most(
            d.low,
            (#[trigger] points[i]).mid,
        ) && num::at_most(points[i].mid, d.high) by {
        }
    }
}

/// Two ticks next to each other share a bar just where they fall into one bucket,
/// and the later one opens the next bar where they do not.
pub proof fn law_bars_change_with_the_bucket(points: Seq<ChartPoint>, bucket: Num, i: int)
    requires
        points.len() <= usize::MAX,
        0 < i < points.len(),
    ensures
        chart::bar_of(points, bucket, 0) == 0,
        together(points[i - 1], points[i], bucket) ==> chart::bar_of(points, bucket, i)
            == chart::bar_of(points, bucket, i - 1),
        !together(points[i - 1], points[i], bucket) ==> chart::bar_of(points, bucket, i)
            == chart::bar_of(points, bucket, i - 1) + 1,
        chart::bars(points, bucket).len() == chart::bar_of(points, bucket, points.len() - 1) + 1,
{
    lemma_bars_grow(points, bucket, points.len() - 1);
    let head = points.take(i + 1);
    let less = points.take(i);
    assert(head.drop_last() =~= less);
    assert(less.len() == i);
    lemma_bars_grow(less, bucket, i - 1);
    assert(less.take(i) =~= less);
    let k = chart::bars(less, bucket).len() - 1;
    let run = law_a_bar_is_of_its_own_ticks(less, bucket, k);
    assert(chart::bar_of(less, bucket, i - 1) == k);
    assert(run.1 == i - 1);
    let c = chart::bars(less, bucket)[k];
    assert(run.0 < i - 1 ==> together(less[run.0], less[i - 1], bucket));
    assert(less[i - 1] == points[i - 1]);
    let one = points.take(1);
    assert(one.drop_last() =~= Seq::empty());
    assert(chart::bars(one.drop_last(), bucket).len() == 0);
}

} // verus!
