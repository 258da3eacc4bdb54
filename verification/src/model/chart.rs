//! Price series: candles, moving averages, and how densely a series is sampled.

use crate::json::{Json, JsonView};
use crate::laws::listings;
use crate::laws::sampling;
use crate::model::calendar::{self, parse_iso8601};
use crate::model::chart_laws;
use crate::num::{self, Num};
use crate::order;
use crate::sc::{self, array_at, number, words_else_empty};
use vstd::prelude::*;
use vstd::string::*;

verus! {

#[derive(Debug, Clone)]
pub struct ChartPoint {
    /// Seconds since 1970.
    pub t: Num,
    pub mid: Num,
    pub ts: String,
}

impl Default for ChartPoint {
    fn default() -> (r: ChartPoint)
        ensures
            r.t == num::zero(),
            r.mid == num::zero(),
            r.ts@.len() == 0,
    {
        ChartPoint {
            t: Num::zero(),
            mid: Num::zero(),
            ts: String::new(),
        }
    }
}

/// What a point is.
pub struct PointView {
    pub t: Num,
    pub mid: Num,
    pub ts: Seq<char>,
}

impl ChartPoint {
    pub open spec fn view(self) -> PointView {
        PointView { t: self.t, mid: self.mid, ts: self.ts@ }
    }
}

/// A bar over the ticks that fall into one bucket of time.
#[derive(Debug, Clone, Copy)]
pub struct Candle {
    /// The start of the bucket, in seconds since 1970.
    pub t: Num,
    pub open: Num,
    pub high: Num,
    pub low: Num,
    pub close: Num,
    pub ticks: usize,
}

impl Default for Candle {
    fn default() -> (r: Candle)
        ensures
            r.t == num::zero(),
            r.open == num::zero(),
            r.high == num::zero(),
            r.low == num::zero(),
            r.close == num::zero(),
            r.ticks == 0,
    {
        Candle {
            t: Num::zero(),
            open: Num::zero(),
            high: Num::zero(),
            low: Num::zero(),
            close: Num::zero(),
            ticks: 0,
        }
    }
}

impl Candle {
    pub fn up(&self) -> (r: bool)
        ensures
            r == num::at_most(self.open, self.close),
    {
        self.open.le(self.close)
    }
}

#[derive(Debug, Clone)]
pub struct Chart {
    pub isin: String,
    pub timeframe: String,
    pub currency: String,
    pub source: String,
    pub points: Vec<ChartPoint>,
    /// The previous close.
    pub reference: Option<Num>,
    pub reference_ts: String,
}

/// Whether two charts say the same.
pub open spec fn alike(a: Chart, b: Chart) -> bool {
    &&& a.isin@ == b.isin@
    &&& a.timeframe@ == b.timeframe@
    &&& a.currency@ == b.currency@
    &&& a.source@ == b.source@
    &&& a.points@ == b.points@
    &&& a.reference == b.reference
    &&& a.reference_ts@ == b.reference_ts@
}

/// Whether a chart says nothing but what it is of.
pub open spec fn is_blank(c: Chart, isin: Seq<char>, timeframe: Seq<char>) -> bool {
    &&& c.isin@ == isin
    &&& c.timeframe@ == timeframe
    &&& c.currency@.len() == 0
    &&& c.source@.len() == 0
    &&& c.points@.len() == 0
    &&& c.reference is None
    &&& c.reference_ts@.len() == 0
}

impl Default for Chart {
    fn default() -> (r: Chart)
        ensures
            is_blank(r, Seq::empty(), Seq::empty()),
    {
        proof {
            reveal_strlit("");
            assert(""@ =~= Seq::empty());
        }
        Chart::blank("", "")
    }
}

/// The start of the bucket that a time falls into.
pub open spec fn bucket_start(t: Num, bucket: Num) -> Num {
    num::product(num::floored(num::quotient(t, bucket)), bucket)
}

/// A bar of one tick.
pub open spec fn opened(start: Num, mid: Num) -> Candle {
    Candle { t: start, open: mid, high: mid, low: mid, close: mid, ticks: 1 }
}

/// A bar with one more tick.
pub open spec fn extended(c: Candle, mid: Num) -> Candle {
    Candle {
        high: num::larger(c.high, mid),
        low: num::smaller(c.low, mid),
        close: mid,
        ticks: (c.ticks + 1) as usize,
        ..c
    }
}

/// The bars over a series: a tick belongs to the last bar if it falls into the
/// bucket of that bar, and opens the next one if it does not.
pub open spec fn bars(points: Seq<ChartPoint>, bucket: Num) -> Seq<Candle>
    decreases points.len(),
{
    if points.len() == 0 {
        Seq::empty()
    } else {
        let before = bars(points.drop_last(), bucket);
        let p = points.last();
        let start = bucket_start(p.t, bucket);
        if before.len() > 0 && num::same(before.last().t, start) {
            before.drop_last().push(extended(before.last(), p.mid))
        } else {
            before.push(opened(start, p.mid))
        }
    }
}

/// The bar that tick `i` of a series belongs to.
pub open spec fn bar_of(points: Seq<ChartPoint>, bucket: Num, i: int) -> int {
    bars(points.take(i + 1), bucket).len() - 1
}

/// The ticks of all bars.
pub open spec fn ticks_in(bs: Seq<Candle>) -> int
    decreases bs.len(),
{
    if bs.len() == 0 {
        0
    } else {
        ticks_in(bs.drop_last()) + bs.last().ticks
    }
}

/// A day, in seconds.
pub open spec fn day() -> Num {
    num::whole(86_400)
}

/// Drops the points that lie before `cutoff` from the front of a window, which
/// keeps its last point.
pub open spec fn shrunk(
    points: Seq<ChartPoint>,
    cutoff: Num,
    lo: int,
    total: Num,
    hi: int,
) -> (int, Num)
    decreases hi - lo,
{
    if 0 <= lo < hi && num::less(points[lo].t, cutoff) {
        shrunk(points, cutoff, lo + 1, num::difference(total, points[lo].mid), hi)
    } else {
        (lo, total)
    }
}

/// The first point of the window that ends at the last of the first `n` points,
/// and the running total over the window.
pub open spec fn rolled(points: Seq<ChartPoint>, window: Num, n: int) -> (int, Num)
    decreases n,
{
    if n <= 0 {
        (0, num::zero())
    } else {
        let (lo, total) = rolled(points, window, n - 1);
        let p = points[n - 1];
        shrunk(points, num::difference(p.t, window), lo, num::sum(total, p.mid), n - 1)
    }
}

/// The averages over the windows that end at one of the first `n` points, for
/// those windows that the series covers in full.
pub open spec fn averages(points: Seq<ChartPoint>, window: Num, n: int) -> Seq<(Num, Num)>
    decreases n,
{
    if n <= 0 {
        Seq::empty()
    } else {
        let before = averages(points, window, n - 1);
        let p = points[n - 1];
        let (lo, total) = rolled(points, window, n);
        if num::at_most(window, num::difference(p.t, points[0].t)) {
            before.push((p.t, num::quotient(total, num::whole(n - lo))))
        } else {
            before
        }
    }
}

/// The pairs that arrays of two stand for.
pub open spec fn pairs(a: Seq<[Num; 2]>) -> Seq<(Num, Num)> {
    a.map_values(|p: [Num; 2]| (p@[0], p@[1]))
}

/// The gap between point `i` and the next.
pub open spec fn gap(points: Seq<ChartPoint>, i: int) -> Num {
    num::difference(points[i + 1].t, points[i].t)
}

/// The gaps between the points.
pub open spec fn gaps(points: Seq<ChartPoint>) -> Seq<Num> {
    Seq::new((points.len() - 1) as nat, |i: int| gap(points, i))
}

/// `x` put into a sorted list, behind what is equal to it.
pub open spec fn placed(s: Seq<Num>, x: Num) -> Seq<Num>
    decreases s.len(),
{
    if s.len() == 0 || num::at_most(s.last(), x) {
        s.push(x)
    } else {
        placed(s.drop_last(), x).push(s.last())
    }
}

/// A list in ascending order, equal ones in the order they were in.
pub open spec fn sorted(s: Seq<Num>) -> Seq<Num>
    decreases s.len(),
{
    if s.len() == 0 {
        s
    } else {
        placed(sorted(s.drop_last()), s.last())
    }
}

/// The middle of the gaps in ascending order.
pub open spec fn median_gap(points: Seq<ChartPoint>) -> Option<Num> {
    if points.len() < 2 {
        None
    } else {
        Some(sorted(gaps(points))[(points.len() - 1) / 2])
    }
}

/// How many gaps of a width fit into a window of so many days.
pub open spec fn per_window(gap: Option<Num>, days: Num) -> Option<Num> {
    if gap is Some && num::less(num::zero(), gap->0) {
        Some(num::quotient(num::product(days, day()), gap->0))
    } else {
        None
    }
}

/// Whether each of the gaps is a number, so that putting them in order gives an
/// ascending list.
pub open spec fn is_measurable(points: Seq<ChartPoint>) -> bool {
    forall|i: int| 0 <= i < points.len() - 1 ==> !num::is_nan(#[trigger] gap(points, i))
}

/// The span of a series, in days.
pub open spec fn span(points: Seq<ChartPoint>) -> Num {
    if points.len() == 0 {
        num::zero()
    } else {
        num::quotient(num::difference(points.last().t, points[0].t), day())
    }
}

/// The bucket widths that a trader recognises, in seconds: from a minute to
/// ninety days.
pub open spec fn widths() -> Seq<i64> {
    seq![
        60i64,
        300i64,
        900i64,
        1_800i64,
        3_600i64,
        7_200i64,
        14_400i64,
        43_200i64,
        86_400i64,
        172_800i64,
        604_800i64,
        1_209_600i64,
        2_592_000i64,
        7_776_000i64,
    ]
}

/// The first width from the `i`th on that is wide enough. Where none is, it is
/// the widest, or the least that there may be if that is wider still.
pub open spec fn width_from(i: int, ideal: Num, least: Num) -> Num
    decreases 14 - i,
{
    if i < 0 || i >= 13 {
        num::larger(num::whole(7_776_000), least)
    } else if num::at_most(ideal, num::whole(widths()[i] as int)) && num::at_most(
        least,
        num::whole(widths()[i] as int),
    ) {
        num::whole(widths()[i] as int)
    } else {
        width_from(i + 1, ideal, least)
    }
}

/// The bucket width for about `target` bars.
pub open spec fn auto_width(points: Seq<ChartPoint>, target: int) -> Num {
    let seconds = num::product(span(points), day());
    if num::at_most(seconds, num::zero()) || target == 0 {
        day()
    } else {
        width_from(
            0,
            num::quotient(seconds, num::whole(target)),
            match median_gap(points) {
                Some(g) => g,
                None => num::zero(),
            },
        )
    }
}

/// What a data point of the payload says; one without a price says nothing.
pub open spec fn point_in(v: JsonView) -> Option<PointView> {
    match sc::number_at(v, "mid_price"@) {
        Some(mid) => {
            let ts = sc::words_or_empty(v, "timestamp_utc"@);
            Some(
                PointView {
                    t: match calendar::moment(vstd::utf8::encode_utf8(ts)) {
                        Some(t) => t,
                        None => num::zero(),
                    },
                    mid,
                    ts,
                },
            )
        },
        None => None,
    }
}

/// The views of a list of points.
pub open spec fn point_views(points: Seq<ChartPoint>) -> Seq<PointView> {
    points.map_values(|p: ChartPoint| p.view())
}

/// Whether a chart is what a payload says.
pub open spec fn is_chart(c: Chart, v: JsonView) -> bool {
    &&& c.isin@ == sc::words_or_empty(v, "isin"@)
    &&& c.timeframe@ == sc::words_or_empty(v, "timeframe"@)
    &&& c.currency@ == sc::words_or_empty(v, "currency"@)
    &&& c.source@ == sc::words_or_empty(v, "source"@)
    &&& point_views(c.points@) == sc::list_at(v, "data_points"@).filter_map(
        |p: JsonView| point_in(p),
    )
    &&& c.reference == sc::number_at(v, "closing_reference_point/mid_price"@)
    &&& c.reference_ts@ == sc::words_or_empty(v, "closing_reference_point/timestamp_utc"@)
}

impl Chart {
    /// A chart of which nothing is known but what it is of.
    pub fn blank(isin: &str, timeframe: &str) -> (r: Chart)
        ensures
            is_blank(r, isin@, timeframe@),
    {
        Chart {
            isin: isin.to_owned(),
            timeframe: timeframe.to_owned(),
            currency: String::new(),
            source: String::new(),
            points: Vec::new(),
            reference: None,
            reference_ts: String::new(),
        }
    }

    /// Another chart like this one.
    pub fn copy(&self) -> (r: Chart)
        ensures
            alike(r, *self),
    {
        let mut points: Vec<ChartPoint> = Vec::new();
        for i in 0..self.points.len()
            invariant
                points@ == self.points@.take(i as int),
        {
            let p = &self.points[i];
            points.push(ChartPoint { t: p.t, mid: p.mid, ts: p.ts.clone() });
            assert(points@ =~= self.points@.take(i + 1));
        }
        assert(points@ =~= self.points@);
        Chart {
            isin: self.isin.clone(),
            timeframe: self.timeframe.clone(),
            currency: self.currency.clone(),
            source: self.source.clone(),
            points,
            reference: self.reference,
            reference_ts: self.reference_ts.clone(),
        }
    }

    /// The moving average over a trailing window of calendar days.
    ///
    /// The number of points in a window is no measure of it: a payload is sampled
    /// the more sparsely the longer a span it covers, so that the same number of
    /// points would be hours on one timeframe and years on another. Nothing is
    /// given for a window that began before the series did.
    pub fn sma_days(&self, days: Num) -> (r: Vec<[Num; 2]>)
        ensures
            pairs(r@) == (if num::at_most(days, num::zero()) || self.points@.len() < 2 {
                Seq::empty()
            } else {
                averages(self.points@, num::product(days, day()), self.points@.len() as int)
            }),
            num::less(num::zero(), days) && self.points@.len() >= 2 ==> pairs(r@) == averages(
                self.points@,
                num::product(days, num::whole(86_400)),
                self.points@.len() as int,
            ),
            num::at_most(days, num::zero()) || self.points@.len() < 2 ==> r@.len() == 0,
            forall|k: int|
                0 <= k < r@.len() ==> num::at_most(
                    num::product(days, num::whole(86_400)),
                    num::difference((#[trigger] r@[k])@[0], self.points@[0].t),
                ),
    {
        let mut out: Vec<[Num; 2]> = Vec::new();
        assert(pairs(out@) =~= Seq::empty());
        if days.le(Num::zero()) || self.points.len() < 2 {
            return out;
        }
        let window: Num = days.times(Num::from_i64(86_400));
        let first: Num = self.points[0].t;
        let ghost ps = self.points@;
        proof {
            lemma_window_positive(days);
        }
        let mut lo: usize = 0;
        let mut total: Num = Num::zero();
        for hi in 0..self.points.len()
            invariant
                ps == self.points@,
                first == ps[0].t,
                num::is_nan(window) || num::rank(window) >= 0,
                lo <= hi,
                (lo as int, total) == rolled(ps, window, hi as int),
                pairs(out@) == averages(ps, window, hi as int),
        {
            let now: Num = self.points[hi].t;
            total = total.plus(self.points[hi].mid);
            let cutoff: Num = now.minus(window);
            proof {
                lemma_own_cutoff(now, window);
            }
            while self.points[lo].t.lt(cutoff)
                invariant
                    ps == self.points@,
                    hi < ps.len(),
                    lo <= hi,
                    now == ps[hi as int].t,
                    !num::less(now, cutoff),
                    rolled(ps, window, hi + 1) == shrunk(ps, cutoff, lo as int, total, hi as int),
                decreases hi - lo,
            {
                total = total.minus(self.points[lo].mid);
                lo = lo + 1;
            }
            assert((lo as int, total) == rolled(ps, window, hi + 1));
            if window.le(now.minus(first)) {
                let count: u128 = (hi - lo) as u128 + 1;
                let before = Ghost(out@);
                out.push([now, total.over(Num::from_u128(count))]);
                assert(pairs(out@) =~= pairs(before@).push(
                    (now, num::quotient(total, num::whole(hi + 1 - lo))),
                ));
            }
        }
        proof {
            chart_laws::law_averages_need_a_full_window(ps, window, ps.len() as int);
            assert forall|k: int| 0 <= k < out@.len() implies num::at_most(
                window,
                num::difference((#[trigger] out@[k])@[0], ps[0].t),
            ) by {
                assert(pairs(out@)[k].0 == out@[k]@[0]);
            }
        }
        out
    }

    /// The ticks gathered into bars of `bucket` seconds.
    ///
    /// The broker publishes mid ticks alone, so bars are built here. A bucket
    /// without ticks gives no bar: a gap in the series stays one.
    pub fn candles(&self, bucket: Num) -> (r: Vec<Candle>)
        ensures
            r@ == (if num::at_most(bucket, num::zero()) {
                Seq::empty()
            } else {
                bars(self.points@, bucket)
            }),
            num::less(num::zero(), bucket) ==> r@ == bars(self.points@, bucket),
            num::less(num::zero(), bucket) && self.points@.len() > 0 ==> {
                &&& r@.len() > 0
                &&& r@[0].open == self.points@[0].mid
                &&& r@[r@.len() - 1].close == self.points@[self.points@.len() - 1].mid
            },
            num::at_most(bucket, num::zero()) ==> r@.len() == 0,
    {
        let mut out: Vec<Candle> = Vec::new();
        if bucket.le(Num::zero()) {
            return out;
        }
        let ghost ps = self.points@;
        for i in 0..self.points.len()
            invariant
                ps == self.points@,
                out@ == bars(ps.take(i as int), bucket),
        {
            proof {
                assert(ps.take(i + 1).drop_last() =~= ps.take(i as int));
                lemma_ticks(ps.take(i as int), bucket);
            }
            let t: Num = self.points[i].t;
            let mid: Num = self.points[i].mid;
            let start: Num = t.over(bucket).floor().times(bucket);
            let n: usize = out.len();
            if n > 0 && out[n - 1].t.equals(start) {
                let c: Candle = out[n - 1];
                out.set(
                    n - 1,
                    Candle {
                        t: c.t,
                        open: c.open,
                        high: c.high.max(mid),
                        low: c.low.min(mid),
                        close: mid,
                        ticks: c.ticks + 1,
                    },
                );
            } else {
                out.push(
                    Candle { t: start, open: mid, high: mid, low: mid, close: mid, ticks: 1 },
                );
            }
            assert(out@ =~= bars(ps.take(i + 1), bucket));
        }
        assert(ps.take(ps.len() as int) =~= ps);
        proof {
            if ps.len() > 0 {
                chart_laws::law_ends_survive(ps, bucket);
            }
        }
        out
    }

    /// The bucket width that gives about `target` bars, snapped to one that a
    /// trader recognises. No width is finer than the series itself, which would
    /// only give bars of a single tick.
    pub fn auto_bucket_secs(&self, target: usize) -> (r: Num)
        ensures
            r == auto_width(self.points@, target as int),
    {
        let seconds: Num = self.span_days().times(Num::from_i64(86_400));
        if seconds.le(Num::zero()) || target == 0 {
            return Num::from_i64(86_400);
        }
        let ideal: Num = seconds.over(Num::from_u128(target as u128));
        let least: Num = match self.median_spacing_secs() {
            Some(g) => g,
            None => Num::zero(),
        };
        let steps: Vec<i64> = vec![
            60,
            300,
            900,
            1_800,
            3_600,
            7_200,
            14_400,
            43_200,
            86_400,
            172_800,
            604_800,
            1_209_600,
            2_592_000,
            7_776_000,
        ];
        assert(steps@ =~= widths());
        for i in 0..13usize
            invariant
                steps@ == widths(),
                steps@.len() == 14,
                auto_width(self.points@, target as int) == width_from(0, ideal, least),
                width_from(0, ideal, least) == width_from(i as int, ideal, least),
        {
            let w: Num = Num::from_i64(steps[i]);
            if ideal.le(w) && least.le(w) {
                return w;
            }
        }
        Num::from_i64(7_776_000).max(least)
    }

    /// The span of the series, in days.
    pub fn span_days(&self) -> (r: Num)
        ensures
            r == span(self.points@),
    {
        let n: usize = self.points.len();
        if n == 0 {
            Num::zero()
        } else {
            self.points[n - 1].t.minus(self.points[0].t).over(Num::from_i64(86_400))
        }
    }

    /// Whether the series is long enough for an average over so many days.
    pub fn supports_sma(&self, days: Num) -> (r: bool)
        ensures
            r == (self.points@.len() >= 2 && num::at_most(days, span(self.points@))),
            self.points@.len() < 2 ==> !r,
            self.points@.len() >= 2 ==> r == num::at_most(
                days,
                num::quotient(
                    num::difference(
                        self.points@[self.points@.len() - 1].t,
                        self.points@[0].t,
                    ),
                    num::whole(86_400),
                ),
            ),
    {
        self.points.len() >= 2 && days.le(self.span_days())
    }

    /// The median gap between neighbouring points, in seconds.
    pub fn median_spacing_secs(&self) -> (r: Option<Num>)
        ensures
            r == median_gap(self.points@),
            self.points@.len() < 2 ==> r is None,
            self.points@.len() >= 2 && is_measurable(self.points@) ==> r is Some && gaps(
                self.points@,
            ).contains(r->0) && sampling::halves(gaps(self.points@), r->0),
    {
        proof {
            if self.points@.len() >= 2 && is_measurable(self.points@) {
                sampling::lemma_spacing(self.points@);
            }
        }
        let n: usize = self.points.len();
        if n < 2 {
            return None;
        }
        let ghost ps = self.points@;
        let ghost all = gaps(ps);
        let mut order: Vec<Num> = Vec::new();
        assert(all.take(0) =~= Seq::empty());
        for i in 1..n
            invariant
                n == ps.len(),
                ps == self.points@,
                all == gaps(ps),
                all.len() == n - 1,
                order@ == sorted(all.take(i - 1)),
                order@.len() == i - 1,
        {
            let g: Num = self.points[i].t.minus(self.points[i - 1].t);
            proof {
                assert(all.take(i as int).drop_last() =~= all.take(i - 1));
                assert(all.take(i as int).last() == gap(ps, i - 1));
                lemma_placed(order@, g);
            }
            place(&mut order, g);
        }
        assert(all.take(n - 1) =~= all);
        Some(order[(n - 1) / 2])
    }

    /// About how many points fall into a window of so many days.
    pub fn points_per_window(&self, days: Num) -> (r: Option<Num>)
        ensures
            r == per_window(median_gap(self.points@), days),
            r == (match median_gap(self.points@) {
                Some(g) => if num::less(num::zero(), g) {
                    Some(num::quotient(num::product(days, day()), g))
                } else {
                    None
                },
                None => None,
            }),
    {
        let g: Num = self.median_spacing_secs()?;
        if Num::zero().lt(g) {
            Some(days.times(Num::from_i64(86_400)).over(g))
        } else {
            None
        }
    }

    pub fn from_json(v: &Json) -> (r: Chart)
        ensures
            is_chart(r, v.view()),
            listings::says_chart(r, v.view()),
    {
        proof {
            assert forall|c: Chart, w: JsonView| #[trigger] is_chart(c, w) implies listings::says_chart(
                c,
                w,
            ) by {
                listings::lemma_chart(c, w);
            }
        }
        let mut points: Vec<ChartPoint> = Vec::new();
        let ghost all = sc::list_at(v.view(), "data_points"@);
        let ghost f = |p: JsonView| point_in(p);
        match array_at(v, "data_points") {
            Some(a) => {
                assert(all.take(0) =~= Seq::empty());
                assert(point_views(points@) =~= Seq::empty());
                for i in 0..a.len()
                    invariant
                        all == crate::json::views(a@),
                        f == (|p: JsonView| point_in(p)),
                        point_views(points@) == all.take(i as int).filter_map(f),
                {
                    let p = &a[i];
                    assert(all.take(i + 1).drop_last() =~= all.take(i as int));
                    assert(all.take(i + 1).last() == p.view());
                    match number(p, "mid_price") {
                        Some(mid) => {
                            let ts = words_else_empty(p, "timestamp_utc");
                            let t: Num = match parse_iso8601(ts.as_str()) {
                                Some(t) => t,
                                None => Num::zero(),
                            };
                            let ghost before = point_views(points@);
                            let point = ChartPoint { t, mid, ts };
                            assert(f(p.view()) == Some(point.view()));
                            points.push(point);
                            assert(point_views(points@) =~= before + seq![point.view()]);
                        },
                        None => {
                            assert(f(p.view()) is None);
                        },
                    }
                }
                assert(all.take(a@.len() as int) =~= all);
            },
            None => {
                assert(point_views(points@) =~= Seq::empty());
            },
        }
        let r = Chart {
            isin: words_else_empty(v, "isin"),
            timeframe: words_else_empty(v, "timeframe"),
            currency: words_else_empty(v, "currency"),
            source: words_else_empty(v, "source"),
            points,
            reference: number(v, "closing_reference_point/mid_price"),
            reference_ts: words_else_empty(v, "closing_reference_point/timestamp_utc"),
        };
        assert(is_chart(r, v.view()));
        r
    }
}

/// Puts `x` into a sorted list, behind what is equal to it.
fn place(list: &mut Vec<Num>, x: Num)
    ensures
        final(list)@ == placed(old(list)@, x),
        final(list)@.len() == old(list)@.len() + 1,
{
    let ghost s = list@;
    let n: usize = list.len();
    let mut p: usize = n;
    assert(s.take(n as int) =~= s);
    assert(s.skip(n as int) =~= Seq::empty());
    assert(placed(s, x) + Seq::<Num>::empty() =~= placed(s, x));
    while p > 0 && !list[p - 1].le(x)
        invariant
            p <= n,
            n == s.len(),
            list@ == s,
            placed(s, x) == placed(s.take(p as int), x) + s.skip(p as int),
        decreases p,
    {
        proof {
            let head = s.take(p as int);
            assert(head.last() == s[p - 1]);
            assert(head.drop_last() =~= s.take(p - 1));
            assert(seq![s[p - 1]] + s.skip(p as int) =~= s.skip(p - 1));
            assert(placed(s.take(p - 1), x).push(s[p - 1]) + s.skip(p as int) =~= placed(
                s.take(p - 1),
                x,
            ) + s.skip(p - 1));
        }
        p = p - 1;
    }
    proof {
        if p > 0 {
            assert(s.take(p as int).last() == s[p - 1]);
        }
        assert(s.take(p as int).push(x) + s.skip(p as int) =~= s.insert(p as int, x));
    }
    list.insert(p, x);
}

proof fn lemma_placed(s: Seq<Num>, x: Num)
    ensures
        placed(s, x).len() == s.len() + 1,
    decreases s.len(),
{
    if s.len() > 0 && !num::at_most(s.last(), x) {
        lemma_placed(s.drop_last(), x);
    }
}

/// A window of a positive number of days does not reach into the future.
proof fn lemma_window_positive(days: Num)
    requires
        !num::at_most(days, num::zero()),
    ensures
        num::is_nan(num::product(days, day())) || num::rank(num::product(days, day())) >= 0,
{
    order::lemma_whole_sign(86_400);
    if !num::is_nan(days) {
        order::lemma_product_keeps_order(num::zero(), days, day());
        order::lemma_zero_product(day());
    }
}

/// A point does not lie before the start of the window that it ends.
proof fn lemma_own_cutoff(t: Num, window: Num)
    requires
        num::is_nan(window) || num::rank(window) >= 0,
    ensures
        !num::less(t, num::difference(t, window)),
{
    if !num::is_nan(window) && !num::is_nan(num::difference(t, window)) {
        order::lemma_difference_at_most(t, window);
    }
}

/// No bar has more ticks than there are.
proof fn lemma_ticks(points: Seq<ChartPoint>, bucket: Num)
    ensures
        bars(points, bucket).len() <= points.len(),
        points.len() <= usize::MAX ==> forall|i: int|
            0 <= i < bars(points, bucket).len() ==> 1 <= (#[trigger] bars(
                points,
                bucket,
            )[i]).ticks <= points.len(),
    decreases points.len(),
{
    if points.len() > 0 {
        lemma_ticks(points.drop_last(), bucket);
    }
}

} // verus!
