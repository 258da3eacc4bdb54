//! How densely a series is sampled, and how wide the buckets are that suit it.

use crate::exact;
use crate::model::chart::{self, ChartPoint};
use crate::model::chart_laws::{ascending, law_gaps_are_sorted};
use crate::num::{self, Num};
use crate::order;
use vstd::prelude::*;

verus! {

/// How many of a list are such that `p`.
pub open spec fn counted(s: Seq<Num>, p: spec_fn(Num) -> bool) -> int
    decreases s.len(),
{
    if s.len() == 0 {
        0
    } else {
        counted(s.drop_last(), p) + if p(s.last()) {
            1int
        } else {
            0int
        }
    }
}

proof fn lemma_counted_push(s: Seq<Num>, x: Num, p: spec_fn(Num) -> bool)
    ensures
        counted(s.push(x), p) == counted(s, p) + if p(x) {
            1int
        } else {
            0int
        },
{
    assert(s.push(x).drop_last() =~= s);
}

proof fn lemma_counted_placed(s: Seq<Num>, x: Num, p: spec_fn(Num) -> bool)
    ensures
        counted(chart::placed(s, x), p) == counted(s.push(x), p),
    decreases s.len(),
{
    lemma_counted_push(s, x, p);
    if s.len() > 0 && !num::at_most(s.last(), x) {
        let rest = s.drop_last();
        lemma_counted_placed(rest, x, p);
        lemma_counted_push(rest, x, p);
        lemma_counted_push(chart::placed(rest, x), s.last(), p);
    }
}

proof fn lemma_counted_sorted(s: Seq<Num>, p: spec_fn(Num) -> bool)
    ensures
        counted(chart::sorted(s), p) == counted(s, p),
    decreases s.len(),
{
    if s.len() > 0 {
        let rest = chart::sorted(s.drop_last());
        lemma_counted_sorted(s.drop_last(), p);
        lemma_counted_placed(rest, s.last(), p);
        lemma_counted_push(rest, s.last(), p);
    }
}

proof fn lemma_counted_range(s: Seq<Num>, p: spec_fn(Num) -> bool, a: int, b: int)
    requires
        0 <= a <= b <= s.len(),
        forall|i: int| a <= i < b ==> p(#[trigger] s[i]),
    ensures
        counted(s, p) >= b - a,
    decreases s.len(),
{
    if s.len() > 0 {
        let rest = s.drop_last();
        assert forall|i: int| a <= i < b && i < rest.len() implies p(#[trigger] rest[i]) by {
            assert(rest[i] == s[i]);
        }
        if b == s.len() && a < b {
            assert(p(s[b - 1]));
            lemma_counted_range(rest, p, a, b - 1);
        } else if b < s.len() {
            lemma_counted_range(rest, p, a, b);
        } else {
            lemma_counted_range(rest, p, 0, 0);
        }
    }
}

/// The median spacing of a series is one of the gaps between neighbouring points:
/// more than half of the gaps are at most as wide (of an even number, one more
/// than half), and at least half of them are at least as wide.
pub proof fn law_the_spacing_is_the_middle_gap(points: Seq<ChartPoint>, between: Seq<Num>)
    requires
        points.len() >= 2,
        between.len() == points.len() - 1,
        forall|i: int|
            0 <= i < between.len() ==> #[trigger] between[i] == num::difference(
                points[i + 1].t,
                points[i].t,
            ),
        forall|i: int| 0 <= i < between.len() ==> !num::is_nan(#[trigger] between[i]),
    ensures
        chart::gaps(points) == between,
        chart::median_gap(points) is Some,
        ({
            let g = chart::median_gap(points)->0;
            &&& between.contains(g)
            &&& 2 * counted(between, |x: Num| num::at_most(x, g)) > between.len()
            &&& 2 * counted(between, |x: Num| num::at_most(g, x)) >= between.len()
            &&& between.len() % 2 == 0 ==> 2 * counted(between, |x: Num| num::at_most(x, g))
                >= between.len() + 2
        }),
{
    broadcast use vstd::seq_lib::group_to_multiset_ensures;

    let all = chart::gaps(points);
    assert forall|i: int| 0 <= i < between.len() implies all[i] == between[i] by {
        assert(all[i] == chart::gap(points, i));
    }
    assert(all =~= between);
    law_gaps_are_sorted(between);
    let s = chart::sorted(between);
    let m = (points.len() - 1) / 2;
    let g = s[m];
    assert(chart::median_gap(points) == Some(g));
    assert(between.contains(g)) by {
        assert(s.to_multiset().contains(s[m]));
        assert(between.to_multiset().contains(g));
    }
    let low = |x: Num| num::at_most(x, g);
    let high = |x: Num| num::at_most(g, x);
    assert(ascending(s));
    assert forall|i: int| 0 <= i < m + 1 implies low(#[trigger] s[i]) by {
        assert(num::at_most(s[i], s[m]));
    }
    assert forall|i: int| m <= i < s.len() implies high(#[trigger] s[i]) by {
        assert(num::at_most(s[m], s[i]));
    }
    lemma_counted_range(s, low, 0, m + 1);
    lemma_counted_range(s, high, m, s.len() as int);
    lemma_counted_sorted(between, low);
    lemma_counted_sorted(between, high);
}

/// Whether a number halves a list: at least half of the list is at most as large, and
/// at least half of it at least as large.
pub open spec fn halves(s: Seq<Num>, g: Num) -> bool {
    &&& 2 * counted(s, |x: Num| num::at_most(x, g)) >= s.len()
    &&& 2 * counted(s, |x: Num| num::at_most(g, x)) >= s.len()
}

/// The median spacing halves the gaps.
pub proof fn lemma_spacing(points: Seq<ChartPoint>)
    requires
        points.len() >= 2,
        chart::is_measurable(points),
    ensures
        chart::median_gap(points) is Some,
        chart::gaps(points).contains(chart::median_gap(points)->0),
        halves(chart::gaps(points), chart::median_gap(points)->0),
{
    let between = chart::gaps(points);
    assert forall|i: int| 0 <= i < between.len() implies !num::is_nan(#[trigger] between[i])
        && between[i] == num::difference(points[i + 1].t, points[i].t) by {
        assert(between[i] == chart::gap(points, i));
    }
    law_the_spacing_is_the_middle_gap(points, between);
}

/// A series of fewer than two points has no spacing.
pub proof fn law_no_spacing_without_a_gap(points: Seq<ChartPoint>)
    requires
        points.len() < 2,
    ensures
        chart::median_gap(points) is None,
{
}

/// Whether `n` is a width that a trader recognises: 1, 5, 15 or 30 minutes, 1, 2, 4
/// or 12 hours, 1 or 2 days, 1 or 2 weeks, 30 or 90 days.
pub open spec fn is_usual(n: int) -> bool {
    ||| n == 60 || n == 5 * 60 || n == 15 * 60 || n == 30 * 60
    ||| n == 3_600 || n == 2 * 3_600 || n == 4 * 3_600 || n == 12 * 3_600
    ||| n == 86_400 || n == 2 * 86_400 || n == 7 * 86_400 || n == 14 * 86_400
    ||| n == 30 * 86_400 || n == 90 * 86_400
}

/// Whether a width is enough for both of two.
pub open spec fn covers(w: Num, ideal: Num, least: Num) -> bool {
    num::at_most(ideal, w) && num::at_most(least, w)
}

proof fn lemma_width(i: int, ideal: Num, least: Num)
    requires
        0 <= i <= 13,
        !num::is_nan(ideal),
        !num::is_nan(least),
        forall|n: int|
            is_usual(n) && n < chart::widths()[i]
                ==> !covers(#[trigger] num::whole(n), ideal, least),
    ensures
        ({
            let w = chart::width_from(i, ideal, least);
            &&& forall|n: int|
                is_usual(n) && covers(#[trigger] num::whole(n), ideal, least) ==> num::at_most(
                    w,
                    num::whole(n),
                )
            &&& num::at_most(least, w)
            &&& num::at_most(ideal, num::whole(7_776_000)) ==> num::at_most(ideal, w)
            &&& w == least || exists|n: int| is_usual(n) && w == #[trigger] num::whole(n)
            &&& !num::less(w, num::whole(7_776_000)) && !num::less(num::whole(7_776_000), least)
                ==> w == num::whole(7_776_000)
        }),
    decreases 14 - i,
{
    let w = chart::width_from(i, ideal, least);
    let top = num::whole(7_776_000);
    order::lemma_whole_sign(7_776_000);
    if i >= 13 {
        assert(is_usual(7_776_000));
        assert(top == num::whole(7_776_000));
        assert forall|n: int| is_usual(n) && covers(
            #[trigger] num::whole(n),
            ideal,
            least,
        ) implies num::at_most(w, num::whole(n)) by {
            assert(n == 90 * 86_400);
        }
    } else {
        let v = chart::widths()[i] as int;
        assert(is_usual(v));
        order::lemma_whole_sign(v);
        if covers(num::whole(v), ideal, least) {
            assert(w == num::whole(v));
            assert forall|n: int| is_usual(n) && covers(
                #[trigger] num::whole(n),
                ideal,
                least,
            ) implies num::at_most(w, num::whole(n)) by {
                order::lemma_whole_keeps_order(v, n);
            }
            exact::law_whole_numbers_compare(v, 7_776_000);
        } else {
            assert forall|n: int| is_usual(n) && n < chart::widths()[i + 1] implies !covers(
                #[trigger] num::whole(n),
                ideal,
                least,
            ) by {
                assert(n <= v);
            }
            lemma_width(i + 1, ideal, least);
        }
    }
}

/// The automatic width is the least usual one that is neither finer than the
/// spacing of the series nor gives more bars than asked for. Where none is, it is
/// the widest, or the spacing itself where that is wider still.
pub proof fn law_the_width_is_the_least_that_suits(points: Seq<ChartPoint>, target: int)
    requires
        points.len() >= 2,
        target > 0,
        chart::is_measurable(points),
        num::less(num::zero(), num::product(chart::span(points), num::whole(86_400))),
        !num::is_nan(
            num::quotient(
                num::product(chart::span(points), num::whole(86_400)),
                num::whole(target),
            ),
        ),
    ensures
        ({
            let w = chart::auto_width(points, target);
            let spacing = chart::median_gap(points)->0;
            let ideal = num::quotient(
                num::product(chart::span(points), num::whole(86_400)),
                num::whole(target),
            );
            &&& num::at_most(spacing, w)
            &&& num::at_most(ideal, num::whole(7_776_000)) ==> num::at_most(ideal, w)
            &&& forall|n: int|
                is_usual(n) && num::at_most(spacing, #[trigger] num::whole(n)) && num::at_most(
                    ideal,
                    num::whole(n),
                ) ==> num::at_most(w, num::whole(n))
            &&& w == spacing || exists|n: int| is_usual(n) && w == #[trigger] num::whole(n)
            &&& num::less(w, num::whole(7_776_000)) || num::at_most(
                w,
                num::larger(num::whole(7_776_000), spacing),
            )
        }),
{
    let between = chart::gaps(points);
    assert forall|i: int| 0 <= i < between.len() implies !num::is_nan(#[trigger] between[i]) by {
        assert(between[i] == chart::gap(points, i));
    }
    assert forall|i: int| 0 <= i < between.len() implies #[trigger] between[i] == num::difference(
        points[i + 1].t,
        points[i].t,
    ) by {
        assert(between[i] == chart::gap(points, i));
    }
    law_the_spacing_is_the_middle_gap(points, between);
    let spacing = chart::median_gap(points)->0;
    assert(!num::is_nan(spacing)) by {
        let i = choose|i: int| 0 <= i < between.len() && between[i] == spacing;
        assert(!num::is_nan(between[i]));
    }
    let ideal = num::quotient(
        num::product(chart::span(points), num::whole(86_400)),
        num::whole(target),
    );
    lemma_width(0, ideal, spacing);
    let w = chart::auto_width(points, target);
    assert(w == chart::width_from(0, ideal, spacing));
    assert forall|n: int|
        is_usual(n) && num::at_most(spacing, #[trigger] num::whole(n)) && num::at_most(
            ideal,
            num::whole(n),
        ) implies num::at_most(w, num::whole(n)) by {
        assert(covers(num::whole(n), ideal, spacing));
    }
    if w != spacing {
        let n = choose|n: int| is_usual(n) && w == #[trigger] num::whole(n);
        order::lemma_whole_keeps_order(n, 7_776_000);
    }
}

/// A series without extent, or a target of no bars, gets buckets of a day.
pub proof fn law_the_width_without_a_span(points: Seq<ChartPoint>, target: int)
    requires
        points.len() <= 1 || target == 0,
        points.len() == 1 ==> num::is_finite(points[0].t),
    ensures
        chart::auto_width(points, target) == num::whole(86_400),
{
    if points.len() <= 1 {
        order::lemma_whole_sign(86_400);
        if points.len() == 1 {
            let t = points[0].t;
            order::lemma_positive_difference(t, t);
            order::lemma_negated(t);
            let d = num::difference(t, t);
            assert(num::value(t) + num::value(num::negated(t)) == 0);
            order::lemma_zero_is_nothing();
            order::lemma_order_of_values(d, num::zero());
            exact::lemma_quotient_rounds(d, 86_400);
            assert(num::at_most(chart::span(points), num::zero()));
        }
        order::lemma_zero_product(chart::day());
        order::lemma_product_keeps_order(chart::span(points), num::zero(), chart::day());
    }
}

} // verus!
