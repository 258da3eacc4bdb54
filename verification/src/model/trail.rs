//! A trailing stop that is kept up from here.
//!
//! The broker has no trailing order, so a trail is: watch the price, and when it
//! has risen far enough, cancel the resting stop and place one higher up. Only
//! the high water mark is remembered; the rest is read back from the account.

use crate::exact;
use crate::laws::stops;
use crate::num::{self, Num};
use crate::order;
use vstd::arithmetic::power2::*;
use vstd::prelude::*;
use vstd::string::*;

verus! {

#[derive(Debug, Clone)]
pub struct Trail {
    pub isin: String,
    /// A fraction of the high water mark when `percent`, else a price.
    pub distance: Num,
    pub percent: bool,
    /// The best mid seen since the trail was armed.
    pub high_water: Num,
    /// The smallest improvement worth a replacement, as a fraction of the price.
    pub min_step: Num,
}

/// The high water mark after a new mid.
pub open spec fn marked(high_water: Num, mid: Num) -> Num {
    if num::is_finite(mid) && num::less(high_water, mid) {
        mid
    } else {
        high_water
    }
}

/// Whether a distance makes sense.
pub open spec fn is_distance(distance: Num, percent: bool) -> bool {
    num::less(num::zero(), distance) && (!percent || num::less(distance, num::whole(1)))
}

/// A price the distance below the high water mark.
pub open spec fn below_mark(distance: Num, percent: bool, high_water: Num) -> Num {
    if percent {
        num::product(high_water, num::difference(num::whole(1), distance))
    } else {
        num::difference(high_water, distance)
    }
}

/// A price in ten-thousandths, with what is lost to rounding given back.
pub open spec fn in_ticks(price: Num) -> Num {
    num::sum(num::product(price, num::whole(10_000)), num::ratio(1, 1_000_000))
}

/// A price rounded down to four decimals.
pub open spec fn rounded_down(price: Num) -> Num {
    num::quotient(num::floored(in_ticks(price)), num::whole(10_000))
}

/// Where the stop should sit, if anywhere.
pub open spec fn stop_for(distance: Num, percent: bool, high_water: Num) -> Option<Num> {
    let raw = below_mark(distance, percent, high_water);
    if !is_distance(distance, percent) || num::at_most(high_water, num::zero()) || num::at_most(
        raw,
        num::zero(),
    ) {
        None
    } else {
        Some(rounded_down(raw))
    }
}

/// The improvement that a suggested stop must bring.
pub open spec fn least_step(stop: Num, min_step: Num) -> Num {
    num::larger(num::product(stop, min_step), num::ratio(1, 1_000_000))
}

impl Trail {
    pub open spec fn stop(self) -> Option<Num> {
        stop_for(self.distance, self.percent, self.high_water)
    }

    /// Whether a resting stop is to be replaced.
    pub open spec fn moves(self, current: Option<Num>) -> bool {
        match (self.stop(), current) {
            (None, _) => false,
            (Some(_), None) => true,
            (Some(s), Some(c)) => num::at_most(
                least_step(s, self.min_step),
                num::difference(s, c),
            ),
        }
    }

    /// Whether there is a price below the mark that the distance leads to, of a
    /// usual size.
    pub open spec fn is_placeable(self) -> bool {
        &&& num::is_finite(self.distance)
        &&& num::is_finite(self.high_water)
        &&& 0 < num::value(self.distance)
        &&& 0 < num::value(self.high_water) <= 100_000_000_000_000 * num::one_units()
        &&& self.percent ==> num::value(self.distance) < num::one_units()
        &&& !self.percent ==> num::value(self.distance) < num::value(self.high_water)
    }

    /// How far a price stands above the resting stop, or the one that would be
    /// placed.
    pub open spec fn room(self, mid: Num, current: Option<Num>) -> Option<Num> {
        if current is Some {
            cushion_of(mid, current->0)
        } else if self.stop() is Some {
            cushion_of(mid, self.stop()->0)
        } else {
            None
        }
    }

    /// One thousandth.
    pub fn default_min_step() -> (r: Num)
        ensures
            r == num::ratio(1, 1000),
    {
        Num::ratio(1, 1000)
    }

    pub fn new(isin: &str, distance: Num, percent: bool, mid: Num) -> (r: Trail)
        ensures
            r.isin@ == isin@,
            r.distance == distance,
            r.percent == percent,
            r.high_water == mid,
            r.min_step == num::ratio(1, 1000),
    {
        Trail {
            isin: isin.to_owned(),
            distance,
            percent,
            high_water: mid,
            min_step: Trail::default_min_step(),
        }
    }

    /// Another trail like this one.
    pub fn copy(&self) -> (r: Trail)
        ensures
            r == *self,
    {
        Trail {
            isin: self.isin.clone(),
            distance: self.distance,
            percent: self.percent,
            high_water: self.high_water,
            min_step: self.min_step,
        }
    }

    /// Takes in a new mid, and says whether the high water mark rose.
    pub fn observe(&mut self, mid: Num) -> (r: bool)
        ensures
            *final(self) == (Trail { high_water: marked(old(self).high_water, mid), ..*old(self) }),
            r == (num::is_finite(mid) && num::less(old(self).high_water, mid)),
    {
        if mid.is_finite() && self.high_water.lt(mid) {
            self.high_water = mid;
            true
        } else {
            false
        }
    }

    pub fn valid(&self) -> (r: bool)
        ensures
            r == is_distance(self.distance, self.percent),
    {
        Num::zero().lt(self.distance) && (!self.percent || self.distance.lt(Num::from_i64(1)))
    }

    /// Where the stop should sit. It is rounded down to four decimals, so that
    /// rounding puts it further from the market and never closer to it.
    pub fn suggested_stop(&self) -> (r: Option<Num>)
        ensures
            r == self.stop(),
            !self.percent && self.is_placeable() ==> {
                let wanted = num::value(self.high_water) - num::value(self.distance);
                wanted <= 150_000 * num::one_units() ==> r is Some && 10_000 * (wanted - num::value(
                    r->0,
                )) < num::one_units() && 5_000_000_000 * (num::value(r->0) - wanted)
                    <= num::one_units()
            },
            self.percent && self.is_placeable() ==> {
                let o = num::one_units();
                let wanted = num::value(self.high_water) * (o - num::value(self.distance));
                2 * o <= wanted <= 140_000 * (o * o) ==> r is Some && 10_000 * (wanted - num::value(
                    r->0,
                ) * o) < o * o && 5_000_000_000 * (num::value(r->0) * o - wanted) <= o * o
            },
    {
        proof {
            if self.is_placeable() {
                if self.percent {
                    let o = num::one_units();
                    let wanted = num::value(self.high_water) * (o - num::value(self.distance));
                    if 2 * o <= wanted {
                        stops::law_a_stop_sits_a_fraction_below_the_mark(*self);
                    }
                } else {
                    stops::law_a_stop_sits_a_price_below_the_mark(*self);
                }
            }
        }
        if !self.valid() || self.high_water.le(Num::zero()) {
            return None;
        }
        let raw: Num = if self.percent {
            self.high_water.times(Num::from_i64(1).minus(self.distance))
        } else {
            self.high_water.minus(self.distance)
        };
        if raw.le(Num::zero()) {
            return None;
        }
        let ticks: Num = raw.times(Num::from_i64(10_000)).plus(Num::ratio(1, 1_000_000)).floor();
        Some(ticks.over(Num::from_i64(10_000)))
    }

    /// Whether the resting stop is far enough below to be worth replacing.
    pub fn should_move(&self, current_stop: Option<Num>) -> (r: bool)
        ensures
            r == self.moves(current_stop),
    {
        match self.suggested_stop() {
            None => false,
            Some(stop) => match current_stop {
                None => true,
                Some(current) => {
                    let least: Num = stop.times(self.min_step).max(Num::ratio(1, 1_000_000));
                    least.le(stop.minus(current))
                },
            },
        }
    }

    /// How far a price stands above the stop, as a fraction of the price. Without
    /// a resting stop, the one that would be placed is taken.
    pub fn cushion(&self, mid: Num, current_stop: Option<Num>) -> (r: Option<Num>)
        ensures
            r == self.room(mid, current_stop),
            r == (match (current_stop, self.stop()) {
                (Some(s), _) => cushion_of(mid, s),
                (None, Some(s)) => cushion_of(mid, s),
                (None, None) => None,
            }),
    {
        let stop: Num = match current_stop {
            Some(s) => s,
            None => match self.suggested_stop() {
                Some(s) => s,
                None => {
                    return None;
                },
            },
        };
        if Num::zero().lt(mid) && Num::zero().lt(stop) {
            Some(mid.minus(stop).over(mid))
        } else {
            None
        }
    }
}

/// The part of a price that lies above a stop, where both are prices.
pub open spec fn cushion_of(mid: Num, stop: Num) -> Option<Num> {
    if num::less(num::zero(), mid) && num::less(num::zero(), stop) {
        Some(num::quotient(num::difference(mid, stop), mid))
    } else {
        None
    }
}

/// The high water mark never falls, whatever is observed.
pub proof fn law_high_water_never_falls(high_water: Num, mid: Num)
    requires
        !num::is_nan(high_water),
    ensures
        num::at_most(high_water, marked(high_water, mid)),
        num::is_finite(high_water) ==> num::is_finite(marked(high_water, mid)),
{
}

proof fn lemma_constants()
    ensures
        num::is_finite(num::whole(1)),
        num::is_finite(num::whole(10_000)),
        num::rank(num::whole(10_000)) > 0,
        num::is_finite(num::whole(1_000_000)),
        num::rank(num::whole(1_000_000)) > 0,
        num::rank(num::whole(1)) > 0,
        num::is_finite(num::ratio(1, 1_000_000)),
        num::rank(num::ratio(1, 1_000_000)) > 0,
{
    order::lemma_whole_sign(1);
    order::lemma_whole_sign(10_000);
    order::lemma_whole_sign(1_000_000);
    order::lemma_millionth();
}

/// The suggested stop only rises with the high water mark. An infinite distance
/// below an infinite mark is no place at all.
pub proof fn law_stop_only_rises(distance: Num, percent: bool, mark: Num, higher: Num)
    requires
        num::at_most(mark, higher),
        num::is_finite(mark) || num::is_finite(distance),
        stop_for(distance, percent, mark) is Some,
    ensures
        stop_for(distance, percent, higher) is Some,
        num::at_most(stop_for(distance, percent, mark)->0, stop_for(distance, percent, higher)->0),
{
    lemma_constants();
    let raw = below_mark(distance, percent, mark);
    let raw2 = below_mark(distance, percent, higher);
    if percent {
        order::lemma_positive_difference(num::whole(1), distance);
        let rest = num::difference(num::whole(1), distance);
        order::lemma_difference_finite(num::whole(1), distance);
        order::lemma_product_keeps_order(mark, higher, rest);
    } else {
        order::lemma_negated(distance);
        if num::is_finite(distance) {
            order::lemma_sum_keeps_order(mark, higher, num::negated(distance));
        } else {
            assert(num::at_most(raw, num::zero()));
        }
    }
    assert(num::at_most(raw, raw2));
    let t = num::product(raw, num::whole(10_000));
    let t2 = num::product(raw2, num::whole(10_000));
    order::lemma_product_keeps_order(raw, raw2, num::whole(10_000));
    order::lemma_sum_keeps_order(t, t2, num::ratio(1, 1_000_000));
    order::lemma_floor_keeps_order(in_ticks(raw), in_ticks(raw2));
    order::lemma_quotient_keeps_order(
        num::floored(in_ticks(raw)),
        num::floored(in_ticks(raw2)),
        num::whole(10_000),
    );
}

/// A stop is only ever replaced by one higher up.
pub proof fn law_stop_never_moves_down(t: Trail, current: Num)
    requires
        t.moves(Some(current)),
    ensures
        t.stop() is Some,
        num::less(current, t.stop()->0),
{
    lemma_constants();
    let s = t.stop()->0;
    let gap = num::difference(s, current);
    assert(num::less(num::zero(), gap));
    order::lemma_negated(current);
    if num::is_finite(s) && num::is_finite(current) {
        order::lemma_positive_difference(s, current);
    }
}

/// A resting stop is left alone until replacing it would gain the least step.
pub proof fn law_small_moves_are_not_chased(t: Trail, current: Num)
    requires
        t.moves(Some(current)),
    ensures
        !num::is_nan(num::product(t.stop()->0, t.min_step)) ==> num::at_most(
            num::product(t.stop()->0, t.min_step),
            num::difference(t.stop()->0, current),
        ),
        num::at_most(num::ratio(1, 1_000_000), num::difference(t.stop()->0, current)),
{
    lemma_constants();
}

/// The stop is a whole number of ten-thousandths: as many as there are in the
/// price that is being rounded, with what is given back, and no part of one more.
pub proof fn law_stop_is_rounded_down(distance: Num, percent: bool, high_water: Num)
    requires
        !num::is_nan(high_water),
        num::is_finite(high_water) || num::is_finite(distance),
        stop_for(distance, percent, high_water) is Some,
    ensures
        ({
            let t = in_ticks(below_mark(distance, percent, high_water));
            let ticks = num::floored(t);
            &&& stop_for(distance, percent, high_water)->0 == num::quotient(
                ticks,
                num::whole(10_000),
            )
            &&& num::at_most(ticks, t)
            &&& num::is_finite(t) ==> num::is_finite(ticks) && num::value(t) < num::value(ticks)
                + num::one_units()
        }),
{
    law_stop_only_rises(distance, percent, high_water, high_water);
    let t = in_ticks(below_mark(distance, percent, high_water));
    if num::is_nan(t) {
        assert(num::is_nan(num::quotient(num::floored(t), num::whole(10_000))));
    }
    order::lemma_floor_at_most(t);
    if num::is_finite(t) {
        exact::law_the_floor_is_close(t);
    }
}

/// One millionth is worth a millionth of one, but for its rounding.
pub proof fn lemma_millionth_is_close()
    ensures
        999_999 * num::one_units() <= 1_000_000 * (1_000_000 * num::value(num::ratio(1, 1_000_000)))
            <= 1_000_001 * num::one_units(),
{
    let o = num::one_units();
    let x = num::ratio(1, 1_000_000);
    lemma_constants();
    lemma_one_is_large();
    exact::law_whole_numbers_are_exact(1);
    exact::lemma_quotient_rounds(num::whole(1), 1_000_000);
    assert(1 * o == o);
    let exactly = num::rounded(o, 1_000_000, false);
    order::lemma_order_of_values(x, exactly);
    order::lemma_order_of_values(exactly, x);
    order::lemma_rounded_error(o, 1_000_000, false);
}

proof fn lemma_one_is_large()
    ensures
        num::one_units() >= 0x1_0000_0000_0000_0000,
{
    lemma2_to64();
    lemma_pow2_strictly_increases(64, 1074);
}

/// Of prices up to some two hundred thousand, the stop lies less than one
/// ten-thousandth below the price that is rounded, and above it, for what is given
/// back, by no more than one part in five thousand million.
pub proof fn law_stop_lies_within_a_tick(distance: Num, percent: bool, high_water: Num)
    requires
        stop_for(distance, percent, high_water) is Some,
        num::at_most(below_mark(distance, percent, high_water), num::whole(262_144)),
    ensures
        ({
            let raw = below_mark(distance, percent, high_water);
            let stop = stop_for(distance, percent, high_water)->0;
            &&& num::is_finite(stop)
            &&& 10_000 * (num::value(raw) - num::value(stop)) < num::one_units()
            &&& 5_000_000_000 * (num::value(stop) - num::value(raw)) <= num::one_units()
        }),
{
    let raw = below_mark(distance, percent, high_water);
    let o = num::one_units();
    let r = num::value(raw);
    let eps = num::ratio(1, 1_000_000);
    lemma_constants();
    lemma_one_is_large();
    lemma_millionth_is_close();
    exact::law_whole_numbers_are_exact(262_144);
    exact::law_whole_numbers_are_exact(10_000);
    exact::law_whole_numbers_are_exact(4_000_000_000);
    order::lemma_order_of_values(num::zero(), raw);
    order::lemma_order_of_values(raw, num::whole(262_144));
    order::lemma_zero_is_nothing();
    // None of the steps overflows: all stay below four thousand million.
    let top = num::whole(4_000_000_000);
    // The price in ticks.
    let t1 = num::product(raw, num::whole(10_000));
    exact::lemma_product_rounds(raw, 10_000);
    order::lemma_rounded_keeps_order(r * 10_000, 4_000_000_000 * o, false, false);
    order::lemma_rounded_keeps_order(0, r * 10_000, false, false);
    order::lemma_order_of_values(t1, top);
    order::lemma_rounded_error(r * 10_000, 1, false);
    assert(num::value(t1) * 1 == num::value(t1));
    // With what is given back.
    let t = in_ticks(raw);
    let n = num::value(t1) + num::value(eps);
    let z = num::negative(t1) && num::negative(eps);
    order::lemma_rounded_keeps_order(n, 4_000_000_000 * o, z, false);
    order::lemma_rounded_keeps_order(0, n, false, z);
    order::lemma_order_of_values(num::zero(), t);
    order::lemma_rounded_error(n, 1, z);
    assert(num::value(t) * 1 == num::value(t));
    // Cut to whole ticks.
    let ticks = num::floored(t);
    exact::law_the_floor_is_close(t);
    // And back to a price.
    let stop = num::quotient(ticks, num::whole(10_000));
    let k = num::value(ticks);
    let exactly = num::rounded(k, 10_000, false);
    exact::lemma_quotient_rounds(ticks, 10_000);
    order::lemma_rounded_fractions(k, 10_000, 4_000_000_000 * o, 1, false, false);
    order::lemma_rounded_fractions(-4_000_000_000 * o, 1, k, 10_000, false, false);
    exact::law_whole_numbers_are_exact(-4_000_000_000);
    assert(num::is_finite(exactly));
    order::lemma_order_of_values(stop, exactly);
    order::lemma_order_of_values(exactly, stop);
    order::lemma_rounded_error(k, 10_000, false);
}

} // verus!
