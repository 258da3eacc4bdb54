//! What the figures on the screen are worth, against what they are meant to be.

use crate::exact;
use crate::laws::near::{
    is_off_by, law_a_difference_is_near, lemma_multiple_near, lemma_one_is_large, lemma_part_near,
    law_a_product_is_near, law_a_quotient_is_near, lemma_ratio_near, size,
};
use crate::model::Holding;
use crate::model::alert;
use crate::model::chart::{self, ChartPoint};
use crate::model::holding;
use crate::model::quote;
use crate::model::trail;
use crate::num::{self, Num};
use crate::order;
use crate::screen;
use vstd::prelude::*;

verus! {

/// Whether `r` is `c` times the fraction `x / y`, but for the rounding of a division
/// and a multiplication.
pub open spec fn is_fraction(r: Num, x: int, y: int, c: int) -> bool {
    size(0x20_0000_0000_0000 * (num::value(r) * y - c * (x * num::one_units()))) <= c * (7 * (size(
        x,
    ) * num::one_units()) + 0x20_0000_0000_0000 * y)
}

proof fn lemma_steps(q: int, r: int, x: int, y: int, c: int, o: int)
    requires
        y > 0,
        c > 0,
        o > 0,
        is_off_by(q * y, x * o, size(x) * o, y),
        is_off_by(r, c * q, c * size(q), 0),
    ensures
        size(0x20_0000_0000_0000 * (r * y - c * (x * o))) <= c * (3 * (size(x) * o)
            + 0x20_0000_0000_0000 * y),
{
    let a = q * y - x * o;
    let b = r - c * q;
    let s = size(x) * o;
    assert(s >= 0 && size(x * o) == s) by (nonlinear_arith)
        requires
            s == size(x) * o,
            o > 0,
    ;
    assert(size(a) <= s + y);
    assert(size(q * y) <= 2 * s + y);
    assert(size(q) * y == size(q * y)) by (nonlinear_arith)
        requires
            y > 0,
    ;
    let t = size(q) * y;
    assert(0x20_0000_0000_0000 * (size(b) * y) <= c * t) by (nonlinear_arith)
        requires
            0x20_0000_0000_0000 * size(b) <= c * size(q),
            t == size(q) * y,
            y > 0,
    ;
    assert(c * t <= c * (2 * s + y)) by (nonlinear_arith)
        requires
            t <= 2 * s + y,
            c > 0,
    ;
    let e = 0x20_0000_0000_0000 * size(a);
    assert(c * e <= c * (s + 0x10_0000_0000_0000 * y)) by (nonlinear_arith)
        requires
            e <= s + 0x10_0000_0000_0000 * y,
            c > 0,
    ;
    assert(c * e == 0x20_0000_0000_0000 * (c * size(a))) by (nonlinear_arith)
        requires
            e == 0x20_0000_0000_0000 * size(a),
    ;
    assert(r * y - c * (x * o) == b * y + c * a) by (nonlinear_arith)
        requires
            a == q * y - x * o,
            b == r - c * q,
    ;
    assert(size(b * y) == size(b) * y) by (nonlinear_arith)
        requires
            y > 0,
    ;
    assert(size(c * a) == c * size(a)) by (nonlinear_arith)
        requires
            c > 0,
    ;
    assert(c * (2 * s + y) + c * (s + 0x10_0000_0000_0000 * y) <= c * (3 * s
        + 0x20_0000_0000_0000 * y)) by (nonlinear_arith)
        requires
            c > 0,
            y > 0,
    ;
}

proof fn lemma_fraction_of(x: Num, y: Num, c: int)
    requires
        num::is_finite(x),
        num::is_finite(y),
        num::value(y) > 0,
        0 < c,
        exact::fits(c),
        num::is_finite(num::product(num::quotient(x, y), num::whole(c))),
    ensures
        size(
            0x20_0000_0000_0000 * (num::value(
                num::product(num::quotient(x, y), num::whole(c)),
            ) * num::value(y) - c * (num::value(x) * num::one_units())),
        ) <= c * (3 * (size(num::value(x)) * num::one_units()) + 0x20_0000_0000_0000 * num::value(
            y,
        )),
{
    lemma_one_is_large();
    let q = num::quotient(x, y);
    law_a_quotient_is_near(x, y);
    lemma_multiple_near(q, c);
    lemma_steps(
        num::value(q),
        num::value(num::product(q, num::whole(c))),
        num::value(x),
        num::value(y),
        c,
        num::one_units(),
    );
}

proof fn lemma_looser(n: int, m: int, c: int, y: int, v: int, o: int)
    requires
        c > 0,
        y > 0,
        o > 0,
        size(0x20_0000_0000_0000 * (v * y - c * (n * o))) <= c * (3 * (size(n) * o)
            + 0x20_0000_0000_0000 * y),
        is_off_by(n, m, size(m), 0),
    ensures
        size(0x20_0000_0000_0000 * (v * y - c * (m * o))) <= c * (7 * (size(m) * o)
            + 0x20_0000_0000_0000 * y),
{
    assert(size(n) <= 2 * size(m));
    let (s, t) = (size(n) * o, size(m) * o);
    assert(s <= 2 * t) by (nonlinear_arith)
        requires
            size(n) <= 2 * size(m),
            s == size(n) * o,
            t == size(m) * o,
            o > 0,
    ;
    let d = n - m;
    assert(0x20_0000_0000_0000 * (size(d) * o) <= t) by (nonlinear_arith)
        requires
            0x20_0000_0000_0000 * size(d) <= size(m),
            t == size(m) * o,
            o > 0,
    ;
    let e = 0x20_0000_0000_0000 * (size(d) * o);
    assert(c * e <= c * t) by (nonlinear_arith)
        requires
            e <= t,
            c > 0,
    ;
    assert(c * (n * o) - c * (m * o) == c * (d * o)) by (nonlinear_arith)
        requires
            d == n - m,
    ;
    assert(size(d * o) == size(d) * o) by (nonlinear_arith)
        requires
            o > 0,
    ;
    assert(size(c * (d * o)) == c * size(d * o)) by (nonlinear_arith)
        requires
            c > 0,
    ;
    assert(0x20_0000_0000_0000 * (c * (size(d) * o)) == c * e) by (nonlinear_arith)
        requires
            e == 0x20_0000_0000_0000 * (size(d) * o),
    ;
    assert(c * (3 * s + 0x20_0000_0000_0000 * y) + c * t <= c * (7 * t + 0x20_0000_0000_0000 * y))
        by (nonlinear_arith)
        requires
            s <= 2 * t,
            c > 0,
            t >= 0,
    ;
}

proof fn lemma_tighter(x: int, y: int, c: int, o: int)
    requires
        c > 0,
        o > 0,
    ensures
        c * (3 * (size(x) * o) + 0x20_0000_0000_0000 * y) <= c * (7 * (size(x) * o)
            + 0x20_0000_0000_0000 * y),
{
    assert(size(x) * o >= 0) by (nonlinear_arith)
        requires
            o > 0,
    ;
    let t = size(x) * o;
    assert(c * (3 * t + 0x20_0000_0000_0000 * y) <= c * (7 * t + 0x20_0000_0000_0000 * y))
        by (nonlinear_arith)
        requires
            t >= 0,
            c > 0,
    ;
}

/// A positive double is worth more than nothing.
proof fn lemma_positive(x: Num)
    requires
        num::is_finite(x),
    ensures
        num::less(num::zero(), x) == (num::value(x) > 0),
        num::at_most(x, num::zero()) == (num::value(x) <= 0),
{
    order::lemma_zero_is_nothing();
    order::lemma_order_of_values(num::zero(), x);
    order::lemma_order_of_values(x, num::zero());
}

/// The spread is the ask less the bid, and positive just where the ask is above the
/// bid. There is none where one of the two is not known.
pub proof fn law_the_spread_is_ask_less_bid(bid: Num, ask: Num)
    requires
        num::is_finite(bid),
        num::is_finite(ask),
        num::is_finite(num::difference(ask, bid)),
    ensures
        quote::spread_of(Some(bid), Some(ask)) is Some,
        ({
            let s = quote::spread_of(Some(bid), Some(ask))->0;
            let d = num::value(ask) - num::value(bid);
            &&& is_off_by(num::value(s), d, size(d), 0)
            &&& num::less(num::zero(), s) == num::less(bid, ask)
        }),
        quote::spread_of(None, Some(ask)) is None,
        quote::spread_of(Some(bid), None) is None,
        quote::spread_of(None, None) is None,
{
    law_a_difference_is_near(ask, bid);
    order::lemma_positive_difference(ask, bid);
}

/// In basis points, the spread is ten thousand times its fraction of the mid. There
/// is none without a positive mid.
pub proof fn law_the_spread_in_basis_points(bid: Num, ask: Num, mid: Num)
    requires
        num::is_finite(bid),
        num::is_finite(ask),
        num::is_finite(mid),
        num::is_finite(num::difference(ask, bid)),
        num::is_finite(
            num::product(
                num::quotient(num::difference(ask, bid), mid),
                num::whole(10_000),
            ),
        ),
    ensures
        quote::bps_of(quote::spread_of(Some(bid), Some(ask)), Some(mid)) is Some <==> num::value(
            mid,
        ) > 0,
        num::value(mid) > 0 ==> is_fraction(
            quote::bps_of(quote::spread_of(Some(bid), Some(ask)), Some(mid))->0,
            num::value(ask) - num::value(bid),
            num::value(mid),
            10_000,
        ),
        quote::bps_of(None, Some(mid)) is None,
        quote::bps_of(quote::spread_of(Some(bid), Some(ask)), None) is None,
{
    lemma_positive(mid);
    lemma_one_is_large();
    if num::value(mid) > 0 {
        let s = num::difference(ask, bid);
        law_a_difference_is_near(ask, bid);
        lemma_fraction_of(s, mid, 10_000);
        lemma_looser(
            num::value(s),
            num::value(ask) - num::value(bid),
            10_000,
            num::value(mid),
            num::value(num::product(num::quotient(s, mid), num::whole(10_000))),
            num::one_units(),
        );
    }
}

/// What a position cost is its price times its quantity, and what it has gained is
/// its valuation less that.
pub proof fn law_a_gain_is_valuation_less_cost(h: Holding)
    requires
        h.fifo_price is Some,
        h.valuation is Some,
        num::is_finite(h.fifo_price->0),
        num::is_finite(h.valuation->0),
        num::is_finite(h.quantity),
        h.cost() is Some ==> num::is_finite(h.cost()->0),
        h.gain() is Some ==> num::is_finite(h.gain()->0),
    ensures
        h.cost() is Some,
        is_off_by(
            num::value(h.cost()->0) * num::one_units(),
            num::value(h.fifo_price->0) * num::value(h.quantity),
            size(num::value(h.fifo_price->0) * num::value(h.quantity)),
            num::one_units(),
        ),
        h.gain() is Some,
        is_off_by(
            num::value(h.gain()->0),
            num::value(h.valuation->0) - num::value(h.cost()->0),
            size(num::value(h.valuation->0) - num::value(h.cost()->0)),
            0,
        ),
{
    law_a_product_is_near(h.fifo_price->0, h.quantity);
    law_a_difference_is_near(h.valuation->0, h.cost()->0);
}

/// A position whose price or valuation is not known has no gain.
pub proof fn law_no_gain_without_a_cost(h: Holding)
    ensures
        h.cost() is None <==> h.fifo_price is None,
        h.gain() is None <==> h.fifo_price is None || h.valuation is None,
{
}

/// In percent, a gain is a hundred times its fraction of a positive cost. There is
/// none where nothing was paid.
pub proof fn law_a_gain_in_percent(gain: Num, cost: Num)
    requires
        num::is_finite(gain),
        num::is_finite(cost),
        num::value(cost) >= 0,
        num::is_finite(num::product(num::quotient(gain, cost), num::whole(100))) || num::value(
            cost,
        ) == 0,
    ensures
        num::value(cost) == 0 ==> holding::gain_share(Some(gain), Some(cost)) is None,
        500_000_000 * num::value(cost) >= num::one_units() ==> holding::gain_share(
            Some(gain),
            Some(cost),
        ) is Some && is_fraction(
            holding::gain_share(Some(gain), Some(cost))->0,
            num::value(gain),
            num::value(cost),
            100,
        ),
        holding::gain_share(None, Some(cost)) is None,
        holding::gain_share(Some(gain), None) is None,
{
    lemma_one_is_large();
    lemma_least_cost(cost);
    if 500_000_000 * num::value(cost) >= num::one_units() {
        lemma_fraction_of(gain, cost, 100);
        lemma_tighter(num::value(gain), num::value(cost), 100, num::one_units());
    }
}

/// What counts as a cost is more than a billionth.
proof fn lemma_least_cost(cost: Num)
    requires
        num::is_finite(cost),
    ensures
        num::value(cost) == 0 ==> !num::less(
            num::ratio(1, 1_000_000_000),
            num::signed(false, num::mag(cost)),
        ),
        500_000_000 * num::value(cost) >= num::one_units() ==> num::less(
            num::ratio(1, 1_000_000_000),
            num::signed(false, num::mag(cost)),
        ),
{
    lemma_one_is_large();
    let e = num::ratio(1, 1_000_000_000);
    lemma_ratio_near(1, 1_000_000_000);
    let s = num::signed(false, num::mag(cost));
    order::lemma_order_of_values(e, s);
    order::lemma_zero_is_nothing();
    lemma_positive(cost);
    assert(num::value(s) == num::units(num::mag(cost)));
    if num::value(cost) > 0 {
        assert(num::value(s) == num::value(cost));
    }
}

/// The gain of the whole portfolio is in percent of its cost, as that of a position
/// is.
pub proof fn law_the_total_gain_in_percent(hs: Seq<Holding>)
    requires
        num::is_finite(screen::totals_of(hs).cost),
        num::value(screen::totals_of(hs).cost) >= 0,
    ensures
        ({
            let t = screen::totals_of(hs);
            &&& t.unrealized is Some ==> t.unrealized_pct == holding::gain_share(
                t.unrealized,
                Some(t.cost),
            )
            &&& num::value(t.cost) == 0 ==> t.unrealized_pct is None
        }),
{
    lemma_least_cost(screen::totals_of(hs).cost);
}

/// The weight of a position is its valuation in percent of all securities. There is
/// none without securities.
pub proof fn law_a_weight_is_a_share_of_the_securities(valuation: Num, securities: Num)
    requires
        num::is_finite(valuation),
        num::is_finite(securities),
        num::is_finite(num::product(num::quotient(valuation, securities), num::whole(100))),
    ensures
        screen::weight_of(Some(valuation), Some(securities)) is Some
            <==> num::value(securities) > 0,
        num::value(securities) > 0 ==> is_fraction(
            screen::weight_of(Some(valuation), Some(securities))->0,
            num::value(valuation),
            num::value(securities),
            100,
        ),
        screen::weight_of(None, Some(securities)) is None,
        screen::weight_of(Some(valuation), None) is None,
{
    lemma_positive(securities);
    lemma_one_is_large();
    if num::value(securities) > 0 {
        lemma_fraction_of(valuation, securities, 100);
        lemma_tighter(num::value(valuation), num::value(securities), 100, num::one_units());
    }
}

/// Whether `r` is the fraction `x / y`, but for the rounding of a subtraction and a
/// division.
pub open spec fn is_ratio(r: Num, x: int, y: int) -> bool {
    size(0x20_0000_0000_0000 * (num::value(r) * y - x * num::one_units())) <= 3 * (size(x)
        * num::one_units()) + 0x10_0000_0000_0000 * y
}

proof fn lemma_ratio_of(a: Num, b: Num, y: Num)
    requires
        num::is_finite(a),
        num::is_finite(b),
        num::is_finite(y),
        num::value(y) > 0,
        num::is_finite(num::difference(a, b)),
        num::is_finite(num::quotient(num::difference(a, b), y)),
    ensures
        is_ratio(
            num::quotient(num::difference(a, b), y),
            num::value(a) - num::value(b),
            num::value(y),
        ),
{
    lemma_one_is_large();
    let d = num::difference(a, b);
    law_a_difference_is_near(a, b);
    law_a_quotient_is_near(d, y);
    let o = num::one_units();
    let (n, m) = (num::value(d), num::value(a) - num::value(b));
    let v = num::value(num::quotient(d, y)) * num::value(y);
    assert(0x20_0000_0000_0000 * size(n * o - m * o) <= size(m) * o) by (nonlinear_arith)
        requires
            0x20_0000_0000_0000 * size(n - m) <= size(m),
            o > 0,
    ;
    assert(size(n) * o <= 2 * (size(m) * o)) by (nonlinear_arith)
        requires
            size(n) <= 2 * size(m),
            o > 0,
    ;
}

/// An alert is as far away as its price lies above the mid, as a fraction of the
/// mid; a price below gives a negative distance.
pub proof fn law_an_alert_is_away_from_the_mid(price: Num, mid: Num)
    requires
        num::is_finite(price),
        num::is_finite(mid),
        num::is_finite(num::difference(price, mid)),
        num::value(mid) > 0 ==> num::is_finite(num::quotient(num::difference(price, mid), mid)),
    ensures
        alert::away(Some(price), mid) is Some <==> num::value(mid) > 0,
        num::value(mid) > 0 ==> is_ratio(
            alert::away(Some(price), mid)->0,
            num::value(price) - num::value(mid),
            num::value(mid),
        ),
        alert::away(None, mid) is None,
{
    lemma_positive(mid);
    if num::value(mid) > 0 {
        lemma_ratio_of(price, mid, mid);
    }
}

/// The cushion of a position is how far its price lies above the stop, as a fraction
/// of the price.
pub proof fn law_the_cushion_is_above_the_stop(mid: Num, stop: Num)
    requires
        num::is_finite(mid),
        num::is_finite(stop),
        num::is_finite(num::difference(mid, stop)),
        num::value(mid) > 0 ==> num::is_finite(num::quotient(num::difference(mid, stop), mid)),
    ensures
        trail::cushion_of(mid, stop) is Some <==> num::value(mid) > 0 && num::value(stop) > 0,
        num::value(mid) > 0 && num::value(stop) > 0 ==> is_ratio(
            trail::cushion_of(mid, stop)->0,
            num::value(mid) - num::value(stop),
            num::value(mid),
        ),
{
    lemma_positive(mid);
    lemma_positive(stop);
    if num::value(mid) > 0 {
        lemma_ratio_of(mid, stop, mid);
    }
}

/// The cushion is over the resting stop where there is one, and over the one that
/// would be placed where there is none.
pub proof fn law_the_cushion_is_over_the_resting_stop(t: trail::Trail, mid: Num, resting: Num)
    ensures
        t.room(mid, Some(resting)) == trail::cushion_of(mid, resting),
        t.stop() is Some ==> t.room(mid, None) == trail::cushion_of(mid, t.stop()->0),
        t.stop() is None ==> t.room(mid, None) is None,
{
}

/// Shares are worth their number times the mid.
pub proof fn law_shares_are_worth_the_mid(mid: Num, shares: Num)
    requires
        num::is_finite(mid),
        num::is_finite(shares),
        num::is_finite(num::product(mid, shares)),
    ensures
        screen::worth(None, shares) is None,
        screen::worth(Some(mid), shares) is Some,
        is_off_by(
            num::value(screen::worth(Some(mid), shares)->0) * num::one_units(),
            num::value(mid) * num::value(shares),
            size(num::value(mid) * num::value(shares)),
            num::one_units(),
        ),
{
    law_a_product_is_near(mid, shares);
}

/// An amount buys what it is over the ask, and over the mid where there is no ask.
pub proof fn law_an_amount_buys_at_the_ask(
    ask: Option<Num>,
    mid: Option<Num>,
    price: Num,
    amount: Num,
)
    requires
        ask == Some(price) || (ask is None && mid == Some(price)),
        num::is_finite(price),
        num::is_finite(amount),
        num::value(price) > 0 ==> num::is_finite(num::quotient(amount, price)),
    ensures
        screen::bought(ask, mid, amount) is Some <==> num::value(price) > 0,
        num::value(price) > 0 ==> is_off_by(
            num::value(screen::bought(ask, mid, amount)->0) * num::value(price),
            num::value(amount) * num::one_units(),
            size(num::value(amount)) * num::one_units(),
            num::value(price),
        ),
        screen::bought(None, None, amount) is None,
{
    lemma_positive(price);
    if num::value(price) > 0 {
        law_a_quotient_is_near(amount, price);
    }
}

/// The change since a reference is the last price less it, and in percent, the
/// fraction that this is of the reference.
pub proof fn law_a_change_is_since_the_reference(last: Num, reference: Num)
    requires
        num::is_finite(last),
        num::is_finite(reference),
        500_000_000 * num::value(reference) >= num::one_units(),
        num::is_finite(num::difference(last, reference)),
        num::is_finite(
            num::product(
                num::difference(num::quotient(last, reference), num::whole(1)),
                num::whole(100),
            ),
        ),
    ensures
        screen::change_of(Some(last), Some(reference)) is Some,
        ({
            let c = screen::change_of(Some(last), Some(reference))->0;
            let (l, f, o) = (num::value(last), num::value(reference), num::one_units());
            &&& is_off_by(num::value(c.0), l - f, size(l - f), 0)
            &&& size(0x20_0000_0000_0000 * (num::value(c.1) * f - 100 * ((l - f) * o))) <= 100 * (4
                * (size(l) * o) + 3 * (size(l - f) * o) + 0x20_0000_0000_0000 * f)
        }),
        screen::change_of(None, Some(reference)) is None,
        screen::change_of(Some(last), None) is None,
{
    lemma_one_is_large();
    lemma_least_cost(reference);
    law_a_difference_is_near(last, reference);
    let q = num::quotient(last, reference);
    let d = num::difference(q, num::whole(1));
    let r = num::product(d, num::whole(100));
    exact::law_whole_numbers_are_exact(1);
    assert(num::is_finite(d));
    assert(num::is_finite(q));
    law_a_quotient_is_near(last, reference);
    law_a_difference_is_near(q, num::whole(1));
    lemma_multiple_near(d, 100);
    let (l, f, o) = (num::value(last), num::value(reference), num::one_units());
    lemma_change(num::value(q), num::value(d), num::value(r), l, f, o);
}

proof fn lemma_change(q: int, d: int, r: int, l: int, f: int, o: int)
    requires
        f > 0,
        o > 0,
        is_off_by(q * f, l * o, size(l) * o, f),
        is_off_by(d, q - o, size(q - o), 0),
        is_off_by(r, 100 * d, 100 * size(d), 0),
    ensures
        size(0x20_0000_0000_0000 * (r * f - 100 * ((l - f) * o))) <= 100 * (4 * (size(l) * o) + 3
            * (size(l - f) * o) + 0x20_0000_0000_0000 * f),
{
    let a = q * f - l * o;
    let b = d - (q - o);
    let c = r - 100 * d;
    let s = size(l) * o;
    let t = size(l - f) * o;
    assert(s >= 0 && t >= 0) by (nonlinear_arith)
        requires
            s == size(l) * o,
            t == size(l - f) * o,
            o > 0,
    ;
    assert(size((l - f) * o) == t) by (nonlinear_arith)
        requires
            t == size(l - f) * o,
            o > 0,
    ;
    assert((q - o) * f == (l - f) * o + a) by (nonlinear_arith)
        requires
            a == q * f - l * o,
    ;
    assert(size(a) <= s + f);
    let u = size(q - o) * f;
    assert(u == size((q - o) * f)) by (nonlinear_arith)
        requires
            u == size(q - o) * f,
            f > 0,
    ;
    assert(u <= t + size(a));
    let w = size(b) * f;
    assert(0x20_0000_0000_0000 * w <= u) by (nonlinear_arith)
        requires
            0x20_0000_0000_0000 * size(b) <= size(q - o),
            u == size(q - o) * f,
            w == size(b) * f,
            f > 0,
    ;
    assert(d * f == (q - o) * f + b * f) by (nonlinear_arith)
        requires
            b == d - (q - o),
    ;
    assert(size(b * f) == w) by (nonlinear_arith)
        requires
            w == size(b) * f,
            f > 0,
    ;
    let x = size(d) * f;
    assert(x == size(d * f)) by (nonlinear_arith)
        requires
            x == size(d) * f,
            f > 0,
    ;
    assert(x <= u + w);
    let y = size(c) * f;
    assert(0x20_0000_0000_0000 * y <= 100 * x) by (nonlinear_arith)
        requires
            0x20_0000_0000_0000 * size(c) <= 100 * size(d),
            x == size(d) * f,
            y == size(c) * f,
            f > 0,
    ;
    assert(r * f == 100 * (d * f) + c * f) by (nonlinear_arith)
        requires
            c == r - 100 * d,
    ;
    assert(size(c * f) == y) by (nonlinear_arith)
        requires
            y == size(c) * f,
            f > 0,
    ;
}

/// The span of a series, in days, is what lies between its first and its last point.
pub proof fn law_the_span_is_from_first_to_last(points: Seq<ChartPoint>)
    requires
        points.len() > 0,
        num::is_finite(points[0].t),
        num::is_finite(points.last().t),
        num::is_finite(num::difference(points.last().t, points[0].t)),
    ensures
        ({
            let d = num::value(points.last().t) - num::value(points[0].t);
            size(
                0x20_0000_0000_0000 * (num::value(chart::span(points)) * 86_400 - d)) <= 3 * size(d,
            )
                + 0x10_0000_0000_0000 * 86_400
        }),
{
    let d = num::difference(points.last().t, points[0].t);
    law_a_difference_is_near(points.last().t, points[0].t);
    lemma_part_near(d, 86_400);
}

/// About as many points fall into a window of days as the spacing goes into it.
pub proof fn law_a_window_holds_so_many_points(gap: Num, days: Num)
    requires
        num::is_finite(gap),
        num::is_finite(days),
        num::is_finite(num::product(days, num::whole(86_400))),
        num::value(gap) > 0 ==> num::is_finite(
            num::quotient(num::product(days, num::whole(86_400)), gap),
        ),
    ensures
        chart::per_window(None, days) is None,
        chart::per_window(Some(gap), days) is Some <==> num::value(gap) > 0,
        num::value(gap) > 0 ==> is_ratio(
            chart::per_window(Some(gap), days)->0,
            86_400 * num::value(days),
            num::value(gap),
        ),
{
    lemma_positive(gap);
    lemma_one_is_large();
    if num::value(gap) > 0 {
        let w = num::product(days, num::whole(86_400));
        lemma_multiple_near(days, 86_400);
        law_a_quotient_is_near(w, gap);
        let (n, m, o) = (num::value(w), 86_400 * num::value(days), num::one_units());
        assert(size(m) == 86_400 * size(num::value(days)));
        assert(0x20_0000_0000_0000 * size(n * o - m * o) <= size(m) * o) by (nonlinear_arith)
            requires
                0x20_0000_0000_0000 * size(n - m) <= size(m),
                o > 0,
        ;
        assert(size(n) * o <= 2 * (size(m) * o)) by (nonlinear_arith)
            requires
                size(n) <= 2 * size(m),
                o > 0,
        ;
    }
}

} // verus!
