//! What sums over positions and orders are worth.

use crate::exact;
use crate::laws::near::size;
use crate::model::{Holding, PendingOrder};
use crate::model::holding;
use crate::num::{self, Num};
use crate::order;
use crate::screen;
use crate::text;
use vstd::arithmetic::power2::*;
use vstd::prelude::*;

verus! {

/// The sum of doubles, one after the other.
pub open spec fn piled(xs: Seq<Num>) -> Num
    decreases xs.len(),
{
    if xs.len() == 0 {
        num::negative_zero()
    } else {
        num::sum(piled(xs.drop_last()), xs.last())
    }
}

/// What doubles are worth together.
pub open spec fn total(xs: Seq<Num>) -> int
    decreases xs.len(),
{
    if xs.len() == 0 {
        0
    } else {
        total(xs.drop_last()) + num::value(xs.last())
    }
}

/// What doubles are worth together, whatever their signs.
pub open spec fn bulk(xs: Seq<Num>) -> int
    decreases xs.len(),
{
    if xs.len() == 0 {
        0
    } else {
        bulk(xs.drop_last()) + size(num::value(xs.last()))
    }
}

/// Whether amounts can be added without rounding: each is a multiple of one power of
/// two, and together they are at most two to the power 53 of it.
pub open spec fn add_up(xs: Seq<Num>, e: nat) -> bool {
    &&& exact::in_range(0x20_0000_0000_0000 * (pow2(e) as int))
    &&& bulk(xs) <= 0x20_0000_0000_0000 * (pow2(e) as int)
    &&& forall|i: int|
        0 <= i < xs.len()
            ==> num::is_finite(#[trigger] xs[i]) && num::value(xs[i]) % (pow2(e) as int)
            == 0
}

proof fn lemma_multiple(v: int, e: nat)
    requires
        v % (pow2(e) as int) == 0,
        exact::in_range(0x20_0000_0000_0000 * (pow2(e) as int)),
        size(v) <= 0x20_0000_0000_0000 * (pow2(e) as int),
    ensures
        v == (v / (pow2(e) as int)) * pow2(e),
        exact::fits(v / (pow2(e) as int)),
        exact::in_range(v),
{
    lemma_pow2_pos(e);
    let p = pow2(e) as int;
    vstd::arithmetic::div_mod::lemma_fundamental_div_mod(v, p);
    let a = v / p;
    assert(v == a * p) by (nonlinear_arith)
        requires
            v == p * a + v % p,
            v % p == 0,
    ;
    assert(exact::fits(a)) by (nonlinear_arith)
        requires
            v == a * p,
            -(0x20_0000_0000_0000 * p) <= v <= 0x20_0000_0000_0000 * p,
            p > 0,
    ;
}

proof fn lemma_multiples_sum(v: int, w: int, p: int)
    requires
        p > 0,
        v % p == 0,
        w % p == 0,
    ensures
        (v + w) % p == 0,
        (v - w) % p == 0,
{
    vstd::arithmetic::div_mod::lemma_fundamental_div_mod(v, p);
    vstd::arithmetic::div_mod::lemma_fundamental_div_mod(w, p);
    let (a, b) = (v / p, w / p);
    assert(v + w == (a + b) * p && v - w == (a - b) * p) by (nonlinear_arith)
        requires
            v == p * a,
            w == p * b,
    ;
    vstd::arithmetic::div_mod::lemma_mod_multiples_basic(a + b, p);
    vstd::arithmetic::div_mod::lemma_mod_multiples_basic(a - b, p);
}

proof fn lemma_bulk(xs: Seq<Num>)
    ensures
        bulk(xs) >= 0,
    decreases xs.len(),
{
    if xs.len() > 0 {
        lemma_bulk(xs.drop_last());
    }
}

/// Amounts that can be added without rounding add up to what they are worth.
pub proof fn law_amounts_add_up(xs: Seq<Num>, e: nat)
    requires
        add_up(xs, e),
    ensures
        num::is_finite(piled(xs)),
        num::value(piled(xs)) == total(xs),
        total(xs) % (pow2(e) as int) == 0,
        size(total(xs)) <= bulk(xs),
        0 <= bulk(xs),
    decreases xs.len(),
{
    lemma_pow2_pos(e);
    let p = pow2(e) as int;
    if xs.len() == 0 {
        order::lemma_zero_is_nothing();
        assert(num::mag(num::negative_zero()) == num::mag(num::zero()));
        assert(0int % p == 0) by (nonlinear_arith)
            requires
                p > 0,
        ;
    } else {
        let rest = xs.drop_last();
        let x = xs.last();
        assert(x == xs[xs.len() - 1]);
        assert forall|i: int| 0 <= i < rest.len() implies num::is_finite(#[trigger] rest[i])
            && num::value(rest[i]) % p == 0 by {
            assert(rest[i] == xs[i]);
        }
        lemma_bulk(rest);
        law_amounts_add_up(rest, e);
        let (v, w) = (total(rest), num::value(x));
        lemma_multiples_sum(v, w, p);
        lemma_multiple(v, e);
        lemma_multiple(w, e);
        lemma_multiple(v + w, e);
        assert((v / p + w / p) * p == v + w) by (nonlinear_arith)
            requires
                v == (v / p) * p,
                w == (w / p) * p,
        ;
        assert(v / p + w / p == (v + w) / p) by (nonlinear_arith)
            requires
                (v / p + w / p) * p == ((v + w) / p) * p,
                p > 0,
        ;
        exact::law_multiples_add(piled(rest), x, v / p, w / p, e);
    }
}

/// Whether an order is a resting sale of an instrument, with a quantity.
pub open spec fn is_resting_sale(o: PendingOrder, isin: Seq<char>) -> bool {
    o.isin@ == isin && text::small(o.side@) == text::small("SELL"@) && o.quantity is Some
}

/// The quantities of the resting sales of an instrument.
pub open spec fn resting_sales(working: Seq<PendingOrder>, isin: Seq<char>) -> Seq<Num>
    decreases working.len(),
{
    if working.len() == 0 {
        Seq::empty()
    } else {
        let before = resting_sales(working.drop_last(), isin);
        if is_resting_sale(working.last(), isin) {
            before.push(working.last().quantity->0)
        } else {
            before
        }
    }
}

/// What is committed of an instrument is the sum over its resting sales, and no
/// other orders.
pub proof fn law_resting_sales_commit_shares(working: Seq<PendingOrder>, isin: Seq<char>)
    ensures
        holding::resting(working, isin) == piled(resting_sales(working, isin)),
    decreases working.len(),
{
    if working.len() > 0 {
        law_resting_sales_commit_shares(working.drop_last(), isin);
        let before = resting_sales(working.drop_last(), isin);
        if is_resting_sale(working.last(), isin) {
            assert(before.push(working.last().quantity->0).drop_last() =~= before);
        }
    }
}

/// What is free of a position is its quantity less what is blocked and less what
/// resting sales commit, and nothing where that would be negative. The amounts are
/// such that they add up without rounding.
pub proof fn law_what_is_free_is_what_is_left(h: Holding, working: Seq<PendingOrder>, e: nat)
    requires
        add_up(
            resting_sales(working, h.isin@).push(h.quantity).push(h.blocked),
            e,
        ),
    ensures
        num::is_finite(h.free(working)),
        ({
            let left = num::value(h.quantity) - num::value(h.blocked) - total(
                resting_sales(working, h.isin@),
            );
            num::value(h.free(working)) == if left < 0 {
                0
            } else {
                left
            }
        }),
{
    lemma_pow2_pos(e);
    let p = pow2(e) as int;
    let sales = resting_sales(working, h.isin@);
    let xs = sales.push(h.quantity).push(h.blocked);
    let n = sales.len() as int;
    assert(xs[n] == h.quantity && xs[n + 1] == h.blocked);
    assert(xs.drop_last() =~= sales.push(h.quantity));
    assert(sales.push(h.quantity).drop_last() =~= sales);
    assert forall|i: int| 0 <= i < sales.len() implies num::is_finite(#[trigger] sales[i])
        && num::value(sales[i]) % p == 0 by {
        assert(sales[i] == xs[i]);
    }
    assert(xs.last() == h.blocked && sales.push(h.quantity).last() == h.quantity);
    assert(bulk(sales.push(h.quantity)) == bulk(sales) + size(num::value(h.quantity)));
    assert(bulk(xs) == bulk(sales) + size(num::value(h.quantity)) + size(num::value(h.blocked)));
    lemma_bulk(sales);
    law_amounts_add_up(sales, e);
    law_resting_sales_commit_shares(working, h.isin@);
    let (q, b, c) = (num::value(h.quantity), num::value(h.blocked), total(sales));
    lemma_multiples_sum(q, b, p);
    lemma_multiples_sum(q - b, c, p);
    lemma_multiple(q, e);
    lemma_multiple(b, e);
    lemma_multiple(c, e);
    lemma_multiple(q - b, e);
    lemma_multiple(q - b - c, e);
    assert(q / p - b / p == (q - b) / p && (q - b) / p - c / p == (q - b - c) / p)
        by (nonlinear_arith)
        requires
            q == (q / p) * p,
            b == (b / p) * p,
            c == (c / p) * p,
            q - b == ((q - b) / p) * p,
            q - b - c == ((q - b - c) / p) * p,
            p > 0,
    ;
    exact::law_multiples_subtract(h.quantity, h.blocked, q / p, b / p, e);
    let d = num::difference(h.quantity, h.blocked);
    let committed = holding::resting(working, h.isin@);
    exact::law_multiples_subtract(d, committed, (q - b) / p, c / p, e);
    let r = num::difference(d, committed);
    order::lemma_zero_is_nothing();
    order::lemma_order_of_values(r, num::zero());
    order::lemma_order_of_values(num::zero(), r);
}

/// The gains of the positions that have one.
pub open spec fn known_gains(hs: Seq<Holding>) -> Seq<Num>
    decreases hs.len(),
{
    if hs.len() == 0 {
        Seq::empty()
    } else if hs.last().gain() is Some {
        known_gains(hs.drop_last()).push(hs.last().gain()->0)
    } else {
        known_gains(hs.drop_last())
    }
}

/// The costs of the positions that have one.
pub open spec fn known_costs(hs: Seq<Holding>) -> Seq<Num>
    decreases hs.len(),
{
    if hs.len() == 0 {
        Seq::empty()
    } else if hs.last().cost() is Some {
        known_costs(hs.drop_last()).push(hs.last().cost()->0)
    } else {
        known_costs(hs.drop_last())
    }
}

proof fn lemma_known(hs: Seq<Holding>)
    ensures
        screen::gains(hs).0 == piled(known_gains(hs)),
        screen::gains(hs).1 == known_gains(hs).len(),
        screen::costs(hs) == piled(known_costs(hs)),
    decreases hs.len(),
{
    if hs.len() > 0 {
        lemma_known(hs.drop_last());
        let (g, c) = (known_gains(hs.drop_last()), known_costs(hs.drop_last()));
        if hs.last().gain() is Some {
            assert(g.push(hs.last().gain()->0).drop_last() =~= g);
        }
        if hs.last().cost() is Some {
            assert(c.push(hs.last().cost()->0).drop_last() =~= c);
        }
    }
}

/// The totals of a portfolio are the sums over its positions: the gains of those that
/// have one, of which there is none where no position does, and the costs of those
/// that have one.
pub proof fn law_totals_are_sums_over_positions(hs: Seq<Holding>, e: nat)
    ensures
        known_gains(hs).len() == 0 ==> screen::totals_of(hs).unrealized is None,
        known_gains(hs).len() > 0 ==> screen::totals_of(hs).unrealized == Some(
            piled(known_gains(hs)),
        ),
        screen::totals_of(hs).cost == piled(known_costs(hs)),
        known_gains(hs).len() > 0 && add_up(known_gains(hs), e) ==> num::value(
            screen::totals_of(hs).unrealized->0,
        ) == total(known_gains(hs)),
        add_up(known_costs(hs), e) ==> num::value(screen::totals_of(hs).cost) == total(
            known_costs(hs),
        ),
{
    lemma_known(hs);
    if add_up(known_gains(hs), e) {
        law_amounts_add_up(known_gains(hs), e);
    }
    if add_up(known_costs(hs), e) {
        law_amounts_add_up(known_costs(hs), e);
    }
}

/// A position can be sold as far as it is free. What is committed of it is the rest,
/// of which resting sales have what is not blocked.
pub proof fn law_a_sale_is_sized_by_what_is_free(h: Holding, working: Seq<PendingOrder>)
    requires
        num::is_finite(h.quantity),
        num::is_finite(h.free(working)),
    ensures
        ({
            let s = screen::sizing_of(h, working);
            &&& s.free == h.free(working)
            &&& s.any <==> num::value(s.free) > 0
            &&& s.partly <==> num::value(s.free) < num::value(h.quantity)
            &&& s.busy <==> num::value(s.free) < num::value(h.quantity)
            &&& s.committed == num::difference(h.quantity, s.free)
            &&& s.half == screen::half(s.free)
            &&& num::at_most(num::zero(), s.resting)
        }),
{
    let s = screen::sizing_of(h, working);
    order::lemma_zero_is_nothing();
    order::lemma_order_of_values(num::zero(), s.free);
    order::lemma_order_of_values(s.free, h.quantity);
    order::lemma_positive_difference(h.quantity, s.free);
    let d = num::difference(num::difference(h.quantity, h.blocked), s.free);
    assert(num::is_nan(num::larger(d, num::zero())) == false);
}

proof fn lemma_exact_difference(x: Num, y: Num, e: nat)
    requires
        num::is_finite(x),
        num::is_finite(y),
        num::value(x) % (pow2(e) as int) == 0,
        num::value(y) % (pow2(e) as int) == 0,
        exact::in_range(0x20_0000_0000_0000 * (pow2(e) as int)),
        size(num::value(x)) <= 0x20_0000_0000_0000 * (pow2(e) as int),
        size(num::value(y)) <= 0x20_0000_0000_0000 * (pow2(e) as int),
        size(num::value(x) - num::value(y)) <= 0x20_0000_0000_0000 * (pow2(e) as int),
    ensures
        num::is_finite(num::difference(x, y)),
        num::value(num::difference(x, y)) == num::value(x) - num::value(y),
{
    lemma_pow2_pos(e);
    let p = pow2(e) as int;
    let (v, w) = (num::value(x), num::value(y));
    lemma_multiples_sum(v, w, p);
    lemma_multiple(v, e);
    lemma_multiple(w, e);
    lemma_multiple(v - w, e);
    assert(v / p - w / p == (v - w) / p) by (nonlinear_arith)
        requires
            v == (v / p) * p,
            w == (w / p) * p,
            v - w == ((v - w) / p) * p,
            p > 0,
    ;
    exact::law_multiples_subtract(x, y, v / p, w / p, e);
}

/// What is committed of a position is what is blocked and what resting sales commit,
/// and the latter is told on its own.
pub proof fn law_what_is_committed_is_blocked_or_resting(
    h: Holding,
    working: Seq<PendingOrder>,
    e: nat,
)
    requires
        add_up(
            resting_sales(working, h.isin@).push(h.quantity).push(h.blocked),
            e,
        ),
        num::value(h.blocked) >= 0,
        total(resting_sales(working, h.isin@)) >= 0,
        num::value(h.blocked) + total(resting_sales(working, h.isin@)) <= num::value(h.quantity),
    ensures
        ({
            let s = screen::sizing_of(h, working);
            &&& num::value(s.committed) == num::value(h.blocked) + total(
                resting_sales(working, h.isin@),
            )
            &&& num::value(s.resting) == total(resting_sales(working, h.isin@))
        }),
{
    lemma_pow2_pos(e);
    let p = pow2(e) as int;
    law_what_is_free_is_what_is_left(h, working, e);
    let sales = resting_sales(working, h.isin@);
    let xs = sales.push(h.quantity).push(h.blocked);
    let n = sales.len() as int;
    assert(xs[n] == h.quantity && xs[n + 1] == h.blocked);
    assert(xs.drop_last() =~= sales.push(h.quantity));
    assert(sales.push(h.quantity).drop_last() =~= sales);
    assert forall|i: int| 0 <= i < sales.len() implies num::is_finite(#[trigger] sales[i])
        && num::value(sales[i]) % p == 0 by {
        assert(sales[i] == xs[i]);
    }
    assert(xs.last() == h.blocked && sales.push(h.quantity).last() == h.quantity);
    assert(bulk(sales.push(h.quantity)) == bulk(sales) + size(num::value(h.quantity)));
    assert(bulk(xs) == bulk(sales) + size(num::value(h.quantity)) + size(num::value(h.blocked)));
    lemma_bulk(sales);
    law_amounts_add_up(sales, e);
    let (q, b, c) = (num::value(h.quantity), num::value(h.blocked), total(sales));
    lemma_multiples_sum(q, b, p);
    lemma_multiples_sum(q - b, c, p);
    let free = h.free(working);
    lemma_exact_difference(h.quantity, free, e);
    lemma_exact_difference(h.quantity, h.blocked, e);
    let d = num::difference(h.quantity, h.blocked);
    lemma_exact_difference(d, free, e);
    let r = num::difference(d, free);
    order::lemma_zero_is_nothing();
    order::lemma_order_of_values(r, num::zero());
    order::lemma_order_of_values(num::zero(), r);
}

} // verus!
