//! What is picked from lists, by where it stands in them.

use crate::model::{Holding, PendingOrder, Quote, Trail};
use crate::model::account;
use crate::num::{self, Num};
use crate::options;
use crate::screen::picks;
use crate::screen::rows;
use crate::seqs;
use crate::text;
use crate::worker;
use crate::worker::Shared;
use crate::worker::flow;
use crate::worker::quotes::{self, QuoteResult};
use crate::worker::trade;
use crate::worker::trails;
use crate::workspace;
use vstd::prelude::*;

verus! {

/// Whether an order is a resting stop that protects a position: a sale of it, with a
/// stop price.
pub open spec fn is_protection(o: PendingOrder, isin: Seq<char>) -> bool {
    o.isin@ == isin && text::small(o.side@) == text::small("SELL"@) && o.stop_price is Some
}

/// What protects a position is the first stop among the orders that does, and there
/// is none where none does.
pub proof fn law_the_first_stop_protects(orders: Seq<PendingOrder>, isin: Seq<char>)
    ensures
        match worker::stop_among(orders, isin) {
            Some(o) => exists|i: int|
                0 <= i < orders.len() && #[trigger] orders[i] == o && is_protection(o, isin) && (
                forall|j: int| 0 <= j < i ==> !is_protection(#[trigger] orders[j], isin)),
            None => forall|i: int| 0 <= i < orders.len()
                ==> !is_protection(#[trigger] orders[i], isin),
        },
    decreases orders.len(),
{
    if orders.len() > 0 {
        let rest = orders.drop_first();
        law_the_first_stop_protects(rest, isin);
        assert(forall|j: int| 0 <= j < rest.len() ==> #[trigger] rest[j] == orders[j + 1]);
        if is_protection(orders[0], isin) {
        } else {
            match worker::stop_among(rest, isin) {
                Some(o) => {
                    let i = choose|i: int|
                        0 <= i < rest.len() && #[trigger] rest[i] == o && is_protection(o, isin)
                            && (forall|j: int|
                            0 <= j < i ==> !is_protection(#[trigger] rest[j], isin));
                    assert forall|j: int| 0 <= j < i + 1 implies !is_protection(
                        #[trigger] orders[j],
                        isin,
                    ) by {
                        if j > 0 {
                            assert(rest[j - 1] == orders[j]);
                        }
                    }
                    assert(orders[i + 1] == o);
                },
                None => {
                    assert forall|i: int| 0 <= i < orders.len() implies !is_protection(
                        #[trigger] orders[i],
                        isin,
                    ) by {
                        if i > 0 {
                            assert(rest[i - 1] == orders[i]);
                        }
                    }
                },
            }
        }
    }
}

/// The order that is cancelled is the first in the selected instrument, and there is
/// none where no order is in it.
pub proof fn law_the_first_order_is_cancelled(orders: Seq<PendingOrder>, isin: Seq<char>)
    ensures
        match picks::order_on(orders, isin) {
            Some(o) => exists|i: int|
                0 <= i < orders.len() && #[trigger] orders[i] == o && o.isin@ == isin && (forall|
                    j: int,
                |
                    0 <= j < i ==> (#[trigger] orders[j]).isin@ != isin),
            None => forall|i: int| 0 <= i < orders.len() ==> (#[trigger] orders[i]).isin@ != isin,
        },
    decreases orders.len(),
{
    if orders.len() > 0 {
        let rest = orders.drop_first();
        law_the_first_order_is_cancelled(rest, isin);
        assert(forall|j: int| 0 <= j < rest.len() ==> #[trigger] rest[j] == orders[j + 1]);
        if orders[0].isin@ != isin {
            match picks::order_on(rest, isin) {
                Some(o) => {
                    let i = choose|i: int|
                        0 <= i < rest.len() && #[trigger] rest[i] == o && o.isin@ == isin && (
                        forall|j: int| 0 <= j < i ==> (#[trigger] rest[j]).isin@ != isin);
                    assert forall|j: int| 0 <= j < i + 1 implies (#[trigger] orders[j]).isin@
                        != isin by {
                        if j > 0 {
                            assert(rest[j - 1] == orders[j]);
                        }
                    }
                    assert(orders[i + 1] == o);
                },
                None => {
                    assert forall|i: int| 0 <= i < orders.len() implies (#[trigger] orders[i]).isin@
                        != isin by {
                        if i > 0 {
                            assert(rest[i - 1] == orders[i]);
                        }
                    }
                },
            }
        }
    }
}

/// The trail on an instrument is the first that is on it.
pub proof fn law_the_first_trail_counts(ts: Seq<Trail>, isin: Seq<char>)
    ensures
        match trade::trail_on(ts, isin) {
            Some(t) => exists|i: int|
                0 <= i < ts.len() && #[trigger] ts[i] == t && t.isin@ == isin && (forall|j: int|
                    0 <= j < i ==> (#[trigger] ts[j]).isin@ != isin),
            None => forall|i: int| 0 <= i < ts.len() ==> (#[trigger] ts[i]).isin@ != isin,
        },
    decreases ts.len(),
{
    if ts.len() > 0 {
        let rest = ts.drop_first();
        law_the_first_trail_counts(rest, isin);
        assert(forall|j: int| 0 <= j < rest.len() ==> #[trigger] rest[j] == ts[j + 1]);
        if ts[0].isin@ != isin {
            match trade::trail_on(rest, isin) {
                Some(t) => {
                    let i = choose|i: int|
                        0 <= i < rest.len() && #[trigger] rest[i] == t && t.isin@ == isin && (
                        forall|j: int| 0 <= j < i ==> (#[trigger] rest[j]).isin@ != isin);
                    assert forall|j: int| 0 <= j < i + 1 implies (#[trigger] ts[j]).isin@
                        != isin by {
                        if j > 0 {
                            assert(rest[j - 1] == ts[j]);
                        }
                    }
                    assert(ts[i + 1] == t);
                },
                None => {
                    assert forall|i: int| 0 <= i < ts.len() implies (#[trigger] ts[i]).isin@
                        != isin by {
                        if i > 0 {
                            assert(rest[i - 1] == ts[i]);
                        }
                    }
                },
            }
        }
    }
}

/// The position in an instrument is the first that is in it, and so are the shares
/// that are held of it.
pub proof fn law_the_first_position_counts(hs: Seq<Holding>, isin: Seq<char>)
    ensures
        match rows::first_in(hs, isin) {
            Some(h) => trade::shares_held(hs, isin) == Some(h.quantity) && exists|i: int|
                0 <= i < hs.len() && #[trigger] hs[i] == h && h.isin@ == isin && (forall|j: int|
                    0 <= j < i ==> (#[trigger] hs[j]).isin@ != isin),
            None => trade::shares_held(hs, isin) is None && forall|i: int|
                0 <= i < hs.len() ==> (#[trigger] hs[i]).isin@ != isin,
        },
    decreases hs.len(),
{
    if hs.len() > 0 {
        let rest = hs.drop_first();
        law_the_first_position_counts(rest, isin);
        assert(forall|j: int| 0 <= j < rest.len() ==> #[trigger] rest[j] == hs[j + 1]);
        if hs[0].isin@ != isin {
            match rows::first_in(rest, isin) {
                Some(h) => {
                    let i = choose|i: int|
                        0 <= i < rest.len() && #[trigger] rest[i] == h && h.isin@ == isin && (
                        forall|j: int| 0 <= j < i ==> (#[trigger] rest[j]).isin@ != isin);
                    assert forall|j: int| 0 <= j < i + 1 implies (#[trigger] hs[j]).isin@
                        != isin by {
                        if j > 0 {
                            assert(rest[j - 1] == hs[j]);
                        }
                    }
                    assert(hs[i + 1] == h);
                },
                None => {
                    assert forall|i: int| 0 <= i < hs.len() implies (#[trigger] hs[i]).isin@
                        != isin by {
                        if i > 0 {
                            assert(rest[i - 1] == hs[i]);
                        }
                    }
                },
            }
        }
    }
}

/// What a stop is to protect is what the resting one does, and all that is held where
/// none rests, or it does not say how much.
pub proof fn law_a_stop_protects_what_the_last_did(a: Shared, isin: Seq<char>)
    ensures
        ({
            let resting = worker::stop_among(a.orders@, isin);
            let shares = trade::shares_to_protect(a, isin);
            &&& resting is Some && resting->0.quantity is Some ==> Some(shares)
                == resting->0.quantity
            &&& (resting is None || resting->0.quantity is None) && rows::first_in(
                a.holdings@,
                isin,
            ) is Some ==> shares == rows::first_in(a.holdings@, isin)->0.quantity
            &&& (resting is None || resting->0.quantity is None) && rows::first_in(
                a.holdings@,
                isin,
            ) is None ==> shares == num::zero()
        }),
{
    law_the_first_position_counts(a.holdings@, isin);
}

/// A step through a list goes to the neighbour, and stays at the end; from what is
/// not on the list it goes to the first.
pub proof fn law_a_step_goes_to_the_neighbour(list: Seq<Seq<char>>, i: int, forward: bool)
    requires
        list.no_duplicates(),
        0 <= i < list.len(),
    ensures
        forward && i + 1 < list.len() ==> picks::stepped(list, Some(list[i]), forward) == Some(
            list[i + 1],
        ),
        forward && i + 1 == list.len() ==> picks::stepped(list, Some(list[i]), forward) == Some(
            list[i],
        ),
        !forward && i > 0 ==> picks::stepped(list, Some(list[i]), forward) == Some(list[i - 1]),
        !forward && i == 0 ==> picks::stepped(list, Some(list[i]), forward) == Some(list[0]),
        picks::stepped(list, None, forward) == Some(list[0]),
        forall|e: Seq<char>|
            !list.contains(e)
                ==> #[trigger] picks::stepped(list, Some(e), forward) == Some(list[0]),
{
    assert(list.contains(list[i]));
    workspace::lemma_first_place(list, list[i], i);
}

/// The next price is the one behind the current among bid, mid and ask, the first
/// again behind the last, and the first where the current is none of them.
pub proof fn law_the_next_price_is_the_one_behind(prices: Seq<Num>, i: int)
    requires
        0 <= i < prices.len(),
        !num::is_nan(prices[i]),
        forall|j: int| 0 <= j < i ==> !num::same(#[trigger] prices[j], prices[i]),
    ensures
        i + 1 < prices.len() ==> picks::cycled(prices, prices[i]) == Some(prices[i + 1]),
        i + 1 == prices.len() ==> picks::cycled(prices, prices[i]) == Some(prices[0]),
        forall|x: Num|
            (forall|j: int| 0 <= j < prices.len() ==> !num::same(#[trigger] prices[j], x))
                ==> #[trigger] picks::cycled(prices, x) == Some(prices[0]),
{
    lemma_price_place(prices, prices[i], i);
    let n = prices.len() as int;
    if i + 1 == n {
        assert((i + 1) % n == 0) by (nonlinear_arith)
            requires
                i + 1 == n,
                n > 0,
        ;
    } else {
        assert((i + 1) % n == i + 1) by (nonlinear_arith)
            requires
                0 <= i,
                i + 1 < n,
        ;
    }
    assert forall|x: Num|
        (forall|j: int| 0 <= j < prices.len() ==> !num::same(#[trigger] prices[j], x)) implies #[trigger] picks::cycled(
        prices,
        x,
    ) == Some(prices[0]) by {
        lemma_no_price_place(prices, x);
    }
}

proof fn lemma_price_place(prices: Seq<Num>, x: Num, i: int)
    requires
        0 <= i < prices.len(),
        num::same(prices[i], x),
        forall|j: int| 0 <= j < i ==> !num::same(#[trigger] prices[j], x),
    ensures
        picks::place_of(prices, x) == Some(i),
    decreases prices.len(),
{
    if i > 0 {
        let rest = prices.drop_first();
        assert(!num::same(prices[0], x));
        assert forall|j: int| 0 <= j < i - 1 implies !num::same(#[trigger] rest[j], x) by {
            assert(rest[j] == prices[j + 1]);
        }
        lemma_price_place(rest, x, i - 1);
    }
}

proof fn lemma_no_price_place(prices: Seq<Num>, x: Num)
    requires
        forall|j: int| 0 <= j < prices.len() ==> !num::same(#[trigger] prices[j], x),
    ensures
        picks::place_of(prices, x) is None,
    decreases prices.len(),
{
    if prices.len() > 0 {
        let rest = prices.drop_first();
        assert(!num::same(prices[0], x));
        assert forall|j: int| 0 <= j < rest.len() implies !num::same(#[trigger] rest[j], x) by {
            assert(rest[j] == prices[j + 1]);
        }
        lemma_no_price_place(rest, x);
    }
}

/// The prices that a limit can take are those of bid, mid and ask that are quoted, in
/// that order.
pub proof fn law_the_prices_are_bid_mid_and_ask(q: Quote)
    ensures
        q.bid is Some && q.mid is Some && q.ask is Some ==> picks::quoted(q) == seq![
            q.bid->0,
            q.mid->0,
            q.ask->0,
        ],
        q.bid is None && q.mid is Some && q.ask is None ==> picks::quoted(q) == seq![q.mid->0],
        forall|x: Num|
            picks::quoted(q).contains(x) ==> q.bid == Some(x) || q.mid == Some(x) || q.ask == Some(
                x,
            ),
        q.bid is None && q.mid is None && q.ask is None ==> picks::quoted(q).len() == 0,
{
    if q.bid is Some && q.mid is Some && q.ask is Some {
        assert(picks::quoted(q) =~= seq![q.bid->0, q.mid->0, q.ask->0]);
    }
    if q.bid is None && q.mid is Some && q.ask is None {
        assert(picks::quoted(q) =~= seq![q.mid->0]);
    }
}

/// What is filtered from a list is what of it passes; where all of it does, it is the
/// list.
pub proof fn lemma_kept<A>(s: Seq<A>, f: spec_fn(A) -> bool)
    ensures
        forall|e: A| #[trigger] s.filter(f).contains(e) <==> s.contains(e) && f(e),
        (forall|i: int| 0 <= i < s.len() ==> f(#[trigger] s[i])) ==> s.filter(f) == s,
        s.filter(f).len() <= s.len(),
    decreases s.len(),
{
    reveal(Seq::filter);
    if s.len() > 0 {
        let rest = s.drop_last();
        let x = s.last();
        lemma_kept(rest, f);
        let k = rest.filter(f);
        let r = s.filter(f);
        assert(rest.push(x) =~= s);
        assert forall|e: A| #[trigger] r.contains(e) <==> s.contains(e) && f(e) by {
            if r.contains(e) {
                let i = choose|i: int| 0 <= i < r.len() && r[i] == e;
                if i < k.len() {
                    assert(k[i] == e);
                    assert(k.contains(e));
                    let j = choose|j: int| 0 <= j < rest.len() && rest[j] == e;
                    assert(s[j] == e);
                } else {
                    assert(s[s.len() - 1] == e);
                }
            }
            if s.contains(e) && f(e) {
                let j = choose|j: int| 0 <= j < s.len() && s[j] == e;
                if j < rest.len() {
                    assert(rest[j] == e);
                    assert(k.contains(e));
                    let i = choose|i: int| 0 <= i < k.len() && k[i] == e;
                    assert(r[i] == e);
                } else {
                    assert(r[r.len() - 1] == e);
                }
            }
        }
        if forall|i: int| 0 <= i < s.len() ==> f(#[trigger] s[i]) {
            assert forall|i: int| 0 <= i < rest.len() implies f(#[trigger] rest[i]) by {
                assert(rest[i] == s[i]);
            }
            assert(f(s[s.len() - 1]));
            assert(r =~= s);
        }
    } else {
        assert(s.filter(f) =~= s);
    }
}

/// Disarming takes away every trail on an instrument and leaves the others, in order.
pub proof fn law_disarming_spares_the_others(ts: Seq<Trail>, isin: Seq<char>, more: Trail)
    ensures
        forall|t: Trail| #[trigger]
            trails::without(ts, isin).contains(t) <==> ts.contains(t) && t.isin@ != isin,
        trails::without(ts, isin).len() <= ts.len(),
        (forall|i: int| 0 <= i < ts.len() ==> (#[trigger] ts[i]).isin@ != isin)
            ==> trails::without(ts, isin) == ts,
        trails::without(ts.push(more), isin) == if more.isin@ != isin {
            trails::without(ts, isin).push(more)
        } else {
            trails::without(ts, isin)
        },
{
    let f = trails::is_off(isin);
    lemma_kept(ts, f);
    seqs::lemma_filter_push(ts, f, more);
}

/// An armed trail is put behind the others, in the place of any on the instrument. Its
/// mark is the mid that is known, and nothing where none is.
pub proof fn law_arming_replaces_a_trail(
    a: Shared,
    b: Shared,
    isin: Seq<char>,
    distance: Num,
    percent: bool,
    shown: Seq<char>,
)
    requires
        trails::armed(a, b, isin, distance, percent, shown),
    ensures
        b.trails@.len() > 0,
        ({
            let t = b.trails@.last();
            &&& t.isin@ == isin
            &&& t.distance == distance
            &&& t.percent == percent
            &&& t.min_step == num::ratio(1, 1000)
            &&& a.quotes@.dom().contains(isin) && a.quotes@[isin].mid is Some ==> t.high_water
                == a.quotes@[isin].mid->0
            &&& !a.quotes@.dom().contains(isin) || a.quotes@[isin].mid is None ==> t.high_water
                == num::zero()
        }),
        forall|t: Trail| #[trigger]
            b.trails@.drop_last().contains(t) <==> a.trails@.contains(t) && t.isin@ != isin,
        b.trail_error is None,
        b.orders == a.orders,
        b.preview == a.preview,
{
    law_disarming_spares_the_others(a.trails@, isin, b.trails@.last());
}

/// The instruments that are held are those of the positions, in order, but for those
/// without one.
pub proof fn law_held_instruments_are_those_of_positions(hs: Seq<Holding>)
    ensures
        forall|e: Seq<char>| #[trigger]
            worker::held_isins(hs).contains(e) <==> e.len() > 0 && exists|i: int|
                0 <= i < hs.len() && (#[trigger] hs[i]).isin@ == e,
{
    let all = hs.map_values(|h: Holding| h.isin@);
    let f = |i: Seq<char>| i.len() > 0;
    lemma_kept(all, f);
    assert forall|e: Seq<char>| #[trigger]
        worker::held_isins(hs).contains(e) <==> e.len() > 0 && exists|i: int|
            0 <= i < hs.len() && (#[trigger] hs[i]).isin@ == e by {
        if all.contains(e) {
            let i = choose|i: int| 0 <= i < all.len() && all[i] == e;
            assert(hs[i].isin@ == e);
        }
        if exists|i: int| 0 <= i < hs.len() && (#[trigger] hs[i]).isin@ == e {
            let i = choose|i: int| 0 <= i < hs.len() && (#[trigger] hs[i]).isin@ == e;
            assert(all[i] == e);
        }
    }
}

/// What is polled is what was asked for. Until something was, it is the watchlist and
/// every instrument that is held, and nothing else.
pub proof fn law_what_was_asked_for_is_polled(s: Shared)
    ensures
        s.poll_set@.len() > 0 ==> s.targets() == text::texts(s.poll_set@),
        s.poll_set@.len() == 0 ==> {
            &&& text::texts(s.watchlist@).is_prefix_of(s.targets())
            &&& forall|e: Seq<char>| #[trigger]
                s.targets().contains(e) <==> text::texts(s.watchlist@).contains(e)
                    || worker::held_isins(s.holdings@).contains(e)
        },
{
    workspace::law_adding_covers_everything(
        text::texts(s.watchlist@),
        worker::held_isins(s.holdings@),
    );
}

/// Nothing is polled while a wait lasts or polling is off. Behind a wait one
/// instrument is polled to probe, and otherwise all of them.
pub proof fn law_a_round_polls_all_or_probes(a: Shared, interval: u64, now: u64)
    ensures
        interval == 0 ==> flow::polled(a, interval, now).len() == 0,
        worker::seconds_until(a.backoff_until, now) is Some ==> flow::polled(
            a,
            interval,
            now,
        ).len() == 0,
        interval > 0 && worker::seconds_until(a.backoff_until, now) is None && !a.probe_next
            ==> flow::polled(a, interval, now) == a.targets(),
        interval > 0 && worker::seconds_until(a.backoff_until, now) is None && a.probe_next
            && a.targets().len() > 0 ==> flow::polled(a, interval, now) == seq![a.targets()[0]],
{
    if a.probe_next && a.targets().len() > 0 {
        assert(a.targets().take(1) =~= seq![a.targets()[0]]);
        if a.targets().len() == 1 {
            assert(a.targets() =~= seq![a.targets()[0]]);
        }
    }
}

/// Of a new set to poll, those instruments are quoted at once that have no quote.
pub proof fn law_only_unquoted_instruments_are_fresh(set: Seq<String>, known: Map<Seq<char>, Quote>)
    ensures
        forall|e: Seq<char>| #[trigger]
            flow::fresh(set, known).contains(e) <==> text::texts(set).contains(e)
                && !known.dom().contains(e),
{
    lemma_kept(text::texts(set), flow::is_unquoted(known));
}

/// A round counts one failure for each call without a quote.
pub proof fn law_a_call_without_a_quote_failed(rs: Seq<QuoteResult>)
    ensures
        0 <= quotes::failures(rs) <= rs.len(),
        quotes::failures(rs) == 0 <==> forall|i: int|
            0 <= i < rs.len() ==> (#[trigger] rs[i]).quote is Some,
        quotes::failures(rs) == rs.len() <==> forall|i: int|
            0 <= i < rs.len() ==> (#[trigger] rs[i]).quote is None,
        rs.len() > 0 ==> quotes::failures(rs) == quotes::failures(rs.drop_last())
            + if rs.last().quote is None {
            1int
        } else {
            0int
        },
    decreases rs.len(),
{
    if rs.len() > 0 {
        let rest = rs.drop_last();
        law_a_call_without_a_quote_failed(rest);
        let n = rs.len() - 1;
        assert(rs[n] == rs.last());
        if quotes::failures(rs) == 0 || quotes::failures(rs) == rs.len() {
            assert forall|i: int| 0 <= i < rs.len() implies (#[trigger] rs[i]).quote is Some == (
            quotes::failures(rs) == 0) by {
                if i < n {
                    assert(rest[i] == rs[i]);
                }
            }
        }
        if forall|i: int| 0 <= i < rs.len() ==> (#[trigger] rs[i]).quote is Some {
            assert forall|i: int| 0 <= i < rest.len() implies (#[trigger] rest[i]).quote is Some by {
                assert(rest[i] == rs[i]);
            }
        }
        if forall|i: int| 0 <= i < rs.len() ==> (#[trigger] rs[i]).quote is None {
            assert forall|i: int| 0 <= i < rest.len() implies (#[trigger] rest[i]).quote is None by {
                assert(rest[i] == rs[i]);
            }
        }
    }
}

/// A round was refused if one of its calls without a quote says so.
pub proof fn law_a_round_is_refused_by_one_call(rs: Seq<QuoteResult>)
    ensures
        quotes::limited(rs) <==> exists|i: int|
            0 <= i < rs.len() && (#[trigger] rs[i]).quote is None && rs[i].error is Some
                && text::holds(rs[i].error->0@, "rate_limited"@),
    decreases rs.len(),
{
    if rs.len() > 0 {
        let rest = rs.drop_last();
        let n = rs.len() - 1;
        law_a_round_is_refused_by_one_call(rest);
        assert(rs[n] == rs.last());
        if quotes::limited(rest) {
            let i = choose|i: int|
                0 <= i < rest.len() && (#[trigger] rest[i]).quote is None && rest[i].error is Some
                    && text::holds(rest[i].error->0@, "rate_limited"@);
            assert(rs[i] == rest[i]);
        } else {
            assert forall|i: int| 0 <= i < n implies !((#[trigger] rs[i]).quote is None
                && rs[i].error is Some && text::holds(rs[i].error->0@, "rate_limited"@)) by {
                assert(rest[i] == rs[i]);
            }
        }
    }
}

/// Whether an argument stands at `i` and at no earlier place.
pub open spec fn stands_first(args: Seq<Seq<char>>, arg: Seq<char>, i: int) -> bool {
    &&& 0 <= i < args.len()
    &&& args[i] == arg
    &&& forall|j: int| 0 <= j < i ==> #[trigger] args[j] != arg
}

proof fn lemma_place(args: Seq<Seq<char>>, arg: Seq<char>)
    ensures
        forall|i: int| #[trigger] stands_first(args, arg, i) ==> options::place_of(args, arg) == i,
        args.contains(arg) ==> stands_first(args, arg, options::place_of(args, arg)),
        !args.contains(arg) ==> options::place_of(args, arg) == args.len(),
    decreases args.len(),
{
    if args.len() > 0 {
        let rest = args.drop_first();
        lemma_place(rest, arg);
        assert(forall|j: int| 0 <= j < rest.len() ==> #[trigger] rest[j] == args[j + 1]);
        if args[0] == arg {
            assert(stands_first(args, arg, 0));
        } else {
            assert forall|i: int| #[trigger] stands_first(args, arg, i) implies options::place_of(
                args,
                arg,
            ) == i by {
                assert forall|j: int| 0 <= j < i - 1 implies #[trigger] rest[j] != arg by {
                    assert(args[j + 1] != arg);
                }
                assert(stands_first(rest, arg, i - 1));
            }
            if args.contains(arg) {
                let i = choose|i: int| 0 <= i < args.len() && args[i] == arg;
                assert(rest[i - 1] == arg);
                assert(rest.contains(arg));
                let k = options::place_of(rest, arg);
                assert forall|j: int| 0 <= j < k + 1 implies #[trigger] args[j] != arg by {
                    if j > 0 {
                        assert(rest[j - 1] == args[j]);
                    }
                }
            } else {
                assert forall|j: int| 0 <= j < rest.len() implies #[trigger] rest[j] != arg by {
                    assert(args[j + 1] == rest[j]);
                    assert(args.contains(args[j + 1]));
                }
            }
        }
    }
}

/// The options are read by their names: a screenshot is asked for by its option, with
/// the path and the wait behind it, and a tab and a selection each by its own.
pub proof fn law_options_are_read_by_name(
    o: options::Options,
    args: Seq<Seq<char>>,
    at: int,
    tab: int,
    select: int,
)
    requires
        options::are_options(o, args),
    ensures
        o.redact <==> args.contains("--redact"@),
        o.shot is Some <==> args.contains("--screenshot"@),
        stands_first(args, "--screenshot"@, at) ==> o.shot is Some && {
            let shot = o.shot->0;
            &&& at + 1 < args.len() ==> shot.path@ == args[at + 1]
            &&& at + 1 == args.len() ==> shot.path@ == "shot.png"@
            &&& at + 2 < args.len() ==> shot.warmup is Some && shot.warmup->0@ == args[at + 2]
            &&& at + 2 >= args.len() ==> shot.warmup is None
            &&& stands_first(args, "--tab"@, tab) && tab + 1 < args.len() ==> shot.tab is Some
                && shot.tab->0@ == args[tab + 1]
            &&& !args.contains("--tab"@) ==> shot.tab is None
            &&& stands_first(args, "--select"@, select) && select + 1 < args.len()
                ==> shot.select is Some && shot.select->0@ == args[select + 1]
            &&& !args.contains("--select"@) ==> shot.select is None
        },
{
    lemma_place(args, "--screenshot"@);
    lemma_place(args, "--tab"@);
    lemma_place(args, "--select"@);
}

/// The returns of an account come by the length of their timeframes: none is behind a
/// longer one, and those of unknown length come last. None is lost or added.
pub proof fn law_returns_come_by_length(p: Seq<(Seq<char>, Num)>)
    ensures
        forall|r: (Seq<char>, Num)| #[trigger]
            account::shortest_first(p).contains(r) <==> p.contains(r),
        forall|i: int, j: int|
            0 <= i < j < account::shortest_first(p).len() ==> length_of(
                (#[trigger] account::shortest_first(p)[i]).0,
            ) <= length_of((#[trigger] account::shortest_first(p)[j]).0),
{
    lemma_lengths();
    lemma_by_length(p, 8);
    let head = account::by_timeframe(p, 8);
    let g = |r: (Seq<char>, Num)| account::is_other(r.0, 8);
    lemma_kept(p, g);
    let tail = p.filter(g);
    let all = account::shortest_first(p);
    assert(all == head + tail);
    assert forall|r: (Seq<char>, Num)| #[trigger] all.contains(r) <==> p.contains(r) by {
        if all.contains(r) {
            let i = choose|i: int| 0 <= i < all.len() && all[i] == r;
            if i < head.len() {
                assert(head[i] == r);
                assert(head.contains(r));
            } else {
                assert(tail[i - head.len()] == r);
                assert(tail.contains(r));
            }
        }
        if p.contains(r) {
            if g(r) {
                assert(tail.contains(r));
                let i = choose|i: int| 0 <= i < tail.len() && tail[i] == r;
                assert(all[head.len() + i] == r);
            } else {
                let k = choose|k: int| 0 <= k < 8 && r.0 == #[trigger] account::timeframe_name(k);
                assert(length_of(r.0) == k);
                assert(head.contains(r));
                let i = choose|i: int| 0 <= i < head.len() && head[i] == r;
                assert(all[i] == r);
            }
        }
    }
    assert forall|i: int, j: int| 0 <= i < j < all.len() implies length_of(
        (#[trigger] all[i]).0,
    ) <= length_of((#[trigger] all[j]).0) by {
        if j >= head.len() {
            let r = all[j];
            assert(tail[j - head.len()] == r);
            assert(tail.contains(r));
            assert(g(r));
            assert(length_of(r.0) == 8) by {
                assert(r.0 != account::timeframe_name(0));
                assert(r.0 != account::timeframe_name(1));
                assert(r.0 != account::timeframe_name(2));
                assert(r.0 != account::timeframe_name(3));
                assert(r.0 != account::timeframe_name(4));
                assert(r.0 != account::timeframe_name(5));
                assert(r.0 != account::timeframe_name(6));
                assert(r.0 != account::timeframe_name(7));
            }
        } else {
            assert(head[i] == all[i] && head[j] == all[j]);
        }
    }
}

/// The place of a timeframe among those of known length, from a day to all there is.
pub open spec fn length_of(name: Seq<char>) -> int {
    if name == "INTRADAY"@ {
        0
    } else if name == "TWO_DAYS"@ {
        1
    } else if name == "ONE_WEEK"@ {
        2
    } else if name == "ONE_MONTH"@ {
        3
    } else if name == "THREE_MONTHS"@ {
        4
    } else if name == "SIX_MONTHS"@ {
        5
    } else if name == "ONE_YEAR"@ {
        6
    } else if name == "MAX"@ {
        7
    } else {
        8
    }
}

proof fn lemma_lengths()
    ensures
        forall|k: int| 0 <= k < 8 ==> length_of(#[trigger] account::timeframe_name(k)) == k,
{
    reveal_strlit("INTRADAY");
    reveal_strlit("TWO_DAYS");
    reveal_strlit("ONE_WEEK");
    reveal_strlit("ONE_MONTH");
    reveal_strlit("THREE_MONTHS");
    reveal_strlit("SIX_MONTHS");
    reveal_strlit("ONE_YEAR");
    reveal_strlit("MAX");
    assert("INTRADAY"@[0] == 'I');
    assert("TWO_DAYS"@[0] == 'T');
    assert("ONE_WEEK"@[4] == 'W');
    assert("ONE_YEAR"@[4] == 'Y');
    assert("INTRADAY"@[4] == 'A');
    assert("TWO_DAYS"@[4] == 'D');
    assert forall|k: int| 0 <= k < 8 implies length_of(#[trigger] account::timeframe_name(k))
        == k by {
        assert(k == 0 || k == 1 || k == 2 || k == 3 || k == 4 || k == 5 || k == 6 || k == 7);
        assert("INTRADAY"@.len() == 8 && "TWO_DAYS"@.len() == 8 && "ONE_WEEK"@.len() == 8);
        assert("ONE_MONTH"@.len() == 9 && "THREE_MONTHS"@.len() == 12);
        assert("SIX_MONTHS"@.len() == 10 && "ONE_YEAR"@.len() == 8 && "MAX"@.len() == 3);
    }
}

proof fn lemma_by_length(p: Seq<(Seq<char>, Num)>, k: int)
    requires
        0 <= k <= 8,
    ensures
        forall|r: (Seq<char>, Num)| #[trigger]
            account::by_timeframe(p, k).contains(r) <==> p.contains(r) && length_of(r.0) < k,
        forall|i: int, j: int|
            0 <= i < j < account::by_timeframe(p, k).len() ==> length_of(
                (#[trigger] account::by_timeframe(p, k)[i]).0,
            ) <= length_of((#[trigger] account::by_timeframe(p, k)[j]).0),
    decreases k,
{
    lemma_lengths();
    let all = account::by_timeframe(p, k);
    if k > 0 {
        lemma_by_length(p, k - 1);
        let head = account::by_timeframe(p, k - 1);
        let f = |r: (Seq<char>, Num)| r.0 == account::timeframe_name(k - 1);
        lemma_kept(p, f);
        let tail = p.filter(f);
        assert(all == head + tail);
        assert(length_of(account::timeframe_name(k - 1)) == k - 1);
        assert forall|r: (Seq<char>, Num)| #[trigger] all.contains(r) <==> p.contains(r)
            && length_of(r.0) < k by {
            if all.contains(r) {
                let i = choose|i: int| 0 <= i < all.len() && all[i] == r;
                if i < head.len() {
                    assert(head[i] == r);
                    assert(head.contains(r));
                } else {
                    assert(tail[i - head.len()] == r);
                    assert(tail.contains(r));
                }
            }
            if p.contains(r) && length_of(r.0) < k {
                if length_of(r.0) < k - 1 {
                    assert(head.contains(r));
                    let i = choose|i: int| 0 <= i < head.len() && head[i] == r;
                    assert(all[i] == r);
                } else {
                    assert(r.0 == account::timeframe_name(length_of(r.0)));
                    assert(f(r));
                    assert(tail.contains(r));
                    let i = choose|i: int| 0 <= i < tail.len() && tail[i] == r;
                    assert(all[head.len() + i] == r);
                }
            }
        }
        assert forall|i: int, j: int| 0 <= i < j < all.len() implies length_of(
            (#[trigger] all[i]).0,
        ) <= length_of((#[trigger] all[j]).0) by {
            if j >= head.len() {
                let r = all[j];
                assert(tail[j - head.len()] == r);
                assert(tail.contains(r));
                assert(f(r));
                let q = all[i];
                if i < head.len() {
                    assert(head[i] == q);
                    assert(head.contains(q));
                } else {
                    assert(tail[i - head.len()] == q);
                    assert(tail.contains(q));
                    assert(f(q));
                }
            } else {
                assert(head[i] == all[i] && head[j] == all[j]);
            }
        }
    }
}

} // verus!
