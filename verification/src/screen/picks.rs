//! What a key or a button picks.

use crate::laws::near;
use crate::model::{PendingOrder, Quote};
use crate::num::{self, Num};
use crate::screen::{is_meant, Ticket};
use crate::text::{self, same_text};
use crate::worker::{self, timeframes, Cmd, Shared};
use crate::workspace::{clamped, first_place, lemma_first_place};
use vstd::prelude::*;
use vstd::string::*;

verus! {

/// The entry before or after the current one, which at either end of the list is
/// the current one itself. Where none is current, it is the first.
pub open spec fn stepped(
    list: Seq<Seq<char>>,
    current: Option<Seq<char>>,
    forward: bool,
) -> Option<Seq<char>> {
    if list.len() == 0 {
        None
    } else if current is Some && list.contains(current->0) {
        let at = first_place(list, current->0);
        Some(
            list[clamped(
                if forward {
                    at + 1
                } else {
                    at - 1
                },
                0,
                list.len() - 1,
            )],
        )
    } else {
        Some(list[0])
    }
}

/// The place that a step leads to in a list of `n` entries.
fn step(at: usize, forward: bool, n: usize) -> (r: usize)
    requires
        at < n,
    ensures
        r == clamped(
            if forward {
                at + 1
            } else {
                at - 1
            },
            0,
            n - 1,
        ),
{
    if forward {
        if at + 1 < n {
            at + 1
        } else {
            at
        }
    } else if at > 0 {
        at - 1
    } else {
        0
    }
}

/// The instrument before or after the selected one.
pub fn next_instrument(
    list: &Vec<String>,
    selected: &Option<String>,
    forward: bool,
) -> (r: Option<String>)
    ensures
        text::seen_text(r) == stepped(text::texts(list@), text::seen_text(*selected), forward),
{
    let ghost all = text::texts(list@);
    let n: usize = list.len();
    if n == 0 {
        return None;
    }
    match selected {
        Some(isin) => {
            for i in 0..n
                invariant
                    n == list@.len(),
                    all == text::texts(list@),
                    *selected == Some(*isin),
                    forall|k: int| 0 <= k < i ==> #[trigger] all[k] != isin@,
            {
                if same_text(list[i].as_str(), isin.as_str()) {
                    proof {
                        assert(all[i as int] == isin@);
                        lemma_first_place(all, isin@, i as int);
                    }
                    return Some(list[step(i, forward, n)].clone());
                }
                assert(all[i as int] != isin@);
            }
            assert(!all.contains(isin@));
        },
        None => {},
    }
    Some(list[0].clone())
}

/// The timeframe before or after the one that is shown.
pub fn next_timeframe(current: &str, forward: bool) -> (r: &'static str)
    ensures
        Some(r@) == stepped(worker::timeframe_names(), Some(current@), forward),
{
    let list = timeframes();
    let ghost all = worker::timeframe_names();
    let n: usize = list.len();
    assert(all.len() == n) by {
        assert(list@.map_values(|t: &'static str| t@).len() == list@.len());
    }
    for i in 0..n
        invariant
            n == list@.len(),
            n == all.len(),
            all == list@.map_values(|t: &'static str| t@),
            all == worker::timeframe_names(),
            forall|k: int| 0 <= k < i ==> #[trigger] all[k] != current@,
    {
        if same_text(list[i], current) {
            proof {
                assert(all[i as int] == current@);
                lemma_first_place(all, current@, i as int);
            }
            return list[step(i, forward, n)];
        }
        assert(all[i as int] != current@);
    }
    assert(!all.contains(current@));
    list[0]
}

/// A step back undoes a step forward, but for one that was stopped by the end.
pub proof fn law_a_step_back_undoes_a_step(list: Seq<Seq<char>>, i: int)
    requires
        list.no_duplicates(),
        0 <= i < list.len() - 1,
    ensures
        stepped(list, Some(list[i]), true) == Some(list[i + 1]),
        stepped(list, Some(list[i + 1]), false) == Some(list[i]),
{
    assert(list.contains(list[i]));
    assert(list.contains(list[i + 1]));
    lemma_first_place(list, list[i], i);
    lemma_first_place(list, list[i + 1], i + 1);
}

/// The price, where there is one.
pub open spec fn only(price: Option<Num>) -> Seq<Num> {
    match price {
        Some(p) => seq![p],
        None => Seq::empty(),
    }
}

/// Those of bid, mid and ask that there are, in that order.
pub open spec fn quoted(q: Quote) -> Seq<Num> {
    only(q.bid) + only(q.mid) + only(q.ask)
}

/// The place of the first price that is `x`.
pub open spec fn place_of(prices: Seq<Num>, x: Num) -> Option<int>
    decreases prices.len(),
{
    if prices.len() == 0 {
        None
    } else if num::same(prices[0], x) {
        Some(0)
    } else {
        match place_of(prices.drop_first(), x) {
            Some(i) => Some(i + 1),
            None => None,
        }
    }
}

/// The price after `x`, round and round. Where `x` is none of them, it is the
/// first.
pub open spec fn cycled(prices: Seq<Num>, x: Num) -> Option<Num> {
    if prices.len() == 0 {
        None
    } else {
        match place_of(prices, x) {
            Some(i) => Some(prices[(i + 1) % (prices.len() as int)]),
            None => Some(prices[0]),
        }
    }
}

fn push_price(prices: &mut Vec<Num>, price: Option<Num>)
    ensures
        final(prices)@ == old(prices)@ + only(price),
{
    match price {
        Some(p) => {
            prices.push(p);
        },
        None => {},
    }
    assert(prices@ =~= old(prices)@ + only(price));
}

/// The price that the limit goes to next: from bid to mid to ask, and round again.
pub fn next_price(q: &Quote, limit: Num) -> (r: Option<Num>)
    ensures
        r == cycled(quoted(*q), limit),
{
    let mut prices: Vec<Num> = Vec::new();
    push_price(&mut prices, q.bid);
    push_price(&mut prices, q.mid);
    push_price(&mut prices, q.ask);
    let ghost all = quoted(*q);
    assert(prices@ =~= all);
    let n: usize = prices.len();
    if n == 0 {
        return None;
    }
    assert(all.skip(0) =~= all);
    for i in 0..n
        invariant
            n == all.len(),
            n <= 3,
            prices@ == all,
            all == quoted(*q),
            place_of(all, limit) == (match place_of(all.skip(i as int), limit) {
                Some(k) => Some(k + i),
                None => None,
            }),
    {
        assert(all.skip(i as int)[0] == all[i as int]);
        assert(all.skip(i as int).drop_first() =~= all.skip(i + 1));
        if prices[i].equals(limit) {
            return Some(prices[(i + 1) % n]);
        }
    }
    assert(all.skip(n as int).len() == 0);
    Some(prices[0])
}

/// The limit price visits bid, mid and ask in turn, where they differ.
pub proof fn law_the_limit_visits_every_price(q: Quote)
    requires
        q.bid is Some,
        q.mid is Some,
        q.ask is Some,
        num::same(q.bid->0, q.bid->0),
        num::same(q.mid->0, q.mid->0),
        num::same(q.ask->0, q.ask->0),
        !num::same(q.bid->0, q.mid->0),
        !num::same(q.mid->0, q.ask->0),
        !num::same(q.bid->0, q.ask->0),
    ensures
        cycled(quoted(q), q.bid->0) == q.mid,
        cycled(quoted(q), q.mid->0) == q.ask,
        cycled(quoted(q), q.ask->0) == q.bid,
{
    reveal_with_fuel(place_of, 4);
    let all = quoted(q);
    assert(all =~= seq![q.bid->0, q.mid->0, q.ask->0]);
    assert(all.drop_first() =~= seq![q.mid->0, q.ask->0]);
    assert(all.drop_first().drop_first() =~= seq![q.ask->0]);
}

/// The first working order in an instrument.
pub open spec fn order_on(orders: Seq<PendingOrder>, isin: Seq<char>) -> Option<PendingOrder>
    decreases orders.len(),
{
    if orders.len() == 0 {
        None
    } else if orders[0].isin@ == isin {
        Some(orders[0])
    } else {
        order_on(orders.drop_first(), isin)
    }
}

/// Whether a command is to cancel an order.
pub open spec fn cancels(cmd: Option<Cmd>, o: Option<PendingOrder>) -> bool {
    match (cmd, o) {
        (Some(Cmd::CancelOrder(id)), Some(o)) => id@ == o.id@,
        (None, None) => true,
        _ => false,
    }
}

/// The command to cancel the working order in the selected instrument, where
/// there is one.
pub fn cancel_request(s: &Shared, selected: &Option<String>) -> (r: Option<Cmd>)
    ensures
        cancels(
            r,
            match *selected {
                Some(isin) => order_on(s.orders@, isin@),
                None => None,
            },
        ),
{
    match selected {
        Some(isin) => {
            let ghost all = s.orders@;
            assert(all.skip(0) =~= all);
            for i in 0..s.orders.len()
                invariant
                    all == s.orders@,
                    *selected == Some(*isin),
                    order_on(all, isin@) == order_on(all.skip(i as int), isin@),
            {
                assert(all.skip(i as int)[0] == all[i as int]);
                assert(all.skip(i as int).drop_first() =~= all.skip(i + 1));
                if same_text(s.orders[i].isin.as_str(), isin.as_str()) {
                    return Some(Cmd::CancelOrder(s.orders[i].id.clone()));
                }
            }
            assert(all.skip(all.len() as int).len() == 0);
            None
        },
        None => None,
    }
}

/// The command to preview what the ticket says of the selected instrument. There
/// is one unless nothing is selected, or a preview is under way.
pub fn preview_request(s: &Shared, ticket: &Ticket, selected: &Option<String>) -> (r: Option<Cmd>)
    ensures
        r is Some == (selected is Some && !s.preview_pending),
        r matches Some(cmd) ==> cmd matches Cmd::PreviewTrade(t) && is_meant(
            t,
            *ticket,
            selected->0@,
        ),
{
    match selected {
        Some(isin) => if s.preview_pending {
            None
        } else {
            Some(Cmd::PreviewTrade(ticket.intent(isin.as_str())))
        },
        None => None,
    }
}

/// The command to arm a trail on the selected instrument. A distance in percent
/// becomes a fraction.
pub fn trail_request(selected: &Option<String>, distance: Num, percent: bool) -> (r: Option<Cmd>)
    ensures
        r is Some == selected is Some,
        r matches Some(cmd) ==> cmd matches Cmd::ArmTrail { isin, distance: d, percent: p } && isin@
            == selected->0@ && p == percent && d == if percent {
            num::quotient(distance, num::whole(100))
        } else {
            distance
        },
        num::is_finite(distance) ==> (r matches Some(Cmd::ArmTrail { distance: d, .. }) ==> {
            &&& percent ==> near::is_off_by(
                num::value(d) * 100,
                num::value(distance),
                near::size(num::value(distance)),
                100,
            )
            &&& !percent ==> num::value(d) == num::value(distance)
        }),
{
    proof {
        if num::is_finite(distance) {
            near::lemma_part_near(distance, 100);
        }
    }
    match selected {
        Some(isin) => Some(
            Cmd::ArmTrail {
                isin: isin.clone(),
                distance: if percent {
                    distance.over(Num::from_i64(100))
                } else {
                    distance
                },
                percent,
            },
        ),
        None => None,
    }
}

} // verus!
