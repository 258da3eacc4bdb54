//! Working orders, and what an order is made of.

use crate::json::{self, Json, JsonView};
use crate::laws::positions;
use crate::num::Num;
use crate::sc::{self, array_at, bool_at, number, words, words_else_empty};
use crate::seqs;
use crate::text::{self, same_text};
use vstd::prelude::*;
use vstd::string::*;

verus! {

#[derive(Debug, Clone, Copy, PartialEq, Eq, Structural)]
pub enum Side {
    Buy,
    Sell,
}

/// How a side is written on the command line.
pub open spec fn side_word(s: Side) -> Seq<char> {
    match s {
        Side::Buy => "buy"@,
        Side::Sell => "sell"@,
    }
}

impl Side {
    pub fn cmd(self) -> (r: &'static str)
        ensures
            r@ == side_word(self),
    {
        match self {
            Side::Buy => "buy",
            Side::Sell => "sell",
        }
    }
}

#[derive(Debug, Clone, Copy, PartialEq, Eq, Structural)]
pub enum OrderType {
    Market,
    Limit,
    Stop,
}

/// How an order type is written on the command line.
pub open spec fn type_word(t: OrderType) -> Seq<char> {
    match t {
        OrderType::Market => "market"@,
        OrderType::Limit => "limit"@,
        OrderType::Stop => "stop"@,
    }
}

impl OrderType {
    pub fn cmd(self) -> (r: &'static str)
        ensures
            r@ == type_word(self),
    {
        match self {
            OrderType::Market => "market",
            OrderType::Limit => "limit",
            OrderType::Stop => "stop",
        }
    }
}

/// A working order. There is no list of orders to ask for, so they are read from
/// the transactions that are pending.
#[derive(Debug, Clone)]
pub struct PendingOrder {
    pub id: String,
    pub isin: String,
    pub description: String,
    pub side: String,
    pub status: String,
    pub quantity: Option<Num>,
    pub amount: Option<Num>,
    pub limit_price: Option<Num>,
    pub stop_price: Option<Num>,
    pub currency: String,
    pub last_event: String,
}

/// Whether an order is what a transaction says.
pub open spec fn is_order(o: PendingOrder, v: JsonView) -> bool {
    &&& o.id@ == sc::words_or_empty(v, "id"@)
    &&& o.isin@ == sc::words_or_empty(v, "isin"@)
    &&& o.description@ == sc::words_or_empty(v, "description"@)
    &&& o.side@ == sc::words_or_empty(v, "side"@)
    &&& o.status@ == sc::words_or_empty(v, "status"@)
    &&& o.quantity == sc::number_at(v, "quantity"@)
    &&& o.amount == sc::number_at(v, "amount"@)
    &&& o.limit_price == sc::number_at(v, "limit_price"@)
    &&& o.stop_price == sc::number_at(v, "stop_price"@)
    &&& o.currency@ == sc::words_or_empty(v, "currency"@)
    &&& o.last_event@ == sc::words_or_empty(v, "last_event_datetime"@)
}

/// Whether a transaction is a working order: a pending trade in a security that
/// is no cancellation, with an id by which it can be cancelled.
pub open spec fn is_working(v: JsonView) -> bool {
    &&& sc::words_at(v, "status"@) == Some("PENDING"@)
    &&& sc::words_at(v, "type"@) == Some("SECURITY_TRANSACTION"@)
    &&& !sc::truth_at(v, "is_cancellation"@)
    &&& sc::words_or_empty(v, "id"@).len() > 0
}

/// The transactions of a payload that are working orders.
pub open spec fn working(v: JsonView) -> Seq<JsonView> {
    sc::list_at(v, "items"@).filter(|t: JsonView| is_working(t))
}

/// Whether orders are what transactions say, one for one.
pub open spec fn are_orders(orders: Seq<PendingOrder>, list: Seq<JsonView>) -> bool {
    orders.len() == list.len() && forall|i: int|
        0 <= i < list.len() ==> is_order(#[trigger] orders[i], list[i])
}

/// Whether a side is that of a sale, in any letter case.
pub open spec fn is_sale(side: Seq<char>) -> bool {
    text::small(side) == text::small("SELL"@)
}

impl Default for PendingOrder {
    fn default() -> (r: PendingOrder)
        ensures
            r.id@.len() == 0,
            r.isin@.len() == 0,
            r.description@.len() == 0,
            r.side@.len() == 0,
            r.status@.len() == 0,
            r.quantity is None,
            r.amount is None,
            r.limit_price is None,
            r.stop_price is None,
            r.currency@.len() == 0,
            r.last_event@.len() == 0,
    {
        PendingOrder {
            id: String::new(),
            isin: String::new(),
            description: String::new(),
            side: String::new(),
            status: String::new(),
            quantity: None,
            amount: None,
            limit_price: None,
            stop_price: None,
            currency: String::new(),
            last_event: String::new(),
        }
    }
}

impl PendingOrder {
    /// Another order like this one.
    pub fn copy(&self) -> (r: PendingOrder)
        ensures
            r == *self,
    {
        PendingOrder {
            id: self.id.clone(),
            isin: self.isin.clone(),
            description: self.description.clone(),
            side: self.side.clone(),
            status: self.status.clone(),
            quantity: self.quantity,
            amount: self.amount,
            limit_price: self.limit_price,
            stop_price: self.stop_price,
            currency: self.currency.clone(),
            last_event: self.last_event.clone(),
        }
    }

    fn one(v: &Json) -> (r: PendingOrder)
        ensures
            is_order(r, v.view()),
    {
        PendingOrder {
            id: words_else_empty(v, "id"),
            isin: words_else_empty(v, "isin"),
            description: words_else_empty(v, "description"),
            side: words_else_empty(v, "side"),
            status: words_else_empty(v, "status"),
            quantity: number(v, "quantity"),
            amount: number(v, "amount"),
            limit_price: number(v, "limit_price"),
            stop_price: number(v, "stop_price"),
            currency: words_else_empty(v, "currency"),
            last_event: words_else_empty(v, "last_event_datetime"),
        }
    }

    fn says(v: &Json, path: &str, word: &str) -> (r: bool)
        ensures
            r == (sc::words_at(v.view(), path@) == Some(word@)),
    {
        match words(v, path) {
            Some(s) => same_text(s.as_str(), word),
            None => false,
        }
    }

    pub fn pending_from_transactions(v: &Json) -> (r: Vec<PendingOrder>)
        ensures
            are_orders(r@, working(v.view())),
            r@.len() == working(v.view()).len(),
            forall|i: int|
                0 <= i < r@.len() ==> positions::says_order(
                    #[trigger] r@[i],
                    working(v.view())[i],
                ),
    {
        proof {
            assert forall|o: PendingOrder, w: JsonView| #[trigger] is_order(o, w) implies positions::says_order(o, w) by {
                positions::law_an_order_is_read_by_name(o, w);
            }
        }
        let mut out: Vec<PendingOrder> = Vec::new();
        let ghost all = sc::list_at(v.view(), "items"@);
        let ghost f = |t: JsonView| is_working(t);
        match array_at(v, "items") {
            Some(a) => {
                proof {
                    seqs::lemma_filter_none(all, f);
                }
                for i in 0..a.len()
                    invariant
                        all == json::views(a@),
                        f == (|t: JsonView| is_working(t)),
                        are_orders(out@, all.take(i as int).filter(f)),
                {
                    let t = &a[i];
                    proof {
                        assert(all[i as int] == t.view());
                        seqs::lemma_filter_next(all, f, i as int);
                    }
                    let o = PendingOrder::one(t);
                    if PendingOrder::says(t, "status", "PENDING") && PendingOrder::says(
                        t,
                        "type",
                        "SECURITY_TRANSACTION",
                    ) && !bool_at(t, "is_cancellation") && !o.id.as_str().is_empty() {
                        assert(f(t.view()));
                        out.push(o);
                    } else {
                        assert(!f(t.view()));
                    }
                }
                assert(all.take(a@.len() as int) =~= all);
            },
            None => {
                proof {
                    assert(all.take(0) =~= all);
                    seqs::lemma_filter_none(all, f);
                }
            },
        }
        out
    }

    /// Whether this sells.
    pub fn sells(&self) -> (r: bool)
        ensures
            r == is_sale(self.side@),
    {
        self.side.as_str().eq_ignore_ascii_case("SELL")
    }
}

/// Nothing that has been settled, cancelled or is no trade is a working order.
pub proof fn law_working_orders_are_pending(v: JsonView, orders: Seq<PendingOrder>)
    requires
        are_orders(orders, working(v)),
    ensures
        orders.len() <= sc::list_at(v, "items"@).len(),
        forall|i: int|
            0 <= i < orders.len() ==> (#[trigger] orders[i]).status@ == "PENDING"@
                && orders[i].id@.len() > 0,
{
    let f = |t: JsonView| is_working(t);
    let all = sc::list_at(v, "items"@);
    all.lemma_filter_len(f);
    assert forall|i: int| 0 <= i < orders.len() implies (#[trigger] orders[i]).status@
        == "PENDING"@ && orders[i].id@.len() > 0 by {
        all.lemma_filter_pred(f, i);
    }
}

} // verus!
