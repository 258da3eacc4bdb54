//! Positions: what is held, what it cost, and how much of it can be sold.

use crate::json::{self, Json, JsonView};
use crate::laws::positions;
use crate::model::pending::{self, PendingOrder};
use crate::num::{self, Num};
use crate::order;
use crate::sc::{self, array_at, bool_at, number, number_else_zero, words, words_else_empty};
use vstd::prelude::*;
use vstd::string::*;

verus! {

#[derive(Debug, Clone)]
pub struct Holding {
    pub isin: String,
    pub name: String,
    pub security_type: String,
    pub quantity: Num,
    pub blocked: Num,
    pub pending: Num,
    pub fifo_price: Option<Num>,
    pub mid: Option<Num>,
    pub valuation: Option<Num>,
    pub currency: String,
    pub outdated: bool,
    pub timestamp: String,
}

impl Default for Holding {
    fn default() -> (r: Holding)
        ensures
            r.isin@.len() == 0,
            r.name@.len() == 0,
            r.security_type@.len() == 0,
            r.quantity == num::zero(),
            r.blocked == num::zero(),
            r.pending == num::zero(),
            r.fifo_price is None,
            r.mid is None,
            r.valuation is None,
            r.currency@.len() == 0,
            !r.outdated,
            r.timestamp@.len() == 0,
    {
        Holding {
            isin: String::new(),
            name: String::new(),
            security_type: String::new(),
            quantity: Num::zero(),
            blocked: Num::zero(),
            pending: Num::zero(),
            fifo_price: None,
            mid: None,
            valuation: None,
            currency: String::new(),
            outdated: false,
            timestamp: String::new(),
        }
    }
}

/// Whether a holding is what an item of the payload says.
pub open spec fn is_holding(h: Holding, v: JsonView) -> bool {
    &&& h.isin@ == sc::words_or_empty(v, "isin"@)
    &&& h.name@ == sc::words_or_empty(v, "name"@)
    &&& h.security_type@ == sc::words_or_empty(v, "security_type"@)
    &&& h.quantity == sc::number_or_zero(v, "quantity"@)
    &&& h.blocked == sc::number_or_zero(v, "blocked_quantity"@)
    &&& h.pending == sc::number_or_zero(v, "pending_quantity"@)
    &&& h.fifo_price == sc::number_at(v, "fifo_price"@)
    &&& h.mid == sc::number_at(v, "quote_mid_price"@)
    &&& h.valuation == sc::number_at(v, "valuation"@)
    &&& h.currency@ == match sc::words_at(v, "valuation_currency"@) {
        Some(c) => c,
        None => sc::words_or_empty(v, "quote_currency"@),
    }
    &&& h.outdated == sc::truth_at(v, "quote_is_outdated"@)
    &&& h.timestamp@ == sc::words_or_empty(v, "quote_timestamp_utc"@)
}

/// Whether holdings are what the items of a payload say, one for one.
pub open spec fn are_holdings(hs: Seq<Holding>, list: Seq<JsonView>) -> bool {
    hs.len() == list.len() && forall|i: int|
        0 <= i < list.len() ==> is_holding(#[trigger] hs[i], list[i])
}

/// Whether an order commits shares of an instrument.
pub open spec fn commits(o: PendingOrder, isin: Seq<char>) -> bool {
    o.isin@ == isin && pending::is_sale(o.side@) && o.quantity is Some
}

/// The shares of an instrument that resting sales commit.
pub open spec fn resting(working: Seq<PendingOrder>, isin: Seq<char>) -> Num
    decreases working.len(),
{
    if working.len() == 0 {
        num::negative_zero()
    } else {
        let before = resting(working.drop_last(), isin);
        if commits(working.last(), isin) {
            num::sum(before, working.last().quantity->0)
        } else {
            before
        }
    }
}

/// A gain as a percentage of a cost, where there was one.
pub open spec fn gain_share(gain: Option<Num>, cost: Option<Num>) -> Option<Num> {
    if gain is Some && cost is Some && num::less(
        num::ratio(1, 1_000_000_000),
        num::signed(false, num::mag(cost->0)),
    ) {
        Some(num::product(num::quotient(gain->0, cost->0), num::whole(100)))
    } else {
        None
    }
}

/// What is left of a quantity, which is never less than nothing.
pub open spec fn left_of(quantity: Num, blocked: Num, committed: Num) -> Num {
    num::larger(num::difference(num::difference(quantity, blocked), committed), num::zero())
}

impl Holding {
    /// The shares that can be sold. What the broker calls blocked does not count
    /// the shares that resting sales have committed, so those are taken off here.
    pub open spec fn free(self, working: Seq<PendingOrder>) -> Num {
        left_of(self.quantity, self.blocked, resting(working, self.isin@))
    }

    /// What was paid.
    pub open spec fn cost(self) -> Option<Num> {
        match self.fifo_price {
            Some(p) => Some(num::product(p, self.quantity)),
            None => None,
        }
    }

    /// What has been gained on paper.
    pub open spec fn gain(self) -> Option<Num> {
        match (self.valuation, self.cost()) {
            (Some(v), Some(c)) => Some(num::difference(v, c)),
            _ => None,
        }
    }

    pub fn list_from(v: &Json) -> (r: Vec<Holding>)
        ensures
            are_holdings(r@, sc::list_at(v.view(), "items"@)),
            r@.len() == sc::list_at(v.view(), "items"@).len(),
            forall|i: int|
                0 <= i < r@.len() ==> positions::says_holding(
                    #[trigger] r@[i],
                    sc::list_at(v.view(), "items"@)[i],
                ),
    {
        proof {
            assert forall|h: Holding, w: JsonView| #[trigger] is_holding(h, w) implies positions::says_holding(h, w) by {
                positions::law_a_position_is_read_by_name(h, w);
            }
        }
        let mut out: Vec<Holding> = Vec::new();
        let ghost all = sc::list_at(v.view(), "items"@);
        match array_at(v, "items") {
            Some(a) => {
                for i in 0..a.len()
                    invariant
                        all == json::views(a@),
                        are_holdings(out@, all.take(i as int)),
                {
                    assert(all[i as int] == a@[i as int].view());
                    out.push(Holding::one(&a[i]));
                }
                assert(all.take(a@.len() as int) =~= all);
            },
            None => {},
        }
        out
    }

    fn one(v: &Json) -> (r: Holding)
        ensures
            is_holding(r, v.view()),
    {
        Holding {
            isin: words_else_empty(v, "isin"),
            name: words_else_empty(v, "name"),
            security_type: words_else_empty(v, "security_type"),
            quantity: number_else_zero(v, "quantity"),
            blocked: number_else_zero(v, "blocked_quantity"),
            pending: number_else_zero(v, "pending_quantity"),
            fifo_price: number(v, "fifo_price"),
            mid: number(v, "quote_mid_price"),
            valuation: number(v, "valuation"),
            currency: match words(v, "valuation_currency") {
                Some(c) => c,
                None => words_else_empty(v, "quote_currency"),
            },
            outdated: bool_at(v, "quote_is_outdated"),
            timestamp: words_else_empty(v, "quote_timestamp_utc"),
        }
    }

    pub fn free_quantity(&self, working: &[PendingOrder]) -> (r: Num)
        ensures
            r == self.free(working@),
    {
        let mut committed: Num = Num::negative_zero();
        let ghost all = working@;
        assert(all.take(0) =~= Seq::empty());
        for i in 0..working.len()
            invariant
                all == working@,
                committed == resting(all.take(i as int), self.isin@),
        {
            assert(all.take(i + 1).drop_last() =~= all.take(i as int));
            assert(all.take(i + 1).last() == all[i as int]);
            let o = &working[i];
            if o.isin == self.isin && o.sells() {
                match o.quantity {
                    Some(q) => {
                        committed = committed.plus(q);
                    },
                    None => {},
                }
            }
        }
        assert(all.take(all.len() as int) =~= all);
        self.quantity.minus(self.blocked).minus(committed).max(Num::zero())
    }

    pub fn cost_basis(&self) -> (r: Option<Num>)
        ensures
            r == self.cost(),
    {
        match self.fifo_price {
            Some(p) => Some(p.times(self.quantity)),
            None => None,
        }
    }

    pub fn unrealized(&self) -> (r: Option<Num>)
        ensures
            r == self.gain(),
    {
        match (self.valuation, self.cost_basis()) {
            (Some(v), Some(c)) => Some(v.minus(c)),
            _ => None,
        }
    }

    /// The gain as a percentage of the cost, where there was a cost.
    pub fn unrealized_pct(&self) -> (r: Option<Num>)
        ensures
            r == gain_share(self.gain(), self.cost()),
            r == (match (self.gain(), self.cost()) {
                (Some(g), Some(c)) => if num::less(
                    num::ratio(1, 1_000_000_000),
                    num::signed(false, num::mag(c)),
                ) {
                    Some(num::product(num::quotient(g, c), num::whole(100)))
                } else {
                    None
                },
                _ => None,
            }),
    {
        match (self.unrealized(), self.cost_basis()) {
            (Some(u), Some(c)) => if Num::ratio(1, 1_000_000_000).lt(c.abs()) {
                Some(u.over(c).times(Num::from_i64(100)))
            } else {
                None
            },
            _ => None,
        }
    }
}

/// Purchases, and orders for other instruments, commit no shares.
pub proof fn law_only_sales_commit_shares(
    working: Seq<PendingOrder>,
    o: PendingOrder,
    isin: Seq<char>,
)
    requires
        o.isin@ != isin || !pending::is_sale(o.side@),
    ensures
        resting(working.push(o), isin) == resting(working, isin),
{
    assert(working.push(o).drop_last() =~= working);
}

/// A resting sale takes its quantity from what is free.
pub proof fn law_a_sale_is_taken_off(h: Holding, working: Seq<PendingOrder>, o: PendingOrder)
    requires
        commits(o, h.isin@),
    ensures
        h.free(working.push(o)) == left_of(
            h.quantity,
            h.blocked,
            num::sum(resting(working, h.isin@), o.quantity->0),
        ),
{
    assert(working.push(o).drop_last() =~= working);
}

/// Without working orders, all that is not blocked is free.
pub proof fn law_all_is_free_without_orders(h: Holding)
    ensures
        h.free(Seq::empty()) == left_of(h.quantity, h.blocked, num::negative_zero()),
{
}

/// What is free is never less than nothing.
pub proof fn law_free_is_not_negative(h: Holding, working: Seq<PendingOrder>)
    ensures
        num::at_most(num::zero(), h.free(working)),
{
}

/// Committing more shares never frees any, whatever is committed already.
pub proof fn law_more_orders_never_free_shares(
    h: Holding,
    working: Seq<PendingOrder>,
    o: PendingOrder,
)
    requires
        commits(o, h.isin@) ==> !num::less(o.quantity->0, num::zero()),
    ensures
        num::at_most(h.free(working.push(o)), h.free(working)),
{
    assert(working.push(o).drop_last() =~= working);
    if commits(o, h.isin@) {
        let q = o.quantity->0;
        let r = resting(working, h.isin@);
        let more = num::sum(r, q);
        let rest = num::difference(h.quantity, h.blocked);
        order::lemma_negated(r);
        order::lemma_negated(more);
        if num::is_finite(r) && num::is_finite(q) {
            order::lemma_sum_with(r, q);
            if num::is_finite(rest) {
                order::lemma_difference_shrinks(rest, r, more);
            }
        }
    }
}

} // verus!
