//! What the broker discloses of an order before it is placed.

use crate::json::{Json, JsonView};
use crate::laws::previews;
use crate::model::quote;
use crate::num::{self, Num};
use crate::sc::{self, bool_at, number, words, words_else_empty};
use vstd::prelude::*;
use vstd::string::*;

verus! {

#[derive(Debug, Clone)]
pub struct TradePreview {
    pub confirmation_id: String,
    pub expires_at_epoch: Option<Num>,
    pub bid: Option<Num>,
    pub ask: Option<Num>,
    pub mid: Option<Num>,
    pub currency: String,
    pub quote_outdated: bool,
    pub quote_ts: String,
    pub shares: Option<Num>,
    pub est_volume: Option<Num>,
    pub tradable: bool,
    pub venue: String,
    pub venue_status: String,
    pub requires_accept_unsuitable: bool,
    pub suitability_status: String,
    pub entry_cost: Option<Num>,
    pub entry_cost_pct: Option<Num>,
    pub ongoing_cost: Option<Num>,
    pub exit_cost: Option<Num>,
    pub warning_title: String,
    pub warning_body: String,
    pub raw: Json,
}

/// Whether a preview is what a payload discloses under a confirmation id.
pub open spec fn is_preview(p: TradePreview, id: Seq<char>, v: JsonView) -> bool {
    &&& p.confirmation_id@ == id
    &&& p.expires_at_epoch == sc::number_at(v, "confirmation/expires_at_epoch"@)
    &&& p.bid == sc::number_at(v, "result/market_quote/bid_price"@)
    &&& p.ask == sc::number_at(v, "result/market_quote/ask_price"@)
    &&& p.mid == sc::number_at(v, "result/market_quote/mid_price"@)
    &&& p.currency@ == sc::words_or_empty(v, "result/market_quote/currency"@)
    &&& p.quote_outdated == sc::truth_at(v, "result/market_quote/is_outdated"@)
    &&& p.quote_ts@ == sc::words_or_empty(v, "result/market_quote/timestamp_utc"@)
    &&& p.shares == sc::number_at(v, "result/calculation/shares"@)
    &&& p.est_volume == match sc::number_at(
        v,
        "result/calculation/estimated_order_volume_raw"@,
    ) {
        Some(n) => Some(n),
        None => sc::number_at(v, "result/calculation/estimated_order_volume"@),
    }
    &&& p.tradable == sc::truth_at(v, "result/tradability/tradable"@)
    &&& p.venue@ == match sc::words_at(v, "result/tradability/selected_venue_label"@) {
        Some(s) => s,
        None => sc::words_or_empty(v, "result/tradability/selected_venue"@),
    }
    &&& p.venue_status@ == sc::words_or_empty(v, "result/tradability/selected_venue_status"@)
    &&& p.requires_accept_unsuitable == sc::truth_at(
        v,
        "result/suitability/requires_accept_unsuitable"@,
    )
    &&& p.suitability_status@ == sc::words_or_empty(v, "result/suitability/status"@)
    &&& p.entry_cost == sc::number_at(v, "result/ex_ante_costs/entryCosts/total/amount"@)
    &&& p.entry_cost_pct == sc::number_at(
        v,
        "result/ex_ante_costs/entryCosts/total/percentage"@,
    )
    &&& p.ongoing_cost == sc::number_at(v, "result/ex_ante_costs/ongoingCosts/total/amount"@)
    &&& p.exit_cost == sc::number_at(v, "result/ex_ante_costs/exitCosts/total/amount"@)
    &&& p.warning_title@ == sc::words_or_empty(v, "result/warning/title"@)
    &&& p.warning_body@ == sc::words_or_empty(v, "result/warning/body"@)
    &&& p.raw.view() == v
}

/// The seconds from `now` to an expiry, to the nearest whole one.
pub open spec fn left_until(expiry: Option<Num>, now: Option<Num>) -> Option<int> {
    match (expiry, now) {
        (Some(e), Some(n)) => Some(
            num::settled(num::difference(e, n), i64::MIN as int, i64::MAX as int),
        ),
        _ => None,
    }
}

/// Whether an expiry has passed. What publishes no expiry does not expire.
pub open spec fn has_passed(expiry: Option<Num>, now: Option<Num>) -> bool {
    left_until(expiry, now) matches Some(s) && s <= 0
}

impl TradePreview {
    /// The disclosure, where the payload has a confirmation id.
    pub fn from_json(v: &Json) -> (r: Option<TradePreview>)
        ensures
            (match (r, sc::words_at(v.view(), "confirmation/id"@)) {
                (Some(p), Some(id)) => is_preview(p, id, v.view()),
                (None, None) => true,
                _ => false,
            }),
            r is Some ==> previews::says_market(r->0, v.view()) && previews::says_terms(
                r->0,
                v.view(),
            ) && previews::says_charges(r->0, v.view()),
    {
        proof {
            assert forall|p: TradePreview, id: Seq<char>, w: JsonView| #[trigger]
                is_preview(p, id, w) implies previews::says_market(p, w) && previews::says_terms(
                p,
                w,
            ) && previews::says_charges(p, w) by {
                previews::law_the_market_is_read_by_name(p, id, w);
                previews::law_the_terms_are_read_by_name(p, id, w);
                previews::law_the_charges_are_read_by_name(p, id, w);
            }
        }
        let id = words(v, "confirmation/id")?;
        let ghost seen = id@;
        let r = TradePreview {
            confirmation_id: id,
            expires_at_epoch: number(v, "confirmation/expires_at_epoch"),
            bid: number(v, "result/market_quote/bid_price"),
            ask: number(v, "result/market_quote/ask_price"),
            mid: number(v, "result/market_quote/mid_price"),
            currency: words_else_empty(v, "result/market_quote/currency"),
            quote_outdated: bool_at(v, "result/market_quote/is_outdated"),
            quote_ts: words_else_empty(v, "result/market_quote/timestamp_utc"),
            shares: number(v, "result/calculation/shares"),
            est_volume: match number(v, "result/calculation/estimated_order_volume_raw") {
                Some(n) => Some(n),
                None => number(v, "result/calculation/estimated_order_volume"),
            },
            tradable: bool_at(v, "result/tradability/tradable"),
            venue: match words(v, "result/tradability/selected_venue_label") {
                Some(s) => s,
                None => words_else_empty(v, "result/tradability/selected_venue"),
            },
            venue_status: words_else_empty(v, "result/tradability/selected_venue_status"),
            requires_accept_unsuitable: bool_at(
                v,
                "result/suitability/requires_accept_unsuitable",
            ),
            suitability_status: words_else_empty(v, "result/suitability/status"),
            entry_cost: number(v, "result/ex_ante_costs/entryCosts/total/amount"),
            entry_cost_pct: number(v, "result/ex_ante_costs/entryCosts/total/percentage"),
            ongoing_cost: number(v, "result/ex_ante_costs/ongoingCosts/total/amount"),
            exit_cost: number(v, "result/ex_ante_costs/exitCosts/total/amount"),
            warning_title: words_else_empty(v, "result/warning/title"),
            warning_body: words_else_empty(v, "result/warning/body"),
            raw: v.copy(),
        };
        assert(is_preview(r, seen, v.view()));
        Some(r)
    }

    /// The seconds for which the confirmation id still holds, given the time in
    /// seconds since 1970.
    pub fn seconds_left(&self, now: Option<Num>) -> (r: Option<i64>)
        ensures
            (match r {
                Some(s) => left_until(self.expires_at_epoch, now) == Some(s as int),
                None => left_until(self.expires_at_epoch, now) is None,
            }),
    {
        match (self.expires_at_epoch, now) {
            (Some(e), Some(n)) => Some(e.minus(n).round_to_i64()),
            _ => None,
        }
    }

    pub fn expired(&self, now: Option<Num>) -> (r: bool)
        ensures
            r == has_passed(self.expires_at_epoch, now),
    {
        match self.seconds_left(now) {
            Some(s) => s <= 0,
            None => false,
        }
    }

    /// The cost of crossing the spread now, in basis points.
    pub fn spread_bps(&self) -> (r: Option<Num>)
        ensures
            r == quote::bps_of(quote::spread_of(self.bid, self.ask), self.mid),
    {
        match (self.bid, self.ask, self.mid) {
            (Some(b), Some(a), Some(m)) => if Num::zero().lt(m) {
                Some(a.minus(b).over(m).times(Num::from_i64(10_000)))
            } else {
                None
            },
            _ => None,
        }
    }
}

} // verus!
