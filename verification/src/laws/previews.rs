//! What a preview says, by the members of the payload it was read from.

use crate::json::JsonView;
use crate::laws::reading::{
    gives_either_number, gives_either_text, gives_number, gives_text, leads, lemma_given,
    lemma_longer_path, lemma_one_name,
};
use crate::model::TradePreview;
use crate::model::preview;
use crate::sc;
use vstd::prelude::*;

verus! {

/// Whether a preview says what the members of a payload do of the market.
pub open spec fn says_market(p: TradePreview, v: JsonView) -> bool {
    &&& gives_number(v, seq!["confirmation"@, "expires_at_epoch"@], p.expires_at_epoch)
    &&& gives_number(v, seq!["result"@, "market_quote"@, "bid_price"@], p.bid)
    &&& gives_number(v, seq!["result"@, "market_quote"@, "ask_price"@], p.ask)
    &&& gives_number(v, seq!["result"@, "market_quote"@, "mid_price"@], p.mid)
    &&& gives_text(v, seq!["result"@, "market_quote"@, "currency"@], p.currency@)
    &&& p.quote_outdated
        == leads(v, seq!["result"@, "market_quote"@, "is_outdated"@], JsonView::Bool(true))
    &&& gives_text(v, seq!["result"@, "market_quote"@, "timestamp_utc"@], p.quote_ts@)
}

/// Whether a preview says what the members of a payload do of what would be traded,
/// and whether it may be.
pub open spec fn says_terms(p: TradePreview, v: JsonView) -> bool {
    &&& gives_number(v, seq!["result"@, "calculation"@, "shares"@], p.shares)
    &&& gives_either_number(
        v,
        seq!["result"@, "calculation"@, "estimated_order_volume_raw"@],
        seq!["result"@, "calculation"@, "estimated_order_volume"@],
        p.est_volume,
    )
    &&& p.tradable == leads(v, seq!["result"@, "tradability"@, "tradable"@], JsonView::Bool(true))
    &&& gives_either_text(
        v,
        seq!["result"@, "tradability"@, "selected_venue_label"@],
        seq!["result"@, "tradability"@, "selected_venue"@],
        p.venue@,
    )
    &&& gives_text(v, seq!["result"@, "tradability"@, "selected_venue_status"@], p.venue_status@)
    &&& p.requires_accept_unsuitable
        == leads(v, seq!["result"@, "suitability"@, "requires_accept_unsuitable"@], JsonView::Bool(true))
    &&& gives_text(v, seq!["result"@, "suitability"@, "status"@], p.suitability_status@)
}

/// Whether a preview says what the members of a payload do of costs and warnings.
pub open spec fn says_charges(p: TradePreview, v: JsonView) -> bool {
    &&& gives_number(
        v,
        seq!["result"@, "ex_ante_costs"@, "entryCosts"@, "total"@, "amount"@],
        p.entry_cost,
    )
    &&& gives_number(
        v,
        seq!["result"@, "ex_ante_costs"@, "entryCosts"@, "total"@, "percentage"@],
        p.entry_cost_pct,
    )
    &&& gives_number(
        v,
        seq!["result"@, "ex_ante_costs"@, "ongoingCosts"@, "total"@, "amount"@],
        p.ongoing_cost,
    )
    &&& gives_number(
        v,
        seq!["result"@, "ex_ante_costs"@, "exitCosts"@, "total"@, "amount"@],
        p.exit_cost,
    )
    &&& gives_text(v, seq!["result"@, "warning"@, "title"@], p.warning_title@)
    &&& gives_text(v, seq!["result"@, "warning"@, "body"@], p.warning_body@)
}

/// A preview gives each price, and when it expires, from its own member.
pub proof fn law_the_market_is_read_by_name(p: TradePreview, id: Seq<char>, v: JsonView)
    requires
        preview::is_preview(p, id, v),
    ensures
        says_market(p, v),
        p.confirmation_id@ == id,
        p.raw.view() == v,
{
    path_confirmation_expires_at_epoch();
    lemma_given(v, "confirmation/expires_at_epoch"@, seq!["confirmation"@, "expires_at_epoch"@]);
    path_result_market_quote_bid_price();
    lemma_given(
        v,
        "result/market_quote/bid_price"@,
        seq!["result"@, "market_quote"@, "bid_price"@],
    );
    path_result_market_quote_ask_price();
    lemma_given(
        v,
        "result/market_quote/ask_price"@,
        seq!["result"@, "market_quote"@, "ask_price"@],
    );
    path_result_market_quote_mid_price();
    lemma_given(
        v,
        "result/market_quote/mid_price"@,
        seq!["result"@, "market_quote"@, "mid_price"@],
    );
    path_result_market_quote_currency();
    lemma_given(v, "result/market_quote/currency"@, seq!["result"@, "market_quote"@, "currency"@]);
    path_result_market_quote_is_outdated();
    lemma_given(
        v,
        "result/market_quote/is_outdated"@,
        seq!["result"@, "market_quote"@, "is_outdated"@],
    );
    path_result_market_quote_timestamp_utc();
    lemma_given(
        v,
        "result/market_quote/timestamp_utc"@,
        seq!["result"@, "market_quote"@, "timestamp_utc"@],
    );
}

/// A preview gives what would be traded, where, and whether it may be, each from its own
/// member.
pub proof fn law_the_terms_are_read_by_name(p: TradePreview, id: Seq<char>, v: JsonView)
    requires
        preview::is_preview(p, id, v),
    ensures
        says_terms(p, v),
        p.confirmation_id@ == id,
        p.raw.view() == v,
{
    path_result_calculation_shares();
    lemma_given(v, "result/calculation/shares"@, seq!["result"@, "calculation"@, "shares"@]);
    path_result_calculation_estimated_order_volume_raw();
    lemma_given(
        v,
        "result/calculation/estimated_order_volume_raw"@,
        seq!["result"@, "calculation"@, "estimated_order_volume_raw"@],
    );
    path_result_calculation_estimated_order_volume();
    lemma_given(
        v,
        "result/calculation/estimated_order_volume"@,
        seq!["result"@, "calculation"@, "estimated_order_volume"@],
    );
    path_result_tradability_tradable();
    lemma_given(v, "result/tradability/tradable"@, seq!["result"@, "tradability"@, "tradable"@]);
    path_result_tradability_selected_venue_label();
    lemma_given(
        v,
        "result/tradability/selected_venue_label"@,
        seq!["result"@, "tradability"@, "selected_venue_label"@],
    );
    path_result_tradability_selected_venue();
    lemma_given(
        v,
        "result/tradability/selected_venue"@,
        seq!["result"@, "tradability"@, "selected_venue"@],
    );
    path_result_tradability_selected_venue_status();
    lemma_given(
        v,
        "result/tradability/selected_venue_status"@,
        seq!["result"@, "tradability"@, "selected_venue_status"@],
    );
    path_result_suitability_requires_accept_unsuitable();
    lemma_given(
        v,
        "result/suitability/requires_accept_unsuitable"@,
        seq!["result"@, "suitability"@, "requires_accept_unsuitable"@],
    );
    path_result_suitability_status();
    lemma_given(v, "result/suitability/status"@, seq!["result"@, "suitability"@, "status"@]);
}

/// A preview gives each cost, and the warning, from its own member.
pub proof fn law_the_charges_are_read_by_name(p: TradePreview, id: Seq<char>, v: JsonView)
    requires
        preview::is_preview(p, id, v),
    ensures
        says_charges(p, v),
        p.confirmation_id@ == id,
        p.raw.view() == v,
{
    path_result_ex_ante_costs_entry_costs_total_amount();
    lemma_given(
        v,
        "result/ex_ante_costs/entryCosts/total/amount"@,
        seq!["result"@, "ex_ante_costs"@, "entryCosts"@, "total"@, "amount"@],
    );
    path_result_ex_ante_costs_entry_costs_total_percentage();
    lemma_given(
        v,
        "result/ex_ante_costs/entryCosts/total/percentage"@,
        seq!["result"@, "ex_ante_costs"@, "entryCosts"@, "total"@, "percentage"@],
    );
    path_result_ex_ante_costs_ongoing_costs_total_amount();
    lemma_given(
        v,
        "result/ex_ante_costs/ongoingCosts/total/amount"@,
        seq!["result"@, "ex_ante_costs"@, "ongoingCosts"@, "total"@, "amount"@],
    );
    path_result_ex_ante_costs_exit_costs_total_amount();
    lemma_given(
        v,
        "result/ex_ante_costs/exitCosts/total/amount"@,
        seq!["result"@, "ex_ante_costs"@, "exitCosts"@, "total"@, "amount"@],
    );
    path_result_warning_title();
    lemma_given(v, "result/warning/title"@, seq!["result"@, "warning"@, "title"@]);
    path_result_warning_body();
    lemma_given(v, "result/warning/body"@, seq!["result"@, "warning"@, "body"@]);
}

proof fn path_confirmation_expires_at_epoch()
    ensures
        sc::segments("confirmation/expires_at_epoch"@)
            == seq!["confirmation"@, "expires_at_epoch"@],
{
    reveal_strlit("expires_at_epoch");
    lemma_one_name("expires_at_epoch"@);
    reveal_strlit("confirmation");
    reveal_strlit("confirmation/expires_at_epoch");
    assert("confirmation/expires_at_epoch"@ =~= "confirmation"@ + seq!['/'] + "expires_at_epoch"@);
    lemma_longer_path(
        "confirmation/expires_at_epoch"@,
        "confirmation"@,
        "expires_at_epoch"@,
        seq!["expires_at_epoch"@],
    );
    assert(sc::segments("confirmation/expires_at_epoch"@)
        =~= seq!["confirmation"@, "expires_at_epoch"@]);
}

proof fn path_result_market_quote_bid_price()
    ensures
        sc::segments("result/market_quote/bid_price"@)
            == seq!["result"@, "market_quote"@, "bid_price"@],
{
    reveal_strlit("bid_price");
    lemma_one_name("bid_price"@);
    reveal_strlit("market_quote");
    reveal_strlit("market_quote/bid_price");
    assert("market_quote/bid_price"@ =~= "market_quote"@ + seq!['/'] + "bid_price"@);
    lemma_longer_path("market_quote/bid_price"@, "market_quote"@, "bid_price"@, seq!["bid_price"@]);
    assert(sc::segments("market_quote/bid_price"@) =~= seq!["market_quote"@, "bid_price"@]);
    reveal_strlit("result");
    reveal_strlit("result/market_quote/bid_price");
    assert("result/market_quote/bid_price"@ =~= "result"@ + seq!['/'] + "market_quote/bid_price"@);
    lemma_longer_path(
        "result/market_quote/bid_price"@,
        "result"@,
        "market_quote/bid_price"@,
        seq!["market_quote"@, "bid_price"@],
    );
    assert(sc::segments("result/market_quote/bid_price"@)
        =~= seq!["result"@, "market_quote"@, "bid_price"@]);
}

proof fn path_result_market_quote_ask_price()
    ensures
        sc::segments("result/market_quote/ask_price"@)
            == seq!["result"@, "market_quote"@, "ask_price"@],
{
    reveal_strlit("ask_price");
    lemma_one_name("ask_price"@);
    reveal_strlit("market_quote");
    reveal_strlit("market_quote/ask_price");
    assert("market_quote/ask_price"@ =~= "market_quote"@ + seq!['/'] + "ask_price"@);
    lemma_longer_path("market_quote/ask_price"@, "market_quote"@, "ask_price"@, seq!["ask_price"@]);
    assert(sc::segments("market_quote/ask_price"@) =~= seq!["market_quote"@, "ask_price"@]);
    reveal_strlit("result");
    reveal_strlit("result/market_quote/ask_price");
    assert("result/market_quote/ask_price"@ =~= "result"@ + seq!['/'] + "market_quote/ask_price"@);
    lemma_longer_path(
        "result/market_quote/ask_price"@,
        "result"@,
        "market_quote/ask_price"@,
        seq!["market_quote"@, "ask_price"@],
    );
    assert(sc::segments("result/market_quote/ask_price"@)
        =~= seq!["result"@, "market_quote"@, "ask_price"@]);
}

proof fn path_result_market_quote_mid_price()
    ensures
        sc::segments("result/market_quote/mid_price"@)
            == seq!["result"@, "market_quote"@, "mid_price"@],
{
    reveal_strlit("mid_price");
    lemma_one_name("mid_price"@);
    reveal_strlit("market_quote");
    reveal_strlit("market_quote/mid_price");
    assert("market_quote/mid_price"@ =~= "market_quote"@ + seq!['/'] + "mid_price"@);
    lemma_longer_path("market_quote/mid_price"@, "market_quote"@, "mid_price"@, seq!["mid_price"@]);
    assert(sc::segments("market_quote/mid_price"@) =~= seq!["market_quote"@, "mid_price"@]);
    reveal_strlit("result");
    reveal_strlit("result/market_quote/mid_price");
    assert("result/market_quote/mid_price"@ =~= "result"@ + seq!['/'] + "market_quote/mid_price"@);
    lemma_longer_path(
        "result/market_quote/mid_price"@,
        "result"@,
        "market_quote/mid_price"@,
        seq!["market_quote"@, "mid_price"@],
    );
    assert(sc::segments("result/market_quote/mid_price"@)
        =~= seq!["result"@, "market_quote"@, "mid_price"@]);
}

proof fn path_result_market_quote_currency()
    ensures
        sc::segments("result/market_quote/currency"@)
            == seq!["result"@, "market_quote"@, "currency"@],
{
    reveal_strlit("currency");
    lemma_one_name("currency"@);
    reveal_strlit("market_quote");
    reveal_strlit("market_quote/currency");
    assert("market_quote/currency"@ =~= "market_quote"@ + seq!['/'] + "currency"@);
    lemma_longer_path("market_quote/currency"@, "market_quote"@, "currency"@, seq!["currency"@]);
    assert(sc::segments("market_quote/currency"@) =~= seq!["market_quote"@, "currency"@]);
    reveal_strlit("result");
    reveal_strlit("result/market_quote/currency");
    assert("result/market_quote/currency"@ =~= "result"@ + seq!['/'] + "market_quote/currency"@);
    lemma_longer_path(
        "result/market_quote/currency"@,
        "result"@,
        "market_quote/currency"@,
        seq!["market_quote"@, "currency"@],
    );
    assert(sc::segments("result/market_quote/currency"@)
        =~= seq!["result"@, "market_quote"@, "currency"@]);
}

proof fn path_result_market_quote_is_outdated()
    ensures
        sc::segments("result/market_quote/is_outdated"@)
            == seq!["result"@, "market_quote"@, "is_outdated"@],
{
    reveal_strlit("is_outdated");
    lemma_one_name("is_outdated"@);
    reveal_strlit("market_quote");
    reveal_strlit("market_quote/is_outdated");
    assert("market_quote/is_outdated"@ =~= "market_quote"@ + seq!['/'] + "is_outdated"@);
    lemma_longer_path(
        "market_quote/is_outdated"@,
        "market_quote"@,
        "is_outdated"@,
        seq!["is_outdated"@],
    );
    assert(sc::segments("market_quote/is_outdated"@) =~= seq!["market_quote"@, "is_outdated"@]);
    reveal_strlit("result");
    reveal_strlit("result/market_quote/is_outdated");
    assert("result/market_quote/is_outdated"@
        =~= "result"@ + seq!['/'] + "market_quote/is_outdated"@);
    lemma_longer_path(
        "result/market_quote/is_outdated"@,
        "result"@,
        "market_quote/is_outdated"@,
        seq!["market_quote"@, "is_outdated"@],
    );
    assert(sc::segments("result/market_quote/is_outdated"@)
        =~= seq!["result"@, "market_quote"@, "is_outdated"@]);
}

proof fn path_result_market_quote_timestamp_utc()
    ensures
        sc::segments("result/market_quote/timestamp_utc"@)
            == seq!["result"@, "market_quote"@, "timestamp_utc"@],
{
    reveal_strlit("timestamp_utc");
    lemma_one_name("timestamp_utc"@);
    reveal_strlit("market_quote");
    reveal_strlit("market_quote/timestamp_utc");
    assert("market_quote/timestamp_utc"@ =~= "market_quote"@ + seq!['/'] + "timestamp_utc"@);
    lemma_longer_path(
        "market_quote/timestamp_utc"@,
        "market_quote"@,
        "timestamp_utc"@,
        seq!["timestamp_utc"@],
    );
    assert(sc::segments("market_quote/timestamp_utc"@) =~= seq!["market_quote"@, "timestamp_utc"@]);
    reveal_strlit("result");
    reveal_strlit("result/market_quote/timestamp_utc");
    assert("result/market_quote/timestamp_utc"@
        =~= "result"@ + seq!['/'] + "market_quote/timestamp_utc"@);
    lemma_longer_path(
        "result/market_quote/timestamp_utc"@,
        "result"@,
        "market_quote/timestamp_utc"@,
        seq!["market_quote"@, "timestamp_utc"@],
    );
    assert(sc::segments("result/market_quote/timestamp_utc"@)
        =~= seq!["result"@, "market_quote"@, "timestamp_utc"@]);
}

proof fn path_result_calculation_shares()
    ensures
        sc::segments("result/calculation/shares"@) == seq!["result"@, "calculation"@, "shares"@],
{
    reveal_strlit("shares");
    lemma_one_name("shares"@);
    reveal_strlit("calculation");
    reveal_strlit("calculation/shares");
    assert("calculation/shares"@ =~= "calculation"@ + seq!['/'] + "shares"@);
    lemma_longer_path("calculation/shares"@, "calculation"@, "shares"@, seq!["shares"@]);
    assert(sc::segments("calculation/shares"@) =~= seq!["calculation"@, "shares"@]);
    reveal_strlit("result");
    reveal_strlit("result/calculation/shares");
    assert("result/calculation/shares"@ =~= "result"@ + seq!['/'] + "calculation/shares"@);
    lemma_longer_path(
        "result/calculation/shares"@,
        "result"@,
        "calculation/shares"@,
        seq!["calculation"@, "shares"@],
    );
    assert(sc::segments("result/calculation/shares"@)
        =~= seq!["result"@, "calculation"@, "shares"@]);
}

proof fn path_result_calculation_estimated_order_volume_raw()
    ensures
        sc::segments("result/calculation/estimated_order_volume_raw"@)
            == seq!["result"@, "calculation"@, "estimated_order_volume_raw"@],
{
    reveal_strlit("estimated_order_volume_raw");
    lemma_one_name("estimated_order_volume_raw"@);
    reveal_strlit("calculation");
    reveal_strlit("calculation/estimated_order_volume_raw");
    assert("calculation/estimated_order_volume_raw"@
        =~= "calculation"@ + seq!['/'] + "estimated_order_volume_raw"@);
    lemma_longer_path(
        "calculation/estimated_order_volume_raw"@,
        "calculation"@,
        "estimated_order_volume_raw"@,
        seq!["estimated_order_volume_raw"@],
    );
    assert(sc::segments("calculation/estimated_order_volume_raw"@)
        =~= seq!["calculation"@, "estimated_order_volume_raw"@]);
    reveal_strlit("result");
    reveal_strlit("result/calculation/estimated_order_volume_raw");
    assert("result/calculation/estimated_order_volume_raw"@
        =~= "result"@ + seq!['/'] + "calculation/estimated_order_volume_raw"@);
    lemma_longer_path(
        "result/calculation/estimated_order_volume_raw"@,
        "result"@,
        "calculation/estimated_order_volume_raw"@,
        seq!["calculation"@, "estimated_order_volume_raw"@],
    );
    assert(sc::segments("result/calculation/estimated_order_volume_raw"@)
        =~= seq!["result"@, "calculation"@, "estimated_order_volume_raw"@]);
}

proof fn path_result_calculation_estimated_order_volume()
    ensures
        sc::segments("result/calculation/estimated_order_volume"@)
            == seq!["result"@, "calculation"@, "estimated_order_volume"@],
{
    reveal_strlit("estimated_order_volume");
    lemma_one_name("estimated_order_volume"@);
    reveal_strlit("calculation");
    reveal_strlit("calculation/estimated_order_volume");
    assert("calculation/estimated_order_volume"@
        =~= "calculation"@ + seq!['/'] + "estimated_order_volume"@);
    lemma_longer_path(
        "calculation/estimated_order_volume"@,
        "calculation"@,
        "estimated_order_volume"@,
        seq!["estimated_order_volume"@],
    );
    assert(sc::segments("calculation/estimated_order_volume"@)
        =~= seq!["calculation"@, "estimated_order_volume"@]);
    reveal_strlit("result");
    reveal_strlit("result/calculation/estimated_order_volume");
    assert("result/calculation/estimated_order_volume"@
        =~= "result"@ + seq!['/'] + "calculation/estimated_order_volume"@);
    lemma_longer_path(
        "result/calculation/estimated_order_volume"@,
        "result"@,
        "calculation/estimated_order_volume"@,
        seq!["calculation"@, "estimated_order_volume"@],
    );
    assert(sc::segments("result/calculation/estimated_order_volume"@)
        =~= seq!["result"@, "calculation"@, "estimated_order_volume"@]);
}

proof fn path_result_tradability_tradable()
    ensures
        sc::segments("result/tradability/tradable"@)
            == seq!["result"@, "tradability"@, "tradable"@],
{
    reveal_strlit("tradable");
    lemma_one_name("tradable"@);
    reveal_strlit("tradability");
    reveal_strlit("tradability/tradable");
    assert("tradability/tradable"@ =~= "tradability"@ + seq!['/'] + "tradable"@);
    lemma_longer_path("tradability/tradable"@, "tradability"@, "tradable"@, seq!["tradable"@]);
    assert(sc::segments("tradability/tradable"@) =~= seq!["tradability"@, "tradable"@]);
    reveal_strlit("result");
    reveal_strlit("result/tradability/tradable");
    assert("result/tradability/tradable"@ =~= "result"@ + seq!['/'] + "tradability/tradable"@);
    lemma_longer_path(
        "result/tradability/tradable"@,
        "result"@,
        "tradability/tradable"@,
        seq!["tradability"@, "tradable"@],
    );
    assert(sc::segments("result/tradability/tradable"@)
        =~= seq!["result"@, "tradability"@, "tradable"@]);
}

proof fn path_result_tradability_selected_venue_label()
    ensures
        sc::segments("result/tradability/selected_venue_label"@)
            == seq!["result"@, "tradability"@, "selected_venue_label"@],
{
    reveal_strlit("selected_venue_label");
    lemma_one_name("selected_venue_label"@);
    reveal_strlit("tradability");
    reveal_strlit("tradability/selected_venue_label");
    assert("tradability/selected_venue_label"@
        =~= "tradability"@ + seq!['/'] + "selected_venue_label"@);
    lemma_longer_path(
        "tradability/selected_venue_label"@,
        "tradability"@,
        "selected_venue_label"@,
        seq!["selected_venue_label"@],
    );
    assert(sc::segments("tradability/selected_venue_label"@)
        =~= seq!["tradability"@, "selected_venue_label"@]);
    reveal_strlit("result");
    reveal_strlit("result/tradability/selected_venue_label");
    assert("result/tradability/selected_venue_label"@
        =~= "result"@ + seq!['/'] + "tradability/selected_venue_label"@);
    lemma_longer_path(
        "result/tradability/selected_venue_label"@,
        "result"@,
        "tradability/selected_venue_label"@,
        seq!["tradability"@, "selected_venue_label"@],
    );
    assert(sc::segments("result/tradability/selected_venue_label"@)
        =~= seq!["result"@, "tradability"@, "selected_venue_label"@]);
}

proof fn path_result_tradability_selected_venue()
    ensures
        sc::segments("result/tradability/selected_venue"@)
            == seq!["result"@, "tradability"@, "selected_venue"@],
{
    reveal_strlit("selected_venue");
    lemma_one_name("selected_venue"@);
    reveal_strlit("tradability");
    reveal_strlit("tradability/selected_venue");
    assert("tradability/selected_venue"@ =~= "tradability"@ + seq!['/'] + "selected_venue"@);
    lemma_longer_path(
        "tradability/selected_venue"@,
        "tradability"@,
        "selected_venue"@,
        seq!["selected_venue"@],
    );
    assert(sc::segments("tradability/selected_venue"@) =~= seq!["tradability"@, "selected_venue"@]);
    reveal_strlit("result");
    reveal_strlit("result/tradability/selected_venue");
    assert("result/tradability/selected_venue"@
        =~= "result"@ + seq!['/'] + "tradability/selected_venue"@);
    lemma_longer_path(
        "result/tradability/selected_venue"@,
        "result"@,
        "tradability/selected_venue"@,
        seq!["tradability"@, "selected_venue"@],
    );
    assert(sc::segments("result/tradability/selected_venue"@)
        =~= seq!["result"@, "tradability"@, "selected_venue"@]);
}

proof fn path_result_tradability_selected_venue_status()
    ensures
        sc::segments("result/tradability/selected_venue_status"@)
            == seq!["result"@, "tradability"@, "selected_venue_status"@],
{
    reveal_strlit("selected_venue_status");
    lemma_one_name("selected_venue_status"@);
    reveal_strlit("tradability");
    reveal_strlit("tradability/selected_venue_status");
    assert("tradability/selected_venue_status"@
        =~= "tradability"@ + seq!['/'] + "selected_venue_status"@);
    lemma_longer_path(
        "tradability/selected_venue_status"@,
        "tradability"@,
        "selected_venue_status"@,
        seq!["selected_venue_status"@],
    );
    assert(sc::segments("tradability/selected_venue_status"@)
        =~= seq!["tradability"@, "selected_venue_status"@]);
    reveal_strlit("result");
    reveal_strlit("result/tradability/selected_venue_status");
    assert("result/tradability/selected_venue_status"@
        =~= "result"@ + seq!['/'] + "tradability/selected_venue_status"@);
    lemma_longer_path(
        "result/tradability/selected_venue_status"@,
        "result"@,
        "tradability/selected_venue_status"@,
        seq!["tradability"@, "selected_venue_status"@],
    );
    assert(sc::segments("result/tradability/selected_venue_status"@)
        =~= seq!["result"@, "tradability"@, "selected_venue_status"@]);
}

proof fn path_result_suitability_requires_accept_unsuitable()
    ensures
        sc::segments("result/suitability/requires_accept_unsuitable"@)
            == seq!["result"@, "suitability"@, "requires_accept_unsuitable"@],
{
    reveal_strlit("requires_accept_unsuitable");
    lemma_one_name("requires_accept_unsuitable"@);
    reveal_strlit("suitability");
    reveal_strlit("suitability/requires_accept_unsuitable");
    assert("suitability/requires_accept_unsuitable"@
        =~= "suitability"@ + seq!['/'] + "requires_accept_unsuitable"@);
    lemma_longer_path(
        "suitability/requires_accept_unsuitable"@,
        "suitability"@,
        "requires_accept_unsuitable"@,
        seq!["requires_accept_unsuitable"@],
    );
    assert(sc::segments("suitability/requires_accept_unsuitable"@)
        =~= seq!["suitability"@, "requires_accept_unsuitable"@]);
    reveal_strlit("result");
    reveal_strlit("result/suitability/requires_accept_unsuitable");
    assert("result/suitability/requires_accept_unsuitable"@
        =~= "result"@ + seq!['/'] + "suitability/requires_accept_unsuitable"@);
    lemma_longer_path(
        "result/suitability/requires_accept_unsuitable"@,
        "result"@,
        "suitability/requires_accept_unsuitable"@,
        seq!["suitability"@, "requires_accept_unsuitable"@],
    );
    assert(sc::segments("result/suitability/requires_accept_unsuitable"@)
        =~= seq!["result"@, "suitability"@, "requires_accept_unsuitable"@]);
}

proof fn path_result_suitability_status()
    ensures
        sc::segments("result/suitability/status"@) == seq!["result"@, "suitability"@, "status"@],
{
    reveal_strlit("status");
    lemma_one_name("status"@);
    reveal_strlit("suitability");
    reveal_strlit("suitability/status");
    assert("suitability/status"@ =~= "suitability"@ + seq!['/'] + "status"@);
    lemma_longer_path("suitability/status"@, "suitability"@, "status"@, seq!["status"@]);
    assert(sc::segments("suitability/status"@) =~= seq!["suitability"@, "status"@]);
    reveal_strlit("result");
    reveal_strlit("result/suitability/status");
    assert("result/suitability/status"@ =~= "result"@ + seq!['/'] + "suitability/status"@);
    lemma_longer_path(
        "result/suitability/status"@,
        "result"@,
        "suitability/status"@,
        seq!["suitability"@, "status"@],
    );
    assert(sc::segments("result/suitability/status"@)
        =~= seq!["result"@, "suitability"@, "status"@]);
}

proof fn path_result_ex_ante_costs_entry_costs_total_amount()
    ensures
        sc::segments("result/ex_ante_costs/entryCosts/total/amount"@)
            == seq!["result"@, "ex_ante_costs"@, "entryCosts"@, "total"@, "amount"@],
{
    reveal_strlit("amount");
    lemma_one_name("amount"@);
    reveal_strlit("total");
    reveal_strlit("total/amount");
    assert("total/amount"@ =~= "total"@ + seq!['/'] + "amount"@);
    lemma_longer_path("total/amount"@, "total"@, "amount"@, seq!["amount"@]);
    assert(sc::segments("total/amount"@) =~= seq!["total"@, "amount"@]);
    reveal_strlit("entryCosts");
    reveal_strlit("entryCosts/total/amount");
    assert("entryCosts/total/amount"@ =~= "entryCosts"@ + seq!['/'] + "total/amount"@);
    lemma_longer_path(
        "entryCosts/total/amount"@,
        "entryCosts"@,
        "total/amount"@,
        seq!["total"@, "amount"@],
    );
    assert(sc::segments("entryCosts/total/amount"@) =~= seq!["entryCosts"@, "total"@, "amount"@]);
    reveal_strlit("ex_ante_costs");
    reveal_strlit("ex_ante_costs/entryCosts/total/amount");
    assert("ex_ante_costs/entryCosts/total/amount"@
        =~= "ex_ante_costs"@ + seq!['/'] + "entryCosts/total/amount"@);
    lemma_longer_path(
        "ex_ante_costs/entryCosts/total/amount"@,
        "ex_ante_costs"@,
        "entryCosts/total/amount"@,
        seq!["entryCosts"@, "total"@, "amount"@],
    );
    assert(sc::segments("ex_ante_costs/entryCosts/total/amount"@)
        =~= seq!["ex_ante_costs"@, "entryCosts"@, "total"@, "amount"@]);
    reveal_strlit("result");
    reveal_strlit("result/ex_ante_costs/entryCosts/total/amount");
    assert("result/ex_ante_costs/entryCosts/total/amount"@
        =~= "result"@ + seq!['/'] + "ex_ante_costs/entryCosts/total/amount"@);
    lemma_longer_path(
        "result/ex_ante_costs/entryCosts/total/amount"@,
        "result"@,
        "ex_ante_costs/entryCosts/total/amount"@,
        seq!["ex_ante_costs"@, "entryCosts"@, "total"@, "amount"@],
    );
    assert(sc::segments("result/ex_ante_costs/entryCosts/total/amount"@)
        =~= seq!["result"@, "ex_ante_costs"@, "entryCosts"@, "total"@, "amount"@]);
}

proof fn path_result_ex_ante_costs_entry_costs_total_percentage()
    ensures
        sc::segments("result/ex_ante_costs/entryCosts/total/percentage"@)
            == seq!["result"@, "ex_ante_costs"@, "entryCosts"@, "total"@, "percentage"@],
{
    reveal_strlit("percentage");
    lemma_one_name("percentage"@);
    reveal_strlit("total");
    reveal_strlit("total/percentage");
    assert("total/percentage"@ =~= "total"@ + seq!['/'] + "percentage"@);
    lemma_longer_path("total/percentage"@, "total"@, "percentage"@, seq!["percentage"@]);
    assert(sc::segments("total/percentage"@) =~= seq!["total"@, "percentage"@]);
    reveal_strlit("entryCosts");
    reveal_strlit("entryCosts/total/percentage");
    assert("entryCosts/total/percentage"@ =~= "entryCosts"@ + seq!['/'] + "total/percentage"@);
    lemma_longer_path(
        "entryCosts/total/percentage"@,
        "entryCosts"@,
        "total/percentage"@,
        seq!["total"@, "percentage"@],
    );
    assert(sc::segments("entryCosts/total/percentage"@)
        =~= seq!["entryCosts"@, "total"@, "percentage"@]);
    reveal_strlit("ex_ante_costs");
    reveal_strlit("ex_ante_costs/entryCosts/total/percentage");
    assert("ex_ante_costs/entryCosts/total/percentage"@
        =~= "ex_ante_costs"@ + seq!['/'] + "entryCosts/total/percentage"@);
    lemma_longer_path(
        "ex_ante_costs/entryCosts/total/percentage"@,
        "ex_ante_costs"@,
        "entryCosts/total/percentage"@,
        seq!["entryCosts"@, "total"@, "percentage"@],
    );
    assert(sc::segments("ex_ante_costs/entryCosts/total/percentage"@)
        =~= seq!["ex_ante_costs"@, "entryCosts"@, "total"@, "percentage"@]);
    reveal_strlit("result");
    reveal_strlit("result/ex_ante_costs/entryCosts/total/percentage");
    assert("result/ex_ante_costs/entryCosts/total/percentage"@
        =~= "result"@ + seq!['/'] + "ex_ante_costs/entryCosts/total/percentage"@);
    lemma_longer_path(
        "result/ex_ante_costs/entryCosts/total/percentage"@,
        "result"@,
        "ex_ante_costs/entryCosts/total/percentage"@,
        seq!["ex_ante_costs"@, "entryCosts"@, "total"@, "percentage"@],
    );
    assert(sc::segments("result/ex_ante_costs/entryCosts/total/percentage"@)
        =~= seq!["result"@, "ex_ante_costs"@, "entryCosts"@, "total"@, "percentage"@]);
}

proof fn path_result_ex_ante_costs_ongoing_costs_total_amount()
    ensures
        sc::segments("result/ex_ante_costs/ongoingCosts/total/amount"@)
            == seq!["result"@, "ex_ante_costs"@, "ongoingCosts"@, "total"@, "amount"@],
{
    reveal_strlit("amount");
    lemma_one_name("amount"@);
    reveal_strlit("total");
    reveal_strlit("total/amount");
    assert("total/amount"@ =~= "total"@ + seq!['/'] + "amount"@);
    lemma_longer_path("total/amount"@, "total"@, "amount"@, seq!["amount"@]);
    assert(sc::segments("total/amount"@) =~= seq!["total"@, "amount"@]);
    reveal_strlit("ongoingCosts");
    reveal_strlit("ongoingCosts/total/amount");
    assert("ongoingCosts/total/amount"@ =~= "ongoingCosts"@ + seq!['/'] + "total/amount"@);
    lemma_longer_path(
        "ongoingCosts/total/amount"@,
        "ongoingCosts"@,
        "total/amount"@,
        seq!["total"@, "amount"@],
    );
    assert(sc::segments("ongoingCosts/total/amount"@)
        =~= seq!["ongoingCosts"@, "total"@, "amount"@]);
    reveal_strlit("ex_ante_costs");
    reveal_strlit("ex_ante_costs/ongoingCosts/total/amount");
    assert("ex_ante_costs/ongoingCosts/total/amount"@
        =~= "ex_ante_costs"@ + seq!['/'] + "ongoingCosts/total/amount"@);
    lemma_longer_path(
        "ex_ante_costs/ongoingCosts/total/amount"@,
        "ex_ante_costs"@,
        "ongoingCosts/total/amount"@,
        seq!["ongoingCosts"@, "total"@, "amount"@],
    );
    assert(sc::segments("ex_ante_costs/ongoingCosts/total/amount"@)
        =~= seq!["ex_ante_costs"@, "ongoingCosts"@, "total"@, "amount"@]);
    reveal_strlit("result");
    reveal_strlit("result/ex_ante_costs/ongoingCosts/total/amount");
    assert("result/ex_ante_costs/ongoingCosts/total/amount"@
        =~= "result"@ + seq!['/'] + "ex_ante_costs/ongoingCosts/total/amount"@);
    lemma_longer_path(
        "result/ex_ante_costs/ongoingCosts/total/amount"@,
        "result"@,
        "ex_ante_costs/ongoingCosts/total/amount"@,
        seq!["ex_ante_costs"@, "ongoingCosts"@, "total"@, "amount"@],
    );
    assert(sc::segments("result/ex_ante_costs/ongoingCosts/total/amount"@)
        =~= seq!["result"@, "ex_ante_costs"@, "ongoingCosts"@, "total"@, "amount"@]);
}

proof fn path_result_ex_ante_costs_exit_costs_total_amount()
    ensures
        sc::segments("result/ex_ante_costs/exitCosts/total/amount"@)
            == seq!["result"@, "ex_ante_costs"@, "exitCosts"@, "total"@, "amount"@],
{
    reveal_strlit("amount");
    lemma_one_name("amount"@);
    reveal_strlit("total");
    reveal_strlit("total/amount");
    assert("total/amount"@ =~= "total"@ + seq!['/'] + "amount"@);
    lemma_longer_path("total/amount"@, "total"@, "amount"@, seq!["amount"@]);
    assert(sc::segments("total/amount"@) =~= seq!["total"@, "amount"@]);
    reveal_strlit("exitCosts");
    reveal_strlit("exitCosts/total/amount");
    assert("exitCosts/total/amount"@ =~= "exitCosts"@ + seq!['/'] + "total/amount"@);
    lemma_longer_path(
        "exitCosts/total/amount"@,
        "exitCosts"@,
        "total/amount"@,
        seq!["total"@, "amount"@],
    );
    assert(sc::segments("exitCosts/total/amount"@) =~= seq!["exitCosts"@, "total"@, "amount"@]);
    reveal_strlit("ex_ante_costs");
    reveal_strlit("ex_ante_costs/exitCosts/total/amount");
    assert("ex_ante_costs/exitCosts/total/amount"@
        =~= "ex_ante_costs"@ + seq!['/'] + "exitCosts/total/amount"@);
    lemma_longer_path(
        "ex_ante_costs/exitCosts/total/amount"@,
        "ex_ante_costs"@,
        "exitCosts/total/amount"@,
        seq!["exitCosts"@, "total"@, "amount"@],
    );
    assert(sc::segments("ex_ante_costs/exitCosts/total/amount"@)
        =~= seq!["ex_ante_costs"@, "exitCosts"@, "total"@, "amount"@]);
    reveal_strlit("result");
    reveal_strlit("result/ex_ante_costs/exitCosts/total/amount");
    assert("result/ex_ante_costs/exitCosts/total/amount"@
        =~= "result"@ + seq!['/'] + "ex_ante_costs/exitCosts/total/amount"@);
    lemma_longer_path(
        "result/ex_ante_costs/exitCosts/total/amount"@,
        "result"@,
        "ex_ante_costs/exitCosts/total/amount"@,
        seq!["ex_ante_costs"@, "exitCosts"@, "total"@, "amount"@],
    );
    assert(sc::segments("result/ex_ante_costs/exitCosts/total/amount"@)
        =~= seq!["result"@, "ex_ante_costs"@, "exitCosts"@, "total"@, "amount"@]);
}

proof fn path_result_warning_title()
    ensures
        sc::segments("result/warning/title"@) == seq!["result"@, "warning"@, "title"@],
{
    reveal_strlit("title");
    lemma_one_name("title"@);
    reveal_strlit("warning");
    reveal_strlit("warning/title");
    assert("warning/title"@ =~= "warning"@ + seq!['/'] + "title"@);
    lemma_longer_path("warning/title"@, "warning"@, "title"@, seq!["title"@]);
    assert(sc::segments("warning/title"@) =~= seq!["warning"@, "title"@]);
    reveal_strlit("result");
    reveal_strlit("result/warning/title");
    assert("result/warning/title"@ =~= "result"@ + seq!['/'] + "warning/title"@);
    lemma_longer_path(
        "result/warning/title"@,
        "result"@,
        "warning/title"@,
        seq!["warning"@, "title"@],
    );
    assert(sc::segments("result/warning/title"@) =~= seq!["result"@, "warning"@, "title"@]);
}

proof fn path_result_warning_body()
    ensures
        sc::segments("result/warning/body"@) == seq!["result"@, "warning"@, "body"@],
{
    reveal_strlit("body");
    lemma_one_name("body"@);
    reveal_strlit("warning");
    reveal_strlit("warning/body");
    assert("warning/body"@ =~= "warning"@ + seq!['/'] + "body"@);
    lemma_longer_path("warning/body"@, "warning"@, "body"@, seq!["body"@]);
    assert(sc::segments("warning/body"@) =~= seq!["warning"@, "body"@]);
    reveal_strlit("result");
    reveal_strlit("result/warning/body");
    assert("result/warning/body"@ =~= "result"@ + seq!['/'] + "warning/body"@);
    lemma_longer_path(
        "result/warning/body"@,
        "result"@,
        "warning/body"@,
        seq!["warning"@, "body"@],
    );
    assert(sc::segments("result/warning/body"@) =~= seq!["result"@, "warning"@, "body"@]);
}

} // verus!
