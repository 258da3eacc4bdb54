//! What positions and working orders say, by the members of the payloads they were
//! read from.

use crate::json::JsonView;
use crate::laws::reading::{
    gives_amount, gives_either_text, gives_list, gives_number, gives_text, gives_words, leads,
    lemma_given, lemma_one_list, lemma_one_name, lemma_one_text,
};
use crate::model::{Holding, PendingOrder};
use crate::model::holding;
use crate::model::pending;
use crate::sc;
use vstd::prelude::*;

verus! {

/// Whether a position says what the members of a payload do.
pub open spec fn says_holding(h: Holding, v: JsonView) -> bool {
    &&& gives_text(v, seq!["isin"@], h.isin@)
    &&& gives_text(v, seq!["name"@], h.name@)
    &&& gives_text(v, seq!["security_type"@], h.security_type@)
    &&& gives_amount(v, seq!["quantity"@], h.quantity)
    &&& gives_amount(v, seq!["blocked_quantity"@], h.blocked)
    &&& gives_amount(v, seq!["pending_quantity"@], h.pending)
    &&& gives_number(v, seq!["fifo_price"@], h.fifo_price)
    &&& gives_number(v, seq!["quote_mid_price"@], h.mid)
    &&& gives_number(v, seq!["valuation"@], h.valuation)
    &&& gives_either_text(v, seq!["valuation_currency"@], seq!["quote_currency"@], h.currency@)
    &&& h.outdated == leads(v, seq!["quote_is_outdated"@], JsonView::Bool(true))
    &&& gives_text(v, seq!["quote_timestamp_utc"@], h.timestamp@)
}

/// A position gives each part from its own member; a quantity that is not given is
/// zero, and a currency that the valuation does not give is that of the quote.
pub proof fn law_a_position_is_read_by_name(h: Holding, v: JsonView)
    requires
        holding::is_holding(h, v),
    ensures
        says_holding(h, v),
{
    path_isin();
    lemma_given(v, "isin"@, seq!["isin"@]);
    path_name();
    lemma_given(v, "name"@, seq!["name"@]);
    path_security_type();
    lemma_given(v, "security_type"@, seq!["security_type"@]);
    path_quantity();
    lemma_given(v, "quantity"@, seq!["quantity"@]);
    path_blocked_quantity();
    lemma_given(v, "blocked_quantity"@, seq!["blocked_quantity"@]);
    path_pending_quantity();
    lemma_given(v, "pending_quantity"@, seq!["pending_quantity"@]);
    path_fifo_price();
    lemma_given(v, "fifo_price"@, seq!["fifo_price"@]);
    path_quote_mid_price();
    lemma_given(v, "quote_mid_price"@, seq!["quote_mid_price"@]);
    path_valuation();
    lemma_given(v, "valuation"@, seq!["valuation"@]);
    path_valuation_currency();
    lemma_given(v, "valuation_currency"@, seq!["valuation_currency"@]);
    path_quote_currency();
    lemma_given(v, "quote_currency"@, seq!["quote_currency"@]);
    path_quote_is_outdated();
    lemma_given(v, "quote_is_outdated"@, seq!["quote_is_outdated"@]);
    path_quote_timestamp_utc();
    lemma_given(v, "quote_timestamp_utc"@, seq!["quote_timestamp_utc"@]);
}

/// Positions come in the order of their rows, one of each.
pub proof fn law_positions_are_read_in_order(hs: Seq<Holding>, list: Seq<JsonView>)
    requires
        holding::are_holdings(hs, list),
    ensures
        hs.len() == list.len(),
        forall|i: int| 0 <= i < list.len() ==> says_holding(#[trigger] hs[i], list[i]),
{
    assert forall|i: int| 0 <= i < list.len() implies says_holding(#[trigger] hs[i], list[i]) by {
        law_a_position_is_read_by_name(hs[i], list[i]);
    }
}

/// Whether an order says what the members of a payload do.
pub open spec fn says_order(o: PendingOrder, v: JsonView) -> bool {
    &&& gives_text(v, seq!["id"@], o.id@)
    &&& gives_text(v, seq!["isin"@], o.isin@)
    &&& gives_text(v, seq!["description"@], o.description@)
    &&& gives_text(v, seq!["side"@], o.side@)
    &&& gives_text(v, seq!["status"@], o.status@)
    &&& gives_number(v, seq!["quantity"@], o.quantity)
    &&& gives_number(v, seq!["amount"@], o.amount)
    &&& gives_number(v, seq!["limit_price"@], o.limit_price)
    &&& gives_number(v, seq!["stop_price"@], o.stop_price)
    &&& gives_text(v, seq!["currency"@], o.currency@)
    &&& gives_text(v, seq!["last_event_datetime"@], o.last_event@)
}

/// An order gives each part from its own member.
pub proof fn law_an_order_is_read_by_name(o: PendingOrder, v: JsonView)
    requires
        pending::is_order(o, v),
    ensures
        says_order(o, v),
{
    path_id();
    lemma_given(v, "id"@, seq!["id"@]);
    path_isin();
    lemma_given(v, "isin"@, seq!["isin"@]);
    path_description();
    lemma_given(v, "description"@, seq!["description"@]);
    path_side();
    lemma_given(v, "side"@, seq!["side"@]);
    path_status();
    lemma_given(v, "status"@, seq!["status"@]);
    path_quantity();
    lemma_given(v, "quantity"@, seq!["quantity"@]);
    path_amount();
    lemma_given(v, "amount"@, seq!["amount"@]);
    path_limit_price();
    lemma_given(v, "limit_price"@, seq!["limit_price"@]);
    path_stop_price();
    lemma_given(v, "stop_price"@, seq!["stop_price"@]);
    path_currency();
    lemma_given(v, "currency"@, seq!["currency"@]);
    path_last_event_datetime();
    lemma_given(v, "last_event_datetime"@, seq!["last_event_datetime"@]);
}

/// Orders come in the order of their rows, one of each.
pub proof fn law_orders_are_read_in_order(os: Seq<PendingOrder>, list: Seq<JsonView>)
    requires
        pending::are_orders(os, list),
    ensures
        os.len() == list.len(),
        forall|i: int| 0 <= i < list.len() ==> says_order(#[trigger] os[i], list[i]),
{
    assert forall|i: int| 0 <= i < list.len() implies says_order(#[trigger] os[i], list[i]) by {
        law_an_order_is_read_by_name(os[i], list[i]);
    }
}

/// Whether a transaction is an order that still works: it is pending, trades a
/// security, cancels nothing and has an id.
pub open spec fn still_works(v: JsonView) -> bool {
    &&& gives_words(v, seq!["status"@], Some("PENDING"@))
    &&& gives_words(v, seq!["type"@], Some("SECURITY_TRANSACTION"@))
    &&& !leads(v, seq!["is_cancellation"@], JsonView::Bool(true))
    &&& exists|s: Seq<char>| #[trigger] gives_words(v, seq!["id"@], Some(s)) && s.len() > 0
}

proof fn lemma_still_works(v: JsonView)
    ensures
        pending::is_working(v) == still_works(v),
{
    path_status();
    lemma_given(v, "status"@, seq!["status"@]);
    path_type();
    lemma_given(v, "type"@, seq!["type"@]);
    path_is_cancellation();
    lemma_given(v, "is_cancellation"@, seq!["is_cancellation"@]);
    path_id();
    lemma_given(v, "id"@, seq!["id"@]);
    let id = sc::words_at(v, "id"@);
    if gives_words(v, seq!["status"@], Some("PENDING"@)) {
        lemma_one_text(v, seq!["status"@], Some("PENDING"@), sc::words_at(v, "status"@));
    }
    if gives_words(v, seq!["type"@], Some("SECURITY_TRANSACTION"@)) {
        lemma_one_text(v, seq!["type"@], Some("SECURITY_TRANSACTION"@), sc::words_at(v, "type"@));
    }
    if still_works(v) {
        let s = choose|s: Seq<char>| #[trigger] gives_words(v, seq!["id"@], Some(s)) && s.len() > 0;
        lemma_one_text(v, seq!["id"@], Some(s), id);
    }
    if id is Some {
        assert(gives_words(v, seq!["id"@], Some(id->0)));
    }
}

proof fn lemma_same_orders(list: Seq<JsonView>)
    ensures
        list.filter(|t: JsonView| pending::is_working(t)) == list.filter(
            |t: JsonView| still_works(t),
        ),
    decreases list.len(),
{
    reveal(Seq::filter);
    if list.len() > 0 {
        lemma_same_orders(list.drop_last());
        lemma_still_works(list.last());
    }
}

/// The working orders are the transactions that still work, in their order.
pub proof fn law_working_orders_are_those_that_still_work(v: JsonView, list: Seq<JsonView>)
    requires
        gives_list(v, seq!["items"@], list),
    ensures
        pending::working(v) == list.filter(|t: JsonView| still_works(t)),
{
    path_items();
    lemma_given(v, "items"@, seq!["items"@]);
    lemma_one_list(v, seq!["items"@], list, sc::list_at(v, "items"@));
    lemma_same_orders(list);
}

proof fn path_isin()
    ensures
        sc::segments("isin"@) == seq!["isin"@],
{
    reveal_strlit("isin");
    lemma_one_name("isin"@);
}

proof fn path_name()
    ensures
        sc::segments("name"@) == seq!["name"@],
{
    reveal_strlit("name");
    lemma_one_name("name"@);
}

proof fn path_security_type()
    ensures
        sc::segments("security_type"@) == seq!["security_type"@],
{
    reveal_strlit("security_type");
    lemma_one_name("security_type"@);
}

proof fn path_quantity()
    ensures
        sc::segments("quantity"@) == seq!["quantity"@],
{
    reveal_strlit("quantity");
    lemma_one_name("quantity"@);
}

proof fn path_blocked_quantity()
    ensures
        sc::segments("blocked_quantity"@) == seq!["blocked_quantity"@],
{
    reveal_strlit("blocked_quantity");
    lemma_one_name("blocked_quantity"@);
}

proof fn path_pending_quantity()
    ensures
        sc::segments("pending_quantity"@) == seq!["pending_quantity"@],
{
    reveal_strlit("pending_quantity");
    lemma_one_name("pending_quantity"@);
}

proof fn path_fifo_price()
    ensures
        sc::segments("fifo_price"@) == seq!["fifo_price"@],
{
    reveal_strlit("fifo_price");
    lemma_one_name("fifo_price"@);
}

proof fn path_quote_mid_price()
    ensures
        sc::segments("quote_mid_price"@) == seq!["quote_mid_price"@],
{
    reveal_strlit("quote_mid_price");
    lemma_one_name("quote_mid_price"@);
}

proof fn path_valuation()
    ensures
        sc::segments("valuation"@) == seq!["valuation"@],
{
    reveal_strlit("valuation");
    lemma_one_name("valuation"@);
}

proof fn path_valuation_currency()
    ensures
        sc::segments("valuation_currency"@) == seq!["valuation_currency"@],
{
    reveal_strlit("valuation_currency");
    lemma_one_name("valuation_currency"@);
}

proof fn path_quote_currency()
    ensures
        sc::segments("quote_currency"@) == seq!["quote_currency"@],
{
    reveal_strlit("quote_currency");
    lemma_one_name("quote_currency"@);
}

proof fn path_quote_is_outdated()
    ensures
        sc::segments("quote_is_outdated"@) == seq!["quote_is_outdated"@],
{
    reveal_strlit("quote_is_outdated");
    lemma_one_name("quote_is_outdated"@);
}

proof fn path_quote_timestamp_utc()
    ensures
        sc::segments("quote_timestamp_utc"@) == seq!["quote_timestamp_utc"@],
{
    reveal_strlit("quote_timestamp_utc");
    lemma_one_name("quote_timestamp_utc"@);
}

proof fn path_id()
    ensures
        sc::segments("id"@) == seq!["id"@],
{
    reveal_strlit("id");
    lemma_one_name("id"@);
}

proof fn path_description()
    ensures
        sc::segments("description"@) == seq!["description"@],
{
    reveal_strlit("description");
    lemma_one_name("description"@);
}

proof fn path_side()
    ensures
        sc::segments("side"@) == seq!["side"@],
{
    reveal_strlit("side");
    lemma_one_name("side"@);
}

proof fn path_status()
    ensures
        sc::segments("status"@) == seq!["status"@],
{
    reveal_strlit("status");
    lemma_one_name("status"@);
}

proof fn path_amount()
    ensures
        sc::segments("amount"@) == seq!["amount"@],
{
    reveal_strlit("amount");
    lemma_one_name("amount"@);
}

proof fn path_limit_price()
    ensures
        sc::segments("limit_price"@) == seq!["limit_price"@],
{
    reveal_strlit("limit_price");
    lemma_one_name("limit_price"@);
}

proof fn path_stop_price()
    ensures
        sc::segments("stop_price"@) == seq!["stop_price"@],
{
    reveal_strlit("stop_price");
    lemma_one_name("stop_price"@);
}

proof fn path_currency()
    ensures
        sc::segments("currency"@) == seq!["currency"@],
{
    reveal_strlit("currency");
    lemma_one_name("currency"@);
}

proof fn path_last_event_datetime()
    ensures
        sc::segments("last_event_datetime"@) == seq!["last_event_datetime"@],
{
    reveal_strlit("last_event_datetime");
    lemma_one_name("last_event_datetime"@);
}

proof fn path_type()
    ensures
        sc::segments("type"@) == seq!["type"@],
{
    reveal_strlit("type");
    lemma_one_name("type"@);
}

proof fn path_is_cancellation()
    ensures
        sc::segments("is_cancellation"@) == seq!["is_cancellation"@],
{
    reveal_strlit("is_cancellation");
    lemma_one_name("is_cancellation"@);
}

proof fn path_items()
    ensures
        sc::segments("items"@) == seq!["items"@],
{
    reveal_strlit("items");
    lemma_one_name("items"@);
}

} // verus!
