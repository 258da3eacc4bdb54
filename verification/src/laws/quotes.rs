//! What a quote says, by the members of the payload it was read from.

use crate::json::JsonView;
use crate::laws::reading::{
    gives_list, gives_number, gives_text, gives_words, leads, lemma_given, lemma_one_list,
    lemma_one_name, lemma_one_text,
};
use crate::model::Quote;
use crate::model::quote;
use crate::num::{self, Num};
use crate::sc;
use crate::screen::rows;
use crate::screen::rows::SearchHit;
use vstd::prelude::*;

verus! {

/// Whether a quote says what the members of a payload do.
pub open spec fn says_quote(q: Quote, v: JsonView) -> bool {
    &&& gives_text(v, seq!["name"@], q.name@)
    &&& gives_text(v, seq!["security_type"@], q.security_type@)
    &&& gives_number(v, seq!["quote_mid_price"@], q.mid)
    &&& gives_text(v, seq!["quote_currency"@], q.currency@)
    &&& q.outdated == leads(v, seq!["quote_is_outdated"@], JsonView::Bool(true))
    &&& gives_text(v, seq!["quote_timestamp_utc"@], q.timestamp@)
    &&& gives_number(v, seq!["quote_bid_price"@], q.bid)
    &&& gives_number(v, seq!["quote_ask_price"@], q.ask)
    &&& q.raw.view() == v
}

/// Whether entry `i` of a list is the last that is about a timeframe.
pub open spec fn is_last_about(list: Seq<JsonView>, name: Seq<char>, i: int) -> bool {
    &&& 0 <= i < list.len()
    &&& gives_words(list[i], seq!["timeframe"@], Some(name))
    &&& forall|j: int|
        i < j < list.len() ==> !gives_words(#[trigger] list[j], seq!["timeframe"@], Some(name))
}

/// Whether `r` is the number that the last entry about a timeframe gives under
/// `key`.
pub open spec fn says_about(
    list: Seq<JsonView>,
    name: Seq<char>,
    key: Seq<char>,
    r: Option<Num>,
) -> bool {
    &&& forall|i: int| #[trigger] is_last_about(list, name, i)
        ==> gives_number(list[i], seq![key], r)
    &&& r is Some ==> exists|i: int| #[trigger] is_last_about(list, name, i)
}

/// Whether `r` is a hundred times the performance that the last entry about a
/// timeframe gives.
pub open spec fn says_percent(list: Seq<JsonView>, name: Seq<char>, r: Option<Num>) -> bool {
    exists|x: Option<Num>| #[trigger] says_about(list, name, "performance"@, x) && match x {
        Some(n) => r == Some(num::product(n, num::whole(100))),
        None => r is None,
    }
}

proof fn lemma_last_about(list: Seq<JsonView>, name: Seq<char>)
    ensures
        match quote::last_about(list, name) {
            Some(p) => exists|i: int| #[trigger] is_last_about(list, name, i) && list[i] == p,
            None => forall|i: int| !#[trigger] is_last_about(list, name, i),
        },
        forall|i: int, j: int| #[trigger]
            is_last_about(list, name, i) && #[trigger] is_last_about(list, name, j) ==> i == j,
    decreases list.len(),
{
    if list.len() > 0 {
        let n = list.len() - 1;
        let rest = list.drop_last();
        lemma_last_about(rest, name);
        path_timeframe();
        lemma_given(list[n], "timeframe"@, seq!["timeframe"@]);
        assert(forall|i: int| 0 <= i < n ==> #[trigger] rest[i] == list[i]);
        if gives_words(list[n], seq!["timeframe"@], Some(name)) {
            lemma_one_text(
                list[n],
                seq!["timeframe"@],
                Some(name),
                sc::words_at(list[n], "timeframe"@),
            );
            assert(is_last_about(list, name, n));
        } else {
            assert forall|i: int| #[trigger] is_last_about(list, name, i) implies is_last_about(
                rest,
                name,
                i,
            ) by {
                assert(i != n);
                assert forall|j: int| i < j < rest.len() implies !gives_words(
                    #[trigger] rest[j],
                    seq!["timeframe"@],
                    Some(name),
                ) by {
                    assert(rest[j] == list[j]);
                }
            }
            assert forall|i: int| #[trigger] is_last_about(rest, name, i) implies is_last_about(
                list,
                name,
                i,
            ) by {
                assert forall|j: int| i < j < list.len() implies !gives_words(
                    #[trigger] list[j],
                    seq!["timeframe"@],
                    Some(name),
                ) by {
                    if j < n {
                        assert(rest[j] == list[j]);
                    }
                }
            }
        }
    }
}

proof fn lemma_about(list: Seq<JsonView>, name: Seq<char>)
    ensures
        says_percent(list, name, quote::performance_about(list, name)),
        name == "INTRADAY"@ ==> says_about(
            list,
            name,
            "simple_absolute_return"@,
            quote::change_about(list),
        ),
{
    lemma_last_about(list, name);
    path_performance();
    path_simple_absolute_return();
    let x = match quote::last_about(list, name) {
        Some(p) => sc::number_at(p, "performance"@),
        None => None,
    };
    match quote::last_about(list, name) {
        Some(p) => {
            lemma_given(p, "performance"@, seq!["performance"@]);
            lemma_given(p, "simple_absolute_return"@, seq!["simple_absolute_return"@]);
        },
        None => {},
    }
    assert(says_about(list, name, "performance"@, x));
}

/// A quote gives each price from its own member. Its performances are those of the
/// last entries about their timeframes, in percent, the change of the day among them,
/// and the close before is the mid less the change.
pub proof fn law_a_quote_is_read_by_name(
    q: Quote,
    isin: Seq<char>,
    v: JsonView,
    list: Seq<JsonView>,
)
    requires
        quote::is_quote(q, isin, v),
        gives_list(v, seq!["quote_performances"@], list),
    ensures
        says_quote(q, v),
        gives_words(v, seq!["isin"@], Some(q.isin@))
            || (gives_words(v, seq!["isin"@], None) && q.isin@ == isin),
        says_percent(list, "INTRADAY"@, q.perf.day),
        says_percent(list, "ONE_WEEK"@, q.perf.week),
        says_percent(list, "ONE_MONTH"@, q.perf.month),
        says_percent(list, "THREE_MONTHS"@, q.perf.quarter),
        says_percent(list, "SIX_MONTHS"@, q.perf.half),
        says_percent(list, "ONE_YEAR"@, q.perf.year),
        says_percent(list, "INTRADAY"@, q.change_pct),
        says_about(list, "INTRADAY"@, "simple_absolute_return"@, q.change_abs),
        match (q.mid, q.change_abs) {
            (Some(m), Some(c)) => q.prev_close == Some(num::difference(m, c)),
            _ => q.prev_close is None,
        },
{
    path_name();
    lemma_given(v, "name"@, seq!["name"@]);
    path_security_type();
    lemma_given(v, "security_type"@, seq!["security_type"@]);
    path_quote_mid_price();
    lemma_given(v, "quote_mid_price"@, seq!["quote_mid_price"@]);
    path_quote_currency();
    lemma_given(v, "quote_currency"@, seq!["quote_currency"@]);
    path_quote_is_outdated();
    lemma_given(v, "quote_is_outdated"@, seq!["quote_is_outdated"@]);
    path_quote_timestamp_utc();
    lemma_given(v, "quote_timestamp_utc"@, seq!["quote_timestamp_utc"@]);
    path_quote_bid_price();
    lemma_given(v, "quote_bid_price"@, seq!["quote_bid_price"@]);
    path_quote_ask_price();
    lemma_given(v, "quote_ask_price"@, seq!["quote_ask_price"@]);
    path_isin();
    lemma_given(v, "isin"@, seq!["isin"@]);
    path_quote_performances();
    lemma_given(v, "quote_performances"@, seq!["quote_performances"@]);
    lemma_one_list(v, seq!["quote_performances"@], list, sc::list_at(v, "quote_performances"@));
    lemma_about(list, "INTRADAY"@);
    lemma_about(list, "ONE_WEEK"@);
    lemma_about(list, "ONE_MONTH"@);
    lemma_about(list, "THREE_MONTHS"@);
    lemma_about(list, "SIX_MONTHS"@);
    lemma_about(list, "ONE_YEAR"@);
}

/// A quote says what its payload does.
pub proof fn lemma_quote(q: Quote, isin: Seq<char>, v: JsonView)
    requires
        quote::is_quote(q, isin, v),
    ensures
        says_quote(q, v),
{
    path_quote_performances();
    lemma_given(v, "quote_performances"@, seq!["quote_performances"@]);
    law_a_quote_is_read_by_name(q, isin, v, sc::list_at(v, "quote_performances"@));
}

/// Whether a quote says what a row of the watchlist does, and nothing else.
pub open spec fn says_row(q: Quote, v: JsonView) -> bool {
    &&& gives_text(v, seq!["name"@], q.name@)
    &&& gives_text(v, seq!["security_type"@], q.security_type@)
    &&& gives_number(v, seq!["quote_mid_price"@], q.mid)
    &&& gives_text(v, seq!["quote_currency"@], q.currency@)
    &&& q.outdated == leads(v, seq!["quote_is_outdated"@], JsonView::Bool(true))
    &&& gives_text(v, seq!["quote_timestamp_utc"@], q.timestamp@)
    &&& gives_text(v, seq!["isin"@], q.isin@)
    &&& q.bid is None
    &&& q.ask is None
    &&& q.prev_close is None
    &&& q.change_abs is None
    &&& q.change_pct is None
    &&& q.perf.day is None
    &&& q.perf.week is None
    &&& q.perf.month is None
    &&& q.perf.quarter is None
    &&& q.perf.half is None
    &&& q.perf.year is None
    &&& q.raw.view() == v
}

/// A row of the watchlist gives a mid and what the instrument is; no bid or ask, and
/// no performance.
pub proof fn law_a_row_is_read_by_name(q: Quote, v: JsonView)
    requires
        quote::is_watched(q, v),
    ensures
        says_row(q, v),
{
    path_name();
    lemma_given(v, "name"@, seq!["name"@]);
    path_security_type();
    lemma_given(v, "security_type"@, seq!["security_type"@]);
    path_quote_mid_price();
    lemma_given(v, "quote_mid_price"@, seq!["quote_mid_price"@]);
    path_quote_currency();
    lemma_given(v, "quote_currency"@, seq!["quote_currency"@]);
    path_quote_is_outdated();
    lemma_given(v, "quote_is_outdated"@, seq!["quote_is_outdated"@]);
    path_quote_timestamp_utc();
    lemma_given(v, "quote_timestamp_utc"@, seq!["quote_timestamp_utc"@]);
    path_isin();
    lemma_given(v, "isin"@, seq!["isin"@]);
}

/// Whether a search result says what the members of a payload do.
pub open spec fn says_hit(h: SearchHit, v: JsonView) -> bool {
    &&& gives_text(v, seq!["isin"@], h.isin@)
    &&& gives_text(v, seq!["name"@], h.name@)
    &&& gives_number(v, seq!["quote_mid_price"@], h.mid)
    &&& gives_text(v, seq!["security_type"@], h.security_type@)
}

/// A search result gives each part from its own member.
pub proof fn law_a_hit_is_read_by_name(h: SearchHit, v: JsonView)
    requires
        rows::is_hit(h, v),
    ensures
        says_hit(h, v),
{
    path_isin();
    lemma_given(v, "isin"@, seq!["isin"@]);
    path_name();
    lemma_given(v, "name"@, seq!["name"@]);
    path_quote_mid_price();
    lemma_given(v, "quote_mid_price"@, seq!["quote_mid_price"@]);
    path_security_type();
    lemma_given(v, "security_type"@, seq!["security_type"@]);
}

proof fn path_timeframe()
    ensures
        sc::segments("timeframe"@) == seq!["timeframe"@],
{
    reveal_strlit("timeframe");
    lemma_one_name("timeframe"@);
}

proof fn path_performance()
    ensures
        sc::segments("performance"@) == seq!["performance"@],
{
    reveal_strlit("performance");
    lemma_one_name("performance"@);
}

proof fn path_simple_absolute_return()
    ensures
        sc::segments("simple_absolute_return"@) == seq!["simple_absolute_return"@],
{
    reveal_strlit("simple_absolute_return");
    lemma_one_name("simple_absolute_return"@);
}

proof fn path_name()
    ensures
        sc::segments("name"@) == seq!["name"@],
{
    reveal_strlit("name");
    lemma_one_name("name"@);
}

proof fn path_security_type()
    ensures
        sc::segments("security_type"@) == seq!["security_type"@],
{
    reveal_strlit("security_type");
    lemma_one_name("security_type"@);
}

proof fn path_quote_mid_price()
    ensures
        sc::segments("quote_mid_price"@) == seq!["quote_mid_price"@],
{
    reveal_strlit("quote_mid_price");
    lemma_one_name("quote_mid_price"@);
}

proof fn path_quote_currency()
    ensures
        sc::segments("quote_currency"@) == seq!["quote_currency"@],
{
    reveal_strlit("quote_currency");
    lemma_one_name("quote_currency"@);
}

proof fn path_quote_is_outdated()
    ensures
        sc::segments("quote_is_outdated"@) == seq!["quote_is_outdated"@],
{
    reveal_strlit("quote_is_outdated");
    lemma_one_name("quote_is_outdated"@);
}

proof fn path_quote_timestamp_utc()
    ensures
        sc::segments("quote_timestamp_utc"@) == seq!["quote_timestamp_utc"@],
{
    reveal_strlit("quote_timestamp_utc");
    lemma_one_name("quote_timestamp_utc"@);
}

proof fn path_quote_bid_price()
    ensures
        sc::segments("quote_bid_price"@) == seq!["quote_bid_price"@],
{
    reveal_strlit("quote_bid_price");
    lemma_one_name("quote_bid_price"@);
}

proof fn path_quote_ask_price()
    ensures
        sc::segments("quote_ask_price"@) == seq!["quote_ask_price"@],
{
    reveal_strlit("quote_ask_price");
    lemma_one_name("quote_ask_price"@);
}

proof fn path_isin()
    ensures
        sc::segments("isin"@) == seq!["isin"@],
{
    reveal_strlit("isin");
    lemma_one_name("isin"@);
}

proof fn path_quote_performances()
    ensures
        sc::segments("quote_performances"@) == seq!["quote_performances"@],
{
    reveal_strlit("quote_performances");
    lemma_one_name("quote_performances"@);
}

} // verus!
