//! What alerts, news, derivatives and charts say, by the members of the payloads they
//! were read from.

use crate::json::JsonView;
use crate::laws::reading::{
    gives_amount, gives_list, gives_number, gives_text, gives_words, leads, lemma_given,
    lemma_longer_path, lemma_one_list, lemma_one_name, lemma_one_text,
};
use crate::model::{Chart, Derivative, DerivativesPage, NewsItem, PriceAlert, SecurityNews};
use crate::model::alert;
use crate::model::calendar;
use crate::model::chart;
use crate::model::derivative;
use crate::model::news;
use crate::num::{self, Num};
use crate::sc;
use vstd::prelude::*;

verus! {

/// Whether an alert says what the members of a payload do.
pub open spec fn says_alert(a: PriceAlert, v: JsonView) -> bool {
    &&& gives_text(v, seq!["alert_id"@], a.id@)
    &&& gives_text(v, seq!["isin"@], a.isin@)
    &&& gives_text(v, seq!["name"@], a.name@)
    &&& gives_text(v, seq!["security_type"@], a.security_type@)
    &&& gives_number(v, seq!["price"@], a.price)
    &&& gives_text(v, seq!["direction"@], a.direction@)
    &&& a.active == leads(v, seq!["is_active"@], JsonView::Bool(true))
    &&& gives_text(v, seq!["triggered_timestamp_utc"@], a.triggered@)
}

/// An alert gives each part from its own member.
pub proof fn law_an_alert_is_read_by_name(a: PriceAlert, v: JsonView)
    requires
        alert::is_alert(a, v),
    ensures
        says_alert(a, v),
{
    path_alert_id();
    lemma_given(v, "alert_id"@, seq!["alert_id"@]);
    path_isin();
    lemma_given(v, "isin"@, seq!["isin"@]);
    path_name();
    lemma_given(v, "name"@, seq!["name"@]);
    path_security_type();
    lemma_given(v, "security_type"@, seq!["security_type"@]);
    path_price();
    lemma_given(v, "price"@, seq!["price"@]);
    path_direction();
    lemma_given(v, "direction"@, seq!["direction"@]);
    path_is_active();
    lemma_given(v, "is_active"@, seq!["is_active"@]);
    path_triggered_timestamp_utc();
    lemma_given(v, "triggered_timestamp_utc"@, seq!["triggered_timestamp_utc"@]);
}

/// Alerts come in the order of their rows.
pub proof fn law_alerts_are_read_in_order(a: Seq<PriceAlert>, list: Seq<JsonView>)
    requires
        alert::are_alerts(a, list),
    ensures
        a.len() == list.len(),
        forall|i: int| 0 <= i < list.len() ==> says_alert(#[trigger] a[i], list[i]),
{
    assert forall|i: int| 0 <= i < list.len() implies says_alert(#[trigger] a[i], list[i]) by {
        law_an_alert_is_read_by_name(a[i], list[i]);
    }
}

/// Whether a payload gives some words under a name.
pub open spec fn says_something(v: JsonView, key: Seq<char>) -> bool {
    exists|s: Seq<char>| #[trigger] gives_words(v, seq![key], Some(s)) && s.len() > 0
}

proof fn lemma_something(v: JsonView, key: Seq<char>)
    requires
        sc::segments(key) == seq![key],
    ensures
        says_something(v, key) == (sc::words_or_empty(v, key).len() > 0),
{
    lemma_given(v, key, seq![key]);
    let w = sc::words_at(v, key);
    if says_something(v, key) {
        let s = choose|s: Seq<char>| #[trigger] gives_words(v, seq![key], Some(s)) && s.len() > 0;
        lemma_one_text(v, seq![key], Some(s), w);
    }
    if w is Some {
        assert(gives_words(v, seq![key], Some(w->0)));
    }
}

proof fn lemma_same_filter(
    list: Seq<JsonView>,
    f: spec_fn(JsonView) -> bool,
    g: spec_fn(JsonView) -> bool,
)
    requires
        forall|v: JsonView| #[trigger] f(v) == g(v),
    ensures
        list.filter(f) == list.filter(g),
    decreases list.len(),
{
    reveal(Seq::filter);
    if list.len() > 0 {
        lemma_same_filter(list.drop_last(), f, g);
    }
}

/// The alerts are the rows that have an id, in their order.
pub proof fn law_only_alerts_with_an_id_count(v: JsonView, list: Seq<JsonView>)
    requires
        gives_list(v, seq!["items"@], list),
    ensures
        alert::identified(v) == list.filter(|r: JsonView| says_something(r, "alert_id"@)),
{
    path_items();
    lemma_given(v, "items"@, seq!["items"@]);
    lemma_one_list(v, seq!["items"@], list, sc::list_at(v, "items"@));
    path_alert_id();
    let f = |r: JsonView| sc::words_or_empty(r, "alert_id"@).len() > 0;
    let g = |r: JsonView| says_something(r, "alert_id"@);
    assert forall|r: JsonView| #[trigger] f(r) == g(r) by {
        lemma_something(r, "alert_id"@);
    }
    lemma_same_filter(list, f, g);
}

/// The derivatives are the rows that have an ISIN, in their order.
pub proof fn law_only_products_with_an_isin_count(v: JsonView, list: Seq<JsonView>)
    requires
        gives_list(v, seq!["items"@], list),
    ensures
        derivative::tradable_rows(v) == list.filter(|r: JsonView| says_something(r, "isin"@)),
{
    path_items();
    lemma_given(v, "items"@, seq!["items"@]);
    lemma_one_list(v, seq!["items"@], list, sc::list_at(v, "items"@));
    path_isin();
    let f = |r: JsonView| sc::words_or_empty(r, "isin"@).len() > 0;
    let g = |r: JsonView| says_something(r, "isin"@);
    assert forall|r: JsonView| #[trigger] f(r) == g(r) by {
        lemma_something(r, "isin"@);
    }
    lemma_same_filter(list, f, g);
}

/// The sources of news are the rows that have a headline, in their order.
pub proof fn law_only_news_with_a_headline_counts(v: JsonView, list: Seq<JsonView>)
    requires
        gives_list(v, seq!["sources"@], list),
    ensures
        news::headed(v) == list.filter(|r: JsonView| says_something(r, "headline"@)),
{
    path_sources();
    lemma_given(v, "sources"@, seq!["sources"@]);
    lemma_one_list(v, seq!["sources"@], list, sc::list_at(v, "sources"@));
    path_headline();
    let f = |r: JsonView| sc::words_or_empty(r, "headline"@).len() > 0;
    let g = |r: JsonView| says_something(r, "headline"@);
    assert forall|r: JsonView| #[trigger] f(r) == g(r) by {
        lemma_something(r, "headline"@);
    }
    lemma_same_filter(list, f, g);
}

/// Whether a source says what the members of a payload do.
pub open spec fn says_item(n: NewsItem, v: JsonView) -> bool {
    &&& gives_text(v, seq!["headline"@], n.headline@)
    &&& gives_text(v, seq!["source_name"@], n.source@)
    &&& gives_text(v, seq!["publication_time_utc"@], n.published@)
}

/// A source of news gives each part from its own member.
pub proof fn law_a_source_is_read_by_name(n: NewsItem, v: JsonView)
    requires
        news::is_item(n, v),
    ensures
        says_item(n, v),
{
    path_headline();
    lemma_given(v, "headline"@, seq!["headline"@]);
    path_source_name();
    lemma_given(v, "source_name"@, seq!["source_name"@]);
    path_publication_time_utc();
    lemma_given(v, "publication_time_utc"@, seq!["publication_time_utc"@]);
}

/// Whether news say what the members of a payload do.
pub open spec fn says_news(n: SecurityNews, v: JsonView) -> bool {
    &&& gives_text(v, seq!["isin"@], n.isin@)
    &&& gives_text(v, seq!["locale"@], n.locale@)
    &&& gives_text(v, seq!["summary"@, "short"@], n.short@)
    &&& gives_text(v, seq!["summary"@, "long"@], n.long@)
    &&& gives_text(v, seq!["summary"@, "last_updated"@], n.last_updated@)
}

/// News give each part from its own member, and a source for each row that has a
/// headline.
pub proof fn law_news_are_read_by_name(n: SecurityNews, v: JsonView)
    requires
        news::is_news(n, v),
    ensures
        says_news(n, v),
        n.sources@.len() == news::headed(v).len(),
        forall|i: int| 0 <= i < n.sources@.len()
            ==> says_item(#[trigger] n.sources@[i], news::headed(v)[i]),
{
    path_isin();
    lemma_given(v, "isin"@, seq!["isin"@]);
    path_locale();
    lemma_given(v, "locale"@, seq!["locale"@]);
    path_summary_short();
    lemma_given(v, "summary/short"@, seq!["summary"@, "short"@]);
    path_summary_long();
    lemma_given(v, "summary/long"@, seq!["summary"@, "long"@]);
    path_summary_last_updated();
    lemma_given(v, "summary/last_updated"@, seq!["summary"@, "last_updated"@]);
    assert forall|i: int| 0 <= i < n.sources@.len() implies says_item(
        #[trigger] n.sources@[i],
        news::headed(v)[i],
    ) by {
        law_a_source_is_read_by_name(n.sources@[i], news::headed(v)[i]);
    }
}

/// Whether a derivative says what the members of a payload do.
pub open spec fn says_derivative(d: Derivative, v: JsonView) -> bool {
    &&& gives_text(v, seq!["isin"@], d.isin@)
    &&& gives_text(v, seq!["issuer"@], d.issuer@)
    &&& gives_text(v, seq!["strategy"@], d.strategy@)
    &&& gives_text(v, seq!["product_subcategory"@], d.subcategory@)
    &&& gives_number(v, seq!["leverage"@], d.leverage)
    &&& gives_number(v, seq!["factor"@], d.factor)
    &&& gives_number(v, seq!["strike"@, "value"@], d.strike)
    &&& gives_text(v, seq!["strike"@, "currency_iso_code"@], d.strike_currency@)
    &&& gives_number(v, seq!["knockout_barrier"@, "value"@], d.knockout_barrier)
    &&& gives_number(v, seq!["distance_to_knockout"@], d.distance_to_knockout)
    &&& gives_number(v, seq!["premium_percentage"@], d.premium_pct)
    &&& gives_text(v, seq!["expiry_date"@], d.expiry@)
    &&& d.open_end == leads(v, seq!["expiry_is_open_end"@], JsonView::Bool(true))
}

/// A derivative gives each part from its own member.
pub proof fn law_a_derivative_is_read_by_name(d: Derivative, v: JsonView)
    requires
        derivative::is_derivative(d, v),
    ensures
        says_derivative(d, v),
{
    path_isin();
    lemma_given(v, "isin"@, seq!["isin"@]);
    path_issuer();
    lemma_given(v, "issuer"@, seq!["issuer"@]);
    path_strategy();
    lemma_given(v, "strategy"@, seq!["strategy"@]);
    path_product_subcategory();
    lemma_given(v, "product_subcategory"@, seq!["product_subcategory"@]);
    path_leverage();
    lemma_given(v, "leverage"@, seq!["leverage"@]);
    path_factor();
    lemma_given(v, "factor"@, seq!["factor"@]);
    path_strike_value();
    lemma_given(v, "strike/value"@, seq!["strike"@, "value"@]);
    path_strike_currency_iso_code();
    lemma_given(v, "strike/currency_iso_code"@, seq!["strike"@, "currency_iso_code"@]);
    path_knockout_barrier_value();
    lemma_given(v, "knockout_barrier/value"@, seq!["knockout_barrier"@, "value"@]);
    path_distance_to_knockout();
    lemma_given(v, "distance_to_knockout"@, seq!["distance_to_knockout"@]);
    path_premium_percentage();
    lemma_given(v, "premium_percentage"@, seq!["premium_percentage"@]);
    path_expiry_date();
    lemma_given(v, "expiry_date"@, seq!["expiry_date"@]);
    path_expiry_is_open_end();
    lemma_given(v, "expiry_is_open_end"@, seq!["expiry_is_open_end"@]);
}

/// A page gives each part from its own member, a derivative for each row that has an
/// ISIN, and how many there are in all.
pub proof fn law_a_page_is_read_by_name(p: DerivativesPage, v: JsonView)
    requires
        derivative::is_page(p, v),
    ensures
        gives_text(v, seq!["underlying_isin"@], p.underlying@),
        gives_text(v, seq!["derivative_type"@], p.derivative_type@),
        exists|n: Num| #[trigger] gives_amount(v, seq!["total_available"@], n)
            && p.total_available == num::cut(n, 0, u64::MAX as int),
        p.items@.len() == derivative::tradable_rows(v).len(),
        forall|i: int| 0 <= i < p.items@.len()
            ==> says_derivative(#[trigger] p.items@[i], derivative::tradable_rows(v)[i]),
{
    path_underlying_isin();
    lemma_given(v, "underlying_isin"@, seq!["underlying_isin"@]);
    path_derivative_type();
    lemma_given(v, "derivative_type"@, seq!["derivative_type"@]);
    path_total_available();
    lemma_given(v, "total_available"@, seq!["total_available"@]);
    assert forall|i: int| 0 <= i < p.items@.len() implies says_derivative(
        #[trigger] p.items@[i],
        derivative::tradable_rows(v)[i],
    ) by {
        law_a_derivative_is_read_by_name(p.items@[i], derivative::tradable_rows(v)[i]);
    }
}

/// Whether a chart says what the members of a payload do.
pub open spec fn says_chart(c: Chart, v: JsonView) -> bool {
    &&& gives_text(v, seq!["isin"@], c.isin@)
    &&& gives_text(v, seq!["timeframe"@], c.timeframe@)
    &&& gives_text(v, seq!["currency"@], c.currency@)
    &&& gives_text(v, seq!["source"@], c.source@)
    &&& gives_number(v, seq!["closing_reference_point"@, "mid_price"@], c.reference)
    &&& gives_text(v, seq!["closing_reference_point"@, "timestamp_utc"@], c.reference_ts@)
}

/// A chart gives each part from its own member, and a point for each row of its list
/// that has a price, in order.
pub proof fn law_a_chart_is_read_by_name(c: Chart, v: JsonView, list: Seq<JsonView>)
    requires
        chart::is_chart(c, v),
        gives_list(v, seq!["data_points"@], list),
    ensures
        says_chart(c, v),
        chart::point_views(c.points@) == list.filter_map(|p: JsonView| chart::point_in(p)),
{
    path_isin();
    lemma_given(v, "isin"@, seq!["isin"@]);
    path_timeframe();
    lemma_given(v, "timeframe"@, seq!["timeframe"@]);
    path_currency();
    lemma_given(v, "currency"@, seq!["currency"@]);
    path_source();
    lemma_given(v, "source"@, seq!["source"@]);
    path_closing_reference_point_mid_price();
    lemma_given(
        v,
        "closing_reference_point/mid_price"@,
        seq!["closing_reference_point"@, "mid_price"@],
    );
    path_closing_reference_point_timestamp_utc();
    lemma_given(
        v,
        "closing_reference_point/timestamp_utc"@,
        seq!["closing_reference_point"@, "timestamp_utc"@],
    );
    path_data_points();
    lemma_given(v, "data_points"@, seq!["data_points"@]);
    lemma_one_list(v, seq!["data_points"@], list, sc::list_at(v, "data_points"@));
}

/// A chart says what its payload does.
pub proof fn lemma_chart(c: Chart, v: JsonView)
    requires
        chart::is_chart(c, v),
    ensures
        says_chart(c, v),
{
    path_data_points();
    lemma_given(v, "data_points"@, seq!["data_points"@]);
    law_a_chart_is_read_by_name(c, v, sc::list_at(v, "data_points"@));
}

/// A point has the price and the timestamp of its row, and the moment that the
/// timestamp says; none comes of a row without a price.
pub proof fn law_a_point_is_read_by_name(v: JsonView)
    ensures
        match chart::point_in(v) {
            Some(p) => {
                &&& gives_number(v, seq!["mid_price"@], Some(p.mid))
                &&& gives_text(v, seq!["timestamp_utc"@], p.ts)
                &&& match calendar::moment(vstd::utf8::encode_utf8(p.ts)) {
                    Some(t) => p.t == t,
                    None => p.t == Num { bits: 0 },
                }
            },
            None => gives_number(v, seq!["mid_price"@], None),
        },
{
    path_mid_price();
    lemma_given(v, "mid_price"@, seq!["mid_price"@]);
    path_timestamp_utc();
    lemma_given(v, "timestamp_utc"@, seq!["timestamp_utc"@]);
}

proof fn path_alert_id()
    ensures
        sc::segments("alert_id"@) == seq!["alert_id"@],
{
    reveal_strlit("alert_id");
    lemma_one_name("alert_id"@);
}

proof fn path_isin()
    ensures
        sc::segments("isin"@) == seq!["isin"@],
{
    reveal_strlit("isin");
    lemma_one_name("isin"@);
}

proof fn path_name()
    ensures
        sc::segments("name"@) == seq!["name"@],
{
    reveal_strlit("name");
    lemma_one_name("name"@);
}

proof fn path_security_type()
    ensures
        sc::segments("security_type"@) == seq!["security_type"@],
{
    reveal_strlit("security_type");
    lemma_one_name("security_type"@);
}

proof fn path_price()
    ensures
        sc::segments("price"@) == seq!["price"@],
{
    reveal_strlit("price");
    lemma_one_name("price"@);
}

proof fn path_direction()
    ensures
        sc::segments("direction"@) == seq!["direction"@],
{
    reveal_strlit("direction");
    lemma_one_name("direction"@);
}

proof fn path_is_active()
    ensures
        sc::segments("is_active"@) == seq!["is_active"@],
{
    reveal_strlit("is_active");
    lemma_one_name("is_active"@);
}

proof fn path_triggered_timestamp_utc()
    ensures
        sc::segments("triggered_timestamp_utc"@) == seq!["triggered_timestamp_utc"@],
{
    reveal_strlit("triggered_timestamp_utc");
    lemma_one_name("triggered_timestamp_utc"@);
}

proof fn path_items()
    ensures
        sc::segments("items"@) == seq!["items"@],
{
    reveal_strlit("items");
    lemma_one_name("items"@);
}

proof fn path_headline()
    ensures
        sc::segments("headline"@) == seq!["headline"@],
{
    reveal_strlit("headline");
    lemma_one_name("headline"@);
}

proof fn path_sources()
    ensures
        sc::segments("sources"@) == seq!["sources"@],
{
    reveal_strlit("sources");
    lemma_one_name("sources"@);
}

proof fn path_source_name()
    ensures
        sc::segments("source_name"@) == seq!["source_name"@],
{
    reveal_strlit("source_name");
    lemma_one_name("source_name"@);
}

proof fn path_publication_time_utc()
    ensures
        sc::segments("publication_time_utc"@) == seq!["publication_time_utc"@],
{
    reveal_strlit("publication_time_utc");
    lemma_one_name("publication_time_utc"@);
}

proof fn path_locale()
    ensures
        sc::segments("locale"@) == seq!["locale"@],
{
    reveal_strlit("locale");
    lemma_one_name("locale"@);
}

proof fn path_summary_short()
    ensures
        sc::segments("summary/short"@) == seq!["summary"@, "short"@],
{
    reveal_strlit("short");
    lemma_one_name("short"@);
    reveal_strlit("summary");
    reveal_strlit("summary/short");
    assert("summary/short"@ =~= "summary"@ + seq!['/'] + "short"@);
    lemma_longer_path("summary/short"@, "summary"@, "short"@, seq!["short"@]);
    assert(sc::segments("summary/short"@) =~= seq!["summary"@, "short"@]);
}

proof fn path_summary_long()
    ensures
        sc::segments("summary/long"@) == seq!["summary"@, "long"@],
{
    reveal_strlit("long");
    lemma_one_name("long"@);
    reveal_strlit("summary");
    reveal_strlit("summary/long");
    assert("summary/long"@ =~= "summary"@ + seq!['/'] + "long"@);
    lemma_longer_path("summary/long"@, "summary"@, "long"@, seq!["long"@]);
    assert(sc::segments("summary/long"@) =~= seq!["summary"@, "long"@]);
}

proof fn path_summary_last_updated()
    ensures
        sc::segments("summary/last_updated"@) == seq!["summary"@, "last_updated"@],
{
    reveal_strlit("last_updated");
    lemma_one_name("last_updated"@);
    reveal_strlit("summary");
    reveal_strlit("summary/last_updated");
    assert("summary/last_updated"@ =~= "summary"@ + seq!['/'] + "last_updated"@);
    lemma_longer_path("summary/last_updated"@, "summary"@, "last_updated"@, seq!["last_updated"@]);
    assert(sc::segments("summary/last_updated"@) =~= seq!["summary"@, "last_updated"@]);
}

proof fn path_issuer()
    ensures
        sc::segments("issuer"@) == seq!["issuer"@],
{
    reveal_strlit("issuer");
    lemma_one_name("issuer"@);
}

proof fn path_strategy()
    ensures
        sc::segments("strategy"@) == seq!["strategy"@],
{
    reveal_strlit("strategy");
    lemma_one_name("strategy"@);
}

proof fn path_product_subcategory()
    ensures
        sc::segments("product_subcategory"@) == seq!["product_subcategory"@],
{
    reveal_strlit("product_subcategory");
    lemma_one_name("product_subcategory"@);
}

proof fn path_leverage()
    ensures
        sc::segments("leverage"@) == seq!["leverage"@],
{
    reveal_strlit("leverage");
    lemma_one_name("leverage"@);
}

proof fn path_factor()
    ensures
        sc::segments("factor"@) == seq!["factor"@],
{
    reveal_strlit("factor");
    lemma_one_name("factor"@);
}

proof fn path_strike_value()
    ensures
        sc::segments("strike/value"@) == seq!["strike"@, "value"@],
{
    reveal_strlit("value");
    lemma_one_name("value"@);
    reveal_strlit("strike");
    reveal_strlit("strike/value");
    assert("strike/value"@ =~= "strike"@ + seq!['/'] + "value"@);
    lemma_longer_path("strike/value"@, "strike"@, "value"@, seq!["value"@]);
    assert(sc::segments("strike/value"@) =~= seq!["strike"@, "value"@]);
}

proof fn path_strike_currency_iso_code()
    ensures
        sc::segments("strike/currency_iso_code"@) == seq!["strike"@, "currency_iso_code"@],
{
    reveal_strlit("currency_iso_code");
    lemma_one_name("currency_iso_code"@);
    reveal_strlit("strike");
    reveal_strlit("strike/currency_iso_code");
    assert("strike/currency_iso_code"@ =~= "strike"@ + seq!['/'] + "currency_iso_code"@);
    lemma_longer_path(
        "strike/currency_iso_code"@,
        "strike"@,
        "currency_iso_code"@,
        seq!["currency_iso_code"@],
    );
    assert(sc::segments("strike/currency_iso_code"@) =~= seq!["strike"@, "currency_iso_code"@]);
}

proof fn path_knockout_barrier_value()
    ensures
        sc::segments("knockout_barrier/value"@) == seq!["knockout_barrier"@, "value"@],
{
    reveal_strlit("value");
    lemma_one_name("value"@);
    reveal_strlit("knockout_barrier");
    reveal_strlit("knockout_barrier/value");
    assert("knockout_barrier/value"@ =~= "knockout_barrier"@ + seq!['/'] + "value"@);
    lemma_longer_path("knockout_barrier/value"@, "knockout_barrier"@, "value"@, seq!["value"@]);
    assert(sc::segments("knockout_barrier/value"@) =~= seq!["knockout_barrier"@, "value"@]);
}

proof fn path_distance_to_knockout()
    ensures
        sc::segments("distance_to_knockout"@) == seq!["distance_to_knockout"@],
{
    reveal_strlit("distance_to_knockout");
    lemma_one_name("distance_to_knockout"@);
}

proof fn path_premium_percentage()
    ensures
        sc::segments("premium_percentage"@) == seq!["premium_percentage"@],
{
    reveal_strlit("premium_percentage");
    lemma_one_name("premium_percentage"@);
}

proof fn path_expiry_date()
    ensures
        sc::segments("expiry_date"@) == seq!["expiry_date"@],
{
    reveal_strlit("expiry_date");
    lemma_one_name("expiry_date"@);
}

proof fn path_expiry_is_open_end()
    ensures
        sc::segments("expiry_is_open_end"@) == seq!["expiry_is_open_end"@],
{
    reveal_strlit("expiry_is_open_end");
    lemma_one_name("expiry_is_open_end"@);
}

proof fn path_underlying_isin()
    ensures
        sc::segments("underlying_isin"@) == seq!["underlying_isin"@],
{
    reveal_strlit("underlying_isin");
    lemma_one_name("underlying_isin"@);
}

proof fn path_derivative_type()
    ensures
        sc::segments("derivative_type"@) == seq!["derivative_type"@],
{
    reveal_strlit("derivative_type");
    lemma_one_name("derivative_type"@);
}

proof fn path_total_available()
    ensures
        sc::segments("total_available"@) == seq!["total_available"@],
{
    reveal_strlit("total_available");
    lemma_one_name("total_available"@);
}

proof fn path_timeframe()
    ensures
        sc::segments("timeframe"@) == seq!["timeframe"@],
{
    reveal_strlit("timeframe");
    lemma_one_name("timeframe"@);
}

proof fn path_currency()
    ensures
        sc::segments("currency"@) == seq!["currency"@],
{
    reveal_strlit("currency");
    lemma_one_name("currency"@);
}

proof fn path_source()
    ensures
        sc::segments("source"@) == seq!["source"@],
{
    reveal_strlit("source");
    lemma_one_name("source"@);
}

proof fn path_closing_reference_point_mid_price()
    ensures
        sc::segments("closing_reference_point/mid_price"@)
            == seq!["closing_reference_point"@, "mid_price"@],
{
    reveal_strlit("mid_price");
    lemma_one_name("mid_price"@);
    reveal_strlit("closing_reference_point");
    reveal_strlit("closing_reference_point/mid_price");
    assert("closing_reference_point/mid_price"@
        =~= "closing_reference_point"@ + seq!['/'] + "mid_price"@);
    lemma_longer_path(
        "closing_reference_point/mid_price"@,
        "closing_reference_point"@,
        "mid_price"@,
        seq!["mid_price"@],
    );
    assert(sc::segments("closing_reference_point/mid_price"@)
        =~= seq!["closing_reference_point"@, "mid_price"@]);
}

proof fn path_closing_reference_point_timestamp_utc()
    ensures
        sc::segments("closing_reference_point/timestamp_utc"@)
            == seq!["closing_reference_point"@, "timestamp_utc"@],
{
    reveal_strlit("timestamp_utc");
    lemma_one_name("timestamp_utc"@);
    reveal_strlit("closing_reference_point");
    reveal_strlit("closing_reference_point/timestamp_utc");
    assert("closing_reference_point/timestamp_utc"@
        =~= "closing_reference_point"@ + seq!['/'] + "timestamp_utc"@);
    lemma_longer_path(
        "closing_reference_point/timestamp_utc"@,
        "closing_reference_point"@,
        "timestamp_utc"@,
        seq!["timestamp_utc"@],
    );
    assert(sc::segments("closing_reference_point/timestamp_utc"@)
        =~= seq!["closing_reference_point"@, "timestamp_utc"@]);
}

proof fn path_data_points()
    ensures
        sc::segments("data_points"@) == seq!["data_points"@],
{
    reveal_strlit("data_points");
    lemma_one_name("data_points"@);
}

proof fn path_mid_price()
    ensures
        sc::segments("mid_price"@) == seq!["mid_price"@],
{
    reveal_strlit("mid_price");
    lemma_one_name("mid_price"@);
}

proof fn path_timestamp_utc()
    ensures
        sc::segments("timestamp_utc"@) == seq!["timestamp_utc"@],
{
    reveal_strlit("timestamp_utc");
    lemma_one_name("timestamp_utc"@);
}

} // verus!
