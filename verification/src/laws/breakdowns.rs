//! What the analytics of a portfolio say, by the members of the payload they were
//! read from.

use crate::json::JsonView;
use crate::laws::reading::{
    gives_amount, gives_list, gives_text, lemma_given, lemma_one_list, lemma_one_name,
};
use crate::model::{AllocSlice, Analytics};
use crate::model::analytics;
use crate::num::{self, Num};
use crate::sc;
use vstd::prelude::*;

verus! {

/// Whether a slice says what the members of a payload do.
pub open spec fn says_slice(s: AllocSlice, v: JsonView) -> bool {
    &&& gives_text(v, seq!["name"@], s.name@)
    &&& gives_amount(v, seq!["valuation"@], s.valuation)
    &&& gives_amount(v, seq!["weight"@], s.weight)
}

/// A slice gives each part from its own member.
pub proof fn law_a_slice_is_read_by_name(s: AllocSlice, v: JsonView)
    requires
        analytics::is_named(s, v),
    ensures
        says_slice(s, v),
{
    path_name();
    lemma_given(v, "name"@, seq!["name"@]);
    path_valuation();
    lemma_given(v, "valuation"@, seq!["valuation"@]);
    path_weight();
    lemma_given(v, "weight"@, seq!["weight"@]);
}

/// Slices come in the order of their rows, one of each, and so do the slices within
/// each.
pub proof fn law_slices_are_read_in_order(
    s: Seq<AllocSlice>,
    list: Seq<JsonView>,
    i: int,
    subs: Seq<JsonView>,
    j: int,
)
    requires
        analytics::are_slices(s, list),
        0 <= i < list.len(),
        gives_list(list[i], seq!["subpositions"@], subs),
    ensures
        s.len() == list.len(),
        says_slice(s[i], list[i]),
        s[i].subs@.len() == subs.len(),
        0 <= j < subs.len()
            ==> says_slice(s[i].subs@[j], subs[j]) && s[i].subs@[j].subs@.len() == 0,
{
    assert(analytics::is_named(s[i], list[i]));
    law_a_slice_is_read_by_name(s[i], list[i]);
    path_subpositions();
    lemma_given(list[i], "subpositions"@, seq!["subpositions"@]);
    lemma_one_list(list[i], seq!["subpositions"@], subs, sc::list_at(list[i], "subpositions"@));
    if 0 <= j < subs.len() {
        assert(analytics::is_named(s[i].subs@[j], subs[j]));
        law_a_slice_is_read_by_name(s[i].subs@[j], subs[j]);
    }
}

/// Analytics give a breakdown, a check and a scenario for each row of their own lists,
/// in order.
pub proof fn law_analytics_are_read_by_name(
    a: Analytics,
    v: JsonView,
    parts: Seq<JsonView>,
    checks: Seq<JsonView>,
    cases: Seq<JsonView>,
)
    requires
        analytics::is_analytics(a, v),
        gives_list(v, seq!["allocations"@], parts),
        gives_list(v, seq!["health_checks"@], checks),
        gives_list(v, seq!["scenarios"@], cases),
    ensures
        gives_text(v, seq!["last_updated_utc"@], a.last_updated@),
        a.allocations@.len() == parts.len(),
        a.health@.len() == checks.len(),
        a.scenarios@.len() == cases.len(),
        analytics::are_allocations(a.allocations@, parts),
        analytics::are_checks(a.health@, checks),
        analytics::are_scenarios(a.scenarios@, cases),
{
    path_last_updated_utc();
    lemma_given(v, "last_updated_utc"@, seq!["last_updated_utc"@]);
    path_allocations();
    lemma_given(v, "allocations"@, seq!["allocations"@]);
    lemma_one_list(v, seq!["allocations"@], parts, sc::list_at(v, "allocations"@));
    path_health_checks();
    lemma_given(v, "health_checks"@, seq!["health_checks"@]);
    lemma_one_list(v, seq!["health_checks"@], checks, sc::list_at(v, "health_checks"@));
    path_scenarios();
    lemma_given(v, "scenarios"@, seq!["scenarios"@]);
    lemma_one_list(v, seq!["scenarios"@], cases, sc::list_at(v, "scenarios"@));
}

/// A breakdown has the type that its row gives, and a slice for each of its positions.
pub proof fn law_a_breakdown_is_read_by_name(
    a: Seq<(String, Vec<AllocSlice>)>,
    list: Seq<JsonView>,
    i: int,
    rows: Seq<JsonView>,
)
    requires
        analytics::are_allocations(a, list),
        0 <= i < list.len(),
        gives_list(list[i], seq!["positions"@], rows),
    ensures
        gives_text(list[i], seq!["type"@], a[i].0@),
        analytics::are_slices(a[i].1@, rows),
        a[i].1@.len() == rows.len(),
{
    assert(a[i].0@ == sc::words_or_empty(list[i], "type"@));
    path_type();
    lemma_given(list[i], "type"@, seq!["type"@]);
    path_positions();
    lemma_given(list[i], "positions"@, seq!["positions"@]);
    lemma_one_list(list[i], seq!["positions"@], rows, sc::list_at(list[i], "positions"@));
}

/// A check has the type, score and state that its row gives, and the two counts.
pub proof fn law_a_check_is_read_by_name(
    h: Seq<(String, Num, String, i64, i64)>,
    list: Seq<JsonView>,
    i: int,
)
    requires
        analytics::are_checks(h, list),
        0 <= i < list.len(),
    ensures
        gives_text(list[i], seq!["type"@], h[i].0@),
        gives_amount(list[i], seq!["health_score"@], h[i].1),
        gives_text(list[i], seq!["state"@], h[i].2@),
        exists|n: Num| #[trigger] gives_amount(list[i], seq!["number_of_items_in_portfolio"@], n)
            && h[i].3 == num::cut(n, i64::MIN as int, i64::MAX as int),
        exists|n: Num| #[trigger] gives_amount(list[i], seq!["max_items"@], n)
            && h[i].4 == num::cut(n, i64::MIN as int, i64::MAX as int),
{
    assert(h[i].0@ == sc::words_or_empty(list[i], "type"@));
    path_type();
    lemma_given(list[i], "type"@, seq!["type"@]);
    path_health_score();
    lemma_given(list[i], "health_score"@, seq!["health_score"@]);
    path_state();
    lemma_given(list[i], "state"@, seq!["state"@]);
    path_number_of_items_in_portfolio();
    lemma_given(list[i], "number_of_items_in_portfolio"@, seq!["number_of_items_in_portfolio"@]);
    path_max_items();
    lemma_given(list[i], "max_items"@, seq!["max_items"@]);
}

/// A scenario has the type that its row gives, and a hundred times the performances of
/// the portfolio and of its benchmark.
pub proof fn law_a_scenario_is_read_by_name(s: Seq<(String, Num, Num)>, list: Seq<JsonView>, i: int)
    requires
        analytics::are_scenarios(s, list),
        0 <= i < list.len(),
    ensures
        gives_text(list[i], seq!["type"@], s[i].0@),
        exists|n: Num| #[trigger] gives_amount(list[i], seq!["portfolio_performance"@], n)
            && s[i].1 == num::product(n, num::whole(100)),
        exists|n: Num| #[trigger] gives_amount(list[i], seq!["benchmark_performance"@], n)
            && s[i].2 == num::product(n, num::whole(100)),
{
    assert(s[i].0@ == sc::words_or_empty(list[i], "type"@));
    path_type();
    lemma_given(list[i], "type"@, seq!["type"@]);
    path_portfolio_performance();
    lemma_given(list[i], "portfolio_performance"@, seq!["portfolio_performance"@]);
    path_benchmark_performance();
    lemma_given(list[i], "benchmark_performance"@, seq!["benchmark_performance"@]);
}

proof fn path_name()
    ensures
        sc::segments("name"@) == seq!["name"@],
{
    reveal_strlit("name");
    lemma_one_name("name"@);
}

proof fn path_valuation()
    ensures
        sc::segments("valuation"@) == seq!["valuation"@],
{
    reveal_strlit("valuation");
    lemma_one_name("valuation"@);
}

proof fn path_weight()
    ensures
        sc::segments("weight"@) == seq!["weight"@],
{
    reveal_strlit("weight");
    lemma_one_name("weight"@);
}

proof fn path_subpositions()
    ensures
        sc::segments("subpositions"@) == seq!["subpositions"@],
{
    reveal_strlit("subpositions");
    lemma_one_name("subpositions"@);
}

proof fn path_last_updated_utc()
    ensures
        sc::segments("last_updated_utc"@) == seq!["last_updated_utc"@],
{
    reveal_strlit("last_updated_utc");
    lemma_one_name("last_updated_utc"@);
}

proof fn path_allocations()
    ensures
        sc::segments("allocations"@) == seq!["allocations"@],
{
    reveal_strlit("allocations");
    lemma_one_name("allocations"@);
}

proof fn path_health_checks()
    ensures
        sc::segments("health_checks"@) == seq!["health_checks"@],
{
    reveal_strlit("health_checks");
    lemma_one_name("health_checks"@);
}

proof fn path_scenarios()
    ensures
        sc::segments("scenarios"@) == seq!["scenarios"@],
{
    reveal_strlit("scenarios");
    lemma_one_name("scenarios"@);
}

proof fn path_type()
    ensures
        sc::segments("type"@) == seq!["type"@],
{
    reveal_strlit("type");
    lemma_one_name("type"@);
}

proof fn path_positions()
    ensures
        sc::segments("positions"@) == seq!["positions"@],
{
    reveal_strlit("positions");
    lemma_one_name("positions"@);
}

proof fn path_health_score()
    ensures
        sc::segments("health_score"@) == seq!["health_score"@],
{
    reveal_strlit("health_score");
    lemma_one_name("health_score"@);
}

proof fn path_state()
    ensures
        sc::segments("state"@) == seq!["state"@],
{
    reveal_strlit("state");
    lemma_one_name("state"@);
}

proof fn path_number_of_items_in_portfolio()
    ensures
        sc::segments("number_of_items_in_portfolio"@) == seq!["number_of_items_in_portfolio"@],
{
    reveal_strlit("number_of_items_in_portfolio");
    lemma_one_name("number_of_items_in_portfolio"@);
}

proof fn path_max_items()
    ensures
        sc::segments("max_items"@) == seq!["max_items"@],
{
    reveal_strlit("max_items");
    lemma_one_name("max_items"@);
}

proof fn path_portfolio_performance()
    ensures
        sc::segments("portfolio_performance"@) == seq!["portfolio_performance"@],
{
    reveal_strlit("portfolio_performance");
    lemma_one_name("portfolio_performance"@);
}

proof fn path_benchmark_performance()
    ensures
        sc::segments("benchmark_performance"@) == seq!["benchmark_performance"@],
{
    reveal_strlit("benchmark_performance");
    lemma_one_name("benchmark_performance"@);
}

} // verus!
