//! Allocation, diversification and stress scenarios.

use crate::json::{self, Json, JsonView};
use crate::num::{self, Num};
use crate::sc::{self, array_at, number_else_zero, words_else_empty};
use vstd::prelude::*;
use vstd::string::*;

verus! {

#[derive(Debug)]
pub struct AllocSlice {
    pub name: String,
    pub valuation: Num,
    pub weight: Num,
    pub subs: Vec<AllocSlice>,
}

impl Default for AllocSlice {
    fn default() -> (r: AllocSlice)
        ensures
            r.name@.len() == 0,
            r.valuation == num::zero(),
            r.weight == num::zero(),
            r.subs@.len() == 0,
    {
        AllocSlice {
            name: String::new(),
            valuation: Num::zero(),
            weight: Num::zero(),
            subs: Vec::new(),
        }
    }
}

/// What a slice is.
pub struct SliceView {
    pub name: Seq<char>,
    pub valuation: Num,
    pub weight: Num,
    pub subs: Seq<SliceView>,
}

impl AllocSlice {
    pub open spec fn view(self) -> SliceView
        decreases self,
    {
        SliceView {
            name: self.name@,
            valuation: self.valuation,
            weight: self.weight,
            subs: Seq::new(
                self.subs@.len(),
                |i: int|
                    if 0 <= i < self.subs@.len() {
                        self.subs@[i].view()
                    } else {
                        arbitrary()
                    },
            ),
        }
    }
}

impl Clone for AllocSlice {
    fn clone(&self) -> (r: AllocSlice)
        ensures
            r.view() == self.view(),
        decreases self,
    {
        let mut subs: Vec<AllocSlice> = Vec::new();
        for i in 0..self.subs.len()
            invariant
                subs@.len() == i,
                forall|k: int|
                    0 <= k < i ==> (#[trigger] subs@[k]).view() == self.subs@[k].view(),
        {
            proof {
                assert(decreases_to!(self.subs@ => self.subs@[i as int]));
            }
            subs.push(self.subs[i].clone());
        }
        let r = AllocSlice {
            name: self.name.clone(),
            valuation: self.valuation,
            weight: self.weight,
            subs,
        };
        assert(r.view().subs =~= self.view().subs);
        r
    }
}

#[derive(Debug, Clone)]
pub struct Analytics {
    /// What is broken down, and the slices.
    pub allocations: Vec<(String, Vec<AllocSlice>)>,
    /// The kind of check, its score and state, the items held, and the most there
    /// can be.
    pub health: Vec<(String, Num, String, i64, i64)>,
    /// A scenario, and how the portfolio and its benchmark fare in it, in percent.
    pub scenarios: Vec<(String, Num, Num)>,
    pub last_updated: String,
}

/// Whether a slice has the name and the numbers that a position says.
pub open spec fn is_named(s: AllocSlice, v: JsonView) -> bool {
    &&& s.name@ == sc::words_or_empty(v, "name"@)
    &&& s.valuation == sc::number_or_zero(v, "valuation"@)
    &&& s.weight == sc::number_or_zero(v, "weight"@)
}

/// Whether slices are what subpositions say, which are not broken down further.
pub open spec fn are_subs(s: Seq<AllocSlice>, list: Seq<JsonView>) -> bool {
    s.len() == list.len() && forall|i: int|
        0 <= i < list.len() ==> is_named(#[trigger] s[i], list[i]) && s[i].subs@.len() == 0
}

/// Whether slices are what positions say, with their subpositions.
pub open spec fn are_slices(s: Seq<AllocSlice>, list: Seq<JsonView>) -> bool {
    s.len() == list.len() && forall|i: int|
        0 <= i < list.len() ==> is_named(#[trigger] s[i], list[i]) && are_subs(
            s[i].subs@,
            sc::list_at(list[i], "subpositions"@),
        )
}

/// Whether allocations are what a list of breakdowns says.
pub open spec fn are_allocations(
    a: Seq<(String, Vec<AllocSlice>)>,
    list: Seq<JsonView>,
) -> bool {
    a.len() == list.len() && forall|i: int|
        0 <= i < list.len() ==> (#[trigger] a[i]).0@ == sc::words_or_empty(list[i], "type"@)
            && are_slices(a[i].1@, sc::list_at(list[i], "positions"@))
}

/// The number at a path cut to a whole one.
pub open spec fn count_at(v: JsonView, path: Seq<char>) -> int {
    num::cut(sc::number_or_zero(v, path), i64::MIN as int, i64::MAX as int)
}

/// Whether health checks are what a list says.
pub open spec fn are_checks(
    h: Seq<(String, Num, String, i64, i64)>,
    list: Seq<JsonView>,
) -> bool {
    h.len() == list.len() && forall|i: int|
        0 <= i < list.len() ==> {
            &&& (#[trigger] h[i]).0@ == sc::words_or_empty(list[i], "type"@)
            &&& h[i].1 == sc::number_or_zero(list[i], "health_score"@)
            &&& h[i].2@ == sc::words_or_empty(list[i], "state"@)
            &&& h[i].3 == count_at(list[i], "number_of_items_in_portfolio"@)
            &&& h[i].4 == count_at(list[i], "max_items"@)
        }
}

/// Whether scenarios are what a list says, its fractions taken as percentages.
pub open spec fn are_scenarios(s: Seq<(String, Num, Num)>, list: Seq<JsonView>) -> bool {
    s.len() == list.len() && forall|i: int|
        0 <= i < list.len() ==> {
            &&& (#[trigger] s[i]).0@ == sc::words_or_empty(list[i], "type"@)
            &&& s[i].1 == num::product(
                sc::number_or_zero(list[i], "portfolio_performance"@),
                num::whole(100),
            )
            &&& s[i].2 == num::product(
                sc::number_or_zero(list[i], "benchmark_performance"@),
                num::whole(100),
            )
        }
}

/// Whether analytics are what a payload says.
pub open spec fn is_analytics(a: Analytics, v: JsonView) -> bool {
    &&& are_allocations(a.allocations@, sc::list_at(v, "allocations"@))
    &&& are_checks(a.health@, sc::list_at(v, "health_checks"@))
    &&& are_scenarios(a.scenarios@, sc::list_at(v, "scenarios"@))
    &&& a.last_updated@ == sc::words_or_empty(v, "last_updated_utc"@)
}

impl Default for Analytics {
    fn default() -> (r: Analytics)
        ensures
            r.allocations@.len() == 0,
            r.health@.len() == 0,
            r.scenarios@.len() == 0,
            r.last_updated@.len() == 0,
    {
        Analytics {
            allocations: Vec::new(),
            health: Vec::new(),
            scenarios: Vec::new(),
            last_updated: String::new(),
        }
    }
}

fn slice(v: &Json, subs: Vec<AllocSlice>) -> (r: AllocSlice)
    ensures
        is_named(r, v.view()),
        r.subs == subs,
{
    AllocSlice {
        name: words_else_empty(v, "name"),
        valuation: number_else_zero(v, "valuation"),
        weight: number_else_zero(v, "weight"),
        subs,
    }
}

fn subs_of(v: &Json) -> (r: Vec<AllocSlice>)
    ensures
        are_subs(r@, sc::list_at(v.view(), "subpositions"@)),
{
    let mut out: Vec<AllocSlice> = Vec::new();
    let ghost all = sc::list_at(v.view(), "subpositions"@);
    match array_at(v, "subpositions") {
        Some(a) => {
            for i in 0..a.len()
                invariant
                    all == json::views(a@),
                    are_subs(out@, all.take(i as int)),
            {
                assert(all[i as int] == a@[i as int].view());
                out.push(slice(&a[i], Vec::new()));
            }
            assert(all.take(a@.len() as int) =~= all);
        },
        None => {},
    }
    out
}

fn slices_of(v: &Json) -> (r: Vec<AllocSlice>)
    ensures
        are_slices(r@, sc::list_at(v.view(), "positions"@)),
{
    let mut out: Vec<AllocSlice> = Vec::new();
    let ghost all = sc::list_at(v.view(), "positions"@);
    match array_at(v, "positions") {
        Some(a) => {
            for i in 0..a.len()
                invariant
                    all == json::views(a@),
                    are_slices(out@, all.take(i as int)),
            {
                assert(all[i as int] == a@[i as int].view());
                let subs = subs_of(&a[i]);
                out.push(slice(&a[i], subs));
            }
            assert(all.take(a@.len() as int) =~= all);
        },
        None => {},
    }
    out
}

fn allocations_of(v: &Json) -> (r: Vec<(String, Vec<AllocSlice>)>)
    ensures
        are_allocations(r@, sc::list_at(v.view(), "allocations"@)),
{
    let mut out: Vec<(String, Vec<AllocSlice>)> = Vec::new();
    let ghost all = sc::list_at(v.view(), "allocations"@);
    match array_at(v, "allocations") {
        Some(a) => {
            for i in 0..a.len()
                invariant
                    all == json::views(a@),
                    are_allocations(out@, all.take(i as int)),
            {
                assert(all[i as int] == a@[i as int].view());
                out.push((words_else_empty(&a[i], "type"), slices_of(&a[i])));
            }
            assert(all.take(a@.len() as int) =~= all);
        },
        None => {},
    }
    out
}

fn checks_of(v: &Json) -> (r: Vec<(String, Num, String, i64, i64)>)
    ensures
        are_checks(r@, sc::list_at(v.view(), "health_checks"@)),
{
    let mut out: Vec<(String, Num, String, i64, i64)> = Vec::new();
    let ghost all = sc::list_at(v.view(), "health_checks"@);
    match array_at(v, "health_checks") {
        Some(a) => {
            for i in 0..a.len()
                invariant
                    all == json::views(a@),
                    are_checks(out@, all.take(i as int)),
            {
                let h = &a[i];
                assert(all[i as int] == h.view());
                out.push(
                    (
                        words_else_empty(h, "type"),
                        number_else_zero(h, "health_score"),
                        words_else_empty(h, "state"),
                        number_else_zero(h, "number_of_items_in_portfolio").to_i64(),
                        number_else_zero(h, "max_items").to_i64(),
                    ),
                );
            }
            assert(all.take(a@.len() as int) =~= all);
        },
        None => {},
    }
    out
}

fn scenarios_of(v: &Json) -> (r: Vec<(String, Num, Num)>)
    ensures
        are_scenarios(r@, sc::list_at(v.view(), "scenarios"@)),
{
    let mut out: Vec<(String, Num, Num)> = Vec::new();
    let ghost all = sc::list_at(v.view(), "scenarios"@);
    match array_at(v, "scenarios") {
        Some(a) => {
            for i in 0..a.len()
                invariant
                    all == json::views(a@),
                    are_scenarios(out@, all.take(i as int)),
            {
                let s = &a[i];
                assert(all[i as int] == s.view());
                let hundred: Num = Num::from_i64(100);
                out.push(
                    (
                        words_else_empty(s, "type"),
                        number_else_zero(s, "portfolio_performance").times(hundred),
                        number_else_zero(s, "benchmark_performance").times(hundred),
                    ),
                );
            }
            assert(all.take(a@.len() as int) =~= all);
        },
        None => {},
    }
    out
}

impl Analytics {
    pub fn from_json(v: &Json) -> (r: Analytics)
        ensures
            is_analytics(r, v.view()),
    {
        Analytics {
            allocations: allocations_of(v),
            health: checks_of(v),
            scenarios: scenarios_of(v),
            last_updated: words_else_empty(v, "last_updated_utc"),
        }
    }
}

} // verus!
