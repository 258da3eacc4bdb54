//! Derivatives on an instrument.

use crate::json::{self, Json, JsonView};
use crate::num::{self, Num};
use crate::sc::{self, array_at, bool_at, number, number_else_zero, words_else_empty};
use crate::seqs;
use vstd::prelude::*;
use vstd::string::*;

verus! {

/// A row of a search. It has metrics alone; a name and a price come once the
/// instrument is quoted.
#[derive(Debug, Clone)]
pub struct Derivative {
    pub isin: String,
    pub issuer: String,
    pub strategy: String,
    pub subcategory: String,
    pub leverage: Option<Num>,
    pub factor: Option<Num>,
    pub strike: Option<Num>,
    pub strike_currency: String,
    pub knockout_barrier: Option<Num>,
    pub distance_to_knockout: Option<Num>,
    pub premium_pct: Option<Num>,
    pub expiry: String,
    pub open_end: bool,
}

impl Default for Derivative {
    fn default() -> (r: Derivative)
        ensures
            r.isin@.len() == 0,
            r.issuer@.len() == 0,
            r.strategy@.len() == 0,
            r.subcategory@.len() == 0,
            r.leverage is None,
            r.factor is None,
            r.strike is None,
            r.strike_currency@.len() == 0,
            r.knockout_barrier is None,
            r.distance_to_knockout is None,
            r.premium_pct is None,
            r.expiry@.len() == 0,
            !r.open_end,
    {
        Derivative {
            isin: String::new(),
            issuer: String::new(),
            strategy: String::new(),
            subcategory: String::new(),
            leverage: None,
            factor: None,
            strike: None,
            strike_currency: String::new(),
            knockout_barrier: None,
            distance_to_knockout: None,
            premium_pct: None,
            expiry: String::new(),
            open_end: false,
        }
    }
}

#[derive(Debug, Clone)]
pub struct DerivativesPage {
    pub underlying: String,
    pub derivative_type: String,
    pub total_available: u64,
    pub items: Vec<Derivative>,
}

/// Whether a derivative is what a row says.
pub open spec fn is_derivative(d: Derivative, v: JsonView) -> bool {
    &&& d.isin@ == sc::words_or_empty(v, "isin"@)
    &&& d.issuer@ == sc::words_or_empty(v, "issuer"@)
    &&& d.strategy@ == sc::words_or_empty(v, "strategy"@)
    &&& d.subcategory@ == sc::words_or_empty(v, "product_subcategory"@)
    &&& d.leverage == sc::number_at(v, "leverage"@)
    &&& d.factor == sc::number_at(v, "factor"@)
    &&& d.strike == sc::number_at(v, "strike/value"@)
    &&& d.strike_currency@ == sc::words_or_empty(v, "strike/currency_iso_code"@)
    &&& d.knockout_barrier == sc::number_at(v, "knockout_barrier/value"@)
    &&& d.distance_to_knockout == sc::number_at(v, "distance_to_knockout"@)
    &&& d.premium_pct == sc::number_at(v, "premium_percentage"@)
    &&& d.expiry@ == sc::words_or_empty(v, "expiry_date"@)
    &&& d.open_end == sc::truth_at(v, "expiry_is_open_end"@)
}

/// The rows that have an instrument.
pub open spec fn tradable_rows(v: JsonView) -> Seq<JsonView> {
    sc::list_at(v, "items"@).filter(|d: JsonView| sc::words_or_empty(d, "isin"@).len() > 0)
}

/// Whether derivatives are what rows say, one for one.
pub open spec fn are_derivatives(ds: Seq<Derivative>, list: Seq<JsonView>) -> bool {
    ds.len() == list.len() && forall|i: int|
        0 <= i < list.len() ==> is_derivative(#[trigger] ds[i], list[i])
}

/// Whether a page is what a payload says.
pub open spec fn is_page(p: DerivativesPage, v: JsonView) -> bool {
    &&& p.underlying@ == sc::words_or_empty(v, "underlying_isin"@)
    &&& p.derivative_type@ == sc::words_or_empty(v, "derivative_type"@)
    &&& p.total_available == num::cut(
        sc::number_or_zero(v, "total_available"@),
        0,
        u64::MAX as int,
    )
    &&& are_derivatives(p.items@, tradable_rows(v))
}

/// Whether two pages say the same.
pub open spec fn alike(a: DerivativesPage, b: DerivativesPage) -> bool {
    &&& a.underlying@ == b.underlying@
    &&& a.derivative_type@ == b.derivative_type@
    &&& a.total_available == b.total_available
    &&& a.items@ == b.items@
}

impl Default for DerivativesPage {
    fn default() -> (r: DerivativesPage)
        ensures
            r.underlying@.len() == 0,
            r.derivative_type@.len() == 0,
            r.total_available == 0,
            r.items@.len() == 0,
    {
        DerivativesPage {
            underlying: String::new(),
            derivative_type: String::new(),
            total_available: 0,
            items: Vec::new(),
        }
    }
}

impl Derivative {
    fn one(v: &Json) -> (r: Derivative)
        ensures
            is_derivative(r, v.view()),
    {
        Derivative {
            isin: words_else_empty(v, "isin"),
            issuer: words_else_empty(v, "issuer"),
            strategy: words_else_empty(v, "strategy"),
            subcategory: words_else_empty(v, "product_subcategory"),
            leverage: number(v, "leverage"),
            factor: number(v, "factor"),
            strike: number(v, "strike/value"),
            strike_currency: words_else_empty(v, "strike/currency_iso_code"),
            knockout_barrier: number(v, "knockout_barrier/value"),
            distance_to_knockout: number(v, "distance_to_knockout"),
            premium_pct: number(v, "premium_percentage"),
            expiry: words_else_empty(v, "expiry_date"),
            open_end: bool_at(v, "expiry_is_open_end"),
        }
    }

    /// Another derivative like this one.
    pub fn copy(&self) -> (r: Derivative)
        ensures
            r == *self,
    {
        Derivative {
            isin: self.isin.clone(),
            issuer: self.issuer.clone(),
            strategy: self.strategy.clone(),
            subcategory: self.subcategory.clone(),
            leverage: self.leverage,
            factor: self.factor,
            strike: self.strike,
            strike_currency: self.strike_currency.clone(),
            knockout_barrier: self.knockout_barrier,
            distance_to_knockout: self.distance_to_knockout,
            premium_pct: self.premium_pct,
            expiry: self.expiry.clone(),
            open_end: self.open_end,
        }
    }
}

impl DerivativesPage {
    pub fn from_json(v: &Json) -> (r: DerivativesPage)
        ensures
            is_page(r, v.view()),
    {
        let mut items: Vec<Derivative> = Vec::new();
        let ghost all = sc::list_at(v.view(), "items"@);
        let ghost f = |d: JsonView| sc::words_or_empty(d, "isin"@).len() > 0;
        match array_at(v, "items") {
            Some(a) => {
                proof {
                    seqs::lemma_filter_none(all, f);
                }
                for i in 0..a.len()
                    invariant
                        all == json::views(a@),
                        f == (|d: JsonView| sc::words_or_empty(d, "isin"@).len() > 0),
                        are_derivatives(items@, all.take(i as int).filter(f)),
                {
                    proof {
                        assert(all[i as int] == a@[i as int].view());
                        seqs::lemma_filter_next(all, f, i as int);
                    }
                    let d = Derivative::one(&a[i]);
                    assert(f(all[i as int]) == (d.isin@.len() > 0));
                    if !d.isin.as_str().is_empty() {
                        items.push(d);
                    }
                }
                assert(all.take(a@.len() as int) =~= all);
            },
            None => {
                proof {
                    assert(all.take(0) =~= all);
                    seqs::lemma_filter_none(all, f);
                }
            },
        }
        DerivativesPage {
            underlying: words_else_empty(v, "underlying_isin"),
            derivative_type: words_else_empty(v, "derivative_type"),
            total_available: number_else_zero(v, "total_available").to_u64(),
            items,
        }
    }

    /// Another page like this one.
    pub fn copy(&self) -> (r: DerivativesPage)
        ensures
            alike(r, *self),
    {
        let mut items: Vec<Derivative> = Vec::new();
        for i in 0..self.items.len()
            invariant
                items@ == self.items@.take(i as int),
        {
            items.push(self.items[i].copy());
            assert(items@ =~= self.items@.take(i + 1));
        }
        assert(items@ =~= self.items@);
        DerivativesPage {
            underlying: self.underlying.clone(),
            derivative_type: self.derivative_type.clone(),
            total_available: self.total_available,
            items,
        }
    }
}

/// Every derivative of a page has an instrument, without which it could not be
/// traded.
pub proof fn law_every_derivative_has_an_instrument(p: DerivativesPage, v: JsonView)
    requires
        is_page(p, v),
    ensures
        forall|i: int| 0 <= i < p.items@.len() ==> (#[trigger] p.items@[i]).isin@.len() > 0,
{
    let f = |d: JsonView| sc::words_or_empty(d, "isin"@).len() > 0;
    let all = sc::list_at(v, "items"@);
    assert forall|i: int| 0 <= i < p.items@.len() implies (#[trigger] p.items@[i]).isin@.len()
        > 0 by {
        all.lemma_filter_pred(f, i);
    }
}

} // verus!
