//! Price alerts that the broker keeps.

use crate::json::{self, Json, JsonView};
use crate::laws::listings;
use crate::num::{self, Num};
use crate::sc::{self, array_at, bool_at, number, words_else_empty};
use crate::seqs;
use vstd::prelude::*;
use vstd::string::*;

verus! {

/// An alert. Its direction is not chosen: the broker derives it from where the
/// price stands to the market when the alert is made.
#[derive(Debug, Clone)]
pub struct PriceAlert {
    pub id: String,
    pub isin: String,
    pub name: String,
    pub security_type: String,
    pub price: Option<Num>,
    pub direction: String,
    pub active: bool,
    pub triggered: String,
}

impl Default for PriceAlert {
    fn default() -> (r: PriceAlert)
        ensures
            r.id@.len() == 0,
            r.isin@.len() == 0,
            r.name@.len() == 0,
            r.security_type@.len() == 0,
            r.price is None,
            r.direction@.len() == 0,
            !r.active,
            r.triggered@.len() == 0,
    {
        PriceAlert {
            id: String::new(),
            isin: String::new(),
            name: String::new(),
            security_type: String::new(),
            price: None,
            direction: String::new(),
            active: false,
            triggered: String::new(),
        }
    }
}

/// Whether an alert is what an item says.
pub open spec fn is_alert(a: PriceAlert, v: JsonView) -> bool {
    &&& a.id@ == sc::words_or_empty(v, "alert_id"@)
    &&& a.isin@ == sc::words_or_empty(v, "isin"@)
    &&& a.name@ == sc::words_or_empty(v, "name"@)
    &&& a.security_type@ == sc::words_or_empty(v, "security_type"@)
    &&& a.price == sc::number_at(v, "price"@)
    &&& a.direction@ == sc::words_or_empty(v, "direction"@)
    &&& a.active == sc::truth_at(v, "is_active"@)
    &&& a.triggered@ == sc::words_or_empty(v, "triggered_timestamp_utc"@)
}

/// Whether alerts are what items say, one for one.
pub open spec fn are_alerts(alerts: Seq<PriceAlert>, list: Seq<JsonView>) -> bool {
    alerts.len() == list.len() && forall|i: int|
        0 <= i < list.len() ==> is_alert(#[trigger] alerts[i], list[i])
}

/// The items that have an id.
pub open spec fn identified(v: JsonView) -> Seq<JsonView> {
    sc::list_at(v, "items"@).filter(|a: JsonView| sc::words_or_empty(a, "alert_id"@).len() > 0)
}

/// How far a price lies from the mid, as a fraction of the mid.
pub open spec fn away(price: Option<Num>, mid: Num) -> Option<Num> {
    if price is Some && num::less(num::zero(), mid) {
        Some(num::quotient(num::difference(price->0, mid), mid))
    } else {
        None
    }
}

impl PriceAlert {
    pub fn list_from(v: &Json) -> (r: Vec<PriceAlert>)
        ensures
            are_alerts(r@, identified(v.view())),
            r@.len() == identified(v.view()).len(),
            forall|i: int|
                0 <= i < r@.len() ==> listings::says_alert(
                    #[trigger] r@[i],
                    identified(v.view())[i],
                ),
    {
        proof {
            assert forall|a: PriceAlert, w: JsonView| #[trigger] is_alert(a, w) implies listings::says_alert(a, w) by {
                listings::law_an_alert_is_read_by_name(a, w);
            }
        }
        let mut out: Vec<PriceAlert> = Vec::new();
        let ghost all = sc::list_at(v.view(), "items"@);
        let ghost f = |a: JsonView| sc::words_or_empty(a, "alert_id"@).len() > 0;
        match array_at(v, "items") {
            Some(list) => {
                proof {
                    seqs::lemma_filter_none(all, f);
                }
                for i in 0..list.len()
                    invariant
                        all == json::views(list@),
                        f == (|a: JsonView| sc::words_or_empty(a, "alert_id"@).len() > 0),
                        are_alerts(out@, all.take(i as int).filter(f)),
                {
                    let item = &list[i];
                    proof {
                        assert(all[i as int] == item.view());
                        seqs::lemma_filter_next(all, f, i as int);
                    }
                    let a = PriceAlert {
                        id: words_else_empty(item, "alert_id"),
                        isin: words_else_empty(item, "isin"),
                        name: words_else_empty(item, "name"),
                        security_type: words_else_empty(item, "security_type"),
                        price: number(item, "price"),
                        direction: words_else_empty(item, "direction"),
                        active: bool_at(item, "is_active"),
                        triggered: words_else_empty(item, "triggered_timestamp_utc"),
                    };
                    assert(f(all[i as int]) == (a.id@.len() > 0));
                    if !a.id.as_str().is_empty() {
                        out.push(a);
                    }
                }
                assert(all.take(list@.len() as int) =~= all);
            },
            None => {
                proof {
                    assert(all.take(0) =~= all);
                    seqs::lemma_filter_none(all, f);
                }
            },
        }
        out
    }

    pub fn has_triggered(&self) -> (r: bool)
        ensures
            r == (self.triggered@.len() > 0),
    {
        !self.triggered.as_str().is_empty()
    }

    /// How far the market has still to go, as a fraction of the mid.
    pub fn distance(&self, mid: Num) -> (r: Option<Num>)
        ensures
            r == away(self.price, mid),
            r == (match self.price {
                Some(p) => if num::less(num::zero(), mid) {
                    Some(num::quotient(num::difference(p, mid), mid))
                } else {
                    None
                },
                None => None,
            }),
    {
        let p: Num = self.price?;
        if Num::zero().lt(mid) {
            Some(p.minus(mid).over(mid))
        } else {
            None
        }
    }
}

} // verus!
