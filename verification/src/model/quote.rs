//! Quotes: a two-sided price, and how it has moved.

use crate::json::{Json, JsonView};
use crate::laws::quotes;
use crate::num::{self, Num};
use crate::sc::{self, array_at, bool_at, number, words, words_else_empty};
use crate::text::same_text;
use vstd::prelude::*;
use vstd::string::*;

verus! {

/// Performance by window, in percent.
#[derive(Debug, Clone, Copy)]
pub struct Performance {
    pub day: Option<Num>,
    pub week: Option<Num>,
    pub month: Option<Num>,
    pub quarter: Option<Num>,
    pub half: Option<Num>,
    pub year: Option<Num>,
}

#[derive(Debug, Clone, Copy, PartialEq, Eq, Structural)]
pub enum Window {
    Day,
    Week,
    Month,
    Quarter,
    Half,
    Year,
}

pub open spec fn no_performance() -> Performance {
    Performance { day: None, week: None, month: None, quarter: None, half: None, year: None }
}

impl Default for Performance {
    fn default() -> (r: Performance)
        ensures
            r == no_performance(),
    {
        Performance { day: None, week: None, month: None, quarter: None, half: None, year: None }
    }
}

impl Performance {
    pub open spec fn of(self, w: Window) -> Option<Num> {
        match w {
            Window::Day => self.day,
            Window::Week => self.week,
            Window::Month => self.month,
            Window::Quarter => self.quarter,
            Window::Half => self.half,
            Window::Year => self.year,
        }
    }

    pub fn get(&self, w: Window) -> (r: Option<Num>)
        ensures
            r == self.of(w),
    {
        match w {
            Window::Day => self.day,
            Window::Week => self.week,
            Window::Month => self.month,
            Window::Quarter => self.quarter,
            Window::Half => self.half,
            Window::Year => self.year,
        }
    }
}

/// How a window is written.
pub open spec fn label_of(w: Window) -> Seq<char> {
    match w {
        Window::Day => "1D"@,
        Window::Week => "1W"@,
        Window::Month => "1M"@,
        Window::Quarter => "3M"@,
        Window::Half => "6M"@,
        Window::Year => "1Y"@,
    }
}

impl Window {
    /// The windows, shortest first.
    pub fn all() -> (r: [Window; 6])
        ensures
            r@ == seq![
                Window::Day,
                Window::Week,
                Window::Month,
                Window::Quarter,
                Window::Half,
                Window::Year,
            ],
    {
        let r = [
            Window::Day,
            Window::Week,
            Window::Month,
            Window::Quarter,
            Window::Half,
            Window::Year,
        ];
        assert(r@ =~= seq![
            Window::Day,
            Window::Week,
            Window::Month,
            Window::Quarter,
            Window::Half,
            Window::Year,
        ]);
        r
    }

    pub fn label(self) -> (r: &'static str)
        ensures
            r@ == label_of(self),
    {
        match self {
            Window::Day => "1D",
            Window::Week => "1W",
            Window::Month => "1M",
            Window::Quarter => "3M",
            Window::Half => "6M",
            Window::Year => "1Y",
        }
    }
}

#[derive(Debug, Clone)]
pub struct Quote {
    pub isin: String,
    pub name: String,
    pub security_type: String,
    pub bid: Option<Num>,
    pub ask: Option<Num>,
    pub mid: Option<Num>,
    pub prev_close: Option<Num>,
    pub change_abs: Option<Num>,
    /// The change over the day, in percent.
    pub change_pct: Option<Num>,
    pub perf: Performance,
    pub currency: String,
    pub outdated: bool,
    pub timestamp: String,
    pub raw: Json,
}

/// The last entry of a list that is about the timeframe of that name.
pub open spec fn last_about(list: Seq<JsonView>, name: Seq<char>) -> Option<JsonView>
    decreases list.len(),
{
    if list.len() == 0 {
        None
    } else if sc::words_at(list.last(), "timeframe"@) == Some(name) {
        Some(list.last())
    } else {
        last_about(list.drop_last(), name)
    }
}

/// A fraction as a percentage.
pub open spec fn percent(x: Option<Num>) -> Option<Num> {
    match x {
        Some(n) => Some(num::product(n, num::whole(100))),
        None => None,
    }
}

/// The performance that a list has about a timeframe, in percent.
pub open spec fn performance_about(list: Seq<JsonView>, name: Seq<char>) -> Option<Num> {
    match last_about(list, name) {
        Some(p) => percent(sc::number_at(p, "performance"@)),
        None => None,
    }
}

/// The change that a list has about the day.
pub open spec fn change_about(list: Seq<JsonView>) -> Option<Num> {
    match last_about(list, "INTRADAY"@) {
        Some(p) => sc::number_at(p, "simple_absolute_return"@),
        None => None,
    }
}

/// The performances in a list.
pub open spec fn performances(list: Seq<JsonView>) -> Performance {
    Performance {
        day: performance_about(list, "INTRADAY"@),
        week: performance_about(list, "ONE_WEEK"@),
        month: performance_about(list, "ONE_MONTH"@),
        quarter: performance_about(list, "THREE_MONTHS"@),
        half: performance_about(list, "SIX_MONTHS"@),
        year: performance_about(list, "ONE_YEAR"@),
    }
}

/// A price less a change, where both are known.
pub open spec fn less_change(mid: Option<Num>, change: Option<Num>) -> Option<Num> {
    match (mid, change) {
        (Some(m), Some(c)) => Some(num::difference(m, c)),
        _ => None,
    }
}

/// Whether a quote is what a quote payload says of an instrument.
pub open spec fn is_quote(q: Quote, isin: Seq<char>, v: JsonView) -> bool {
    let list = sc::list_at(v, "quote_performances"@);
    &&& q.isin@ == match sc::words_at(v, "isin"@) {
        Some(i) => i,
        None => isin,
    }
    &&& q.name@ == sc::words_or_empty(v, "name"@)
    &&& q.security_type@ == sc::words_or_empty(v, "security_type"@)
    &&& q.bid == sc::number_at(v, "quote_bid_price"@)
    &&& q.ask == sc::number_at(v, "quote_ask_price"@)
    &&& q.mid == sc::number_at(v, "quote_mid_price"@)
    &&& q.change_abs == change_about(list)
    &&& q.perf == performances(list)
    &&& q.change_pct == q.perf.day
    &&& q.prev_close == less_change(q.mid, q.change_abs)
    &&& q.currency@ == sc::words_or_empty(v, "quote_currency"@)
    &&& q.outdated == sc::truth_at(v, "quote_is_outdated"@)
    &&& q.timestamp@ == sc::words_or_empty(v, "quote_timestamp_utc"@)
    &&& q.raw.view() == v
}

/// Whether a quote is what a row of the watchlist says, which has no bid or ask.
pub open spec fn is_watched(q: Quote, v: JsonView) -> bool {
    &&& q.isin@ == sc::words_or_empty(v, "isin"@)
    &&& q.name@ == sc::words_or_empty(v, "name"@)
    &&& q.security_type@ == sc::words_or_empty(v, "security_type"@)
    &&& q.bid is None
    &&& q.ask is None
    &&& q.mid == sc::number_at(v, "quote_mid_price"@)
    &&& q.prev_close is None
    &&& q.change_abs is None
    &&& q.change_pct is None
    &&& q.perf == no_performance()
    &&& q.currency@ == sc::words_or_empty(v, "quote_currency"@)
    &&& q.outdated == sc::truth_at(v, "quote_is_outdated"@)
    &&& q.timestamp@ == sc::words_or_empty(v, "quote_timestamp_utc"@)
    &&& q.raw.view() == v
}

/// Whether a quote says nothing but what it is of.
pub open spec fn is_unquoted(q: Quote, isin: Seq<char>) -> bool {
    &&& q.isin@ == isin
    &&& q.name@.len() == 0
    &&& q.security_type@.len() == 0
    &&& q.bid is None
    &&& q.ask is None
    &&& q.mid is None
    &&& q.prev_close is None
    &&& q.change_abs is None
    &&& q.change_pct is None
    &&& q.perf == no_performance()
    &&& q.currency@.len() == 0
    &&& !q.outdated
    &&& q.timestamp@.len() == 0
    &&& q.raw.view() == JsonView::Null
}

/// Whether two quotes say the same, but for the name.
pub open spec fn alike_but_name(a: Quote, b: Quote) -> bool {
    &&& a.isin@ == b.isin@
    &&& a.security_type@ == b.security_type@
    &&& a.bid == b.bid
    &&& a.ask == b.ask
    &&& a.mid == b.mid
    &&& a.prev_close == b.prev_close
    &&& a.change_abs == b.change_abs
    &&& a.change_pct == b.change_pct
    &&& a.perf == b.perf
    &&& a.currency@ == b.currency@
    &&& a.outdated == b.outdated
    &&& a.timestamp@ == b.timestamp@
    &&& a.raw.view() == b.raw.view()
}

/// The ask less the bid, where both are known.
pub open spec fn spread_of(bid: Option<Num>, ask: Option<Num>) -> Option<Num> {
    match (bid, ask) {
        (Some(b), Some(a)) => Some(num::difference(a, b)),
        _ => None,
    }
}

/// A spread in hundredths of a percent of a positive mid.
pub open spec fn bps_of(spread: Option<Num>, mid: Option<Num>) -> Option<Num> {
    match (spread, mid) {
        (Some(s), Some(m)) => if num::less(num::zero(), m) {
            Some(num::product(num::quotient(s, m), num::whole(10_000)))
        } else {
            None
        },
        _ => None,
    }
}

impl Default for Quote {
    fn default() -> (r: Quote)
        ensures
            is_unquoted(r, Seq::empty()),
    {
        proof {
            reveal_strlit("");
            assert(""@ =~= Seq::empty());
        }
        Quote::unquoted("")
    }
}

impl Quote {
    /// A quote of which nothing is known but the instrument.
    pub fn unquoted(isin: &str) -> (r: Quote)
        ensures
            is_unquoted(r, isin@),
    {
        Quote {
            isin: isin.to_owned(),
            name: String::new(),
            security_type: String::new(),
            bid: None,
            ask: None,
            mid: None,
            prev_close: None,
            change_abs: None,
            change_pct: None,
            perf: Performance::default(),
            currency: String::new(),
            outdated: false,
            timestamp: String::new(),
            raw: Json::Null,
        }
    }

    /// Another quote like this one.
    pub fn copy(&self) -> (r: Quote)
        ensures
            alike_but_name(r, *self),
            r.name@ == self.name@,
    {
        Quote {
            isin: self.isin.clone(),
            name: self.name.clone(),
            security_type: self.security_type.clone(),
            bid: self.bid,
            ask: self.ask,
            mid: self.mid,
            prev_close: self.prev_close,
            change_abs: self.change_abs,
            change_pct: self.change_pct,
            perf: self.perf,
            currency: self.currency.clone(),
            outdated: self.outdated,
            timestamp: self.timestamp.clone(),
            raw: self.raw.copy(),
        }
    }

    pub fn from_json(isin: &str, v: &Json) -> (r: Quote)
        ensures
            is_quote(r, isin@, v.view()),
            quotes::says_quote(r, v.view()),
    {
        proof {
            assert forall|q: Quote, w: JsonView| #[trigger] is_quote(q, isin@, w) implies quotes::says_quote(
                q,
                w,
            ) by {
                quotes::lemma_quote(q, isin@, w);
            }
        }
        let mid = number(v, "quote_mid_price");
        // The performance over the day is the only place that has a reference close.
        let mut change_abs: Option<Num> = None;
        let mut perf = Performance::default();
        let ghost list = sc::list_at(v.view(), "quote_performances"@);
        match array_at(v, "quote_performances") {
            Some(a) => {
                assert(list.take(0) =~= Seq::empty());
                for i in 0..a.len()
                    invariant
                        list == crate::json::views(a@),
                        change_abs == change_about(list.take(i as int)),
                        perf == performances(list.take(i as int)),
                {
                    let p = &a[i];
                    proof {
                        assert(list.take(i + 1).drop_last() =~= list.take(i as int));
                        assert(list.take(i + 1).last() == p.view());
                        lemma_names_differ();
                    }
                    let pct: Option<Num> = match number(p, "performance") {
                        Some(x) => Some(x.times(Num::from_i64(100))),
                        None => None,
                    };
                    match words(p, "timeframe") {
                        Some(name) => {
                            let name = name.as_str();
                            if same_text(name, "INTRADAY") {
                                change_abs = number(p, "simple_absolute_return");
                                perf.day = pct;
                            } else if same_text(name, "ONE_WEEK") {
                                perf.week = pct;
                            } else if same_text(name, "ONE_MONTH") {
                                perf.month = pct;
                            } else if same_text(name, "THREE_MONTHS") {
                                perf.quarter = pct;
                            } else if same_text(name, "SIX_MONTHS") {
                                perf.half = pct;
                            } else if same_text(name, "ONE_YEAR") {
                                perf.year = pct;
                            }
                        },
                        None => {},
                    }
                }
                assert(list.take(a@.len() as int) =~= list);
            },
            None => {},
        }
        let r = Quote {
            isin: match words(v, "isin") {
                Some(i) => i,
                None => isin.to_owned(),
            },
            name: words_else_empty(v, "name"),
            security_type: words_else_empty(v, "security_type"),
            bid: number(v, "quote_bid_price"),
            ask: number(v, "quote_ask_price"),
            mid,
            prev_close: match (mid, change_abs) {
                (Some(m), Some(c)) => Some(m.minus(c)),
                _ => None,
            },
            change_abs,
            change_pct: perf.day,
            perf,
            currency: words_else_empty(v, "quote_currency"),
            outdated: bool_at(v, "quote_is_outdated"),
            timestamp: words_else_empty(v, "quote_timestamp_utc"),
            raw: v.copy(),
        };
        assert(is_quote(r, isin@, v.view()));
        r
    }

    /// The row of a watchlist, which has a mid but no bid or ask: enough to show
    /// until the instrument is quoted.
    pub fn from_watchlist_item(v: &Json) -> (r: Quote)
        ensures
            is_watched(r, v.view()),
            quotes::says_row(r, v.view()),
    {
        proof {
            assert forall|q: Quote, w: JsonView| #[trigger] is_watched(q, w) implies quotes::says_row(q, w) by {
                quotes::law_a_row_is_read_by_name(q, w);
            }
        }
        let r = Quote {
            isin: words_else_empty(v, "isin"),
            name: words_else_empty(v, "name"),
            security_type: words_else_empty(v, "security_type"),
            mid: number(v, "quote_mid_price"),
            currency: words_else_empty(v, "quote_currency"),
            outdated: bool_at(v, "quote_is_outdated"),
            timestamp: words_else_empty(v, "quote_timestamp_utc"),
            raw: v.copy(),
            bid: None,
            ask: None,
            prev_close: None,
            change_abs: None,
            change_pct: None,
            perf: Performance::default(),
        };
        assert(is_watched(r, v.view()));
        r
    }

    pub fn spread_abs(&self) -> (r: Option<Num>)
        ensures
            r == spread_of(self.bid, self.ask),
    {
        match (self.bid, self.ask) {
            (Some(b), Some(a)) => Some(a.minus(b)),
            _ => None,
        }
    }

    /// The spread in basis points of the mid.
    pub fn spread_bps(&self) -> (r: Option<Num>)
        ensures
            r == bps_of(spread_of(self.bid, self.ask), self.mid),
    {
        match (self.spread_abs(), self.mid) {
            (Some(s), Some(m)) => if Num::zero().lt(m) {
                Some(s.over(m).times(Num::from_i64(10_000)))
            } else {
                None
            },
            _ => None,
        }
    }
}

/// The names of the timeframes differ.
proof fn lemma_names_differ()
    ensures
        "INTRADAY"@ != "ONE_WEEK"@,
        "INTRADAY"@ != "ONE_MONTH"@,
        "INTRADAY"@ != "THREE_MONTHS"@,
        "INTRADAY"@ != "SIX_MONTHS"@,
        "INTRADAY"@ != "ONE_YEAR"@,
        "ONE_WEEK"@ != "ONE_MONTH"@,
        "ONE_WEEK"@ != "THREE_MONTHS"@,
        "ONE_WEEK"@ != "SIX_MONTHS"@,
        "ONE_WEEK"@ != "ONE_YEAR"@,
        "ONE_MONTH"@ != "THREE_MONTHS"@,
        "ONE_MONTH"@ != "SIX_MONTHS"@,
        "ONE_MONTH"@ != "ONE_YEAR"@,
        "THREE_MONTHS"@ != "SIX_MONTHS"@,
        "THREE_MONTHS"@ != "ONE_YEAR"@,
        "SIX_MONTHS"@ != "ONE_YEAR"@,
{
    reveal_strlit("INTRADAY");
    reveal_strlit("ONE_WEEK");
    reveal_strlit("ONE_MONTH");
    reveal_strlit("THREE_MONTHS");
    reveal_strlit("SIX_MONTHS");
    reveal_strlit("ONE_YEAR");
    assert("INTRADAY"@[0] == 'I');
    assert("ONE_WEEK"@[0] == 'O');
    assert("ONE_WEEK"@[4] == 'W');
    assert("ONE_YEAR"@[0] == 'O');
    assert("ONE_YEAR"@[4] == 'Y');
    assert("INTRADAY"@.len() == 8 && "ONE_WEEK"@.len() == 8 && "ONE_YEAR"@.len() == 8);
    assert("ONE_MONTH"@.len() == 9 && "THREE_MONTHS"@.len() == 12 && "SIX_MONTHS"@.len() == 10);
}

} // verus!
