//! Charts, derivatives and searches: what is asked for, and what the answers
//! change.
//!
//! Charts and derivatives are refused readily. What was fetched is kept, and
//! nothing is asked for while waiting.

use crate::json::{self, Json, JsonView};
use crate::model::{chart, derivative};
use crate::model::{Chart, DerivativesPage};
use crate::sc::{self, array_at, result, words, Call, ScErrorKind};
use crate::text;
use crate::worker::{self, backoff_for, linked, with_seconds, Shared};
use vstd::prelude::*;
use vstd::string::*;

verus! {

/// The key that a chart is kept under.
pub open spec fn chart_key(isin: Seq<char>, timeframe: Seq<char>) -> (Seq<char>, Seq<char>) {
    (isin, timeframe)
}

/// The texts of a chart that is to be asked for.
pub open spec fn seen_pair(p: Option<(String, String)>) -> Option<(Seq<char>, Seq<char>)> {
    match p {
        Some(q) => Some((q.0@, q.1@)),
        None => None,
    }
}

/// What is said while a chart has to wait.
pub open spec fn retrying(secs: int) -> Seq<char> {
    "rate limited — retrying in "@ + text::decimal(secs) + "s"@
}

/// Whether a chart was shown from what is kept, put off, or is being loaded.
pub open spec fn wanted_chart(
    a: Shared,
    b: Shared,
    isin: Seq<char>,
    timeframe: Seq<char>,
    force: bool,
    now: u64,
    ask: bool,
) -> bool {
    let key = chart_key(isin, timeframe);
    let left = worker::seconds_until(a.backoff_until, now);
    if !force && a.chart_cache@.dom().contains(key) {
        &&& !ask
        &&& chart::alike(b.chart, a.chart_cache@[key])
        &&& b == (Shared { chart: b.chart, chart_error: None, ..a })
    } else if left is Some {
        &&& !ask
        &&& worker::said(b.chart_error) == Some(retrying(left->0 as int))
        &&& seen_pair(b.deferred_chart) == Some(key)
        &&& b == (Shared {
            chart_error: b.chart_error,
            deferred_chart: b.deferred_chart,
            ..a
        })
    } else {
        &&& ask
        &&& b == (Shared { chart_loading: true, chart_error: None, ..a })
    }
}

/// Whether the answer with a chart has been taken in. A refusal starts a wait, at
/// the end of which the chart is asked for again, and says how long it is.
pub open spec fn took_chart(
    a: Shared,
    b: Shared,
    isin: Seq<char>,
    timeframe: Seq<char>,
    call: Call,
    now: u64,
) -> bool {
    let key = chart_key(isin, timeframe);
    match sc::outcome(call) {
        Ok(v) => {
            &&& chart::is_chart(b.chart, sc::unwrapped(v))
            &&& b.chart_raw.view() == v
            &&& b.chart_cache@.dom() == a.chart_cache@.dom().insert(key)
            &&& chart::alike(b.chart_cache@[key], b.chart)
            &&& forall|k: (Seq<char>, Seq<char>)|
                k != key && #[trigger] a.chart_cache@.dom().contains(k) ==> b.chart_cache@[k]
                    == a.chart_cache@[k]
            &&& b.lines() == worker::logged(
                a.lines(),
                worker::line(
                    "broker.chart"@,
                    call.elapsed_ms as int,
                    true,
                    isin + " "@ + timeframe + ": "@ + text::decimal(b.chart.points@.len() as int)
                        + " pts"@,
                ),
            )
            &&& b == (Shared {
                chart: b.chart,
                chart_raw: b.chart_raw,
                chart_cache: b.chart_cache,
                chart_error: None,
                chart_loading: false,
                log: b.log,
                ..a
            })
        },
        Err(e) => {
            let limited = e.kind == ScErrorKind::RateLimited;
            &&& worker::said(b.chart_error) == Some(
                if limited {
                    retrying(worker::backoff(a.backoff_level as nat) as int)
                } else {
                    sc::error_text(e)
                },
            )
            &&& if limited {
                &&& seen_pair(b.deferred_chart) == Some(key)
                &&& b.backoff_level == worker::next_level(a.backoff_level)
                &&& b.backoff_until == Some(
                    worker::after(now, worker::backoff(a.backoff_level as nat) as int),
                )
                &&& b.probe_next
            } else {
                &&& b.deferred_chart == a.deferred_chart
                &&& b.backoff_level == a.backoff_level
                &&& b.backoff_until == a.backoff_until
                &&& b.probe_next == a.probe_next
            }
            &&& chart::is_blank(b.chart, isin, timeframe)
            &&& b.lines() == worker::logged(
                if limited {
                    worker::logged(
                        a.lines(),
                        worker::limit_line(a.backoff_level, "broker.chart"@),
                    )
                } else {
                    a.lines()
                },
                worker::line(
                    "broker.chart"@,
                    call.elapsed_ms as int,
                    false,
                    sc::BIN@ + " "@ + text::joined(text::texts(call.argv@), " "@) + ": "@
                        + sc::error_text(e),
                ),
            )
            &&& b == (Shared {
                chart: b.chart,
                chart_error: b.chart_error,
                chart_loading: false,
                deferred_chart: b.deferred_chart,
                backoff_level: b.backoff_level,
                backoff_until: b.backoff_until,
                probe_next: b.probe_next,
                log: b.log,
                ..a
            })
        },
    }
}

impl Shared {
    /// Says whether a chart is to be asked for. One that is kept is shown, unless
    /// it is to be loaded anew. A request that would be refused is not spent: it
    /// is put off to the end of the wait.
    pub fn want_chart(&mut self, isin: &str, timeframe: &str, force: bool, now: u64) -> (ask: bool)
        ensures
            wanted_chart(*old(self), *final(self), isin@, timeframe@, force, now, ask),
    {
        let key: (String, String) = (isin.to_owned(), timeframe.to_owned());
        assert(key@ == chart_key(isin@, timeframe@));
        if !force {
            let kept = match self.chart_cache.get(&key) {
                Some(c) => Some(c.copy()),
                None => None,
            };
            match kept {
                Some(c) => {
                    self.chart = c;
                    self.chart_error = None;
                    return false;
                },
                None => {},
            }
        }
        match self.backoff_secs_left(now) {
            Some(left) => {
                self.chart_error = Some(with_seconds("rate limited — retrying in ", left, "s"));
                self.deferred_chart = Some(key);
                false
            },
            None => {
                self.chart_loading = true;
                self.chart_error = None;
                true
            },
        }
    }

    /// Takes in the answer with a chart.
    pub fn load_chart(&mut self, isin: &str, timeframe: &str, call: &Call, now: u64)
        ensures
            took_chart(*old(self), *final(self), isin@, timeframe@, *call, now),
    {
        let key: (String, String) = (isin.to_owned(), timeframe.to_owned());
        assert(key@ == chart_key(isin@, timeframe@));
        self.chart_loading = false;
        match &call.data {
            Ok(v) => {
                let c = Chart::from_json(result(v));
                let n: usize = c.points.len();
                self.chart_cache.insert(key, c.copy());
                self.chart = c;
                self.chart_raw = v.copy();
                self.chart_error = None;
                let mut detail = linked(isin, " ", timeframe);
                detail.append(": ");
                text::push_decimal(&mut detail, n as u128);
                detail.append(" pts");
                assert(detail@ =~= isin@ + " "@ + timeframe@ + ": "@ + text::decimal(n as int)
                    + " pts"@);
                self.push_log("broker.chart", call.elapsed_ms as u128, true, detail);
            },
            Err(e) => {
                let shown = e.text();
                if e.kind == ScErrorKind::RateLimited {
                    let wait: u64 = backoff_for(self.backoff_level);
                    self.note_rate_limit("broker.chart", now);
                    self.chart_error = Some(
                        with_seconds("rate limited — retrying in ", wait, "s"),
                    );
                    self.deferred_chart = Some(key);
                } else {
                    self.chart_error = Some(shown.clone());
                }
                self.chart = Chart::blank(isin, timeframe);
                let ran = call.cmdline();
                let detail = linked(ran.as_str(), ": ", shown.as_str());
                self.push_log("broker.chart", call.elapsed_ms as u128, false, detail);
            },
        }
    }
}

/// The key that a page of derivatives is kept under.
pub open spec fn page_key(underlying: Seq<char>, dtype: Seq<char>, strategy: Seq<char>) -> (
    Seq<char>,
    Seq<char>,
    Seq<char>,
) {
    (underlying, dtype, strategy)
}

/// Whether a page of derivatives was shown from what is kept, refused, or is
/// being loaded.
pub open spec fn wanted_page(
    a: Shared,
    b: Shared,
    key: (Seq<char>, Seq<char>, Seq<char>),
    now: u64,
    ask: bool,
) -> bool {
    let left = worker::seconds_until(a.backoff_until, now);
    if a.derivatives_cache@.dom().contains(key) {
        &&& !ask
        &&& derivative::alike(b.derivatives, a.derivatives_cache@[key])
        &&& b == (Shared { derivatives: b.derivatives, derivatives_error: None, ..a })
    } else if left is Some {
        &&& !ask
        &&& worker::said(b.derivatives_error) == Some(retrying(left->0 as int))
        &&& b == (Shared { derivatives_error: b.derivatives_error, ..a })
    } else {
        &&& ask
        &&& b == (Shared { derivatives_loading: true, derivatives_error: None, ..a })
    }
}

/// Whether a page is what a payload says, under the instrument that was asked for
/// where the payload names none.
pub open spec fn is_page_of(p: DerivativesPage, v: JsonView, underlying: Seq<char>) -> bool {
    exists|q: DerivativesPage| #[trigger]
        derivative::is_page(q, v) && p.underlying@ == (if q.underlying@.len() == 0 {
            underlying
        } else {
            q.underlying@
        }) && p == (DerivativesPage { underlying: p.underlying, ..q })
}

/// Whether the answer with a page of derivatives has been taken in. A refusal
/// starts a wait, and says how long it is.
pub open spec fn took_page(
    a: Shared,
    b: Shared,
    key: (Seq<char>, Seq<char>, Seq<char>),
    call: Call,
    now: u64,
) -> bool {
    match sc::outcome(call) {
        Ok(v) => {
            &&& is_page_of(b.derivatives, sc::unwrapped(v), key.0)
            &&& b.derivatives_cache@.dom() == a.derivatives_cache@.dom().insert(key)
            &&& derivative::alike(b.derivatives_cache@[key], b.derivatives)
            &&& forall|k: (Seq<char>, Seq<char>, Seq<char>)|
                k != key && #[trigger] a.derivatives_cache@.dom().contains(k)
                    ==> b.derivatives_cache@[k] == a.derivatives_cache@[k]
            &&& b.lines() == worker::logged(
                a.lines(),
                worker::line(
                    "derivatives.search"@,
                    call.elapsed_ms as int,
                    true,
                    key.0 + " "@ + key.1 + "/"@ + key.2 + ": "@ + text::decimal(
                        b.derivatives.items@.len() as int,
                    ) + " of "@ + text::decimal(b.derivatives.total_available as int),
                ),
            )
            &&& b == (Shared {
                derivatives: b.derivatives,
                derivatives_cache: b.derivatives_cache,
                derivatives_loading: false,
                log: b.log,
                ..a
            })
        },
        Err(e) => {
            let limited = e.kind == ScErrorKind::RateLimited;
            &&& worker::said(b.derivatives_error) == Some(
                if limited {
                    "rate limited — retry in "@ + text::decimal(
                        worker::backoff(a.backoff_level as nat) as int,
                    ) + "s"@
                } else {
                    sc::error_text(e)
                },
            )
            &&& if limited {
                &&& b.backoff_level == worker::next_level(a.backoff_level)
                &&& b.backoff_until == Some(
                    worker::after(now, worker::backoff(a.backoff_level as nat) as int),
                )
                &&& b.probe_next
            } else {
                &&& b.backoff_level == a.backoff_level
                &&& b.backoff_until == a.backoff_until
                &&& b.probe_next == a.probe_next
            }
            &&& b.lines() == worker::logged(
                if limited {
                    worker::logged(
                        a.lines(),
                        worker::limit_line(a.backoff_level, "derivatives.search"@),
                    )
                } else {
                    a.lines()
                },
                worker::line(
                    "derivatives.search"@,
                    call.elapsed_ms as int,
                    false,
                    sc::error_text(e),
                ),
            )
            &&& b == (Shared {
                derivatives_error: b.derivatives_error,
                derivatives_loading: false,
                backoff_level: b.backoff_level,
                backoff_until: b.backoff_until,
                probe_next: b.probe_next,
                log: b.log,
                ..a
            })
        },
    }
}

impl Shared {
    /// Says whether a page of derivatives is to be asked for.
    pub fn want_derivatives(&mut self, underlying: &str, dtype: &str, strategy: &str, now: u64) -> (
    ask: bool)
        ensures
            wanted_page(
                *old(self),
                *final(self),
                page_key(underlying@, dtype@, strategy@),
                now,
                ask,
            ),
    {
        let key: (String, String, String) = (
            underlying.to_owned(),
            dtype.to_owned(),
            strategy.to_owned(),
        );
        assert(key@ == page_key(underlying@, dtype@, strategy@));
        let kept = match self.derivatives_cache.get(&key) {
            Some(p) => Some(p.copy()),
            None => None,
        };
        match kept {
            Some(p) => {
                self.derivatives = p;
                self.derivatives_error = None;
                return false;
            },
            None => {},
        }
        match self.backoff_secs_left(now) {
            Some(left) => {
                self.derivatives_error = Some(
                    with_seconds("rate limited — retrying in ", left, "s"),
                );
                false
            },
            None => {
                self.derivatives_loading = true;
                self.derivatives_error = None;
                true
            },
        }
    }

    /// Takes in the answer with a page of derivatives.
    pub fn load_derivatives(
        &mut self,
        underlying: &str,
        dtype: &str,
        strategy: &str,
        call: &Call,
        now: u64,
    )
        ensures
            took_page(
                *old(self),
                *final(self),
                page_key(underlying@, dtype@, strategy@),
                *call,
                now,
            ),
    {
        let key: (String, String, String) = (
            underlying.to_owned(),
            dtype.to_owned(),
            strategy.to_owned(),
        );
        assert(key@ == page_key(underlying@, dtype@, strategy@));
        self.derivatives_loading = false;
        match &call.data {
            Ok(v) => {
                let mut page = DerivativesPage::from_json(result(v));
                let ghost given = page;
                if page.underlying.as_str().is_empty() {
                    page.underlying = underlying.to_owned();
                }
                assert(derivative::is_page(given, sc::unwrapped(v.view())));
                let n: usize = page.items.len();
                let total: u64 = page.total_available;
                self.derivatives_cache.insert(key, page.copy());
                self.derivatives = page;
                let mut detail = linked(underlying, " ", dtype);
                detail.append("/");
                detail.append(strategy);
                detail.append(": ");
                text::push_decimal(&mut detail, n as u128);
                detail.append(" of ");
                text::push_decimal(&mut detail, total as u128);
                assert(detail@ =~= underlying@ + " "@ + dtype@ + "/"@ + strategy@ + ": "@
                    + text::decimal(n as int) + " of "@ + text::decimal(total as int));
                self.push_log("derivatives.search", call.elapsed_ms as u128, true, detail);
            },
            Err(e) => {
                let shown = e.text();
                if e.kind == ScErrorKind::RateLimited {
                    let wait: u64 = backoff_for(self.backoff_level);
                    self.note_rate_limit("derivatives.search", now);
                    self.derivatives_error = Some(
                        with_seconds("rate limited — retry in ", wait, "s"),
                    );
                } else {
                    self.derivatives_error = Some(shown.clone());
                }
                self.push_log("derivatives.search", call.elapsed_ms as u128, false, shown);
            },
        }
    }
}

/// `names` with those of search results, where a result has an instrument and a
/// name.
pub open spec fn with_found(
    names: Map<Seq<char>, Seq<char>>,
    items: Seq<JsonView>,
) -> Map<Seq<char>, Seq<char>>
    decreases items.len(),
{
    if items.len() == 0 {
        names
    } else {
        let before = with_found(names, items.drop_last());
        match (sc::words_at(items.last(), "isin"@), sc::words_at(items.last(), "name"@)) {
            (Some(isin), Some(name)) => before.insert(isin, name),
            _ => before,
        }
    }
}

/// Whether the results of a search have been taken in.
pub open spec fn took_search(a: Shared, b: Shared, q: Seq<char>, call: Call) -> bool {
    &&& b.lines() == worker::logged(
        a.lines(),
        match sc::outcome(call) {
            Ok(_) => worker::line(
                "broker.search"@,
                call.elapsed_ms as int,
                true,
                q + ": "@ + text::decimal(b.search_results@.len() as int) + " hits"@,
            ),
            Err(e) => worker::line(
                "broker.search"@,
                call.elapsed_ms as int,
                false,
                q + ": "@ + sc::error_text(e),
            ),
        },
    )
    &&& match sc::outcome(call) {
        Ok(v) => {
            let items = sc::list_at(sc::unwrapped(v), "items"@);
            &&& json::views(b.search_results@) == items
            &&& worker::names_in(b.names) == with_found(worker::names_in(a.names), items)
            &&& b == (Shared {
                search_results: b.search_results,
                names: b.names,
                log: b.log,
                ..a
            })
        },
        Err(_) => b == (Shared { log: b.log, ..a }),
    }
}

impl Shared {
    /// Takes in the results of a search.
    pub fn do_search(&mut self, q: &str, call: &Call)
        ensures
            took_search(*old(self), *final(self), q@, *call),
    {
        match &call.data {
            Ok(v) => {
                let r = result(v);
                let ghost items = sc::list_at(r.view(), "items"@);
                let found: Vec<Json> = match array_at(r, "items") {
                    Some(a) => json::copy_all(a),
                    None => Vec::new(),
                };
                assert(json::views(found@) =~= items);
                assert(items.take(0) =~= Seq::empty());
                for i in 0..found.len()
                    invariant
                        items == json::views(found@),
                        worker::names_in(self.names) == with_found(
                            worker::names_in(old(self).names),
                            items.take(i as int),
                        ),
                        *self == (Shared { names: self.names, ..*old(self) }),
                {
                    let item = &found[i];
                    proof {
                        assert(items.take(i + 1).drop_last() =~= items.take(i as int));
                        assert(items.take(i + 1).last() == item.view());
                    }
                    match (words(item, "isin"), words(item, "name")) {
                        (Some(isin), Some(name)) => self.learn(isin.as_str(), name.as_str()),
                        _ => {},
                    }
                }
                assert(items.take(items.len() as int) =~= items);
                let n: usize = found.len();
                self.search_results = found;
                let mut detail = q.to_owned();
                detail.append(": ");
                text::push_decimal(&mut detail, n as u128);
                detail.append(" hits");
                assert(detail@ =~= q@ + ": "@ + text::decimal(n as int) + " hits"@);
                self.push_log("broker.search", call.elapsed_ms as u128, true, detail);
            },
            Err(e) => {
                let shown = e.text();
                let detail = linked(q, ": ", shown.as_str());
                self.push_log("broker.search", call.elapsed_ms as u128, false, detail);
            },
        }
    }
}

/// While waiting nothing is asked for.
pub proof fn law_nothing_is_asked_for_while_waiting(
    a: Shared,
    b: Shared,
    isin: Seq<char>,
    timeframe: Seq<char>,
    force: bool,
    now: u64,
    ask: bool,
)
    requires
        wanted_chart(a, b, isin, timeframe, force, now, ask),
        worker::seconds_until(a.backoff_until, now) is Some,
    ensures
        !ask,
{
}

/// A chart that was loaded is not asked for again, and is shown as it was.
pub proof fn law_a_loaded_chart_is_kept(
    a: Shared,
    b: Shared,
    c: Shared,
    isin: Seq<char>,
    timeframe: Seq<char>,
    call: Call,
    loaded: u64,
    now: u64,
    ask: bool,
)
    requires
        took_chart(a, b, isin, timeframe, call, loaded),
        sc::outcome(call) is Ok,
        wanted_chart(b, c, isin, timeframe, false, now, ask),
    ensures
        !ask,
        chart::alike(c.chart, b.chart),
        c.chart_error is None,
{
}

/// While waiting no page of derivatives is asked for.
pub proof fn law_no_page_is_asked_for_while_waiting(
    a: Shared,
    b: Shared,
    key: (Seq<char>, Seq<char>, Seq<char>),
    now: u64,
    ask: bool,
)
    requires
        wanted_page(a, b, key, now, ask),
        worker::seconds_until(a.backoff_until, now) is Some,
    ensures
        !ask,
{
}

/// A page that was loaded is not asked for again, and is shown as it was.
pub proof fn law_a_loaded_page_is_kept(
    a: Shared,
    b: Shared,
    c: Shared,
    key: (Seq<char>, Seq<char>, Seq<char>),
    call: Call,
    loaded: u64,
    now: u64,
    ask: bool,
)
    requires
        took_page(a, b, key, call, loaded),
        sc::outcome(call) is Ok,
        wanted_page(b, c, key, now, ask),
    ensures
        !ask,
        derivative::alike(c.derivatives, b.derivatives),
        c.derivatives_error is None,
{
}

proof fn lemma_found_names_stay(names: Map<Seq<char>, Seq<char>>, items: Seq<JsonView>)
    ensures
        names.dom().subset_of(with_found(names, items).dom()),
    decreases items.len(),
{
    if items.len() > 0 {
        lemma_found_names_stay(names, items.drop_last());
    }
}

/// No instrument that has a name loses it by a search.
pub proof fn law_a_search_forgets_no_name(a: Shared, b: Shared, q: Seq<char>, call: Call)
    requires
        took_search(a, b, q, call),
    ensures
        worker::names_in(a.names).dom().subset_of(worker::names_in(b.names).dom()),
{
    match sc::outcome(call) {
        Ok(v) => lemma_found_names_stay(
            worker::names_in(a.names),
            sc::list_at(sc::unwrapped(v), "items"@),
        ),
        Err(_) => {},
    }
}

} // verus!
