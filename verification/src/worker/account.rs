//! What the session, the account and the watchlist answer.

use crate::json::{self, Json, JsonView};
use crate::model::account as balances;
use crate::model::{analytics, holding, pending, quote};
use crate::model::{Analytics, Holding, PendingOrder, Quote};
use crate::sc::{self, array_at, at, result, words, words_else_empty, Call, ScErrorKind};
use crate::text::{self, same_text, trim};
use crate::worker::{self, linked, Shared};
use vstd::prelude::*;
use vstd::string::*;

verus! {

/// The five calls that refresh the account.
pub struct AccountCalls {
    pub overview: Call,
    pub cash: Call,
    pub holdings: Call,
    pub transactions: Call,
    pub analytics: Call,
}

/// The name that a session is shown under.
pub open spec fn session_name(v: JsonView) -> Seq<char> {
    let name = text::trimmed(
        sc::words_or_empty(v, "personOverview/personalDetails/firstName"@) + " "@
            + sc::words_or_empty(v, "personOverview/personalDetails/lastName"@),
    );
    if name.len() == 0 {
        "authenticated"@
    } else {
        name
    }
}

/// What is said of the session after a failed check. Only a failure to
/// authenticate means that it is gone: a locked machine and a rate limit pass.
pub open spec fn session_trouble(e: sc::ScErrorView) -> Seq<char> {
    match e.kind {
        ScErrorKind::DeviceLocked => "Mac is locked, unlock it to resume"@,
        ScErrorKind::RateLimited => "rate limited, retrying shortly"@,
        ScErrorKind::Auth => sc::error_text(e) + " — run `sc login`"@,
        _ => sc::error_text(e),
    }
}

/// Whether a check of the session has led from one state to another.
pub open spec fn checked(a: Shared, b: Shared, call: Call, now: u64) -> bool {
    match sc::outcome(call) {
        Ok(v) => {
            &&& worker::said(b.session) == Some(session_name(sc::unwrapped(v)))
            &&& b.session_error is None
            &&& b.lines() == worker::logged(
                a.lines(),
                worker::line("whoami"@, call.elapsed_ms as int, true, "session ok"@),
            )
            &&& b == (Shared { session: b.session, session_error: None, log: b.log, ..a })
        },
        Err(e) => {
            let limited = e.kind == ScErrorKind::RateLimited;
            &&& b.session == if e.kind == ScErrorKind::Auth {
                None
            } else {
                a.session
            }
            &&& worker::said(b.session_error) == Some(session_trouble(e))
            &&& limited ==> {
                &&& b.backoff_level == worker::next_level(a.backoff_level)
                &&& b.backoff_until == Some(
                    worker::after(now, worker::backoff(a.backoff_level as nat) as int),
                )
                &&& b.probe_next
            }
            &&& !limited ==> {
                &&& b.backoff_level == a.backoff_level
                &&& b.backoff_until == a.backoff_until
                &&& b.probe_next == a.probe_next
            }
            &&& b.lines() == worker::logged(
                if limited {
                    worker::logged(
                        a.lines(),
                        worker::limit_line(a.backoff_level, "whoami"@),
                    )
                } else {
                    a.lines()
                },
                worker::line("whoami"@, call.elapsed_ms as int, false, sc::error_text(e)),
            )
            &&& b == (Shared {
                session: b.session,
                session_error: b.session_error,
                backoff_level: b.backoff_level,
                backoff_until: b.backoff_until,
                probe_next: b.probe_next,
                log: b.log,
                ..a
            })
        },
    }
}

/// What the log says of a refresh, with `about` where it went well.
pub open spec fn refresh_line(name: Seq<char>, call: Call, about: Seq<char>) -> worker::Line {
    match sc::outcome(call) {
        Ok(_) => worker::line(name, call.elapsed_ms as int, true, about),
        Err(e) => worker::line(name, call.elapsed_ms as int, false, sc::error_text(e)),
    }
}

/// Whether an overview has been taken in.
pub open spec fn took_overview(a: Shared, b: Shared, call: Call) -> bool {
    &&& b.lines() == worker::logged(
        a.lines(),
        refresh_line("broker.overview"@, call, Seq::empty()),
    )
    &&& match sc::outcome(call) {
        Ok(v) => {
            &&& balances::is_overview_of(b.account, a.account, sc::unwrapped(v))
            &&& b.overview_raw.view() == v
            &&& b == (Shared {
                account: b.account,
                overview_raw: b.overview_raw,
                log: b.log,
                ..a
            })
        },
        Err(_) => b == (Shared { log: b.log, ..a }),
    }
}

/// Whether a cash breakdown has been taken in.
pub open spec fn took_cash(a: Shared, b: Shared, call: Call) -> bool {
    &&& b.lines() == worker::logged(
        a.lines(),
        refresh_line("broker.cash-breakdown"@, call, Seq::empty()),
    )
    &&& match sc::outcome(call) {
        Ok(v) => b == (Shared {
            account: balances::with_cash(a.account, sc::unwrapped(v)),
            log: b.log,
            ..a
        }),
        Err(_) => b == (Shared { log: b.log, ..a }),
    }
}

/// `names` with the names of holdings, where they have one.
pub open spec fn with_held(
    names: Map<Seq<char>, Seq<char>>,
    hs: Seq<Holding>,
) -> Map<Seq<char>, Seq<char>>
    decreases hs.len(),
{
    if hs.len() == 0 {
        names
    } else {
        let before = with_held(names, hs.drop_last());
        let h = hs.last();
        if h.isin@.len() > 0 && h.name@.len() > 0 {
            before.insert(h.isin@, h.name@)
        } else {
            before
        }
    }
}

/// Whether the holdings have been taken in.
pub open spec fn took_holdings(a: Shared, b: Shared, call: Call) -> bool {
    &&& b.lines() == worker::logged(
        a.lines(),
        refresh_line(
            "broker.holdings"@,
            call,
            text::decimal(b.holdings@.len() as int) + " positions"@,
        ),
    )
    &&& match sc::outcome(call) {
        Ok(v) => {
            &&& holding::are_holdings(b.holdings@, sc::list_at(sc::unwrapped(v), "items"@))
            &&& worker::names_in(b.names) == with_held(worker::names_in(a.names), b.holdings@)
            &&& b.holdings_raw.view() == v
            &&& b == (Shared {
                holdings: b.holdings,
                names: b.names,
                holdings_raw: b.holdings_raw,
                log: b.log,
                ..a
            })
        },
        Err(_) => b == (Shared { log: b.log, ..a }),
    }
}

/// Whether the working orders have been taken in.
pub open spec fn took_transactions(a: Shared, b: Shared, call: Call) -> bool {
    &&& b.lines() == worker::logged(
        a.lines(),
        refresh_line(
            "broker.transactions"@,
            call,
            text::decimal(b.orders@.len() as int) + " working"@,
        ),
    )
    &&& match sc::outcome(call) {
        Ok(v) => {
            &&& pending::are_orders(b.orders@, pending::working(sc::unwrapped(v)))
            &&& b == (Shared { orders: b.orders, log: b.log, ..a })
        },
        Err(_) => b == (Shared { log: b.log, ..a }),
    }
}

/// Whether a gap has been closed, which it is once a stop rests again.
pub open spec fn settled_gap(a: Shared, b: Shared) -> bool {
    if a.trail_gap is Some && worker::stop_among(a.orders@, a.trail_gap->0@) is Some {
        &&& b.trail_gap is None
        &&& b.lines() == worker::logged(
            a.lines(),
            worker::line("trail.gap"@, 0, true, a.trail_gap->0@ + " protected again"@),
        )
        &&& b == (Shared { trail_gap: None, log: b.log, ..a })
    } else {
        b == a
    }
}

/// Whether the analytics have been taken in.
pub open spec fn took_analytics(a: Shared, b: Shared, call: Call) -> bool {
    &&& b.lines() == worker::logged(
        a.lines(),
        refresh_line("broker.analytics"@, call, Seq::empty()),
    )
    &&& match sc::outcome(call) {
        Ok(v) => {
            &&& analytics::is_analytics(b.analytics, sc::unwrapped(v))
            &&& b == (Shared { analytics: b.analytics, log: b.log, ..a })
        },
        Err(_) => b == (Shared { log: b.log, ..a }),
    }
}

/// Whether all five answers have been taken in, one after the other.
pub open spec fn took_account(a: Shared, b: Shared, calls: AccountCalls) -> bool {
    exists|s1: Shared, s2: Shared, s3: Shared, s4: Shared, s5: Shared| #[trigger]
        took_overview(a, s1, calls.overview) && #[trigger] took_cash(s1, s2, calls.cash)
            && #[trigger] took_holdings(s2, s3, calls.holdings) && #[trigger] took_transactions(
            s3,
            s4,
            calls.transactions,
        ) && #[trigger] settled_gap(s4, s5) && took_analytics(s5, b, calls.analytics)
}

impl Shared {
    /// Remembers the name of an instrument.
    pub fn learn(&mut self, isin: &str, name: &str)
        ensures
            worker::names_in(final(self).names) == worker::names_in(old(self).names).insert(
                isin@,
                name@,
            ),
            *final(self) == (Shared { names: final(self).names, ..*old(self) }),
    {
        self.names.insert(isin.to_owned(), name.to_owned());
        assert(worker::names_in(self.names) =~= worker::names_in(old(self).names).insert(
            isin@,
            name@,
        ));
    }

    /// Takes in the answer to `whoami`.
    pub fn check_session(&mut self, call: &Call, now: u64)
        ensures
            checked(*old(self), *final(self), *call, now),
    {
        match &call.data {
            Ok(v) => {
                let r = result(v);
                let first = words_else_empty(r, "personOverview/personalDetails/firstName");
                let last = words_else_empty(r, "personOverview/personalDetails/lastName");
                let full = linked(first.as_str(), " ", last.as_str());
                let name = trim(full.as_str());
                self.session = Some(
                    if name.is_empty() {
                        "authenticated".to_owned()
                    } else {
                        name.to_owned()
                    },
                );
                self.session_error = None;
                self.push_log("whoami", call.elapsed_ms as u128, true, "session ok".to_owned());
            },
            Err(e) => {
                let shown = e.text();
                match e.kind {
                    ScErrorKind::DeviceLocked => {
                        self.session_error = Some("Mac is locked, unlock it to resume".to_owned());
                    },
                    ScErrorKind::RateLimited => {
                        self.session_error = Some("rate limited, retrying shortly".to_owned());
                        self.note_rate_limit("whoami", now);
                    },
                    ScErrorKind::Auth => {
                        self.session = None;
                        let mut told = shown.clone();
                        told.append(" — run `sc login`");
                        self.session_error = Some(told);
                    },
                    _ => {
                        self.session_error = Some(shown.clone());
                    },
                }
                self.push_log("whoami", call.elapsed_ms as u128, false, shown);
            },
        }
    }

    fn take_overview(&mut self, call: &Call)
        ensures
            took_overview(*old(self), *final(self), *call),
    {
        match &call.data {
            Ok(v) => {
                self.account.apply_overview(result(v));
                self.overview_raw = v.copy();
                self.push_log("broker.overview", call.elapsed_ms as u128, true, String::new());
            },
            Err(e) => self.push_log("broker.overview", call.elapsed_ms as u128, false, e.text()),
        }
    }

    fn take_cash(&mut self, call: &Call)
        ensures
            took_cash(*old(self), *final(self), *call),
    {
        match &call.data {
            Ok(v) => {
                self.account.apply_cash(result(v));
                self.push_log("broker.cash-breakdown", call.elapsed_ms as u128, true, String::new());
            },
            Err(e) => self.push_log("broker.cash-breakdown", call.elapsed_ms as u128, false, e.text()),
        }
    }

    fn take_holdings(&mut self, call: &Call)
        ensures
            took_holdings(*old(self), *final(self), *call),
    {
        match &call.data {
            Ok(v) => {
                let ghost start = worker::names_in(self.names);
                let hs = Holding::list_from(result(v));
                let ghost all = hs@;
                assert(all.take(0) =~= Seq::empty());
                for i in 0..hs.len()
                    invariant
                        all == hs@,
                        start == worker::names_in(old(self).names),
                        worker::names_in(self.names) == with_held(start, all.take(i as int)),
                        *self == (Shared { names: self.names, ..*old(self) }),
                {
                    assert(all.take(i + 1).drop_last() =~= all.take(i as int));
                    assert(all.take(i + 1).last() == all[i as int]);
                    let h = &hs[i];
                    if !h.isin.as_str().is_empty() && !h.name.as_str().is_empty() {
                        self.learn(h.isin.as_str(), h.name.as_str());
                    }
                }
                assert(all.take(all.len() as int) =~= all);
                let n: usize = hs.len();
                self.holdings = hs;
                self.holdings_raw = v.copy();
                let mut detail = String::new();
                text::push_decimal(&mut detail, n as u128);
                detail.append(" positions");
                assert(detail@ =~= text::decimal(n as int) + " positions"@);
                self.push_log("broker.holdings", call.elapsed_ms as u128, true, detail);
            },
            Err(e) => self.push_log("broker.holdings", call.elapsed_ms as u128, false, e.text()),
        }
    }

    fn take_transactions(&mut self, call: &Call)
        ensures
            took_transactions(*old(self), *final(self), *call),
    {
        match &call.data {
            Ok(v) => {
                self.orders = PendingOrder::pending_from_transactions(result(v));
                let n: usize = self.orders.len();
                let mut detail = String::new();
                text::push_decimal(&mut detail, n as u128);
                detail.append(" working");
                assert(detail@ =~= text::decimal(n as int) + " working"@);
                self.push_log("broker.transactions", call.elapsed_ms as u128, true, detail);
            },
            Err(e) => self.push_log("broker.transactions", call.elapsed_ms as u128, false, e.text()),
        }
    }

    /// Ends the time without a stop once one rests again.
    fn settle_gap(&mut self)
        ensures
            settled_gap(*old(self), *final(self)),
    {
        let gap = match &self.trail_gap {
            Some(isin) => isin.clone(),
            None => {
                return;
            },
        };
        if self.resting_stop(gap.as_str()).is_some() {
            self.trail_gap = None;
            let mut detail = gap;
            detail.append(" protected again");
            self.push_log("trail.gap", 0, true, detail);
        }
    }

    fn take_analytics(&mut self, call: &Call)
        ensures
            took_analytics(*old(self), *final(self), *call),
    {
        match &call.data {
            Ok(v) => {
                self.analytics = Analytics::from_json(result(v));
                self.push_log("broker.analytics", call.elapsed_ms as u128, true, String::new());
            },
            Err(e) => self.push_log("broker.analytics", call.elapsed_ms as u128, false, e.text()),
        }
    }

    /// Takes in the five answers, or that one of the calls broke down.
    pub fn refresh_account(&mut self, calls: Option<AccountCalls>)
        ensures
            (match calls {
                Some(c) => took_account(*old(self), *final(self), c),
                None => {
                    &&& final(self).lines() == worker::logged(
                        old(self).lines(),
                        worker::line("refresh"@, 0, false, "an sc call panicked"@),
                    )
                    &&& *final(self) == (Shared { log: final(self).log, ..*old(self) })
                },
            }),
    {
        match calls {
            Some(c) => {
                self.take_overview(&c.overview);
                let ghost s1 = *self;
                self.take_cash(&c.cash);
                let ghost s2 = *self;
                self.take_holdings(&c.holdings);
                let ghost s3 = *self;
                self.take_transactions(&c.transactions);
                let ghost s4 = *self;
                self.settle_gap();
                let ghost s5 = *self;
                self.take_analytics(&c.analytics);
                proof {
                    assert(took_overview(*old(self), s1, c.overview));
                    assert(took_cash(s1, s2, c.cash));
                    assert(took_holdings(s2, s3, c.holdings));
                    assert(took_transactions(s3, s4, c.transactions));
                    assert(settled_gap(s4, s5));
                }
            },
            None => self.push_log("refresh", 0, false, "an sc call panicked".to_owned()),
        }
    }
}

/// The instruments of a watchlist.
pub open spec fn watched(items: Seq<JsonView>) -> Seq<Seq<char>> {
    items.filter_map(|i: JsonView| sc::words_at(i, "isin"@))
}

/// `names` with those that a watchlist has.
pub open spec fn with_watched(
    names: Map<Seq<char>, Seq<char>>,
    items: Seq<JsonView>,
) -> Map<Seq<char>, Seq<char>>
    decreases items.len(),
{
    if items.len() == 0 {
        names
    } else {
        let before = with_watched(names, items.drop_last());
        let isin = sc::words_or_empty(items.last(), "isin"@);
        let name = sc::words_or_empty(items.last(), "name"@);
        if isin.len() > 0 && name.len() > 0 {
            before.insert(isin, name)
        } else {
            before
        }
    }
}

/// The first item of a watchlist about an instrument.
pub open spec fn first_about(items: Seq<JsonView>, isin: Seq<char>) -> Option<JsonView>
    decreases items.len(),
{
    if items.len() == 0 {
        None
    } else {
        match first_about(items.drop_last(), isin) {
            Some(v) => Some(v),
            None => if sc::words_or_empty(items.last(), "isin"@) == isin {
                Some(items.last())
            } else {
                None
            },
        }
    }
}

/// Whether quotes have been filled in from a watchlist: those there were stay,
/// and an instrument without one gets what its first item says.
pub open spec fn filled(
    before: Map<Seq<char>, Quote>,
    now: Map<Seq<char>, Quote>,
    items: Seq<JsonView>,
) -> bool {
    forall|k: Seq<char>|
        {
            &&& #[trigger] now.dom().contains(k) == (before.dom().contains(k) || (k.len() > 0
                && first_about(items, k) is Some))
            &&& before.dom().contains(k) ==> now[k] == before[k]
            &&& !before.dom().contains(k) && now.dom().contains(k) ==> quote::is_watched(
                now[k],
                first_about(items, k)->0,
            )
        }
}

/// Whether the watchlist has been taken in.
pub open spec fn took_watchlist(a: Shared, b: Shared, call: Call) -> bool {
    &&& b.lines() == worker::logged(
        a.lines(),
        refresh_line(
            "broker.watchlist"@,
            call,
            text::decimal(b.watchlist@.len() as int) + " items"@,
        ),
    )
    &&& match sc::outcome(call) {
        Ok(v) => {
            let items = sc::list_at(sc::unwrapped(v), "items"@);
            &&& text::texts(b.watchlist@) == watched(items)
            &&& worker::names_in(b.names) == with_watched(worker::names_in(a.names), items)
            &&& filled(a.quotes@, b.quotes@, items)
            &&& b == (Shared {
                watchlist: b.watchlist,
                names: b.names,
                quotes: b.quotes,
                log: b.log,
                ..a
            })
        },
        Err(_) => b == (Shared { log: b.log, ..a }),
    }
}

/// Whether the broker declined to list an instrument: it answers that all went
/// well even then, and says in the payload whether the instrument is listed.
pub open spec fn declined(call: Call) -> bool {
    match sc::outcome(call) {
        Ok(v) => sc::value_at(sc::unwrapped(v), "is_on_watchlist"@) == Some(
            JsonView::Bool(false),
        ),
        Err(_) => false,
    }
}

/// Whether an instrument is among the holdings.
pub open spec fn is_held(hs: Seq<Holding>, isin: Seq<char>) -> bool {
    exists|i: int| 0 <= i < hs.len() && (#[trigger] hs[i]).isin@ == isin
}

/// What is said of an instrument that the broker declined.
pub open spec fn refusal(isin: Seq<char>, held: bool) -> Seq<char> {
    if held {
        isin
            + " is a position you hold; Scalable will not watchlist it. It is in Positions."@
    } else {
        isin + " was declined by the broker"@
    }
}

/// Whether the answer to listing an instrument has been taken in.
pub open spec fn took_added(a: Shared, b: Shared, isin: Seq<char>, call: Call) -> bool {
    let told = worker::logged(a.lines(), worker::call_line("watchlist.add"@, call, isin));
    &&& worker::said(b.watchlist_error) == if declined(call) {
        Some(refusal(isin, is_held(a.holdings@, isin)))
    } else {
        None
    }
    &&& b.lines() == if declined(call) {
        worker::logged(told, worker::line("watchlist.add"@, 0, false, isin + " declined"@))
    } else {
        told
    }
    &&& b == (Shared { watchlist_error: b.watchlist_error, log: b.log, ..a })
}

/// Whether one more item has been taken in.
spec fn filled_one(
    mid: Map<Seq<char>, Quote>,
    now: Map<Seq<char>, Quote>,
    item: JsonView,
) -> bool {
    let isin = sc::words_or_empty(item, "isin"@);
    if isin.len() > 0 && !mid.dom().contains(isin) {
        &&& now.dom() == mid.dom().insert(isin)
        &&& quote::is_watched(now[isin], item)
        &&& forall|k: Seq<char>|
            k != isin && #[trigger] mid.dom().contains(k) ==> now[k] == mid[k]
    } else {
        now == mid
    }
}

proof fn lemma_filled(
    before: Map<Seq<char>, Quote>,
    mid: Map<Seq<char>, Quote>,
    now: Map<Seq<char>, Quote>,
    items: Seq<JsonView>,
    item: JsonView,
)
    requires
        filled(before, mid, items),
        filled_one(mid, now, item),
    ensures
        filled(before, now, items.push(item)),
{
    let more = items.push(item);
    let isin = sc::words_or_empty(item, "isin"@);
    assert(more.drop_last() =~= items);
    assert forall|k: Seq<char>|
        {
            &&& #[trigger] now.dom().contains(k) == (before.dom().contains(k) || (k.len() > 0
                && first_about(more, k) is Some))
            &&& before.dom().contains(k) ==> now[k] == before[k]
            &&& !before.dom().contains(k) && now.dom().contains(k) ==> quote::is_watched(
                now[k],
                first_about(more, k)->0,
            )
        } by {
        assert(mid.dom().contains(k) == (before.dom().contains(k) || (k.len() > 0
            && first_about(items, k) is Some)));
        assert(mid.dom().contains(isin) == (before.dom().contains(isin) || (isin.len() > 0
            && first_about(items, isin) is Some)));
    }
}

impl Shared {
    /// Takes in the broker's watchlist, which is the one that counts. Its rows
    /// have a mid already, so they are shown until they are quoted.
    pub fn refresh_watchlist(&mut self, call: &Call)
        ensures
            took_watchlist(*old(self), *final(self), *call),
    {
        match &call.data {
            Ok(v) => {
                let r = result(v);
                let ghost items = sc::list_at(r.view(), "items"@);
                let ghost f = |i: JsonView| sc::words_at(i, "isin"@);
                let mut list: Vec<String> = Vec::new();
                assert(text::texts(list@) =~= Seq::empty());
                match array_at(r, "items") {
                    Some(a) => {
                        assert(items.take(0) =~= Seq::empty());
                        for i in 0..a.len()
                            invariant
                                items == json::views(a@),
                                f == (|i: JsonView| sc::words_at(i, "isin"@)),
                                text::texts(list@) == items.take(i as int).filter_map(f),
                                worker::names_in(self.names) == with_watched(
                                    worker::names_in(old(self).names),
                                    items.take(i as int),
                                ),
                                filled(old(self).quotes@, self.quotes@, items.take(i as int)),
                                *self == (Shared {
                                    names: self.names,
                                    quotes: self.quotes,
                                    ..*old(self)
                                }),
                        {
                            let item = &a[i];
                            proof {
                                assert(items.take(i + 1).drop_last() =~= items.take(i as int));
                                assert(items.take(i + 1).last() == item.view());
                            }
                            match words(item, "isin") {
                                Some(isin) => {
                                    let ghost before = text::texts(list@);
                                    assert(f(item.view()) == Some(isin@));
                                    list.push(isin);
                                    assert(text::texts(list@) =~= before + seq![isin@]);
                                },
                                None => {
                                    assert(f(item.view()) is None);
                                },
                            }
                            let ghost mid = self.quotes@;
                            self.fill_in(item);
                            proof {
                                lemma_filled(
                                    old(self).quotes@,
                                    mid,
                                    self.quotes@,
                                    items.take(i as int),
                                    item.view(),
                                );
                                assert(items.take(i as int).push(item.view()) =~= items.take(
                                    i + 1,
                                ));
                            }
                        }
                        assert(items.take(a@.len() as int) =~= items);
                    },
                    None => {
                        assert(items =~= Seq::empty());
                    },
                }
                let n: usize = list.len();
                self.watchlist = list;
                let mut detail = String::new();
                text::push_decimal(&mut detail, n as u128);
                detail.append(" items");
                assert(detail@ =~= text::decimal(n as int) + " items"@);
                self.push_log("broker.watchlist", call.elapsed_ms as u128, true, detail);
            },
            Err(e) => self.push_log("broker.watchlist", call.elapsed_ms as u128, false, e.text()),
        }
    }

    /// Takes in one row of the watchlist.
    fn fill_in(&mut self, item: &Json)
        ensures
            ({
                let isin = sc::words_or_empty(item.view(), "isin"@);
                let name = sc::words_or_empty(item.view(), "name"@);
                &&& worker::names_in(final(self).names) == if isin.len() > 0 && name.len() > 0 {
                    worker::names_in(old(self).names).insert(isin, name)
                } else {
                    worker::names_in(old(self).names)
                }
                &&& if isin.len() > 0 && !old(self).quotes@.dom().contains(isin) {
                    &&& final(self).quotes@.dom() == old(self).quotes@.dom().insert(isin)
                    &&& quote::is_watched(final(self).quotes@[isin], item.view())
                    &&& forall|k: Seq<char>|
                        k != isin && #[trigger] old(self).quotes@.dom().contains(k)
                            ==> final(self).quotes@[k] == old(self).quotes@[k]
                } else {
                    final(self).quotes@ == old(self).quotes@
                }
                &&& *final(self) == (Shared {
                    names: final(self).names,
                    quotes: final(self).quotes,
                    ..*old(self)
                })
            }),
    {
        let q = Quote::from_watchlist_item(item);
        if q.isin.as_str().is_empty() {
            return;
        }
        if !q.name.as_str().is_empty() {
            self.learn(q.isin.as_str(), q.name.as_str());
        }
        if !self.quotes.contains_key(&q.isin) {
            let isin = q.isin.clone();
            self.quotes.insert(isin, q);
        }
    }

    /// Takes in the answer to listing an instrument.
    pub fn watchlist_added(&mut self, isin: &str, call: &Call)
        ensures
            took_added(*old(self), *final(self), isin@, *call),
    {
        let refused = match &call.data {
            Ok(v) => match at(result(v), "is_on_watchlist") {
                Some(j) => matches!(j.as_bool(), Some(false)),
                None => false,
            },
            Err(_) => false,
        };
        self.log_call("watchlist.add", call, isin);
        if refused {
            let mut held = false;
            for i in 0..self.holdings.len()
                invariant
                    held == is_held(self.holdings@.take(i as int), isin@),
            {
                let ghost before = self.holdings@.take(i as int);
                let ghost now = self.holdings@.take(i + 1);
                proof {
                    assert(now[i as int] == self.holdings@[i as int]);
                    if is_held(before, isin@) {
                        let k = choose|k: int|
                            0 <= k < before.len() && (#[trigger] before[k]).isin@ == isin@;
                        assert(now[k].isin@ == isin@);
                    }
                    if is_held(now, isin@) {
                        let k = choose|k: int|
                            0 <= k < now.len() && (#[trigger] now[k]).isin@ == isin@;
                        if k < i {
                            assert(before[k].isin@ == isin@);
                        }
                    }
                }
                if same_text(self.holdings[i].isin.as_str(), isin) {
                    held = true;
                }
            }
            assert(self.holdings@.take(self.holdings@.len() as int) =~= self.holdings@);
            let mut told = isin.to_owned();
            if held {
                told.append(
                    " is a position you hold; Scalable will not watchlist it. It is in Positions.",
                );
            } else {
                told.append(" was declined by the broker");
            }
            self.watchlist_error = Some(told);
            let mut detail = isin.to_owned();
            detail.append(" declined");
            self.push_log("watchlist.add", 0, false, detail);
        } else {
            self.watchlist_error = None;
        }
    }
}

/// Only a failure to authenticate ends a session.
pub proof fn law_only_auth_failures_end_a_session(a: Shared, b: Shared, call: Call, now: u64)
    requires
        checked(a, b, call, now),
        a.session is Some,
        b.session is None,
    ensures
        sc::outcome(call) matches Err(e) && e.kind == ScErrorKind::Auth,
{
}

/// Refreshing the account touches nothing but what it asks for, and takes no name
/// away.
pub proof fn law_refresh_keeps_the_rest(a: Shared, b: Shared, calls: AccountCalls)
    requires
        took_account(a, b, calls),
    ensures
        b.watchlist == a.watchlist,
        b.poll_set == a.poll_set,
        b.quotes == a.quotes,
        b.chart == a.chart,
        b.trails == a.trails,
        b.preview == a.preview,
        b.backoff_until == a.backoff_until,
        b.backoff_level == a.backoff_level,
        b.trail_gap is Some ==> b.trail_gap == a.trail_gap,
        worker::names_in(a.names).dom().subset_of(worker::names_in(b.names).dom()),
{
    let (s1, s2, s3, s4, s5) = choose|s1: Shared, s2: Shared, s3: Shared, s4: Shared, s5: Shared|
     #[trigger]
        took_overview(a, s1, calls.overview) && #[trigger] took_cash(s1, s2, calls.cash)
            && #[trigger] took_holdings(s2, s3, calls.holdings) && #[trigger] took_transactions(
            s3,
            s4,
            calls.transactions,
        ) && #[trigger] settled_gap(s4, s5) && took_analytics(s5, b, calls.analytics);
    assert(took_overview(a, s1, calls.overview));
    lemma_held_names_stay(worker::names_in(s2.names), s3.holdings@);
}

proof fn lemma_watched_names_stay(names: Map<Seq<char>, Seq<char>>, items: Seq<JsonView>)
    ensures
        names.dom().subset_of(with_watched(names, items).dom()),
    decreases items.len(),
{
    if items.len() > 0 {
        lemma_watched_names_stay(names, items.drop_last());
    }
}

/// The watchlist takes no name away, and leaves every quote as it is.
pub proof fn law_the_watchlist_forgets_nothing(a: Shared, b: Shared, call: Call)
    requires
        took_watchlist(a, b, call),
    ensures
        worker::names_in(a.names).dom().subset_of(worker::names_in(b.names).dom()),
        forall|k: Seq<char>| #[trigger]
            a.quotes@.dom().contains(k) ==> b.quotes@.dom().contains(k) && b.quotes@[k]
                == a.quotes@[k],
{
    match sc::outcome(call) {
        Ok(v) => {
            let items = sc::list_at(sc::unwrapped(v), "items"@);
            lemma_watched_names_stay(worker::names_in(a.names), items);
            assert forall|k: Seq<char>| #[trigger] a.quotes@.dom().contains(k) implies b.quotes@.dom().contains(
                k,
            ) && b.quotes@[k] == a.quotes@[k] by {
                assert(b.quotes@.dom().contains(k) == (a.quotes@.dom().contains(k) || (k.len() > 0
                    && first_about(items, k) is Some)));
            }
        },
        Err(_) => {},
    }
}

proof fn lemma_held_names_stay(names: Map<Seq<char>, Seq<char>>, hs: Seq<Holding>)
    ensures
        names.dom().subset_of(with_held(names, hs).dom()),
    decreases hs.len(),
{
    if hs.len() > 0 {
        lemma_held_names_stay(names, hs.drop_last());
    }
}

/// An instrument counts as unprotected for just as long as no stop rests on it.
pub proof fn law_a_gap_lasts_until_a_stop_rests(a: Shared, b: Shared, calls: AccountCalls)
    requires
        took_account(a, b, calls),
        a.trail_gap is Some,
    ensures
        (b.trail_gap is None) == (worker::stop_among(b.orders@, a.trail_gap->0@) is Some),
{
    let (s1, s2, s3, s4, s5) = choose|s1: Shared, s2: Shared, s3: Shared, s4: Shared, s5: Shared|
     #[trigger]
        took_overview(a, s1, calls.overview) && #[trigger] took_cash(s1, s2, calls.cash)
            && #[trigger] took_holdings(s2, s3, calls.holdings) && #[trigger] took_transactions(
            s3,
            s4,
            calls.transactions,
        ) && #[trigger] settled_gap(s4, s5) && took_analytics(s5, b, calls.analytics);
    assert(took_overview(a, s1, calls.overview));
}

} // verus!
