//! The state that the background thread keeps, and what it decides.
//!
//! Prices are polled, since there is no stream of them, and the backend refuses
//! calls that come too fast. What to ask for, when, and what an answer changes is
//! decided here; making the calls is left to the thread. Times are nanoseconds
//! since the program started.

pub mod account;
pub mod chart;
pub mod flow;
pub mod intent;
pub mod quotes;
pub mod trade;
pub mod trails;

pub use flow::{Cmd, Task};
pub use intent::{Arg, TradeIntent};
pub use trails::load_trails;

use crate::json::{Json, JsonView};
use crate::model::{
    Account, Analytics, Chart, DerivativesPage, Holding, PendingOrder, Quote, TradePreview, Trail,
};
use crate::num::{self, Num};
use crate::sc::{self, Call};
use crate::table::Table;
use crate::text;
use crate::workspace::{self, add_all};
use vstd::arithmetic::power2::*;
use vstd::prelude::*;
use vstd::string::*;

verus! {

/// How many quotes are asked for at a time.
pub const QUOTE_FANOUT: usize = 8;

/// The first wait after a refusal, and the longest, in seconds.
pub const RATE_LIMIT_BACKOFF: u64 = 90;

pub const RATE_LIMIT_BACKOFF_MAX: u64 = 900;

/// How many lines of the log are kept.
pub const LOG_LINES: usize = 400;

pub const SECOND: u64 = 1_000_000_000;

/// The timeframes that a chart can be asked for, the shortest first.
pub open spec fn timeframe_names() -> Seq<Seq<char>> {
    seq!["1d"@, "7d"@, "1m"@, "3m"@, "6m"@, "ytd"@, "1y"@, "max"@]
}

pub fn timeframes() -> (r: Vec<&'static str>)
    ensures
        r@.map_values(|t: &'static str| t@) == timeframe_names(),
{
    let r: Vec<&'static str> = vec!["1d", "7d", "1m", "3m", "6m", "ytd", "1y", "max"];
    assert(r@.map_values(|t: &'static str| t@) =~= timeframe_names());
    r
}

/// Which instruments to poll this round. While probing, one call is enough to
/// learn whether the limit has been lifted.
pub fn poll_list(all: Vec<String>, probing: bool) -> (r: Vec<String>)
    ensures
        r@ == if probing && all@.len() > 1 {
            all@.take(1)
        } else {
            all@
        },
{
    let mut list = all;
    if probing && list.len() > 1 {
        list.truncate(1);
    }
    list
}

/// The wait after the refusal of that number in a row: it doubles each time, up
/// to the longest.
pub open spec fn backoff(level: nat) -> nat {
    let w = 90 * pow2(
        if level < 6 {
            level
        } else {
            6
        },
    );
    if w < 900 {
        w
    } else {
        900
    }
}

pub fn backoff_for(level: u32) -> (r: u64)
    ensures
        r == backoff(level as nat),
        90 <= r <= 900,
{
    let n: u32 = if level < 6 {
        level
    } else {
        6
    };
    let mut secs: u64 = RATE_LIMIT_BACKOFF;
    proof {
        lemma2_to64();
    }
    for i in 0..n
        invariant
            n <= 6,
            secs == 90 * pow2(i as nat),
            90 <= secs <= 90 * 64,
    {
        proof {
            lemma_pow2_unfold((i + 1) as nat);
            if i + 1 < 6 {
                lemma_pow2_strictly_increases((i + 1) as nat, 6);
            }
            lemma2_to64();
        }
        secs = secs * 2;
    }
    if secs < RATE_LIMIT_BACKOFF_MAX {
        secs
    } else {
        RATE_LIMIT_BACKOFF_MAX
    }
}

/// The wait doubles with each refusal until it is the longest there is.
pub proof fn law_backoff_doubles_and_caps(level: nat)
    ensures
        backoff(0) == 90,
        backoff(level + 1) == if 2 * backoff(level) < 900 {
            2 * backoff(level)
        } else {
            900
        },
        backoff(level) <= backoff(level + 1),
        90 <= backoff(level) <= 900,
{
    lemma2_to64();
    let k: nat = if level < 6 {
        level
    } else {
        6
    };
    lemma_pow2_pos(k);
    if level < 6 {
        lemma_pow2_unfold(level + 1);
    }
}

/// A call as the log lists it.
#[derive(Debug, Clone)]
pub struct CallLog {
    pub cmd: String,
    pub ms: u128,
    pub ok: bool,
    pub detail: String,
}

/// What a line of the log is.
pub struct Line {
    pub cmd: Seq<char>,
    pub ms: int,
    pub ok: bool,
    pub detail: Seq<char>,
}

impl CallLog {
    pub open spec fn view(self) -> Line {
        Line { cmd: self.cmd@, ms: self.ms as int, ok: self.ok, detail: self.detail@ }
    }
}

pub open spec fn line(cmd: Seq<char>, ms: int, ok: bool, detail: Seq<char>) -> Line {
    Line { cmd, ms, ok, detail }
}

/// A log with a line behind it, of which the oldest lines go once there are too
/// many.
pub open spec fn logged(log: Seq<Line>, l: Line) -> Seq<Line> {
    let all = log.push(l);
    if all.len() > LOG_LINES {
        all.skip(all.len() - LOG_LINES)
    } else {
        all
    }
}

/// The log never has too many lines, and the newest one is the last.
pub proof fn law_log_is_capped(log: Seq<Line>, l: Line)
    ensures
        0 < logged(log, l).len() <= LOG_LINES,
        logged(log, l).last() == l,
{
}

pub struct Shared {
    pub session: Option<String>,
    pub session_error: Option<String>,
    pub watchlist: Vec<String>,
    pub poll_set: Vec<String>,
    pub quotes: Table<String, Quote>,
    /// The names of instruments, from wherever they were learned. A name does not
    /// change, so it still tells what a row is when there is no quote.
    pub names: Table<String, String>,
    pub holdings: Vec<Holding>,
    pub orders: Vec<PendingOrder>,
    pub account: Account,
    pub analytics: Analytics,
    pub overview_raw: Json,
    pub holdings_raw: Json,
    pub chart: Chart,
    pub chart_raw: Json,
    pub chart_error: Option<String>,
    pub chart_loading: bool,
    /// Charts are refused readily, so what was fetched is kept.
    pub chart_cache: Table<(String, String), Chart>,
    pub derivatives: DerivativesPage,
    pub derivatives_error: Option<String>,
    pub derivatives_loading: bool,
    pub derivatives_cache: Table<(String, String, String), DerivativesPage>,
    pub trails: Vec<Trail>,
    /// The instrument whose stop was cancelled and not yet replaced: until then
    /// the position is unprotected.
    pub trail_gap: Option<String>,
    pub trail_error: Option<String>,
    pub watchlist_error: Option<String>,
    /// When polling may go on after a refusal.
    pub backoff_until: Option<u64>,
    /// The refusals in a row.
    pub backoff_level: u32,
    /// Whether the next round finds out if the limit has been lifted.
    pub probe_next: bool,
    /// A chart that was not asked for during a wait, to be asked for after it.
    pub deferred_chart: Option<(String, String)>,
    pub search_results: Vec<Json>,
    pub preview: Option<TradePreview>,
    pub preview_error: Option<String>,
    pub preview_pending: bool,
    pub order_result: Option<String>,
    pub order_error: Option<String>,
    pub order_pending: bool,
    pub log: Vec<CallLog>,
    pub last_round_ms: u128,
    pub last_round_calls: usize,
    pub quote_ms_avg: Num,
}

/// The lines of a log.
pub open spec fn lines(log: Seq<CallLog>) -> Seq<Line> {
    log.map_values(|c: CallLog| c.view())
}

/// The names in a table.
pub open spec fn names_in(t: Table<String, String>) -> Map<Seq<char>, Seq<char>> {
    t@.map_values(|s: String| s@)
}

/// The time `secs` seconds after `now`.
pub open spec fn after(now: u64, secs: int) -> u64 {
    if now + secs * SECOND > u64::MAX {
        u64::MAX
    } else {
        (now + secs * SECOND) as u64
    }
}

/// The whole seconds that are left of a wait, counting the one that has begun.
pub open spec fn seconds_until(until: Option<u64>, now: u64) -> Option<u64> {
    match until {
        Some(u) => if u > now {
            Some(((u - now) / (SECOND as int) + 1) as u64)
        } else {
            None
        },
        None => None,
    }
}

/// How many refusals in a row there have been after one more.
pub open spec fn next_level(level: u32) -> u32 {
    if level < 6 {
        (level + 1) as u32
    } else {
        6
    }
}

/// What the log says of a refusal.
pub open spec fn limit_line(level: u32, from: Seq<char>) -> Line {
    line(
        "rate limited"@,
        0,
        false,
        from + ": backing off "@ + text::decimal(backoff(level as nat) as int) + "s (attempt "@
            + text::decimal(next_level(level) as int) + ")"@,
    )
}

/// The text that there is, or that there is none.
pub open spec fn said(s: Option<String>) -> Option<Seq<char>> {
    text::seen_text(s)
}

impl Default for Shared {
    fn default() -> (r: Shared)
        ensures
            r.session is None,
            r.session_error is None,
            r.watchlist@.len() == 0,
            r.poll_set@.len() == 0,
            r.quotes@ == Map::<Seq<char>, Quote>::empty(),
            r.names@ == Map::<Seq<char>, String>::empty(),
            r.holdings@.len() == 0,
            r.orders@.len() == 0,
            crate::model::account::is_unknown(r.account),
            r.analytics.allocations@.len() == 0,
            r.analytics.health@.len() == 0,
            r.analytics.scenarios@.len() == 0,
            r.analytics.last_updated@.len() == 0,
            r.overview_raw.view() == JsonView::Null,
            r.holdings_raw.view() == JsonView::Null,
            r.chart_raw.view() == JsonView::Null,
            r.derivatives.underlying@.len() == 0,
            r.derivatives.derivative_type@.len() == 0,
            r.derivatives.total_available == 0,
            r.derivatives.items@.len() == 0,
            r.last_round_ms == 0,
            r.last_round_calls == 0,
            r.quote_ms_avg == num::zero(),
            crate::model::chart::is_blank(r.chart, Seq::empty(), Seq::empty()),
            r.chart_cache@ == Map::<(Seq<char>, Seq<char>), Chart>::empty(),
            r.derivatives_cache@ == Map::<
                (Seq<char>, Seq<char>, Seq<char>),
                DerivativesPage,
            >::empty(),
            r.trails@.len() == 0,
            r.trail_gap is None,
            r.trail_error is None,
            r.watchlist_error is None,
            r.backoff_until is None,
            r.backoff_level == 0,
            !r.probe_next,
            r.deferred_chart is None,
            r.search_results@.len() == 0,
            r.preview is None,
            r.preview_error is None,
            !r.preview_pending,
            r.order_result is None,
            r.order_error is None,
            !r.order_pending,
            !r.chart_loading,
            r.chart_error is None,
            !r.derivatives_loading,
            r.derivatives_error is None,
            r.log@.len() == 0,
    {
        Shared {
            session: None,
            session_error: None,
            watchlist: Vec::new(),
            poll_set: Vec::new(),
            quotes: Table::new(),
            names: Table::new(),
            holdings: Vec::new(),
            orders: Vec::new(),
            account: Account::default(),
            analytics: Analytics::default(),
            overview_raw: Json::Null,
            holdings_raw: Json::Null,
            chart: Chart::default(),
            chart_raw: Json::Null,
            chart_error: None,
            chart_loading: false,
            chart_cache: Table::new(),
            derivatives: DerivativesPage::default(),
            derivatives_error: None,
            derivatives_loading: false,
            derivatives_cache: Table::new(),
            trails: Vec::new(),
            trail_gap: None,
            trail_error: None,
            watchlist_error: None,
            backoff_until: None,
            backoff_level: 0,
            probe_next: false,
            deferred_chart: None,
            search_results: Vec::new(),
            preview: None,
            preview_error: None,
            preview_pending: false,
            order_result: None,
            order_error: None,
            order_pending: false,
            log: Vec::new(),
            last_round_ms: 0,
            last_round_calls: 0,
            quote_ms_avg: Num::zero(),
        }
    }
}

/// Whether an order is a stop that protects a position.
pub open spec fn protects(o: PendingOrder, isin: Seq<char>) -> bool {
    o.isin@ == isin && crate::model::pending::is_sale(o.side@) && o.stop_price is Some
}

/// The first order that protects a position.
pub open spec fn stop_among(orders: Seq<PendingOrder>, isin: Seq<char>) -> Option<PendingOrder>
    decreases orders.len(),
{
    if orders.len() == 0 {
        None
    } else if protects(orders[0], isin) {
        Some(orders[0])
    } else {
        stop_among(orders.drop_first(), isin)
    }
}

/// The instruments that are held.
pub open spec fn held_isins(hs: Seq<Holding>) -> Seq<Seq<char>> {
    hs.map_values(|h: Holding| h.isin@).filter(|i: Seq<char>| i.len() > 0)
}

/// A text that a number of seconds stands in.
pub(crate) fn with_seconds(head: &str, secs: u64, tail: &str) -> (r: String)
    ensures
        r@ == head@ + text::decimal(secs as int) + tail@,
{
    let mut s = head.to_owned();
    text::push_decimal(&mut s, secs as u128);
    s.append(tail);
    assert(s@ =~= head@ + text::decimal(secs as int) + tail@);
    s
}

/// Two texts, one after the other, with a third between them.
pub(crate) fn linked(a: &str, between: &str, b: &str) -> (r: String)
    ensures
        r@ == a@ + between@ + b@,
{
    let mut s = a.to_owned();
    s.append(between);
    s.append(b);
    assert(s@ =~= a@ + between@ + b@);
    s
}

impl Shared {
    pub open spec fn lines(self) -> Seq<Line> {
        lines(self.log@)
    }

    /// What to poll: what was asked for, and until something was, the broker's
    /// watchlist and the positions.
    pub open spec fn targets(self) -> Seq<Seq<char>> {
        if self.poll_set@.len() > 0 {
            text::texts(self.poll_set@)
        } else {
            workspace::with_all(text::texts(self.watchlist@), held_isins(self.holdings@))
        }
    }

    /// The stop order that protects a position, if there is one.
    pub fn resting_stop(&self, isin: &str) -> (r: Option<PendingOrder>)
        ensures
            r == stop_among(self.orders@, isin@),
    {
        let ghost all = self.orders@;
        assert(all.skip(0) =~= all);
        for i in 0..self.orders.len()
            invariant
                all == self.orders@,
                stop_among(all, isin@) == stop_among(all.skip(i as int), isin@),
        {
            assert(all.skip(i as int)[0] == all[i as int]);
            assert(all.skip(i as int).drop_first() =~= all.skip(i + 1));
            let o = &self.orders[i];
            if text::same_text(o.isin.as_str(), isin) && o.sells() && o.stop_price.is_some() {
                return Some(o.copy());
            }
        }
        assert(all.skip(all.len() as int).len() == 0);
        None
    }

    /// The seconds that are left of the wait after a refusal.
    pub fn backoff_secs_left(&self, now: u64) -> (r: Option<u64>)
        ensures
            r == seconds_until(self.backoff_until, now),
    {
        match self.backoff_until {
            Some(until) => if until > now {
                Some((until - now) / SECOND + 1)
            } else {
                None
            },
            None => None,
        }
    }

    pub fn push_log(&mut self, cmd: &str, ms: u128, ok: bool, detail: String)
        ensures
            final(self).lines() == logged(
                old(self).lines(),
                line(cmd@, ms as int, ok, detail@),
            ),
            *final(self) == (Shared { log: final(self).log, ..*old(self) }),
    {
        let ghost before = self.lines();
        self.log.push(CallLog { cmd: cmd.to_owned(), ms, ok, detail });
        let ghost all = self.log@;
        assert(self.lines() =~= before.push(line(cmd@, ms as int, ok, detail@)));
        let n: usize = self.log.len();
        if n > LOG_LINES {
            let drop: usize = n - LOG_LINES;
            let kept = self.log.split_off(drop);
            self.log = kept;
            assert(self.lines() =~= lines(all).skip(drop as int));
        }
    }

    /// Waits after a refusal. One endpoint refused, but it is taken for all of
    /// them: going on to the next would only have that one refuse as well.
    pub fn note_rate_limit(&mut self, from: &str, now: u64)
        ensures
            final(self).backoff_level == next_level(old(self).backoff_level),
            final(self).backoff_until == Some(
                after(now, backoff(old(self).backoff_level as nat) as int),
            ),
            final(self).probe_next,
            final(self).lines() == logged(
                old(self).lines(),
                limit_line(old(self).backoff_level, from@),
            ),
            *final(self) == (Shared {
                backoff_level: final(self).backoff_level,
                backoff_until: final(self).backoff_until,
                probe_next: true,
                log: final(self).log,
                ..*old(self)
            }),
    {
        let wait: u64 = backoff_for(self.backoff_level);
        let level: u32 = if self.backoff_level < 6 {
            self.backoff_level + 1
        } else {
            6
        };
        let pause: u64 = wait * SECOND;
        let until: u64 = if now > u64::MAX - pause {
            u64::MAX
        } else {
            now + pause
        };
        self.backoff_level = level;
        self.backoff_until = Some(until);
        self.probe_next = true;
        let mut detail = from.to_owned();
        detail.append(": backing off ");
        text::push_decimal(&mut detail, wait as u128);
        detail.append("s (attempt ");
        text::push_decimal(&mut detail, level as u128);
        detail.append(")");
        assert(detail@ =~= from@ + ": backing off "@ + text::decimal(wait as int)
            + "s (attempt "@ + text::decimal(level as int) + ")"@);
        self.push_log("rate limited", 0, false, detail);
    }

    /// The instruments to poll.
    pub fn poll_targets(&self) -> (r: Vec<String>)
        ensures
            text::texts(r@) == self.targets(),
    {
        if self.poll_set.len() > 0 {
            return text::copy_texts(&self.poll_set);
        }
        let mut held: Vec<String> = Vec::new();
        let ghost all = self.holdings@.map_values(|h: Holding| h.isin@);
        let ghost f = |i: Seq<char>| i.len() > 0;
        proof {
            crate::seqs::lemma_filter_none(all, f);
            assert(text::texts(held@) =~= Seq::empty());
        }
        for i in 0..self.holdings.len()
            invariant
                all == self.holdings@.map_values(|h: Holding| h.isin@),
                f == (|i: Seq<char>| i.len() > 0),
                text::texts(held@) == all.take(i as int).filter(f),
        {
            proof {
                assert(all[i as int] == self.holdings@[i as int].isin@);
                crate::seqs::lemma_filter_next(all, f, i as int);
            }
            if !self.holdings[i].isin.as_str().is_empty() {
                let ghost before = text::texts(held@);
                held.push(self.holdings[i].isin.clone());
                assert(text::texts(held@) =~= before.push(all[i as int]));
            }
        }
        assert(all.take(all.len() as int) =~= all);
        add_all(text::copy_texts(&self.watchlist), &held)
    }
}

/// What the log says of a call whose subject is `about`.
pub open spec fn call_line(name: Seq<char>, call: Call, about: Seq<char>) -> Line {
    match sc::outcome(call) {
        Ok(_) => line(name, call.elapsed_ms as int, true, about),
        Err(e) => line(
            name,
            call.elapsed_ms as int,
            false,
            about + ": "@ + sc::error_text(e),
        ),
    }
}

impl Shared {
    pub fn log_call(&mut self, name: &str, call: &Call, about: &str)
        ensures
            final(self).lines() == logged(old(self).lines(), call_line(name@, *call, about@)),
            *final(self) == (Shared { log: final(self).log, ..*old(self) }),
    {
        match &call.data {
            Ok(_) => self.push_log(name, call.elapsed_ms as u128, true, about.to_owned()),
            Err(e) => {
                let shown = e.text();
                let detail = linked(about, ": ", shown.as_str());
                self.push_log(name, call.elapsed_ms as u128, false, detail);
            },
        }
    }
}

/// A refusal never makes the next wait shorter, and the wait it starts is not
/// over when it starts.
pub proof fn law_a_refusal_starts_a_wait(level: u32, now: u64)
    requires
        now < u64::MAX,
    ensures
        seconds_until(Some(after(now, backoff(level as nat) as int)), now) is Some,
        backoff(level as nat) <= backoff(next_level(level) as nat),
{
    law_backoff_doubles_and_caps(level as nat);
    law_backoff_doubles_and_caps(6);
}

} // verus!
