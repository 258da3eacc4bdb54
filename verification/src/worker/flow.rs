//! What to do, and in what order: commands, the calls they take, and polling.

use crate::model::Quote;
use crate::num::Num;
use crate::text;
use crate::worker::chart::{self, seen_pair};
use crate::worker::{self, poll_list, Shared, TradeIntent, SECOND};
use vstd::prelude::*;
use vstd::string::*;

verus! {

/// What the interface asks for.
#[derive(Debug, Clone)]
pub enum Cmd {
    RefreshAll,
    RefreshQuotes,
    /// The instruments worth polling.
    SetPollSet(Vec<String>),
    WatchlistAdd(String),
    WatchlistRemove(String),
    LoadChart { isin: String, timeframe: String, force: bool },
    LoadDerivatives { underlying: String, dtype: String, strategy: String },
    ArmTrail { isin: String, distance: Num, percent: bool },
    DisarmTrail(String),
    /// Cancel the resting stop and preview one higher up. The order itself is left
    /// to the confirm dialog.
    RatchetTrail { isin: String },
    Search(String),
    PreviewTrade(TradeIntent),
    SubmitTrade { intent: TradeIntent, confirmation_id: String, accept_unsuitable: bool },
    CancelOrder(String),
    ClearPreview,
    Shutdown,
}

/// Something that takes a call, or the disk.
#[derive(Debug)]
pub enum Task {
    Account,
    Watchlist,
    /// Quote what is to be polled when the task comes up.
    Targets,
    Quotes(Vec<String>),
    Add(String),
    Remove(String),
    Chart { isin: String, timeframe: String, force: bool },
    Derivatives { underlying: String, dtype: String, strategy: String },
    Arm { isin: String, distance: Num, percent: bool },
    SaveTrails,
    Ratchet(String),
    Search(String),
    Preview(TradeIntent),
    Submit { intent: TradeIntent, confirmation_id: String, accept_unsuitable: bool },
    Cancel(String),
}

/// Whether an instrument has no quote.
pub open spec fn is_unquoted(quotes: Map<Seq<char>, Quote>) -> spec_fn(Seq<char>) -> bool {
    |i: Seq<char>| !quotes.dom().contains(i)
}

/// Those of a poll set that have no quote.
pub open spec fn fresh(set: Seq<String>, quotes: Map<Seq<char>, Quote>) -> Seq<Seq<char>> {
    text::texts(set).filter(is_unquoted(quotes))
}

/// Whether a task is to quote just these instruments.
pub open spec fn quotes_just(t: Task, isins: Seq<Seq<char>>) -> bool {
    t matches Task::Quotes(v) && text::texts(v@) == isins
}

/// Whether a command has led from one state to another, and to these tasks.
pub open spec fn dispatched(a: Shared, b: Shared, cmd: Cmd, now: u64, tasks: Seq<Task>) -> bool {
    match cmd {
        Cmd::RefreshAll => b == a && tasks == seq![Task::Account, Task::Watchlist, Task::Targets],
        Cmd::RefreshQuotes => b == a && tasks == seq![Task::Targets],
        Cmd::SetPollSet(set) => {
            &&& b == (Shared { poll_set: set, ..a })
            &&& if fresh(set@, a.quotes@).len() > 0 && worker::seconds_until(
                a.backoff_until,
                now,
            ) is None {
                tasks.len() == 1 && quotes_just(tasks[0], fresh(set@, a.quotes@))
            } else {
                tasks.len() == 0
            }
        },
        Cmd::WatchlistAdd(isin) => {
            &&& b == a
            &&& tasks.len() == 3
            &&& tasks[0] == Task::Add(isin)
            &&& tasks[1] == Task::Watchlist
            &&& quotes_just(tasks[2], seq![isin@])
        },
        Cmd::WatchlistRemove(isin) => b == a && tasks == seq![
            Task::Remove(isin),
            Task::Watchlist,
        ],
        Cmd::LoadChart { isin, timeframe, force } => b == a && tasks == seq![
            Task::Chart { isin, timeframe, force },
        ],
        Cmd::LoadDerivatives { underlying, dtype, strategy } => b == a && tasks == seq![
            Task::Derivatives { underlying, dtype, strategy },
        ],
        Cmd::ArmTrail { isin, distance, percent } => b == a && tasks == seq![
            Task::Arm { isin, distance, percent },
            Task::SaveTrails,
        ],
        Cmd::DisarmTrail(isin) => {
            &&& b.trails@ == crate::worker::trails::without(a.trails@, isin@)
            &&& b.lines() == worker::logged(
                a.lines(),
                worker::line("trail.disarm"@, 0, true, isin@),
            )
            &&& b == (Shared { trails: b.trails, log: b.log, ..a })
            &&& tasks == seq![Task::SaveTrails]
        },
        Cmd::RatchetTrail { isin } => b == a && tasks == seq![Task::Ratchet(isin)],
        Cmd::Search(q) => b == a && tasks == seq![Task::Search(q)],
        Cmd::PreviewTrade(intent) => b == a && tasks == seq![Task::Preview(intent)],
        Cmd::SubmitTrade { intent, confirmation_id, accept_unsuitable } => b == a && tasks == seq![
            Task::Submit { intent, confirmation_id, accept_unsuitable },
            Task::Account,
        ],
        Cmd::CancelOrder(id) => b == a && tasks == seq![Task::Cancel(id), Task::Account],
        Cmd::ClearPreview => {
            &&& b == (Shared {
                preview: None,
                preview_error: None,
                order_error: None,
                order_result: None,
                ..a
            })
            &&& tasks.len() == 0
        },
        Cmd::Shutdown => b == a && tasks.len() == 0,
    }
}

impl Shared {
    /// Those of a poll set that have no quote.
    fn unquoted(&self, set: &Vec<String>) -> (r: Vec<String>)
        ensures
            text::texts(r@) == fresh(set@, self.quotes@),
    {
        let mut out: Vec<String> = Vec::new();
        let ghost all = text::texts(set@);
        let ghost f = is_unquoted(self.quotes@);
        proof {
            crate::seqs::lemma_filter_none(all, f);
            assert(text::texts(out@) =~= Seq::empty());
        }
        for i in 0..set.len()
            invariant
                all == text::texts(set@),
                f == is_unquoted(self.quotes@),
                text::texts(out@) == all.take(i as int).filter(f),
        {
            proof {
                crate::seqs::lemma_filter_next(all, f, i as int);
            }
            if !self.quotes.contains_key(&set[i]) {
                let ghost before = text::texts(out@);
                out.push(set[i].clone());
                assert(text::texts(out@) =~= before.push(all[i as int]));
            }
        }
        assert(all.take(all.len() as int) =~= all);
        out
    }

    /// What a command changes at once, and the tasks that it takes, in order.
    pub fn handle(&mut self, cmd: Cmd, now: u64) -> (tasks: Vec<Task>)
        ensures
            dispatched(*old(self), *final(self), cmd, now, tasks@),
    {
        match cmd {
            Cmd::RefreshAll => {
                let tasks: Vec<Task> = vec![Task::Account, Task::Watchlist, Task::Targets];
                assert(tasks@ =~= seq![Task::Account, Task::Watchlist, Task::Targets]);
                tasks
            },
            Cmd::RefreshQuotes => {
                let tasks: Vec<Task> = vec![Task::Targets];
                assert(tasks@ =~= seq![Task::Targets]);
                tasks
            },
            Cmd::SetPollSet(set) => {
                // What has come on screen has no quote yet, and would show nothing
                // for as long as a poll takes to come round.
                let wanted = self.unquoted(&set);
                self.poll_set = set;
                let mut tasks: Vec<Task> = Vec::new();
                assert(fresh(set@, old(self).quotes@).len() == wanted@.len());
                if wanted.len() > 0 && self.backoff_secs_left(now).is_none() {
                    tasks.push(Task::Quotes(wanted));
                }
                tasks
            },
            Cmd::WatchlistAdd(isin) => {
                let one: Vec<String> = vec![isin.clone()];
                assert(text::texts(one@) =~= seq![isin@]);
                let tasks: Vec<Task> = vec![Task::Add(isin), Task::Watchlist, Task::Quotes(one)];
                tasks
            },
            Cmd::WatchlistRemove(isin) => {
                let tasks: Vec<Task> = vec![Task::Remove(isin), Task::Watchlist];
                assert(tasks@ =~= seq![Task::Remove(isin), Task::Watchlist]);
                tasks
            },
            Cmd::LoadChart { isin, timeframe, force } => {
                let tasks: Vec<Task> = vec![Task::Chart { isin, timeframe, force }];
                assert(tasks@ =~= seq![Task::Chart { isin, timeframe, force }]);
                tasks
            },
            Cmd::LoadDerivatives { underlying, dtype, strategy } => {
                let tasks: Vec<Task> = vec![Task::Derivatives { underlying, dtype, strategy }];
                assert(tasks@ =~= seq![Task::Derivatives { underlying, dtype, strategy }]);
                tasks
            },
            Cmd::ArmTrail { isin, distance, percent } => {
                let tasks: Vec<Task> = vec![
                    Task::Arm { isin, distance, percent },
                    Task::SaveTrails,
                ];
                assert(tasks@ =~= seq![Task::Arm { isin, distance, percent }, Task::SaveTrails]);
                tasks
            },
            Cmd::DisarmTrail(isin) => {
                self.disarm_trail(isin.as_str());
                let tasks: Vec<Task> = vec![Task::SaveTrails];
                assert(tasks@ =~= seq![Task::SaveTrails]);
                tasks
            },
            Cmd::RatchetTrail { isin } => {
                let tasks: Vec<Task> = vec![Task::Ratchet(isin)];
                assert(tasks@ =~= seq![Task::Ratchet(isin)]);
                tasks
            },
            Cmd::Search(q) => {
                let tasks: Vec<Task> = vec![Task::Search(q)];
                assert(tasks@ =~= seq![Task::Search(q)]);
                tasks
            },
            Cmd::PreviewTrade(intent) => {
                let tasks: Vec<Task> = vec![Task::Preview(intent)];
                assert(tasks@ =~= seq![Task::Preview(intent)]);
                tasks
            },
            Cmd::SubmitTrade { intent, confirmation_id, accept_unsuitable } => {
                let tasks: Vec<Task> = vec![
                    Task::Submit { intent, confirmation_id, accept_unsuitable },
                    Task::Account,
                ];
                assert(tasks@ =~= seq![
                    Task::Submit { intent, confirmation_id, accept_unsuitable },
                    Task::Account,
                ]);
                tasks
            },
            Cmd::CancelOrder(id) => {
                let tasks: Vec<Task> = vec![Task::Cancel(id), Task::Account];
                assert(tasks@ =~= seq![Task::Cancel(id), Task::Account]);
                tasks
            },
            Cmd::ClearPreview => {
                self.preview = None;
                self.preview_error = None;
                self.order_error = None;
                self.order_result = None;
                Vec::new()
            },
            Cmd::Shutdown => Vec::new(),
        }
    }

    /// Ends a wait that is over, and gives back the chart that was put off, to be
    /// asked for now.
    pub fn resume(&mut self, now: u64) -> (r: Option<(String, String)>)
        ensures
            resumed(*old(self), *final(self), now, r),
    {
        if self.backoff_secs_left(now).is_some() {
            return None;
        }
        if self.backoff_until.is_some() {
            self.backoff_until = None;
            self.push_log("rate limit", 0, true, "backoff cleared, resuming".to_owned());
        }
        self.deferred_chart.take()
    }

    /// What to poll once a poll is due, given the time between polls. Nothing is
    /// polled while waiting, or where that time is nothing.
    pub fn poll_now(&self, interval: u64, now: u64) -> (r: Vec<String>)
        ensures
            text::texts(r@) == polled(*self, interval, now),
    {
        if interval > 0 && self.backoff_secs_left(now).is_none() {
            let targets = self.poll_targets();
            let ghost all = targets@;
            let list = poll_list(targets, self.probe_next);
            proof {
                if all.len() > 1 {
                    assert(text::texts(all.take(1)) =~= text::texts(all).take(1));
                }
            }
            list
        } else {
            let none: Vec<String> = Vec::new();
            assert(text::texts(none@) =~= Seq::empty());
            none
        }
    }
}

/// Whether a wait that is over has been ended, with the chart that was put off.
pub open spec fn resumed(a: Shared, b: Shared, now: u64, r: Option<(String, String)>) -> bool {
    if worker::seconds_until(a.backoff_until, now) is Some {
        r is None && b == a
    } else {
        &&& r == a.deferred_chart
        &&& b.lines() == if a.backoff_until is Some {
            worker::logged(
                a.lines(),
                worker::line("rate limit"@, 0, true, "backoff cleared, resuming"@),
            )
        } else {
            a.lines()
        }
        &&& b == (Shared { backoff_until: None, deferred_chart: None, log: b.log, ..a })
    }
}

/// What is polled once a poll is due: while probing, one instrument alone.
pub open spec fn polled(a: Shared, interval: u64, now: u64) -> Seq<Seq<char>> {
    if interval > 0 && worker::seconds_until(a.backoff_until, now) is None {
        if a.probe_next && a.targets().len() > 1 {
            a.targets().take(1)
        } else {
            a.targets()
        }
    } else {
        Seq::empty()
    }
}

/// When the next poll is due. Where there is to be none, it is looked into again
/// after an hour.
pub fn next_poll(now: u64, interval: u64) -> (r: u64)
    ensures
        r == if interval > 0 {
            if now + interval > u64::MAX {
                u64::MAX
            } else {
                (now + interval) as u64
            }
        } else {
            worker::after(now, 3600)
        },
        now <= r,
        interval > 0 && now + interval <= u64::MAX ==> r == now + interval,
        interval == 0 && now + 3_600_000_000_000 <= u64::MAX ==> r == now + 3_600_000_000_000,
{
    let pause: u64 = if interval > 0 {
        interval
    } else {
        3600 * SECOND
    };
    if now > u64::MAX - pause {
        u64::MAX
    } else {
        now + pause
    }
}

/// How long to wait for a command before looking at the time again.
pub fn wait_for(now: u64, next: u64) -> (r: u64)
    ensures
        r == if next <= now {
            0
        } else if next - now < 250_000_000 {
            next - now
        } else {
            250_000_000
        },
        r <= 250_000_000,
        next <= now <==> r == 0,
        next > now ==> now + r <= next,
        next > now && now + r < next ==> r == 250_000_000,
{
    if next <= now {
        0
    } else if next - now < 250_000_000 {
        next - now
    } else {
        250_000_000
    }
}

fn words_of(parts: Vec<&str>) -> (r: Vec<String>)
    ensures
        text::texts(r@) == parts@.map_values(|p: &str| p@),
{
    let mut out: Vec<String> = Vec::new();
    let ghost all = parts@.map_values(|p: &str| p@);
    for i in 0..parts.len()
        invariant
            all == parts@.map_values(|p: &str| p@),
            text::texts(out@) == all.take(i as int),
    {
        let ghost before = text::texts(out@);
        let word = parts[i].to_owned();
        out.push(word);
        assert(all[i as int] == word@);
        assert(text::texts(out@) =~= before.push(word@));
        assert(text::texts(out@) =~= all.take(i + 1));
    }
    assert(all.take(all.len() as int) =~= all);
    out
}

/// The command line that asks for a quote.
pub fn quote_args(isin: &str) -> (r: Vec<String>)
    ensures
        text::texts(r@) == seq!["broker"@, "quote"@, "--isin"@, isin@],
{
    let r = words_of(vec!["broker", "quote", "--isin", isin]);
    assert(text::texts(r@) =~= seq!["broker"@, "quote"@, "--isin"@, isin@]);
    r
}

/// The command line that asks for a chart.
pub fn chart_args(isin: &str, timeframe: &str) -> (r: Vec<String>)
    ensures
        text::texts(r@) == seq![
            "broker"@,
            "chart"@,
            "--isin"@,
            isin@,
            "--timeframe"@,
            timeframe@,
        ],
{
    let r = words_of(vec!["broker", "chart", "--isin", isin, "--timeframe", timeframe]);
    assert(text::texts(r@) =~= seq![
        "broker"@,
        "chart"@,
        "--isin"@,
        isin@,
        "--timeframe"@,
        timeframe@,
    ]);
    r
}

/// The command line that asks for derivatives.
pub fn derivatives_args(underlying: &str, dtype: &str, strategy: &str) -> (r: Vec<String>)
    ensures
        text::texts(r@) == seq![
            "broker"@,
            "derivatives"@,
            "search"@,
            "--underlying"@,
            underlying@,
            "--type"@,
            dtype@,
            "--strategy"@,
            strategy@,
            "--limit"@,
            "50"@,
        ],
{
    let r = words_of(
        vec![
            "broker",
            "derivatives",
            "search",
            "--underlying",
            underlying,
            "--type",
            dtype,
            "--strategy",
            strategy,
            "--limit",
            "50",
        ],
    );
    assert(text::texts(r@) =~= seq![
        "broker"@,
        "derivatives"@,
        "search"@,
        "--underlying"@,
        underlying@,
        "--type"@,
        dtype@,
        "--strategy"@,
        strategy@,
        "--limit"@,
        "50"@,
    ]);
    r
}

/// The command line that lists an instrument, or takes it off the list.
pub fn watchlist_args(action: &str, isin: &str) -> (r: Vec<String>)
    ensures
        text::texts(r@) == seq!["broker"@, "watchlist"@, action@, "--isin"@, isin@],
{
    let r = words_of(vec!["broker", "watchlist", action, "--isin", isin]);
    assert(text::texts(r@) =~= seq!["broker"@, "watchlist"@, action@, "--isin"@, isin@]);
    r
}

/// The command line that cancels an order.
pub fn cancel_args(id: &str) -> (r: Vec<String>)
    ensures
        text::texts(r@) == seq!["broker"@, "trade"@, "cancel"@, "--order-id"@, id@],
{
    let r = words_of(vec!["broker", "trade", "cancel", "--order-id", id]);
    assert(text::texts(r@) =~= seq!["broker"@, "trade"@, "cancel"@, "--order-id"@, id@]);
    r
}

/// The command line of a query of the broker: the name of the query, and behind
/// it what is searched for, which is no option.
pub fn broker_args(query: &str, about: Option<&str>) -> (r: Vec<String>)
    ensures
        text::texts(r@) == (match about {
            Some(a) => seq!["broker"@, query@, a@],
            None => seq!["broker"@, query@],
        }),
{
    match about {
        Some(a) => {
            let r = words_of(vec!["broker", query, a]);
            assert(text::texts(r@) =~= seq!["broker"@, query@, a@]);
            r
        },
        None => {
            let r = words_of(vec!["broker", query]);
            assert(text::texts(r@) =~= seq!["broker"@, query@]);
            r
        },
    }
}

/// Nothing is polled while waiting, and a probe costs one call at most.
pub proof fn law_polling_respects_the_limit(a: Shared, interval: u64, now: u64)
    ensures
        worker::seconds_until(a.backoff_until, now) is Some ==> polled(a, interval, now).len()
            == 0,
        a.probe_next ==> polled(a, interval, now).len() <= 1,
{
}

/// A chart that is put off while waiting is given back once the wait is over, and
/// can then be asked for.
pub proof fn law_a_deferred_chart_is_asked_for(
    a: Shared,
    b: Shared,
    c: Shared,
    isin: Seq<char>,
    timeframe: Seq<char>,
    force: bool,
    now: u64,
    later: u64,
    r: Option<(String, String)>,
)
    requires
        chart::wanted_chart(a, b, isin, timeframe, force, now, false),
        force || !a.chart_cache@.dom().contains(chart::chart_key(isin, timeframe)),
        worker::seconds_until(b.backoff_until, later) is None,
        resumed(b, c, later, r),
    ensures
        seen_pair(r) == Some((isin, timeframe)),
        worker::seconds_until(c.backoff_until, later) is None,
{
}

} // verus!
