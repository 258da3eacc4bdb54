use scalable_terminal::model::{Holding, OrderType, PendingOrder, Quote, Side, Trail};
use scalable_terminal::num::Num;
use scalable_terminal::sc::{answered, Call};
use scalable_terminal::worker::account::AccountCalls;
use scalable_terminal::worker::flow::{
    broker_args, cancel_args, chart_args, derivatives_args, next_poll, quote_args, wait_for,
    watchlist_args,
};
use scalable_terminal::worker::intent::fmt_num;
use scalable_terminal::worker::quotes::{quote_result, QuoteResult};
use scalable_terminal::worker::trade::{replacement, Ratchet};
use scalable_terminal::worker::{
    backoff_for, poll_list, timeframes, Arg, Cmd, Shared, Task, TradeIntent, QUOTE_FANOUT,
    RATE_LIMIT_BACKOFF, RATE_LIMIT_BACKOFF_MAX, SECOND,
};

fn n(x: f64) -> Num {
    Num { bits: x.to_bits() }
}

fn f(x: Num) -> f64 {
    f64::from_bits(x.bits)
}

fn texts(a: &[&str]) -> Vec<String> {
    a.iter().map(|s| s.to_string()).collect()
}

fn call(stdout: &str, exit: i32) -> Call {
    answered(texts(&["broker", "x", "--json"]), 120, stdout.to_string(), String::new(), Some(exit))
}

fn fine(data: &str) -> Call {
    call(&format!(r#"{{"ok":true,"data":{data}}}"#), 0)
}

fn failed(code: &str, exit: i32) -> Call {
    call(&format!(r#"{{"ok":false,"error":{{"code":"{code}","message":"no"}}}}"#), exit)
}

fn last(s: &Shared) -> (String, u128, bool, String) {
    let l = s.log.last().unwrap();
    (l.cmd.clone(), l.ms, l.ok, l.detail.clone())
}

fn line(cmd: &str, ms: u128, ok: bool, detail: &str) -> (String, u128, bool, String) {
    (cmd.to_string(), ms, ok, detail.to_string())
}

fn holding(isin: &str, q: f64) -> Holding {
    Holding { isin: isin.to_string(), quantity: n(q), ..Default::default() }
}

fn stop_order(isin: &str, id: &str, q: Option<f64>) -> PendingOrder {
    PendingOrder {
        id: id.to_string(),
        isin: isin.to_string(),
        side: "Sell".to_string(),
        quantity: q.map(n),
        stop_price: Some(n(9.0)),
        ..Default::default()
    }
}

/// Backoff bookkeeping. A lapsed hold must report itself clear, or polling never
/// resumes and the deferred chart retry never fires.
#[test]
fn backoff_reports_itself_clear_once_it_lapses() {
    let now = 1000 * SECOND;
    let mut s = Shared::default();
    assert!(s.backoff_secs_left(now).is_none(), "no hold by default");

    s.backoff_until = Some(now + 90 * SECOND);
    let left = s.backoff_secs_left(now).expect("held off");
    assert!(
        (80..=91).contains(&left),
        "countdown reports ~90s, got {left}"
    );

    s.backoff_until = Some(now - 1 * SECOND);
    assert!(
        s.backoff_secs_left(now).is_none(),
        "a lapsed hold must read clear"
    );

    // The measured recovery on this backend was 46s; the constant must exceed it.
    assert!(RATE_LIMIT_BACKOFF >= 60);
}

/// A fixed pause is not enough when the limit is a rolling quota: retrying at
/// full rate after every pause trips it again and the app never recovers.
#[test]
fn backoff_doubles_and_then_caps() {
    assert_eq!(backoff_for(0), RATE_LIMIT_BACKOFF);
    assert_eq!(backoff_for(1), RATE_LIMIT_BACKOFF * 2);
    assert_eq!(backoff_for(2), RATE_LIMIT_BACKOFF * 4);

    // Never shrinks as the level rises.
    for level in 0..12 {
        assert!(
            backoff_for(level + 1) >= backoff_for(level),
            "level {level}"
        );
    }

    // And never grows without bound, however many refusals arrive.
    for level in 0..64 {
        assert!(
            backoff_for(level) <= RATE_LIMIT_BACKOFF_MAX,
            "level {level}"
        );
    }
    assert_eq!(backoff_for(32), RATE_LIMIT_BACKOFF_MAX);

    // The first pause has to be longer than the 46 seconds recovery measured
    // against the live backend, or the retry lands while still refused.
    assert!(backoff_for(0) >= 60);
}

/// After a pause the app must spend one call finding out whether the limit has
/// lifted. Retrying the whole watchlist is what kept it in a refusal loop.
#[test]
fn probe_round_polls_a_single_instrument() {
    let all: Vec<String> = ["A", "B", "C", "D"].iter().map(|s| s.to_string()).collect();

    assert_eq!(
        poll_list(all.clone(), false).len(),
        4,
        "normal rounds poll everything"
    );
    assert_eq!(
        poll_list(all.clone(), true).len(),
        1,
        "a probe costs one call"
    );
    assert_eq!(poll_list(all, true)[0], "A");

    // Nothing to poll stays nothing, in either mode.
    assert!(poll_list(Vec::new(), true).is_empty());
    assert!(poll_list(Vec::new(), false).is_empty());

    // A single instrument is already its own probe.
    let one = vec!["X".to_string()];
    assert_eq!(poll_list(one.clone(), true), one);
    assert_eq!(poll_list(one.clone(), false), one);
}

#[test]
fn waits_in_seconds() {
    let waits: Vec<u64> = (0..8).map(backoff_for).collect();
    assert_eq!(waits, vec![90, 180, 360, 720, 900, 900, 900, 900]);
    assert_eq!(backoff_for(u32::MAX), 900);
    let mut s = Shared::default();
    s.backoff_until = Some(10 * SECOND + 1);
    assert_eq!(s.backoff_secs_left(0), Some(11));
    assert_eq!(s.backoff_secs_left(10 * SECOND), Some(1));
    assert_eq!(s.backoff_secs_left(10 * SECOND + 1), None);
    assert_eq!(timeframes(), vec!["1d", "7d", "1m", "3m", "6m", "ytd", "1y", "max"]);
    assert_eq!(QUOTE_FANOUT, 8);
}

#[test]
fn a_refusal_starts_a_wait_that_grows() {
    let mut s = Shared::default();
    s.note_rate_limit("broker.chart", 5 * SECOND);
    assert_eq!(s.backoff_until, Some(95 * SECOND));
    assert_eq!(s.backoff_level, 1);
    assert!(s.probe_next);
    assert_eq!(
        last(&s),
        line("rate limited", 0, false, "broker.chart: backing off 90s (attempt 1)")
    );
    s.note_rate_limit("x", 100 * SECOND);
    assert_eq!(s.backoff_until, Some(280 * SECOND));
    s.backoff_level = 6;
    s.note_rate_limit("x", u64::MAX);
    assert_eq!((s.backoff_level, s.backoff_until), (6, Some(u64::MAX)));
}

#[test]
fn the_log_keeps_its_newest_lines() {
    let mut s = Shared::default();
    for i in 0..450 {
        s.push_log("c", i, true, String::new());
    }
    assert_eq!(s.log.len(), 400);
    assert_eq!((s.log[0].ms, s.log[399].ms), (50, 449));
    s.log_call("n", &failed("c", 0), "about");
    assert_eq!(last(&s), line("n", 120, false, "about: [c] no"));
}

#[test]
fn commands_become_tasks() {
    let mut s = Shared::default();
    let t = s.handle(Cmd::RefreshAll, 0);
    assert!(matches!(t.as_slice(), [Task::Account, Task::Watchlist, Task::Targets]));
    assert!(matches!(s.handle(Cmd::RefreshQuotes, 0).as_slice(), [Task::Targets]));
    let t = s.handle(Cmd::WatchlistAdd("X".to_string()), 0);
    match t.as_slice() {
        [Task::Add(a), Task::Watchlist, Task::Quotes(q)] => {
            assert_eq!(a, "X");
            assert_eq!(*q, texts(&["X"]));
        }
        other => panic!("{other:?}"),
    }
    let t = s.handle(Cmd::WatchlistRemove("X".to_string()), 0);
    assert!(matches!(t.as_slice(), [Task::Remove(_), Task::Watchlist]));
    let t = s.handle(Cmd::CancelOrder("o".to_string()), 0);
    assert!(matches!(t.as_slice(), [Task::Cancel(_), Task::Account]));
    let t = s.handle(
        Cmd::SubmitTrade {
            intent: replacement("X", n(1.0), n(2.0)),
            confirmation_id: "id".to_string(),
            accept_unsuitable: false,
        },
        0,
    );
    assert!(matches!(t.as_slice(), [Task::Submit { .. }, Task::Account]));
    let t = s.handle(
        Cmd::ArmTrail { isin: "X".to_string(), distance: n(0.1), percent: true },
        0,
    );
    assert!(matches!(t.as_slice(), [Task::Arm { .. }, Task::SaveTrails]));
    s.order_result = Some("r".to_string());
    s.preview_error = Some("e".to_string());
    assert!(s.handle(Cmd::ClearPreview, 0).is_empty());
    assert!(s.order_result.is_none() && s.preview_error.is_none());
    assert!(s.handle(Cmd::Shutdown, 0).is_empty());
    s.trails.push(Trail::new("X", n(0.1), true, n(1.0)));
    let t = s.handle(Cmd::DisarmTrail("X".to_string()), 0);
    assert!(matches!(t.as_slice(), [Task::SaveTrails]));
    assert!(s.trails.is_empty());
}

#[test]
fn a_new_poll_set_quotes_what_has_no_quote() {
    let mut s = Shared::default();
    s.quotes.insert("B".to_string(), Quote::unquoted("B"));
    let set = texts(&["A", "B", "C"]);
    match s.handle(Cmd::SetPollSet(set.clone()), 0).as_slice() {
        [Task::Quotes(q)] => assert_eq!(*q, texts(&["A", "C"])),
        other => panic!("{other:?}"),
    }
    assert_eq!(s.poll_set, set);
    s.backoff_until = Some(SECOND);
    assert!(s.handle(Cmd::SetPollSet(set), 0).is_empty());
    assert!(s.handle(Cmd::SetPollSet(texts(&["B"])), 2 * SECOND).is_empty());
}

#[test]
fn polling_falls_back_to_the_watchlist_and_the_holdings() {
    let mut s = Shared::default();
    s.watchlist = texts(&["A", "B"]);
    s.holdings = vec![holding("B", 1.0), holding("", 1.0), holding("C", 1.0)];
    assert_eq!(s.poll_targets(), texts(&["A", "B", "C"]));
    assert_eq!(s.poll_now(SECOND, 0), texts(&["A", "B", "C"]));
    assert!(s.poll_now(0, 0).is_empty());
    s.probe_next = true;
    assert_eq!(s.poll_now(SECOND, 0), texts(&["A"]));
    s.poll_set = texts(&["Z"]);
    assert_eq!(s.poll_targets(), texts(&["Z"]));
    s.backoff_until = Some(9);
    assert!(s.poll_now(SECOND, 8).is_empty());
    assert_eq!(s.poll_now(SECOND, 9), texts(&["Z"]));
}

#[test]
fn polls_are_due_after_the_interval() {
    assert_eq!(next_poll(5, 7), 12);
    assert_eq!(next_poll(5, 0), 5 + 3600 * SECOND);
    assert_eq!(next_poll(u64::MAX - 1, 7), u64::MAX);
    assert_eq!(wait_for(10, 3), 0);
    assert_eq!(wait_for(10, 13), 3);
    assert_eq!(wait_for(0, SECOND), 250_000_000);
}

#[test]
fn command_lines() {
    assert_eq!(quote_args("X").join(" "), "broker quote --isin X");
    assert_eq!(chart_args("X", "1d").join(" "), "broker chart --isin X --timeframe 1d");
    assert_eq!(
        derivatives_args("X", "knockout", "long").join(" "),
        "broker derivatives search --underlying X --type knockout --strategy long --limit 50"
    );
    assert_eq!(watchlist_args("add", "X").join(" "), "broker watchlist add --isin X");
    assert_eq!(cancel_args("o").join(" "), "broker trade cancel --order-id o");
    assert_eq!(broker_args("search", Some("a b")), texts(&["broker", "search", "a b"]));
    assert_eq!(broker_args("overview", None), texts(&["broker", "overview"]));
}

#[test]
fn a_session_is_lost_only_by_an_auth_failure() {
    let mut s = Shared::default();
    let who = r#"{"result":{"personOverview":{"personalDetails":{"firstName":" Ada ","lastName":"L"}}}}"#;
    s.check_session(&fine(who), 0);
    assert_eq!(s.session.as_deref(), Some("Ada  L"));
    assert_eq!(last(&s), line("whoami", 120, true, "session ok"));

    s.check_session(&failed("device_locked", 20), 0);
    assert_eq!(s.session.as_deref(), Some("Ada  L"));
    assert_eq!(s.session_error.as_deref(), Some("Mac is locked, unlock it to resume"));

    s.check_session(&failed("rate_limited", 30), 0);
    assert_eq!(s.session_error.as_deref(), Some("rate limited, retrying shortly"));
    assert_eq!(s.backoff_until, Some(90 * SECOND));
    assert!(s.session.is_some());

    s.check_session(&failed("odd", 1), 0);
    assert_eq!(s.session_error.as_deref(), Some("[odd] no"));
    assert!(s.session.is_some());

    s.check_session(&failed("no_session", 20), 0);
    assert!(s.session.is_none());
    assert_eq!(s.session_error.as_deref(), Some("[no_session] no — run `sc login`"));

    s.check_session(&fine("{}"), 0);
    assert_eq!(s.session.as_deref(), Some("authenticated"));
    assert!(s.session_error.is_none());
}

fn account_calls(holdings: &str, transactions: &str) -> AccountCalls {
    AccountCalls {
        overview: fine(r#"{"result":{"valuation":{"total":10}}}"#),
        cash: failed("odd", 1),
        holdings: fine(holdings),
        transactions: fine(transactions),
        analytics: fine("{}"),
    }
}

#[test]
fn an_account_is_refreshed_part_by_part() {
    let mut s = Shared::default();
    s.account.cash = Some(n(3.0));
    s.refresh_account(Some(account_calls(
        r#"{"result":{"items":[{"isin":"A","name":"Alpha","quantity":2},{"isin":"B"}]}}"#,
        r#"{"items":[{"id":"1","type":"SECURITY_TRANSACTION","status":"PENDING","isin":"A"}]}"#,
    )));
    assert_eq!(s.account.total.map(f), Some(10.0));
    assert_eq!(s.account.cash.map(f), Some(3.0));
    assert_eq!(s.holdings.len(), 2);
    assert_eq!(s.orders.len(), 1);
    assert_eq!(s.names.get(&"A".to_string()).map(|x| x.as_str()), Some("Alpha"));
    assert!(!s.names.contains_key(&"B".to_string()));
    let shown: Vec<(&str, bool, &str)> =
        s.log.iter().map(|l| (l.cmd.as_str(), l.ok, l.detail.as_str())).collect();
    assert_eq!(
        shown,
        vec![
            ("broker.overview", true, ""),
            ("broker.cash-breakdown", false, "[odd] no"),
            ("broker.holdings", true, "2 positions"),
            ("broker.transactions", true, "1 working"),
            ("broker.analytics", true, ""),
        ]
    );
    s.refresh_account(None);
    assert_eq!(last(&s), line("refresh", 0, false, "an sc call panicked"));
    assert_eq!(s.holdings.len(), 2);
}

#[test]
fn a_gap_closes_once_a_stop_rests() {
    let mut s = Shared::default();
    s.trail_gap = Some("A".to_string());
    s.refresh_account(Some(account_calls("{}", "{}")));
    assert_eq!(s.trail_gap.as_deref(), Some("A"));
    s.refresh_account(Some(account_calls(
        "{}",
        r#"{"items":[{"id":"1","type":"SECURITY_TRANSACTION","status":"PENDING","isin":"A",
            "side":"SELL","stop_price":3}]}"#,
    )));
    assert!(s.trail_gap.is_none());
    assert!(s.log.iter().any(|l| l.cmd == "trail.gap" && l.detail == "A protected again"));
}

#[test]
fn the_watchlist_seeds_rows_and_keeps_quotes() {
    let mut s = Shared::default();
    let mut q = Quote::unquoted("A");
    q.mid = Some(n(5.0));
    s.quotes.insert("A".to_string(), q);
    s.refresh_watchlist(&fine(
        r#"{"result":{"items":[{"isin":"A","quote_mid_price":1},{"isin":"B","name":"Beta",
            "quote_mid_price":2},{"isin":"B","quote_mid_price":3},{"name":"none"},{"isin":""}]}}"#,
    ));
    assert_eq!(s.watchlist, texts(&["A", "B", "B", ""]));
    assert_eq!(s.mid_of(&"A".to_string()).map(f), Some(5.0));
    assert_eq!(s.mid_of(&"B".to_string()).map(f), Some(2.0));
    assert!(!s.quotes.contains_key(&String::new()));
    assert_eq!(last(&s), line("broker.watchlist", 120, true, "4 items"));
    s.refresh_watchlist(&failed("odd", 1));
    assert_eq!(s.watchlist.len(), 4);
}

#[test]
fn a_declined_instrument_is_told_of() {
    let mut s = Shared::default();
    s.holdings = vec![holding("H", 1.0)];
    let no = fine(r#"{"result":{"is_on_watchlist":false}}"#);
    s.watchlist_added("X", &no);
    assert_eq!(s.watchlist_error.as_deref(), Some("X was declined by the broker"));
    assert_eq!(last(&s), line("watchlist.add", 0, false, "X declined"));
    s.watchlist_added("H", &no);
    assert_eq!(
        s.watchlist_error.as_deref(),
        Some("H is a position you hold; Scalable will not watchlist it. It is in Positions.")
    );
    s.watchlist_added("X", &fine(r#"{"result":{"is_on_watchlist":true}}"#));
    assert!(s.watchlist_error.is_none());
    s.watchlist_added("X", &failed("odd", 1));
    assert!(s.watchlist_error.is_none());
    assert_eq!(last(&s), line("watchlist.add", 120, false, "X: [odd] no"));
}

fn round(s: &mut Shared, isins: &[(&str, Call)], now: u64) -> bool {
    let rs: Vec<QuoteResult> = isins.iter().map(|(i, c)| quote_result(i, c)).collect();
    s.refresh_quotes(rs, 77, now)
}

#[test]
fn a_round_takes_in_quotes_and_raises_marks() {
    let mut s = Shared::default();
    s.trails = vec![
        Trail::new("A", n(0.1), true, n(10.0)),
        Trail::new("A", n(0.2), true, n(10.0)),
        Trail::new("B", n(0.1), true, n(10.0)),
    ];
    s.backoff_level = 2;
    s.probe_next = true;
    let up = round(
        &mut s,
        &[
            ("A", fine(r#"{"result":{"name":"Alpha","quote_mid_price":12}}"#)),
            ("B", fine(r#"{"result":{"quote_mid_price":9}}"#)),
        ],
        0,
    );
    assert!(up);
    let marks: Vec<f64> = s.trails.iter().map(|t| f(t.high_water)).collect();
    assert_eq!(marks, vec![12.0, 10.0, 10.0]);
    assert_eq!((s.backoff_level, s.probe_next), (0, false));
    assert_eq!((s.last_round_ms, s.last_round_calls), (77, 2));
    assert_eq!(f(s.quote_ms_avg), 120.0);
    let shown: Vec<(&str, &str)> =
        s.log.iter().map(|l| (l.cmd.as_str(), l.detail.as_str())).collect();
    assert_eq!(
        shown,
        vec![
            ("trail.mark", "high water advanced"),
            ("quote round", "2 isins, 0 failed, 120 ms/call"),
            ("rate limit", "clear, resuming full rate"),
        ]
    );
    assert_eq!(s.names.get(&"A".to_string()).map(|x| x.as_str()), Some("Alpha"));
    assert!(!round(&mut s, &[("A", fine(r#"{"quote_mid_price":12}"#))], 0));
}

#[test]
fn a_refused_round_waits_and_a_failed_one_proves_nothing() {
    let mut s = Shared::default();
    s.backoff_level = 1;
    s.probe_next = true;
    round(&mut s, &[("A", failed("odd", 1))], 0);
    assert_eq!((s.backoff_level, s.probe_next), (1, true));
    assert!(s.backoff_until.is_none());
    assert_eq!(last(&s), line("quote round", 77, false, "1 isins, 1 failed, 120 ms/call"));
    assert_eq!(s.log[0].detail, "A: [odd] no");
    round(&mut s, &[("A", fine("{}")), ("B", failed("rate_limited", 30))], SECOND);
    assert_eq!(s.backoff_level, 2);
    assert_eq!(s.backoff_until, Some(181 * SECOND));
    assert_eq!(
        last(&s),
        line("rate limited", 0, false, "broker.quote: backing off 180s (attempt 2)")
    );
}

/// A round in which nothing was asked for proves nothing and changes nothing.
#[test]
fn a_round_over_nothing_changes_nothing() {
    let mut s = Shared::default();
    s.trails = vec![Trail::new("A", n(0.1), true, n(10.0))];
    let mut q = Quote::unquoted("A");
    q.mid = Some(n(12.0));
    s.quotes.insert("A".to_string(), q);
    s.backoff_level = 2;
    s.probe_next = true;
    s.quote_ms_avg = n(33.0);
    s.last_round_ms = 9;
    s.last_round_calls = 4;
    assert!(!round(&mut s, &[], 0));
    assert_eq!((s.backoff_level, s.probe_next), (2, true));
    assert_eq!((f(s.quote_ms_avg), s.last_round_ms, s.last_round_calls), (33.0, 9, 4));
    assert_eq!(f(s.trails[0].high_water), 10.0);
    assert!(s.log.is_empty());
}

#[test]
fn the_mean_of_a_round_is_rounded_to_even() {
    let one = |ms: u64| QuoteResult {
        isin: "A".to_string(),
        quote: Some(Quote::unquoted("A")),
        ms,
        error: None,
    };
    for (times, shown) in [
        (vec![1u64, 2], "2 isins, 0 failed, 2 ms/call"),
        (vec![2, 3], "2 isins, 0 failed, 2 ms/call"),
        (vec![1, 1, 2], "3 isins, 0 failed, 1 ms/call"),
        (vec![1, 2, 2], "3 isins, 0 failed, 2 ms/call"),
    ] {
        let mut s = Shared::default();
        let mean = times.iter().sum::<u64>() as f64 / times.len() as f64;
        s.refresh_quotes(times.iter().map(|t| one(*t)).collect(), 5, 0);
        assert_eq!(last(&s).3, shown);
        assert_eq!(f(s.quote_ms_avg), mean);
        assert!(shown.ends_with(&format!("{mean:.0} ms/call")));
    }
}

const POINTS: &str = r#"{"isin":"X","timeframe":"1d","data_points":[{"mid_price":1},{"mid_price":2}]}"#;

#[test]
fn charts_are_kept_put_off_and_asked_for() {
    let mut s = Shared::default();
    assert!(s.want_chart("X", "1d", false, 0));
    assert!(s.chart_loading);
    s.load_chart("X", "1d", &fine(POINTS), 0);
    assert!(!s.chart_loading);
    assert_eq!(s.chart.points.len(), 2);
    assert_eq!(last(&s), line("broker.chart", 120, true, "X 1d: 2 pts"));

    // It is kept, so it is not asked for again unless it is to be.
    assert!(!s.want_chart("X", "1d", false, 0));
    assert!(s.want_chart("X", "1d", true, 0));
    assert!(s.want_chart("X", "7d", false, 0));

    s.load_chart("X", "7d", &failed("rate_limited", 30), 0);
    assert_eq!(s.chart_error.as_deref(), Some("rate limited — retrying in 90s"));
    assert!(s.chart.points.is_empty());
    assert_eq!((s.chart.isin.as_str(), s.chart.timeframe.as_str()), ("X", "7d"));
    assert_eq!(s.deferred_chart, Some(("X".to_string(), "7d".to_string())));

    // While waiting nothing is asked for, and the last one wanted is put off.
    assert!(!s.want_chart("Y", "1m", true, 30 * SECOND));
    assert_eq!(s.chart_error.as_deref(), Some("rate limited — retrying in 61s"));
    assert!(!s.want_chart("X", "1d", false, 30 * SECOND));
    assert_eq!(s.chart.points.len(), 2);
    assert!(s.resume(30 * SECOND).is_none());
    assert_eq!(s.resume(90 * SECOND), Some(("Y".to_string(), "1m".to_string())));
    assert_eq!(last(&s), line("rate limit", 0, true, "backoff cleared, resuming"));
    assert!(s.resume(90 * SECOND).is_none());
    assert!(s.backoff_until.is_none());
}

/// The message names the wait that the refusal has started, which doubles.
#[test]
fn a_refusal_says_how_long_the_wait_is() {
    let mut s = Shared::default();
    for secs in [90u64, 180, 360, 720, 900, 900] {
        s.load_chart("X", "7d", &failed("rate_limited", 30), 0);
        let said = format!("rate limited — retrying in {secs}s");
        assert_eq!(s.chart_error.as_deref(), Some(said.as_str()));
        assert_eq!(s.backoff_until, Some(secs * SECOND));
    }
    let mut s = Shared::default();
    s.backoff_level = 1;
    s.load_derivatives("X", "knockout", "long", &failed("rate_limited", 30), 0);
    assert_eq!(s.derivatives_error.as_deref(), Some("rate limited — retry in 180s"));
    assert_eq!(s.backoff_until, Some(180 * SECOND));
}

#[test]
fn a_failed_chart_shows_its_error() {
    let mut s = Shared::default();
    s.load_chart("X", "1d", &failed("odd", 1), 0);
    assert_eq!(s.chart_error.as_deref(), Some("[odd] no"));
    assert!(s.deferred_chart.is_none());
    assert_eq!(last(&s), line("broker.chart", 120, false, "sc broker x --json: [odd] no"));
}

#[test]
fn derivatives_are_kept_by_family_and_direction() {
    let mut s = Shared::default();
    assert!(s.want_derivatives("X", "knockout", "long", 0));
    s.load_derivatives(
        "X",
        "knockout",
        "long",
        &fine(r#"{"result":{"items":[{"isin":"D"}],"total_available":9}}"#),
        0,
    );
    assert_eq!(s.derivatives.underlying, "X");
    assert_eq!(last(&s), line("derivatives.search", 120, true, "X knockout/long: 1 of 9"));
    assert!(!s.want_derivatives("X", "knockout", "long", 0));
    assert!(s.want_derivatives("X", "knockout", "short", 0));
    s.load_derivatives("X", "knockout", "short", &failed("rate_limited", 30), 0);
    assert_eq!(s.derivatives_error.as_deref(), Some("rate limited — retry in 90s"));
    assert!(!s.want_derivatives("X", "factor", "long", SECOND));
    assert_eq!(s.derivatives_error.as_deref(), Some("rate limited — retrying in 90s"));
    s.load_derivatives("X", "factor", "long", &failed("odd", 1), 0);
    assert_eq!(s.derivatives_error.as_deref(), Some("[odd] no"));
    assert_eq!(s.derivatives.items.len(), 1);
}

#[test]
fn searches_teach_names() {
    let mut s = Shared::default();
    s.do_search("q", &fine(r#"{"items":[{"isin":"A","name":"Alpha"},{"isin":"B"}]}"#));
    assert_eq!(s.search_results.len(), 2);
    assert_eq!(s.names.get(&"A".to_string()).map(|x| x.as_str()), Some("Alpha"));
    assert_eq!(last(&s), line("broker.search", 120, true, "q: 2 hits"));
    s.do_search("q", &failed("odd", 1));
    assert_eq!(last(&s), line("broker.search", 120, false, "q: [odd] no"));
    assert_eq!(s.search_results.len(), 2);
}

#[test]
fn a_preview_places_nothing_and_a_submission_clears_it() {
    let mut s = Shared::default();
    s.order_error = Some("old".to_string());
    s.want_preview();
    assert!(s.preview_pending && s.order_error.is_none());
    s.do_preview(&fine(r#"{"confirmation":{"id":"scb1"},"result":{}}"#));
    assert!(!s.preview_pending);
    assert_eq!(s.preview.as_ref().unwrap().confirmation_id, "scb1");
    assert_eq!(last(&s), line("trade.preview", 120, true, "scb1"));

    s.want_submit();
    assert!(s.order_pending);
    s.do_submit(&fine(r#"{"result":{"order_id":"o1"}}"#));
    assert_eq!(s.order_result.as_deref(), Some("order submitted: o1"));
    assert!(s.preview.is_none() && !s.order_pending);
    s.do_submit(&fine("{}"));
    assert_eq!(s.order_result.as_deref(), Some("order submitted: (no id returned)"));
    s.do_submit(&failed("odd", 1));
    assert_eq!(s.order_error.as_deref(), Some("[odd] no"));

    s.want_preview();
    s.do_preview(&fine(r#"{"result":{}}"#));
    assert_eq!(
        s.preview_error.as_deref(),
        Some("phase-1 returned no confirmation id.\nsc broker x --json\n{\"ok\":true,\"data\":{\"result\":{}}}")
    );
    s.session = Some("me".to_string());
    s.do_preview(&failed("device_locked", 20));
    assert_eq!(s.session_error.as_deref(), Some("Mac is locked, unlock it to resume"));
    assert!(s.session.is_some());
    s.do_preview(&failed("no_session", 20));
    assert!(s.session.is_none());
    assert_eq!(s.preview_error.as_deref(), Some("[no_session] no"));
    s.do_preview(&failed("odd", 1));
    assert_eq!(s.session_error.as_deref(), Some("[no_session] no — run `sc login`"));

    s.order_cancelled("o1", &fine("{}"));
    assert_eq!(s.order_result.as_deref(), Some("cancelled o1"));
    s.order_cancelled("o1", &failed("odd", 1));
    assert_eq!(last(&s), line("trade.cancel", 120, false, "o1: [odd] no"));
}

fn shown(args: Vec<Arg>) -> String {
    let words: Vec<String> = args
        .into_iter()
        .map(|a| match a {
            Arg::Word(w) => w,
            Arg::Number(x) => f(x).to_string(),
        })
        .collect();
    words.join(" ")
}

#[test]
fn orders_are_written_by_shares_or_amount() {
    let mut t = TradeIntent {
        isin: "X".to_string(),
        side: Side::Buy,
        order_type: OrderType::Limit,
        amount: Some(n(500.0)),
        shares: None,
        limit_price: Some(n(1.25)),
        stop_price: None,
        venue: Some("  ".to_string()),
    };
    assert_eq!(
        shown(t.argv(None, true)),
        "broker trade buy --isin X --amount 500 --order-type limit --limit-price 1.25"
    );
    t.shares = Some(n(2.5));
    t.venue = Some("EIX".to_string());
    assert_eq!(
        shown(t.argv(Some("id"), true)),
        "broker trade buy --isin X --shares 2.5 --order-type limit --limit-price 1.25 \
         --venue EIX --confirm id --accept-unsuitable"
    );
    assert_eq!(
        shown(replacement("X", n(3.0), n(9.5)).argv(None, false)),
        "broker trade sell --isin X --shares 3 --order-type stop --stop-price 9.5"
    );
}

#[test]
fn whole_numbers_are_written_without_decimals() {
    for (x, want) in [
        (3.0, Some("3")),
        (-3.0, Some("-3")),
        (0.0, Some("0")),
        (-0.0, Some("0")),
        (3.0000000001, Some("3")),
        (2.9999999999, None),
        (0.5, None),
        (-0.25, None),
        (1e300, Some("9223372036854775807")),
        (f64::NAN, None),
        (f64::INFINITY, None),
    ] {
        let got = match fmt_num(n(x)) {
            Arg::Word(w) => Some(w),
            Arg::Number(y) => {
                assert_eq!(y.bits, n(x).bits);
                None
            }
        };
        assert_eq!(got.as_deref(), want, "{x}");
    }
}

#[test]
fn moving_a_stop_cancels_before_it_previews() {
    let mut s = Shared::default();
    assert!(matches!(s.ratchet_trail("X"), Ratchet::Idle));
    s.trails.push(Trail::new("X", n(0.1), true, n(100.0)));
    assert!(matches!(s.ratchet_trail("X"), Ratchet::Idle));
    assert_eq!(s.trail_error.as_deref(), Some("X: no shares to protect"));

    s.holdings = vec![holding("X", 7.0)];
    match s.ratchet_trail("X") {
        Ratchet::Place { shares, stop } => assert_eq!((f(shares), f(stop)), (7.0, 90.0)),
        other => panic!("{other:?}"),
    }
    s.orders = vec![stop_order("Y", "o0", None), stop_order("X", "o1", Some(4.0))];
    match s.ratchet_trail("X") {
        Ratchet::Cancel { id, shares, stop } => {
            assert_eq!((id.as_str(), f(shares), f(stop)), ("o1", 4.0, 90.0))
        }
        other => panic!("{other:?}"),
    }
    s.orders[1].quantity = None;
    assert!(matches!(s.ratchet_trail("X"), Ratchet::Cancel { shares, .. } if f(shares) == 7.0));

    assert!(!s.stop_cancelled("X", "o1", &failed("odd", 1)));
    assert!(s.trail_gap.is_none());
    assert_eq!(
        s.trail_error.as_deref(),
        Some("could not cancel the resting stop: [odd] no")
    );
    assert!(s.stop_cancelled("X", "o1", &fine("{}")));
    assert_eq!(s.trail_gap.as_deref(), Some("X"));
    assert_eq!(last(&s), line("trail.cancel", 120, true, "X o1"));

    s.want_preview();
    s.do_preview(&fine(r#"{"confirmation":{"id":"c"}}"#));
    let before = s.trail_error.clone();
    s.replacement_previewed("X");
    assert_eq!(s.trail_error, before);
    s.want_preview();
    s.do_preview(&failed("odd", 1));
    s.replacement_previewed("X");
    assert!(s.trail_error.unwrap().contains("X is UNPROTECTED."));
}

/// A trail moves a stop up, never down, and not for a sliver.
#[test]
fn a_resting_stop_is_never_moved_down() {
    let mut s = Shared::default();
    s.trails.push(Trail::new("X", n(0.1), true, n(100.0)));
    s.holdings = vec![holding("X", 7.0)];
    s.orders = vec![stop_order("X", "o1", Some(4.0))];
    for (resting, moved) in [
        (95.0, false),
        (90.0, false),
        (89.99, false),
        (89.95, false),
        (89.9, true),
        (50.0, true),
        (f64::INFINITY, false),
        (f64::NEG_INFINITY, true),
        (f64::NAN, false),
    ] {
        s.orders[0].stop_price = Some(n(resting));
        match s.ratchet_trail("X") {
            Ratchet::Cancel { id, stop, .. } => {
                assert!(moved, "{resting}");
                assert_eq!((id.as_str(), f(stop)), ("o1", 90.0));
            }
            Ratchet::Idle => assert!(!moved, "{resting}"),
            other => panic!("{other:?}"),
        }
        assert!(s.trail_error.is_none());
    }
    // A stop that is left alone is left alone without shares, too.
    s.holdings.clear();
    s.orders[0].quantity = None;
    s.orders[0].stop_price = Some(n(95.0));
    assert!(matches!(s.ratchet_trail("X"), Ratchet::Idle));
    assert!(s.trail_error.is_none());
}

#[test]
fn the_first_stop_on_the_instrument_protects_it() {
    let mut s = Shared::default();
    let mut buy = stop_order("X", "b", None);
    buy.side = "BUY".to_string();
    let mut limit = stop_order("X", "l", None);
    limit.stop_price = None;
    s.orders = vec![buy, limit, stop_order("X", "o1", None), stop_order("X", "o2", None)];
    assert_eq!(s.resting_stop("X").unwrap().id, "o1");
    assert!(s.resting_stop("Y").is_none());
}

#[test]
fn names_and_quotes_are_never_forgotten() {
    let mut s = Shared::default();
    s.learn("A", "Alpha");
    let mut q = Quote::unquoted("A");
    q.mid = Some(n(5.0));
    s.quotes.insert("A".to_string(), q);
    round(&mut s, &[("A", failed("odd", 1)), ("B", fine("{}"))], 0);
    s.refresh_watchlist(&fine(r#"{"items":[{"isin":"A","quote_mid_price":9}]}"#));
    s.refresh_account(Some(account_calls(r#"{"items":[{"isin":"A"}]}"#, "{}")));
    s.do_search("q", &fine(r#"{"items":[]}"#));
    assert_eq!(s.names.get(&"A".to_string()).map(|x| x.as_str()), Some("Alpha"));
    assert_eq!(s.mid_of(&"A".to_string()).map(f), Some(5.0));
    assert!(s.quotes.contains_key(&"B".to_string()));
}
