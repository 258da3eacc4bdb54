use scalable_terminal::model::{Candle, Chart, ChartPoint, Holding, OrderType, PendingOrder, Quote, Side, TradePreview};
use scalable_terminal::num::Num;
use scalable_terminal::screen::picks::{
    cancel_request, next_instrument, next_price, next_timeframe, preview_request, trail_request,
};
use scalable_terminal::screen::rows::{held, holding_in, log_rows, quote_rows, search_hits};
use scalable_terminal::screen::{
    autoselect, axis_span, axis_time, can_submit, candle_box, change, estimated_shares, estimated_value,
    health_tone, hhmm, human_secs, is_oversized, is_reserved, is_up, isin_to_add, live_mid,
    margin_tone, no_chart, query_to_search, sell_sizing, session_shown, short_timeframe, shot_step, shown_name,
    sign_tone, spread_tone, submission, tab_named, time_tone, totals, validity, weight, ShotStep, Tab, Ticket,
    Tone,
};
use scalable_terminal::worker::{timeframes, Cmd, Shared};

fn n(x: f64) -> Num {
    Num { bits: x.to_bits() }
}

fn f(x: Num) -> f64 {
    f64::from_bits(x.bits)
}

fn some(x: f64) -> Option<Num> {
    Some(n(x))
}

fn preview(raw: &str) -> TradePreview {
    TradePreview::from_json(&scalable_terminal::json::parse(raw).unwrap()).unwrap()
}

#[test]
fn views_have_names() {
    for (name, tab) in [
        ("chart", Tab::Chart),
        ("derivatives", Tab::Derivatives),
        ("log", Tab::Log),
        ("raw", Tab::Raw),
        ("portfolio", Tab::Portfolio),
        ("odd", Tab::Portfolio),
    ] {
        assert_eq!(tab_named(name), tab);
    }
}

#[test]
fn timeframes_are_shortened() {
    for (tf, short) in [
        ("INTRADAY", "1D"),
        ("TWO_DAYS", "2D"),
        ("ONE_WEEK", "1W"),
        ("ONE_MONTH", "1M"),
        ("THREE_MONTHS", "3M"),
        ("SIX_MONTHS", "6M"),
        ("ONE_YEAR", "1Y"),
        ("MAX", "MAX"),
        ("ODD", "ODD"),
    ] {
        assert_eq!(short_timeframe(tf), short);
    }
}

#[test]
fn tones_tell_good_from_bad() {
    assert_eq!(sign_tone(some(0.1)), Tone::Good);
    assert_eq!(sign_tone(some(-0.1)), Tone::Bad);
    assert_eq!(sign_tone(some(0.0)), Tone::Dim);
    assert_eq!(sign_tone(some(f64::NAN)), Tone::Dim);
    assert_eq!(sign_tone(None), Tone::Dim);
    assert_eq!(spread_tone(some(100.5)), Tone::Bad);
    assert_eq!(spread_tone(some(100.0)), Tone::Warn);
    assert_eq!(spread_tone(some(30.0)), Tone::Good);
    assert_eq!(spread_tone(None), Tone::Dim);
    assert_eq!(margin_tone(some(0.2)), Tone::Good);
    assert_eq!(margin_tone(some(0.15)), Tone::Warn);
    assert_eq!(margin_tone(some(0.05)), Tone::Bad);
    assert_eq!(margin_tone(some(-0.1)), Tone::Bad);
    assert_eq!(margin_tone(None), Tone::Dim);
    assert_eq!(health_tone("HIGH"), Tone::Good);
    assert_eq!(health_tone("MID"), Tone::Warn);
    assert_eq!(health_tone("LOW"), Tone::Bad);
}

#[test]
fn something_is_selected_as_soon_as_there_is_something() {
    let mut s = Shared::default();
    assert_eq!(autoselect(&s), None);
    s.watchlist = vec!["W".to_string()];
    assert_eq!(autoselect(&s).as_deref(), Some("W"));
    s.holdings = vec![Holding { isin: "H".to_string(), ..Default::default() }];
    assert_eq!(autoselect(&s).as_deref(), Some("H"));
}

#[test]
fn what_is_typed_is_trimmed() {
    assert_eq!(isin_to_add("  us67066g1040 ").as_deref(), Some("US67066G1040"));
    assert_eq!(isin_to_add(" abcde "), None);
    assert_eq!(isin_to_add("äöü").as_deref(), Some("ÄÖÜ"));
    assert_eq!(query_to_search(" nvidia\t").as_deref(), Some("nvidia"));
    assert_eq!(query_to_search(" \t "), None);
}

#[test]
fn a_position_is_marked_at_the_live_price() {
    let mut s = Shared::default();
    let h = Holding { isin: "H".to_string(), mid: some(3.0), ..Default::default() };
    assert_eq!(live_mid(&s, &h).map(f), Some(3.0));
    let mut q = Quote::unquoted("H");
    s.quotes.insert("H".to_string(), q.clone());
    assert_eq!(live_mid(&s, &h).map(f), Some(3.0));
    q.mid = some(4.0);
    s.quotes.insert("H".to_string(), q);
    assert_eq!(live_mid(&s, &h).map(f), Some(4.0));
}

#[test]
fn a_ticket_means_one_order() {
    let mut t = Ticket::new();
    t.limit_price = n(1.5);
    t.stop_price = n(2.5);
    t.venue = " EIX ".to_string();
    let i = t.intent("X");
    assert_eq!(i.isin, "X");
    assert_eq!((i.amount.map(f), i.shares.map(f)), (Some(500.0), None));
    assert_eq!((i.limit_price.map(f), i.stop_price.map(f)), (Some(1.5), None));
    assert_eq!(i.venue.as_deref(), Some("EIX"));
    t.side = Side::Sell;
    t.order_type = OrderType::Stop;
    t.venue = "  ".to_string();
    let i = t.intent("X");
    assert_eq!((i.amount.map(f), i.shares.map(f)), (None, Some(1.0)));
    assert_eq!((i.limit_price.map(f), i.stop_price.map(f)), (None, Some(2.5)));
    assert!(i.venue.is_none());
    t.side = Side::Buy;
    t.size_by_shares = true;
    t.order_type = OrderType::Market;
    let i = t.intent("X");
    assert_eq!((i.amount.map(f), i.shares.map(f)), (None, Some(1.0)));
    assert_eq!((i.limit_price.map(f), i.stop_price.map(f)), (None, None));
}

#[test]
fn a_sale_is_sized_by_what_is_free() {
    let h = Holding {
        isin: "X".to_string(),
        quantity: n(10.0),
        blocked: n(1.0),
        ..Default::default()
    };
    let sell = PendingOrder {
        isin: "X".to_string(),
        side: "SELL".to_string(),
        quantity: some(2.66667),
        ..Default::default()
    };
    let s = sell_sizing(&h, &[sell]);
    let free = 10.0 - 1.0 - 2.66667;
    assert_eq!(f(s.free), free);
    assert_eq!(f(s.committed), 10.0 - free);
    assert_eq!(f(s.resting), 10.0 - 1.0 - free);
    assert_eq!(f(s.half), 3.1666);
    assert!(s.any && s.partly && s.busy);
    assert!(is_oversized(&s, n(6.4)) && !is_oversized(&s, s.free));
    let s = sell_sizing(&h, &[]);
    assert_eq!((f(s.free), f(s.half), f(s.resting)), (9.0, 4.5, 0.0));
}

#[test]
fn orders_are_estimated() {
    assert_eq!(estimated_value(some(2.5), n(3.0)).map(f), Some(7.5));
    assert_eq!(estimated_value(None, n(3.0)).map(f), None);
    assert_eq!(estimated_shares(some(2.0), some(4.0), n(10.0)).map(f), Some(5.0));
    assert_eq!(estimated_shares(None, some(4.0), n(10.0)).map(f), Some(2.5));
    assert_eq!(estimated_shares(some(0.0), some(4.0), n(10.0)).map(f), None);
    assert_eq!(estimated_shares(None, None, n(10.0)).map(f), None);
}

#[test]
fn positions_add_up() {
    let h = |q: f64, cost: Option<f64>, value: Option<f64>| Holding {
        quantity: n(q),
        fifo_price: cost.map(n),
        valuation: value.map(n),
        ..Default::default()
    };
    let t = totals(&vec![
        h(10.0, Some(1.0), Some(12.0)),
        h(1.0, Some(30.0), None),
        h(1.0, None, Some(9.0)),
    ]);
    assert_eq!(t.unrealized.map(f), Some(2.0));
    assert_eq!(f(t.cost), 40.0);
    assert_eq!(t.unrealized_pct.map(f), Some(5.0));
    let t = totals(&vec![]);
    assert!(t.unrealized.is_none() && t.unrealized_pct.is_none());
    // Sums start from negative zero, as those of the machine do.
    assert_eq!(t.cost.bits, Vec::<f64>::new().iter().sum::<f64>().to_bits());
    let t = totals(&vec![h(1.0, Some(0.0), Some(-0.0)), h(1.0, Some(30.0), None)]);
    assert_eq!(t.unrealized.map(|x| x.bits), Some([-0.0f64 - 0.0].iter().sum::<f64>().to_bits()));
    assert_eq!(t.unrealized.map(|x| x.bits), Some((-0.0f64).to_bits()));
    assert_eq!(f(t.cost), 30.0);
    assert_eq!(weight(some(5.0), some(20.0)).map(f), Some(25.0));
    assert_eq!(weight(some(5.0), some(0.0)).map(f), None);
    assert_eq!(weight(None, some(20.0)).map(f), None);
    assert!(is_reserved(some(1.0)) && !is_reserved(some(0.0)) && !is_reserved(None));
}

#[test]
fn a_change_is_measured_from_the_previous_close() {
    let (abs, pct) = change(some(1.3), some(1.25)).unwrap();
    assert_eq!((f(abs), f(pct)), (1.3 - 1.25, (1.3 / 1.25 - 1.0) * 100.0));
    assert!(change(some(1.3), some(0.0)).is_none());
    assert!(change(None, some(1.0)).is_none());
    assert!(is_up(some(2.0), some(2.0)) && !is_up(some(1.0), some(2.0)) && is_up(None, None));
}

#[test]
fn a_candle_is_a_box_in_the_middle_of_its_bucket() {
    let c = Candle {
        t: n(900.0),
        open: n(2.0),
        high: n(4.0),
        low: n(1.0),
        close: n(3.0),
        ticks: 3,
    };
    let b = candle_box(&c, n(900.0));
    assert_eq!((f(b.x), f(b.bottom), f(b.top), b.up), (1350.0, 2.0, 3.0, true));
    assert_eq!(f(b.width), 900.0 * 0.62);
    let down = Candle { open: n(3.5), ..c };
    let b = candle_box(&down, n(900.0));
    assert_eq!((f(b.bottom), f(b.top), b.up), (3.0, 3.5, false));
}

#[test]
fn an_order_is_submitted_only_when_all_is_in_order() {
    let raw = r#"{"confirmation":{"id":"c","expires_at_epoch":1000},
        "result":{"tradability":{"tradable":true},
        "suitability":{"requires_accept_unsuitable":false}}}"#;
    let p = preview(raw);
    let early = some(900.0);
    assert!(can_submit(" Confirm ", &p, early, false));
    assert!(!can_submit("confirmed", &p, early, false));
    assert!(!can_submit("", &p, early, false));
    assert!(!can_submit("confirm", &p, some(1000.0), false));
    let p = preview(&raw.replace("\"tradable\":true", "\"tradable\":false"));
    assert!(!can_submit("confirm", &p, early, false));
    let p = preview(&raw.replace("unsuitable\":false", "unsuitable\":true"));
    assert!(!can_submit("confirm", &p, early, false));
    assert!(can_submit("confirm", &p, early, true));
    assert_eq!(validity(Some(5)), "5 s");
    assert_eq!(validity(Some(0)), "EXPIRED");
    assert_eq!(validity(None), "—");
}

#[test]
fn the_dialog_sends_the_order_that_was_previewed() {
    let raw = r#"{"confirmation":{"id":"c7","expires_at_epoch":1000},
        "result":{"tradability":{"tradable":true},
        "suitability":{"requires_accept_unsuitable":true}}}"#;
    let mut ticket = Ticket::new();
    ticket.amount = n(750.0);
    ticket.limit_price = n(12.5);
    let early = some(900.0);
    let mut s = Shared::default();
    assert!(submission(&s, &ticket, "X", "CONFIRM", true, early).is_none());
    s.preview = Some(preview(raw));
    match submission(&s, &ticket, "X", "CONFIRM", true, early) {
        Some(Cmd::SubmitTrade { intent, confirmation_id, accept_unsuitable }) => {
            assert_eq!((confirmation_id.as_str(), accept_unsuitable), ("c7", true));
            assert_eq!((intent.isin.as_str(), intent.side), ("X", Side::Buy));
            assert_eq!(intent.amount.map(f), Some(750.0));
            assert_eq!(intent.limit_price.map(f), Some(12.5));
            assert!(intent.shares.is_none() && intent.stop_price.is_none());
        }
        other => panic!("{other:?}"),
    }
    assert!(submission(&s, &ticket, "X", "CONFIRM", false, early).is_none());
    assert!(submission(&s, &ticket, "X", "CONFIRM", true, some(1000.0)).is_none());
    assert!(submission(&s, &ticket, "X", "", true, early).is_none());
    // Once it is on its way, a second click sends nothing.
    s.want_submit();
    assert!(submission(&s, &ticket, "X", "CONFIRM", true, early).is_none());
}

#[test]
fn a_preview_is_asked_for_one_at_a_time() {
    let mut s = Shared::default();
    let ticket = Ticket::new();
    let x = Some("X".to_string());
    assert!(preview_request(&s, &ticket, &None).is_none());
    match preview_request(&s, &ticket, &x) {
        Some(Cmd::PreviewTrade(t)) => assert_eq!((t.isin.as_str(), t.side), ("X", Side::Buy)),
        other => panic!("{other:?}"),
    }
    s.want_preview();
    assert!(preview_request(&s, &ticket, &x).is_none());
}

#[test]
fn a_trail_in_percent_is_armed_as_a_fraction() {
    assert!(trail_request(&None, n(5.0), true).is_none());
    for (percent, want) in [(true, 0.05), (false, 5.0)] {
        match trail_request(&Some("X".to_string()), n(5.0), percent) {
            Some(Cmd::ArmTrail { isin, distance, percent: p }) => {
                assert_eq!((isin.as_str(), f(distance), p), ("X", want, percent))
            }
            other => panic!("{other:?}"),
        }
    }
}

#[test]
fn keys_step_through_instruments_and_timeframes() {
    let list: Vec<String> = ["A", "B", "C"].iter().map(|i| i.to_string()).collect();
    let at = |i: &str| Some(i.to_string());
    assert_eq!(next_instrument(&list, &at("A"), true), at("B"));
    assert_eq!(next_instrument(&list, &at("B"), false), at("A"));
    assert_eq!(next_instrument(&list, &at("C"), true), at("C"));
    assert_eq!(next_instrument(&list, &at("A"), false), at("A"));
    assert_eq!(next_instrument(&list, &at("Z"), true), at("A"));
    assert_eq!(next_instrument(&list, &None, false), at("A"));
    assert_eq!(next_instrument(&vec![], &at("A"), true), None);
    let all = timeframes();
    for i in 0..all.len() {
        assert_eq!(next_timeframe(all[i], true), all[(i + 1).min(all.len() - 1)]);
        assert_eq!(next_timeframe(all[i], false), all[i.saturating_sub(1)]);
    }
}

#[test]
fn the_limit_goes_from_bid_to_mid_to_ask() {
    let mut q = Quote::unquoted("X");
    assert!(next_price(&q, n(1.0)).is_none());
    q.bid = some(9.0);
    q.mid = some(9.5);
    q.ask = some(10.0);
    for (from, to) in [(0.0, 9.0), (9.0, 9.5), (9.5, 10.0), (10.0, 9.0)] {
        assert_eq!(next_price(&q, n(from)).map(f), Some(to));
    }
    q.mid = None;
    assert_eq!(next_price(&q, n(9.0)).map(f), Some(10.0));
}

#[test]
fn the_first_order_on_the_selection_is_cancelled() {
    let mut s = Shared::default();
    for (isin, id) in [("Y", "o0"), ("X", "o1"), ("X", "o2")] {
        s.orders.push(PendingOrder {
            id: id.to_string(),
            isin: isin.to_string(),
            ..Default::default()
        });
    }
    match cancel_request(&s, &Some("X".to_string())) {
        Some(Cmd::CancelOrder(id)) => assert_eq!(id, "o1"),
        other => panic!("{other:?}"),
    }
    assert!(cancel_request(&s, &Some("Z".to_string())).is_none());
    assert!(cancel_request(&s, &None).is_none());
}

#[test]
fn spans_have_units() {
    let (x, d, u) = human_secs(n(86_400.0));
    assert_eq!((f(x), d, u), (1.0, 1, " d"));
    let (x, d, u) = human_secs(n(5_400.0));
    assert_eq!((f(x), d, u), (1.5, 1, " h"));
    let (x, d, u) = human_secs(n(90.0));
    assert_eq!((f(x), d, u), (1.5, 0, " min"));
}

#[test]
fn times_have_labels() {
    let t = n(1_789_668_868.9);
    let day = 86_400.0;
    assert_eq!(axis_time(t, n(2.0 * day)), "18:14");
    assert_eq!(axis_time(t, n(3.0 * day)), "17 Sep");
    assert_eq!(axis_time(t, n(400.0 * day)), "17 Sep");
    assert_eq!(axis_time(t, n(401.0 * day)), "Sep 2026");
    assert_eq!(axis_time(n(999_999_999.0), n(day)), "");
    assert_eq!(hhmm(t), "2026-09-17 18:14");
    assert_eq!(hhmm(n(-12.7)), "-12");
    assert_eq!(hhmm(n(1_000_000_000.0)), "2001-09-09 01:46");
}

#[test]
fn the_holder_can_be_hidden() {
    assert_eq!(shown_name("Ada L", true), "Account holder");
    assert_eq!(shown_name("Ada L", false), "Ada L");
}

#[test]
fn a_row_without_a_quote_says_what_it_is() {
    let mut s = Shared::default();
    s.learn("A", "Alpha");
    s.learn("B", "Beta");
    let mut q = Quote::unquoted("B");
    q.mid = some(2.0);
    s.quotes.insert("B".to_string(), q);
    let mut q = Quote::unquoted("C");
    q.name = "Gamma".to_string();
    s.quotes.insert("C".to_string(), q);
    s.learn("C", "other");
    let isins: Vec<String> = ["A", "B", "C", "D"].iter().map(|i| i.to_string()).collect();
    let rows = quote_rows(&s, &isins);
    let shown: Vec<(&str, &str, Option<f64>)> =
        rows.iter().map(|q| (q.isin.as_str(), q.name.as_str(), q.mid.map(f))).collect();
    assert_eq!(
        shown,
        vec![("A", "Alpha", None), ("B", "Beta", Some(2.0)), ("C", "Gamma", None), ("D", "", None)]
    );
}

#[test]
fn holdings_are_found_by_instrument() {
    let mut s = Shared::default();
    for (isin, q) in [("A", 1.0), ("B", 2.0), ("A", 3.0)] {
        s.holdings.push(Holding { isin: isin.to_string(), quantity: n(q), ..Default::default() });
    }
    assert_eq!(held(&s), vec!["A", "B", "A"]);
    assert_eq!(holding_in(&s, "A").map(|h| f(h.quantity)), Some(1.0));
    assert_eq!(holding_in(&s, "B").map(|h| f(h.quantity)), Some(2.0));
    assert!(holding_in(&s, "C").is_none());
}

#[test]
fn tables_show_so_much_and_no_more() {
    let mut s = Shared::default();
    for i in 0..60 {
        let raw = format!(r#"{{"isin":"I{i}","quote_mid_price":{i}}}"#);
        s.search_results.push(scalable_terminal::json::parse(&raw).unwrap());
    }
    let hits = search_hits(&s);
    assert_eq!(hits.len(), 50);
    assert_eq!((hits[49].isin.as_str(), hits[49].mid.map(f)), ("I49", Some(49.0)));
    for i in 0..310 {
        s.push_log("c", i, true, String::new());
    }
    let rows = log_rows(&s);
    assert_eq!((rows.len(), rows[0].ms, rows[299].ms), (300, 309, 10));
}

#[test]
fn the_bar_says_who_is_logged_in() {
    let mut s = Shared::default();
    assert_eq!(session_shown(&s, false), (Tone::Warn, "connecting…".to_string()));
    s.session_error = Some("lost".to_string());
    assert_eq!(session_shown(&s, false), (Tone::Bad, "lost".to_string()));
    s.session = Some("Ada L".to_string());
    assert_eq!(session_shown(&s, false), (Tone::Good, "Ada L".to_string()));
    assert_eq!(session_shown(&s, true), (Tone::Good, "Account holder".to_string()));
    assert_eq!(time_tone(3001, 3000), Tone::Warn);
    assert_eq!(time_tone(3000, 3000), Tone::Dim);
}

#[test]
fn a_chart_without_points_says_why() {
    let said = no_chart(&Some("[odd] no".to_string()), true);
    assert_eq!(said, Some((Tone::Bad, "[odd] no".to_string())));
    assert_eq!(no_chart(&None, true), None);
    let said = no_chart(&None, false);
    assert_eq!(
        said,
        Some((Tone::Dim, "no chart data — pick an instrument on the left".to_string()))
    );
    let mut c = Chart::default();
    for t in [0.0, 86_400.0, 172_800.0] {
        c.points.push(ChartPoint { t: n(t), mid: n(1.0), ts: String::new() });
    }
    assert_eq!(f(axis_span(&c)), 172_800.0);
}

#[test]
fn a_picture_is_taken_once_or_given_up() {
    assert_eq!(shot_step(n(5.9), n(6.0), false), ShotStep::Wait);
    assert_eq!(shot_step(n(6.0), n(6.0), false), ShotStep::Take);
    assert_eq!(shot_step(n(7.0), n(6.0), true), ShotStep::Wait);
    assert_eq!(shot_step(n(60.0), n(6.0), true), ShotStep::Wait);
    assert_eq!(shot_step(n(60.5), n(6.0), false), ShotStep::GiveUp);
}
