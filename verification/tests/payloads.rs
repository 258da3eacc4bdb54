use scalable_terminal::json::{parse, Json};
use scalable_terminal::model::{
    civil_from_days, days_from_civil, parse_iso8601, Account, Analytics, Chart, ChartPoint, DerivativesPage, Holding,
    PendingOrder, PriceAlert, Quote, SecurityNews, TradePreview, Window,
};
use scalable_terminal::num::Num;
use scalable_terminal::sc;

fn n(x: f64) -> Num {
    Num { bits: x.to_bits() }
}

fn f(x: Num) -> f64 {
    f64::from_bits(x.bits)
}

fn json(raw: &str) -> Json {
    parse(raw).expect("fixture parses")
}

fn envelope(raw: &str) -> Json {
    let v = json(raw);
    assert_eq!(v.get("ok").unwrap().as_bool(), Some(true), "fixture is a success envelope");
    v.get("data").unwrap().copy()
}

fn close(a: f64, b: f64) -> bool {
    (a - b).abs() < 1e-6
}

const QUOTE: &str = r#"{"ok":true,"command":"broker.quote","data":{"account_id":"x","result":{
  "isin":"CA53056H1047","name":"Liberty Gold","security_type":"STOCK",
  "quote_bid_price":1.296,"quote_ask_price":1.338,"quote_mid_price":1.317,
  "quote_currency":"EUR","quote_is_outdated":false,
  "quote_timestamp_utc":"2026-09-17T18:14:28.493Z",
  "quote_performances":[
    {"timeframe":"INTRADAY","performance":0.0452,"simple_absolute_return":0.057},
    {"timeframe":"ONE_WEEK","performance":-0.02},
    {"timeframe":"ONE_MONTH","performance":0.1},
    {"timeframe":"THREE_MONTHS","performance":"0,25"},
    {"timeframe":"SIX_MONTHS","performance":null},
    {"timeframe":"ONE_YEAR","performance":1.5},
    {"timeframe":"MAX","performance":9.0}
  ]}}}"#;

const HOLDINGS: &str = r#"{"ok":true,"command":"broker.holdings","data":{"result":{"items":[
  {"isin":"CA53056H1047","name":"Liberty Gold","security_type":"STOCK","quantity":10,
   "blocked_quantity":0,"pending_quantity":0,"fifo_price":1.238,"quote_mid_price":1.317,
   "valuation":13.17,"valuation_currency":"EUR","quote_is_outdated":false,
   "quote_timestamp_utc":"2026-09-17T18:14:28.493Z"},
  {"isin":"JP3228600007","name":"Kansai El. Power","security_type":"STOCK","quantity":2,
   "blocked_quantity":0,"pending_quantity":0,"fifo_price":12.1,"quote_mid_price":12.5,
   "valuation":25.0,"quote_currency":"EUR"},
  {"isin":"IE00B8GKDB10","name":"Vanguard FTSE All-World High Dividend Yield (Dist)",
   "security_type":"ETF","quantity":"0,4","blocked_quantity":0,"pending_quantity":0,
   "fifo_price":70.5,"quote_mid_price":74.575,"valuation":29.83,"valuation_currency":"EUR"}
]}}}"#;

const OVERVIEW: &str = r#"{"ok":true,"command":"broker.overview","data":{"result":{
  "valuation":{"securities":68.0,"crypto":0.0,"total":361.37},
  "timestamps":{"valuation_timestamp_utc":"2026-09-17T18:14:28.493Z"},
  "performance":[
    {"timeframe":"MAX","simpleAbsoluteReturn":5.5},
    {"timeframe":"ONE_YEAR","simpleAbsoluteReturn":4.0},
    {"timeframe":"INTRADAY","simpleAbsoluteReturn":0.4},
    {"timeframe":"TWO_DAYS","simpleAbsoluteReturn":0.5},
    {"timeframe":"ONE_WEEK","simpleAbsoluteReturn":-0.2},
    {"timeframe":"SIX_MONTHS","simpleAbsoluteReturn":3.0},
    {"timeframe":"ONE_MONTH","simpleAbsoluteReturn":1.0},
    {"timeframe":"THREE_MONTHS","simpleAbsoluteReturn":2.0}
  ]}}}"#;

const CASH: &str = r#"{"ok":true,"command":"broker.cash-breakdown","data":{"result":{
  "cash_balance":293.37,"buying_power":293.37,"pending_buy_orders_amount":0.0,
  "possible_taxes":0.0,"loaned":0.0}}}"#;

const TRANSACTIONS: &str = r#"{"ok":true,"command":"broker.transactions","data":{"result":{"items":[
  {"id":"t1","type":"SECURITY_TRANSACTION","status":"PENDING","side":"SELL","isin":"CA53056H1047",
   "description":"Liberty Gold","quantity":10,"limit_price":1.42,"currency":"EUR",
   "is_cancellation":false,"last_event_datetime":"2026-09-17T10:00:00Z"},
  {"id":"t2","type":"SECURITY_TRANSACTION","status":"PENDING","side":"SELL","isin":"JP3228600007",
   "description":"Kansai El. Power","quantity":2,"stop_price":11.0,"currency":"EUR"},
  {"id":"t3","type":"SECURITY_TRANSACTION","status":"PENDING","side":"SELL","isin":"IE00B8GKDB10",
   "description":"Vanguard","quantity":0.4,"limit_price":80.0,"currency":"EUR"},
  {"id":"t4","type":"SECURITY_TRANSACTION","status":"SETTLED","side":"BUY","isin":"CA53056H1047",
   "quantity":10},
  {"id":"t5","type":"CASH_TRANSACTION","status":"PENDING","amount":100},
  {"id":"t6","type":"SECURITY_TRANSACTION","status":"PENDING","side":"SELL","isin":"X",
   "is_cancellation":true},
  {"id":"","type":"SECURITY_TRANSACTION","status":"PENDING","side":"SELL","isin":"Y"},
  {"type":"SECURITY_TRANSACTION","status":"PENDING","side":"SELL","isin":"Z"}
]}}}"#;

const WATCHLIST: &str = r#"{"ok":true,"command":"broker.watchlist","data":{"result":{"items":[
  {"isin":"IE00B8GKDB10","name":"Vanguard FTSE All-World High Dividend Yield (Dist)",
   "security_type":"ETF","quote_mid_price":74.575,"quote_currency":"EUR",
   "quote_is_outdated":true,"quote_timestamp_utc":"2026-09-17T18:14:28.493Z"},
  {"isin":"US67066G1040","name":"Nvidia","security_type":"STOCK","quote_mid_price":150.1}
]}}}"#;

const ANALYTICS: &str = r#"{"ok":true,"command":"broker.analytics","data":{"result":{
  "last_updated_utc":"2026-09-17T00:00:00Z",
  "allocations":[
    {"type":"PRODUCT_TYPE","positions":[
      {"name":"cash","valuation":293.37,"weight":0.8118272131},
      {"name":"stock","valuation":38.17,"weight":0.1056257022},
      {"name":"etf","valuation":29.83,"weight":0.0825470847}]},
    {"type":"ASSET_CLASS","positions":[{"name":"equity","valuation":68.0,"weight":1.0}]},
    {"type":"EQUITY_SECTOR","positions":[]},
    {"type":"REGION","positions":[
      {"name":"Americas","valuation":13.17,"weight":0.2,"subpositions":[
        {"name":"Canada","valuation":13.17,"weight":0.2,"subpositions":[{"name":"deeper"}]}]},
      {"name":"Asia","valuation":25.0,"weight":0.4}]}
  ],
  "health_checks":[
    {"type":"REGION","health_score":0.5,"state":"MID","number_of_items_in_portfolio":3.9,"max_items":6},
    {"type":"SECTOR","health_score":0.9,"state":"HIGH","number_of_items_in_portfolio":5,"max_items":6},
    {"type":"POSITION","health_score":0.1,"state":"LOW","max_items":10}],
  "scenarios":[
    {"type":"WORLD_DOWN","portfolio_performance":-0.0073,"benchmark_performance":-0.0542},
    {"type":"WORLD_UP","portfolio_performance":0.01,"benchmark_performance":0.05},
    {"type":"RATES_UP","portfolio_performance":0.0,"benchmark_performance":-0.01},
    {"type":"RATES_DOWN","portfolio_performance":0.0,"benchmark_performance":0.01},
    {"type":"OIL_UP"}]
}}}"#;

const PREVIEW: &str = r#"{"ok":true,"command":"broker.trade.buy","data":{
  "confirmation":{"id":"scb1_abc","expires_at_epoch":1789668988.5},
  "result":{
    "market_quote":{"bid_price":81.1,"ask_price":81.2,"mid_price":81.15,"currency":"EUR",
      "is_outdated":false,"timestamp_utc":"2026-09-17T18:14:28.493Z"},
    "calculation":{"shares":1,"estimated_order_volume":"75,00"},
    "tradability":{"tradable":true,"selected_venue":"EIX",
      "selected_venue_label":"European Investor Exchange (EIX)",
      "selected_venue_status":"TRADABLE_WITHOUT_APPROPRIATENESS"},
    "suitability":{"requires_accept_unsuitable":false,"status":"NOT_REQUIRED"},
    "ex_ante_costs":{"entryCosts":{"total":{"amount":0.99,"percentage":0.0132}},
      "ongoingCosts":{"total":{"amount":0.21}},"exitCosts":{"total":{"amount":0.99}}},
    "warning":null}}}"#;

const DERIVATIVES: &str = r#"{"ok":true,"command":"broker.derivatives.search","data":{"result":{
  "underlying_isin":"US67066G1040","derivative_type":"knockout","total_available":8223,
  "items":[
   {"isin":"DE000CJ8P2E4","issuer":"SOC_GEN","strategy":"LONG","product_subcategory":"MINI_FUTURE",
    "leverage":1.0121381506,"factor":null,"strike":{"value":2.6022,"currency_iso_code":"USD"},
    "knockout_barrier":{"value":2.7425},"distance_to_knockout":0.9875,
    "premium_percentage":-0.0001,"expiry_date":null,"expiry_is_open_end":true},
   {"isin":"DE000A","issuer":"A","strategy":"LONG"},
   {"isin":"DE000B","issuer":"B","strategy":"SHORT"},
   {"isin":"DE000C","issuer":"C","strategy":"LONG","expiry_is_open_end":false},
   {"issuer":"no instrument"},
   {"isin":"DE000D","issuer":"D","strategy":"LONG"}]}}}"#;

/// An intraday series: 69 ticks ten minutes apart, within one session.
fn chart_1d() -> String {
    let mut points: Vec<String> = Vec::new();
    for i in 0..69u32 {
        let minute = 5 * 60 + 30 + i * 10;
        let mid = 1.239 + f64::from(i * 7 % 23) * 0.001;
        points.push(format!(
            r#"{{"timestamp_utc":"2026-09-16T{:02}:{:02}:07.000Z","mid_price":{mid}}}"#,
            minute / 60,
            minute % 60
        ));
    }
    format!(
        r#"{{"ok":true,"command":"broker.chart","data":{{"isin":"CA53056H1047","timeframe":"1d",
        "currency":"EUR","source":"EIX","data_points":[{}],
        "closing_reference_point":{{"mid_price":1.26,"timestamp_utc":"2026-09-15T20:00:00Z"}}}}}}"#,
        points.join(",")
    )
}

/// A series of a year so far: one close a day, weekends left out.
fn chart_ytd() -> String {
    let mut points: Vec<String> = Vec::new();
    for day in 20455i64..20713 {
        if day % 7 == 2 || day % 7 == 3 {
            continue;
        }
        let (y, m, d) = civil_from_days(day);
        let mid = 100.0 + (day % 31) as f64 * 0.25;
        points.push(format!(
            r#"{{"timestamp_utc":"{y:04}-{m:02}-{d:02}T16:00:00.000Z","mid_price":{mid}}}"#
        ));
    }
    format!(
        r#"{{"ok":true,"command":"broker.chart","data":{{"isin":"CA53056H1047","timeframe":"ytd",
        "currency":"EUR","source":"EIX","data_points":[{}]}}}}"#,
        points.join(",")
    )
}

#[test]
fn iso8601_matches_unix_epoch() {
    assert_eq!(
        parse_iso8601("2026-09-16T05:30:07.000Z").map(f),
        Some(1_789_536_607.0)
    );
    assert_eq!(
        parse_iso8601("2026-09-17T18:14:28.000Z").map(f),
        Some(1_789_668_868.0)
    );
    assert!(parse_iso8601("").is_none());
    assert!(parse_iso8601("garbage").is_none());
}

#[test]
fn timestamps_in_other_shapes() {
    assert_eq!(parse_iso8601("1970-01-01T00:00:00").map(f), Some(0.0));
    assert_eq!(parse_iso8601("1969-12-31T23:59:59Z").map(f), Some(-1.0));
    assert_eq!(parse_iso8601("2026-09-17T18:14:28.493Z").map(f), Some(1_789_668_868.493));
    assert_eq!(parse_iso8601("2026-09-17T18:14:28.4Z").map(f), Some(1_789_668_868.0));
    assert_eq!(parse_iso8601("2026-09-17T18:14:28+02:00").map(f), Some(1_789_668_868.0));
    assert_eq!(parse_iso8601("2026-09-17 18:14:28").map(f), Some(1_789_668_868.0));
    assert!(parse_iso8601("2026-09-17T18:14:2").is_none());
    assert!(parse_iso8601("2026-09-17T18:14:2x").is_none());
    assert!(parse_iso8601("2026-09-17T18:14:é8Z").is_none());
    // A number may have a sign.
    assert_eq!(parse_iso8601("+970-01-01T00:00:00").map(f), parse_iso8601("0970-01-01T00:00:00").map(f));
    assert_eq!(parse_iso8601("1970-01-01T00:-1:00").map(f), Some(-60.0));
}

/// Most endpoints nest under `result`; `broker.chart` does not. The unwrap must
/// tolerate both or every chart render comes back empty.
#[test]
fn result_unwrap_handles_both_shapes() {
    let quote = envelope(QUOTE);
    assert!(quote.get("result").is_some());
    assert!(sc::result(&quote).get("quote_mid_price").is_some());

    let chart = envelope(&chart_1d());
    assert!(chart.get("result").is_none());
    assert!(sc::result(&chart).get("data_points").is_some());
}

#[test]
fn quote_extracts_two_sided_market() {
    let q = Quote::from_json("CA53056H1047", sc::result(&envelope(QUOTE)));
    assert_eq!(q.isin, "CA53056H1047");
    assert_eq!(q.name, "Liberty Gold");
    assert_eq!(q.security_type, "STOCK");
    assert_eq!(q.currency, "EUR");
    assert!(!q.outdated);
    assert!(close(f(q.bid.unwrap()), 1.296));
    assert!(close(f(q.ask.unwrap()), 1.338));
    assert!(close(f(q.mid.unwrap()), 1.317));
    // Intraday performance is the only reference-close the endpoint exposes.
    assert!(close(f(q.change_abs.unwrap()), 0.057));
    assert!(close(f(q.change_pct.unwrap()), 4.52));
    assert!(close(f(q.prev_close.unwrap()), 1.26));
    assert!((f(q.spread_bps().unwrap()) - 318.9066).abs() < 1e-3);
    assert!(close(f(q.spread_abs().unwrap()), 0.042));
}

#[test]
fn quote_keeps_the_performance_of_every_window() {
    let q = Quote::from_json("CA53056H1047", sc::result(&envelope(QUOTE)));
    let got: Vec<Option<f64>> = Window::all().iter().map(|w| q.perf.get(*w).map(f)).collect();
    assert_eq!(
        got,
        vec![
            Some(0.0452 * 100.0),
            Some(-2.0),
            Some(10.0),
            Some(25.0),
            None,
            Some(150.0)
        ]
    );
    let labels: Vec<&str> = Window::all().iter().map(|w| w.label()).collect();
    assert_eq!(labels, vec!["1D", "1W", "1M", "3M", "6M", "1Y"]);
    // The payload may leave the instrument out.
    let q = Quote::from_json("XX", &json(r#"{"quote_mid_price":"1,5"}"#));
    assert_eq!(q.isin, "XX");
    assert_eq!(q.mid.map(f), Some(1.5));
    assert!(q.spread_bps().is_none());
    // Of several entries for a window the last one counts.
    let q = Quote::from_json(
        "XX",
        &json(
            r#"{"quote_performances":[{"timeframe":"ONE_WEEK","performance":1},
                {"timeframe":"ONE_WEEK","performance":2}]}"#,
        ),
    );
    assert_eq!(q.perf.week.map(f), Some(200.0));
}

#[test]
fn watchlist_items_seed_rows_without_a_two_sided_quote() {
    let data = envelope(WATCHLIST);
    let items = sc::result(&data).get("items").unwrap().as_array().expect("items");
    assert!(!items.is_empty());
    let q = Quote::from_watchlist_item(&items[0]);
    assert!(!q.isin.is_empty());
    assert!(q.mid.is_some());
    // No bid/ask on this endpoint — the quote round fills them in.
    assert!(q.bid.is_none() && q.ask.is_none());
}

#[test]
fn holdings_carry_cost_basis_and_pnl() {
    let hs = Holding::list_from(sc::result(&envelope(HOLDINGS)));
    assert_eq!(hs.len(), 3);

    let h = hs
        .iter()
        .find(|h| h.isin == "CA53056H1047")
        .expect("Liberty Gold");
    assert_eq!(h.name, "Liberty Gold");
    assert!(close(f(h.quantity), 10.0));
    assert!(close(f(h.fifo_price.unwrap()), 1.238));
    assert!(close(f(h.valuation.unwrap()), 13.17));
    assert!(close(f(h.cost_basis().unwrap()), 12.38));
    assert!(close(f(h.unrealized().unwrap()), 0.79));
    assert!((f(h.unrealized_pct().unwrap()) - 6.381260).abs() < 1e-4);
    assert_eq!(h.currency, "EUR");

    // Every position must price, or the portfolio total is a lie.
    assert!(
        hs.iter()
            .all(|h| h.valuation.is_some() && h.fifo_price.is_some())
    );
}

#[test]
fn account_merges_overview_and_cash_breakdown() {
    let mut a = Account::default();
    a.apply_overview(sc::result(&envelope(OVERVIEW)));
    assert!(close(f(a.total.unwrap()), 361.37));
    assert!(close(f(a.securities.unwrap()), 68.0));
    assert!(close(f(a.crypto.unwrap()), 0.0));
    assert_eq!(a.performance.len(), 8);
    assert!(!a.valuation_ts.is_empty());

    a.apply_cash(sc::result(&envelope(CASH)));
    assert!(close(f(a.cash.unwrap()), 293.37));
    assert!(close(f(a.buying_power.unwrap()), 293.37));

    // securities + cash must reconcile to the reported total.
    assert!(close(
        f(a.securities.unwrap()) + f(a.cash.unwrap()) + f(a.crypto.unwrap()),
        f(a.total.unwrap())
    ));

    let ordered = a.performance_ordered();
    assert_eq!(ordered.first().unwrap().0, "INTRADAY");
    assert_eq!(ordered.last().unwrap().0, "MAX");
}

#[test]
fn returns_are_ordered_and_kept() {
    let mut a = Account::default();
    a.performance = vec![
        ("ODD".to_string(), n(1.0)),
        ("MAX".to_string(), n(2.0)),
        ("INTRADAY".to_string(), n(3.0)),
        ("MAX".to_string(), n(4.0)),
        ("OTHER".to_string(), n(5.0)),
    ];
    let got: Vec<(String, f64)> =
        a.performance_ordered().into_iter().map(|(k, v)| (k, f(v))).collect();
    let want: Vec<(String, f64)> = [
        ("INTRADAY", 3.0),
        ("MAX", 2.0),
        ("MAX", 4.0),
        ("ODD", 1.0),
        ("OTHER", 5.0),
    ]
    .iter()
    .map(|(k, v)| (k.to_string(), *v))
    .collect();
    assert_eq!(got, want);
    // The currency is kept once it is known.
    assert_eq!(a.currency, "");
    a.apply_overview(&json("{}"));
    assert_eq!(a.currency, "EUR");
    a.currency = "USD".to_string();
    a.apply_overview(&json("{}"));
    assert_eq!(a.currency, "USD");
    assert!(a.performance.is_empty());
}

#[test]
fn working_orders_come_from_pending_transactions() {
    let os = PendingOrder::pending_from_transactions(sc::result(&envelope(TRANSACTIONS)));
    assert_eq!(os.len(), 3, "three resting sells in the captured account");
    assert!(os.iter().all(|o| o.status == "PENDING"));
    assert!(os.iter().all(|o| o.side == "SELL"));
    assert!(os.iter().all(|o| !o.id.is_empty()));

    let o = os
        .iter()
        .find(|o| o.isin == "CA53056H1047")
        .expect("Liberty Gold sell");
    assert!(close(f(o.limit_price.unwrap()), 1.42));
    assert!(close(f(o.quantity.unwrap()), 10.0));
    assert_eq!(o.description, "Liberty Gold");
}

#[test]
fn settled_transactions_are_not_treated_as_working_orders() {
    let data = envelope(TRANSACTIONS);
    let all = sc::result(&data).get("items").unwrap().as_array().unwrap().len();
    let pending = PendingOrder::pending_from_transactions(sc::result(&data)).len();
    assert!(pending < all, "filter must drop non-PENDING rows");
}

#[test]
fn chart_parses_points_and_reference_close() {
    let c = Chart::from_json(sc::result(&envelope(&chart_1d())));
    assert_eq!(c.isin, "CA53056H1047");
    assert_eq!(c.timeframe, "1d");
    assert_eq!(c.currency, "EUR");
    assert_eq!(c.points.len(), 69);
    assert!(close(f(c.reference.unwrap()), 1.26));

    let first = &c.points[0];
    assert!(close(f(first.mid), 1.239));
    assert!(close(f(first.t), 1_789_536_607.0));

    // Timestamps must be monotonic or the plot draws backwards.
    assert!(c.points.windows(2).all(|w| f(w[1].t) >= f(w[0].t)));
    assert!(c.points.iter().all(|p| f(p.t) > 1_000_000_000.0));
}

#[test]
fn a_point_without_a_price_is_no_point() {
    let c = Chart::from_json(&json(
        r#"{"data_points":[{"timestamp_utc":"2026-09-16T05:30:07Z"},
            {"mid_price":2.5},{"mid_price":"x"},{"timestamp_utc":"soon","mid_price":"3,5"}]}"#,
    ));
    assert_eq!(c.points.len(), 2);
    assert_eq!(f(c.points[0].t), 0.0);
    assert_eq!(f(c.points[0].mid), 2.5);
    assert_eq!(f(c.points[1].mid), 3.5);
    assert_eq!(c.points[1].ts, "soon");
    assert!(c.reference.is_none());
}

#[test]
fn analytics_extracts_allocations_health_and_scenarios() {
    let a = Analytics::from_json(sc::result(&envelope(ANALYTICS)));

    let kinds: Vec<&str> = a.allocations.iter().map(|(k, _)| k.as_str()).collect();
    assert!(kinds.contains(&"PRODUCT_TYPE"));
    assert!(kinds.contains(&"ASSET_CLASS"));
    assert!(kinds.contains(&"EQUITY_SECTOR"));
    assert!(kinds.contains(&"REGION"));

    let (_, product) = a
        .allocations
        .iter()
        .find(|(k, _)| k == "PRODUCT_TYPE")
        .unwrap();
    let cash = product
        .iter()
        .find(|s| s.name == "cash")
        .expect("cash slice");
    assert!(close(f(cash.valuation), 293.37));
    assert!((f(cash.weight) - 0.8118272131).abs() < 1e-9);
    // Weights within a group sum to 1.
    let sum: f64 = product.iter().map(|s| f(s.weight)).sum();
    assert!((sum - 1.0).abs() < 1e-6);

    // Region slices nest one level deep.
    let (_, region) = a.allocations.iter().find(|(k, _)| k == "REGION").unwrap();
    assert!(region.iter().any(|s| !s.subs.is_empty()));

    assert_eq!(a.health.len(), 3);
    assert!(
        a.health
            .iter()
            .all(|(_, score, ..)| (0.0..=1.0).contains(&f(*score)))
    );

    assert_eq!(a.scenarios.len(), 5);
    let world = a
        .scenarios
        .iter()
        .find(|(t, ..)| t == "WORLD_DOWN")
        .unwrap();
    assert!(
        (f(world.1) - -0.73).abs() < 1e-6,
        "portfolio performance scaled to percent"
    );
    assert!(
        (f(world.2) - -5.42).abs() < 1e-6,
        "benchmark performance scaled to percent"
    );
}

#[test]
fn analytics_nest_one_level_and_count_in_whole_items() {
    let a = Analytics::from_json(sc::result(&envelope(ANALYTICS)));
    assert_eq!(a.last_updated, "2026-09-17T00:00:00Z");
    let (_, region) = a.allocations.iter().find(|(k, _)| k == "REGION").unwrap();
    assert_eq!(region[0].subs[0].name, "Canada");
    assert!(region[0].subs[0].subs.is_empty());
    assert_eq!((a.health[0].3, a.health[0].4), (3, 6));
    assert_eq!((a.health[2].3, a.health[2].4), (0, 10));
    let empty = Analytics::from_json(&json("[]"));
    assert!(empty.allocations.is_empty() && empty.health.is_empty() && empty.scenarios.is_empty());
}

/// The 1d fixture is intraday: 69 ticks inside a single session. No multi-day
/// average exists there, and drawing one anyway would be a lie.
#[test]
fn sma_requires_the_series_to_cover_the_window() {
    let data = envelope(&chart_1d());
    let c = Chart::from_json(sc::result(&data));

    assert!(f(c.span_days()) < 2.0, "1d fixture spans under two days");
    for days in [20.0, 50.0, 200.0] {
        assert!(!c.supports_sma(n(days)));
        assert!(
            c.sma_days(n(days)).is_empty(),
            "{days}-day SMA must not be drawn"
        );
    }
    assert!(c.sma_days(n(0.0)).is_empty());
}

/// A window the series does cover must equal a directly computed trailing mean.
#[test]
fn sma_days_matches_a_direct_trailing_mean() {
    let data = envelope(&chart_1d());
    let c = Chart::from_json(sc::result(&data));

    let days = 0.25; // six hours — inside the fixture's span
    assert!(c.supports_sma(n(days)));
    let sma = c.sma_days(n(days));
    assert!(!sma.is_empty());

    let window = days * 86_400.0;
    let first_t = f(c.points[0].t);

    // Nothing is emitted before the window is fully elapsed.
    assert!(f(sma[0][0]) - first_t >= window - 1e-6);

    for &[t, v] in &sma {
        let (t, v) = (f(t), f(v));
        let members: Vec<f64> = c
            .points
            .iter()
            .filter(|p| f(p.t) <= t + 1e-9 && f(p.t) >= t - window - 1e-9)
            .map(|p| f(p.mid))
            .collect();
        assert!(!members.is_empty());
        let mean = members.iter().sum::<f64>() / members.len() as f64;
        assert!(
            (v - mean).abs() < 1e-9,
            "at t={t}: rolling {v} vs direct {mean}"
        );
    }

    // An average is bounded by the series it averages.
    let lo = c.points.iter().map(|p| f(p.mid)).fold(f64::MAX, f64::min);
    let hi = c.points.iter().map(|p| f(p.mid)).fold(f64::MIN, f64::max);
    assert!(sma.iter().all(|v| f(v[1]) >= lo - 1e-9 && f(v[1]) <= hi + 1e-9));
}

/// The payoff of day-windows: on a long timeframe all three classic averages
/// draw, including the 200-day that an observation-count window could never
/// reach — the endpoint never returns 200 points on any timeframe.
#[test]
fn long_timeframe_supports_all_three_classic_averages() {
    let data = envelope(&chart_ytd());
    let c = Chart::from_json(sc::result(&data));

    assert_eq!(c.timeframe, "ytd");
    assert!(
        c.points.len() < 200,
        "endpoint downsamples: {} points",
        c.points.len()
    );
    assert!(
        f(c.span_days()) > 200.0,
        "but it still spans {:.0} days",
        f(c.span_days())
    );

    for days in [20.0, 50.0, 200.0] {
        assert!(c.supports_sma(n(days)), "{days}-day window fits in the span");
        let sma = c.sma_days(n(days));
        assert!(!sma.is_empty(), "{days}-day SMA must draw");
        // Longer windows start later and so plot fewer points.
        assert!(sma.len() < c.points.len());
    }
    assert!(c.sma_days(n(20.0)).len() > c.sma_days(n(200.0)).len());

    // Daily bars here, so a 20-day window really is about 20 observations.
    let k = f(c.points_per_window(n(20.0)).unwrap());
    assert!(
        (10.0..40.0).contains(&k),
        "expected ~daily resolution, got {k}"
    );

    // A window past the span still refuses.
    assert!(!c.supports_sma(n(500.0)));
    assert!(c.sma_days(n(500.0)).is_empty());
}

/// Spacing is what makes observation-count windows meaningless across
/// timeframes, and it is the number the UI reports.
#[test]
fn spacing_and_window_resolution_are_reported() {
    let data = envelope(&chart_1d());
    let c = Chart::from_json(sc::result(&data));

    let gap = f(c.median_spacing_secs().expect("spacing"));
    assert!(
        gap > 0.0 && gap < 3600.0,
        "1d fixture is intraday, got {gap}s"
    );

    let k = f(c.points_per_window(n(1.0)).expect("resolution"));
    assert!(k > 1.0, "a one-day window holds many intraday ticks");
    assert!((k - 86_400.0 / gap).abs() < 1e-6);

    assert!(Chart::default().median_spacing_secs().is_none());
    assert_eq!(f(Chart::default().span_days()), 0.0);
}

/// Phase-1 disclosure. These paths are contractual (`pre_trade_full_disclosure_v1`),
/// so a break here means the CLI changed its published contract.
#[test]
fn trade_preview_extracts_full_disclosure() {
    let data = envelope(PREVIEW);
    let p = TradePreview::from_json(&data).expect("confirmation id present");

    assert!(p.confirmation_id.starts_with("scb1_"));
    assert!(f(p.expires_at_epoch.unwrap()) > 1_700_000_000.0);

    assert!(close(f(p.bid.unwrap()), 81.1));
    assert!(close(f(p.ask.unwrap()), 81.2));
    assert!(close(f(p.mid.unwrap()), 81.15));
    assert_eq!(p.currency, "EUR");
    assert!(!p.quote_outdated);
    assert!(!p.quote_ts.is_empty());

    assert!(close(f(p.shares.unwrap()), 1.0));
    assert!(close(f(p.est_volume.unwrap()), 75.0));
    assert!(p.tradable);
    assert_eq!(p.venue, "European Investor Exchange (EIX)");
    assert_eq!(p.venue_status, "TRADABLE_WITHOUT_APPROPRIATENESS");
    assert_eq!(p.suitability_status, "NOT_REQUIRED");
    assert!(!p.requires_accept_unsuitable);

    assert!(close(f(p.entry_cost.unwrap()), 0.99));
    assert!(close(f(p.entry_cost_pct.unwrap()), 0.0132));
    assert!(close(f(p.ongoing_cost.unwrap()), 0.21));
    assert!(close(f(p.exit_cost.unwrap()), 0.99));

    // Absent warning must degrade to empty, not panic the extractor.
    assert!(p.warning_title.is_empty());

    assert!((f(p.spread_bps().unwrap()) - 12.3228).abs() < 1e-3);
}

#[test]
fn a_payload_without_a_confirmation_is_no_preview() {
    assert!(TradePreview::from_json(&json(r#"{"result":{}}"#)).is_none());
    assert!(TradePreview::from_json(&json(r#"{"confirmation":{"id":null}}"#)).is_none());
    let p = TradePreview::from_json(&json(
        r#"{"confirmation":{"id":7},"result":{"calculation":{"estimated_order_volume_raw":1.5,
            "estimated_order_volume":2.5},"tradability":{"selected_venue":"EIX"}}}"#,
    ))
    .unwrap();
    assert_eq!(p.confirmation_id, "7");
    assert_eq!(p.est_volume.map(f), Some(1.5));
    assert_eq!(p.venue, "EIX");
    assert!(!p.tradable);
}

/// A lapsed confirmation must disarm SUBMIT rather than fail at the broker.
#[test]
fn expired_confirmation_disarms_submit() {
    let data = envelope(PREVIEW);
    let mut p = TradePreview::from_json(&data).unwrap();
    let clock = std::time::SystemTime::now()
        .duration_since(std::time::UNIX_EPOCH)
        .unwrap()
        .as_secs_f64();
    let now = Some(n(clock));

    p.expires_at_epoch = Some(n(0.0));
    assert!(p.expired(now));
    assert!(p.seconds_left(now).unwrap() < 0);

    let far = clock + 120.0;
    p.expires_at_epoch = Some(n(far));
    assert!(!p.expired(now));
    assert!(p.seconds_left(now).unwrap() > 100);

    // No expiry published: do not invent one.
    p.expires_at_epoch = None;
    assert!(!p.expired(now));
    assert!(p.seconds_left(now).is_none());
}

#[test]
fn a_confirmation_expires_with_its_last_half_second() {
    let data = envelope(PREVIEW);
    let mut p = TradePreview::from_json(&data).unwrap();
    p.expires_at_epoch = Some(n(1000.5));
    assert_eq!(p.seconds_left(Some(n(1000.0))), Some(1));
    assert!(!p.expired(Some(n(1000.0))));
    assert_eq!(p.seconds_left(Some(n(1000.25))), Some(0));
    assert!(p.expired(Some(n(1000.25))));
    assert!(p.seconds_left(None).is_none());
}

/// `blocked_quantity` is 0 on every position in the captured account even though
/// all three are fully committed to resting sell orders. Sizing a sell off
/// `quantity - blocked` would offer shares that are already on the market.
#[test]
fn free_quantity_subtracts_resting_sells() {
    let hd = envelope(HOLDINGS);
    let tx = envelope(TRANSACTIONS);
    let holdings = Holding::list_from(sc::result(&hd));
    let working = PendingOrder::pending_from_transactions(sc::result(&tx));

    // The broker itself reports nothing blocked.
    assert!(
        holdings
            .iter()
            .all(|h| f(h.blocked) == 0.0 && f(h.pending) == 0.0)
    );

    for h in &holdings {
        assert!(
            close(f(h.free_quantity(&working)), 0.0),
            "{} is entirely committed to a resting sell, free must be 0, not {}",
            h.isin,
            f(h.free_quantity(&working))
        );
    }

    // With no working orders the whole position is free again.
    for h in &holdings {
        assert!(close(f(h.free_quantity(&[])), f(h.quantity)));
    }
}

/// Only sells consume inventory; a resting buy must not reduce free quantity.
#[test]
fn free_quantity_ignores_buys_and_other_isins() {
    let hd = envelope(HOLDINGS);
    let h = Holding::list_from(sc::result(&hd))
        .into_iter()
        .find(|h| h.isin == "CA53056H1047")
        .unwrap();

    let buy = PendingOrder {
        isin: "CA53056H1047".into(),
        side: "BUY".into(),
        quantity: Some(n(5.0)),
        ..Default::default()
    };
    let other = PendingOrder {
        isin: "JP3228600007".into(),
        side: "SELL".into(),
        quantity: Some(n(2.0)),
        ..Default::default()
    };
    assert!(close(f(h.free_quantity(&[buy, other])), f(h.quantity)));

    let partial = PendingOrder {
        isin: "CA53056H1047".into(),
        side: "SELL".into(),
        quantity: Some(n(4.0)),
        ..Default::default()
    };
    assert!(close(f(h.free_quantity(&[partial])), 6.0));
}

#[test]
fn free_quantity_is_never_negative_and_minds_no_letter_case() {
    let hd = envelope(HOLDINGS);
    let mut h = Holding::list_from(sc::result(&hd)).remove(0);
    let sell = |side: &str, q: Option<f64>| PendingOrder {
        isin: "CA53056H1047".into(),
        side: side.into(),
        quantity: q.map(n),
        ..Default::default()
    };
    assert_eq!(f(h.free_quantity(&[sell("Sell", Some(3.0)), sell("sell", Some(2.0))])), 5.0);
    assert_eq!(f(h.free_quantity(&[sell("SELL", None)])), 10.0);
    assert_eq!(f(h.free_quantity(&[sell("SELL", Some(30.0))])), 0.0);
    h.blocked = n(4.0);
    assert_eq!(f(h.free_quantity(&[sell("SELL", Some(1.0))])), 5.0);
}

/// Candles are derived, not published: the endpoint returns mid ticks only.
/// The aggregation must satisfy the OHLC invariants or the bars are fiction.
#[test]
fn candles_aggregate_ticks_into_valid_ohlc() {
    let data = envelope(&chart_1d());
    let c = Chart::from_json(sc::result(&data));

    let bucket = 900.0; // 15 minutes
    let bars = c.candles(n(bucket));
    assert!(!bars.is_empty());
    assert!(
        bars.len() <= c.points.len(),
        "aggregation cannot invent bars"
    );

    // Every tick lands in exactly one bar.
    assert_eq!(bars.iter().map(|b| b.ticks).sum::<usize>(), c.points.len());

    for b in &bars {
        let (open, high, low, end) = (f(b.open), f(b.high), f(b.low), f(b.close));
        assert!(low <= open && low <= end, "low is the floor");
        assert!(high >= open && high >= end, "high is the ceiling");
        assert!(low <= high);
        assert!(b.ticks >= 1);
        assert!(close(f(b.t) % bucket, 0.0), "bar starts on a bucket boundary");
    }

    // Bars are ordered and never overlap.
    assert!(bars.windows(2).all(|w| f(w[1].t) > f(w[0].t)));

    // The series endpoints survive aggregation.
    assert!(close(
        f(bars.first().unwrap().open),
        f(c.points.first().unwrap().mid)
    ));
    assert!(close(
        f(bars.last().unwrap().close),
        f(c.points.last().unwrap().mid)
    ));

    let lo = c.points.iter().map(|p| f(p.mid)).fold(f64::MAX, f64::min);
    let hi = c.points.iter().map(|p| f(p.mid)).fold(f64::MIN, f64::max);
    assert!(close(
        bars.iter().map(|b| f(b.low)).fold(f64::MAX, f64::min),
        lo
    ));
    assert!(close(
        bars.iter().map(|b| f(b.high)).fold(f64::MIN, f64::max),
        hi
    ));
}

/// A bucket wide enough to hold everything collapses to a single bar; a
/// degenerate bucket produces nothing rather than panicking.
#[test]
fn candle_bucketing_handles_the_extremes() {
    let data = envelope(&chart_1d());
    let c = Chart::from_json(sc::result(&data));

    let one = c.candles(n(86_400.0 * 365.0));
    assert_eq!(one.len(), 1);
    assert_eq!(one[0].ticks, c.points.len());

    assert!(c.candles(n(0.0)).is_empty());
    assert!(c.candles(n(-5.0)).is_empty());
    assert!(Chart::default().candles(n(900.0)).is_empty());
}

/// The bucket must track the requested bar count and never go finer than the
/// data, which would just yield a row of one-tick bars.
#[test]
fn auto_bucket_tracks_the_requested_density() {
    let intraday = Chart::from_json(sc::result(&envelope(&chart_1d())));
    let ytd = Chart::from_json(sc::result(&envelope(&chart_ytd())));

    for c in [&intraday, &ytd] {
        let spacing = f(c.median_spacing_secs().unwrap());
        for target in [30usize, 90, 250] {
            let b = f(c.auto_bucket_secs(target));
            assert!(b >= spacing, "bucket {b} finer than data spacing {spacing}");
            assert!(c.candles(n(b)).len() <= c.points.len());
        }
        // Asking for fewer bars must not produce a finer bucket.
        assert!(f(c.auto_bucket_secs(30)) >= f(c.auto_bucket_secs(250)));
    }

    // A long series buckets coarser than an intraday one.
    assert!(f(ytd.auto_bucket_secs(90)) > f(intraday.auto_bucket_secs(90)));
    assert_eq!(f(Chart::default().auto_bucket_secs(90)), 86_400.0);
}

#[test]
fn bucket_widths_are_exact() {
    let intraday = Chart::from_json(sc::result(&envelope(&chart_1d())));
    // 40800 seconds: 30 bars want 1360 seconds each, 90 want 453.
    assert_eq!(f(intraday.auto_bucket_secs(30)), 1_800.0);
    assert_eq!(f(intraday.auto_bucket_secs(90)), 900.0);
    // No finer than the ten minutes between ticks.
    assert_eq!(f(intraday.auto_bucket_secs(100_000)), 900.0);
    assert_eq!(f(intraday.auto_bucket_secs(0)), 86_400.0);
    assert_eq!(f(intraday.auto_bucket_secs(1)), 43_200.0);
}

fn series(points: &[(f64, f64)]) -> Chart {
    let mut c = Chart::default();
    for (t, mid) in points {
        c.points.push(ChartPoint { t: n(*t), mid: n(*mid), ts: String::new() });
    }
    c
}

/// Not even the widest bucket is finer than a series that is sparser still.
#[test]
fn a_sparse_series_has_a_bucket_of_its_own_spacing() {
    let c = series(&[(0.0, 1.0), (8_640_000.0, 2.0)]);
    assert_eq!(f(c.auto_bucket_secs(1)), 8_640_000.0);
    assert_eq!(f(c.auto_bucket_secs(90)), 8_640_000.0);
    let c = series(&[(0.0, 1.0), (7_776_000.0, 2.0)]);
    assert_eq!(f(c.auto_bucket_secs(1)), 7_776_000.0);
}

#[test]
fn a_gap_that_is_no_number_is_its_own_median() {
    let mut c = Chart::from_json(&json(r#"{"data_points":[{"mid_price":1},{"mid_price":2}]}"#));
    assert_eq!(c.median_spacing_secs().map(f), Some(0.0));
    assert!(c.points_per_window(n(1.0)).is_none());
    c.points[0].t = n(f64::NAN);
    assert!(f(c.median_spacing_secs().unwrap()).is_nan());
    assert!(c.points_per_window(n(1.0)).is_none());
    assert_eq!(f(c.auto_bucket_secs(0)), 86_400.0);
    assert_eq!(f(c.auto_bucket_secs(1)), 7_776_000.0);
}

/// Prices in cents do not add up exactly, but the average stays within nine
/// decimals of the mean.
#[test]
fn averages_of_cents_are_means_to_nine_decimals() {
    let mids: Vec<f64> = (0..200).map(|i| 1500.0 + ((i * 7919) % 49_999) as f64 / 100.0).collect();
    let points: Vec<(f64, f64)> =
        mids.iter().enumerate().map(|(i, m)| (i as f64 * 86_400.0, *m)).collect();
    let c = series(&points);
    for days in [20usize, 50] {
        let sma = c.sma_days(n(days as f64));
        assert_eq!(sma.len(), 200 - days);
        for (k, [_, v]) in sma.iter().enumerate() {
            let window = &mids[k..k + days + 1];
            let mean = window.iter().sum::<f64>() / window.len() as f64;
            assert!((f(*v) - mean).abs() < 1e-9);
        }
    }
}

/// Prices in eighths add up exactly, so that the average is the mean itself.
#[test]
fn averages_of_eighths_are_means() {
    let mids: Vec<f64> = (0..200).map(|i| 100.0 + ((i * 37) % 83) as f64 / 8.0).collect();
    let points: Vec<(f64, f64)> =
        mids.iter().enumerate().map(|(i, m)| (i as f64 * 86_400.0, *m)).collect();
    let c = series(&points);
    let sma = c.sma_days(n(20.0));
    assert_eq!(sma.len(), 180);
    for (k, [t, v]) in sma.iter().enumerate() {
        let window = &mids[k..k + 21];
        assert_eq!(f(*t), (k + 20) as f64 * 86_400.0);
        assert_eq!(f(*v), window.iter().sum::<f64>() / 21.0);
        let lo = window.iter().copied().fold(f64::MAX, f64::min);
        let hi = window.iter().copied().fold(f64::MIN, f64::max);
        assert!(lo <= f(*v) && f(*v) <= hi);
    }
}

/// The error envelope arrives on stdout with exit 0, so it must be detected from
/// the `ok` flag rather than the process status.
#[test]
fn logical_failure_is_read_from_the_envelope() {
    let raw = r#"{"ok":false,"command":"whoami","error":{"code":"no_session","message":"No active session. Run 'sc login'."},"hints":["Run 'sc login' first to create a session."]}"#;
    let v = json(raw);
    assert_eq!(v.get("ok").unwrap().as_bool(), Some(false));
    assert_eq!(v.get("error").unwrap().get("code").unwrap().as_str(), Some("no_session"));

    let e = sc::parse_envelope(raw, 0).unwrap_err();
    assert_eq!(e.code, "no_session");
    assert_eq!(
        e.text(),
        "[no_session] No active session. Run 'sc login'. — Run 'sc login' first to create a session."
    );
}

/// Derivatives search rows carry metrics only — no name, no quote. The
/// extractor must surface the risk numbers (leverage, barrier, distance to
/// knockout) exactly, since the table sorts trading decisions by them.
#[test]
fn derivatives_page_extracts_risk_metrics() {
    let data = envelope(DERIVATIVES);
    let p = DerivativesPage::from_json(sc::result(&data));

    assert_eq!(p.underlying, "US67066G1040");
    assert_eq!(p.derivative_type, "knockout");
    assert_eq!(p.items.len(), 5);
    assert_eq!(p.total_available, 8223);

    let d = p
        .items
        .iter()
        .find(|d| d.isin == "DE000CJ8P2E4")
        .expect("SocGen mini");
    assert_eq!(d.issuer, "SOC_GEN");
    assert_eq!(d.strategy, "LONG");
    assert_eq!(d.subcategory, "MINI_FUTURE");
    assert!((f(d.leverage.unwrap()) - 1.0121381506).abs() < 1e-9);
    assert!(close(f(d.strike.unwrap()), 2.6022));
    assert_eq!(d.strike_currency, "USD");
    assert!(close(f(d.knockout_barrier.unwrap()), 2.7425));
    assert!(close(f(d.distance_to_knockout.unwrap()), 0.9875));
    assert!(close(f(d.premium_pct.unwrap()), -0.0001));
    assert!(d.open_end);
    assert!(
        d.expiry.is_empty(),
        "open-end products have a null expiry_date"
    );
    assert!(d.factor.is_none(), "knockouts carry leverage, not a factor");

    // Rows without an ISIN would be untradable — none may survive extraction.
    assert!(p.items.iter().all(|d| !d.isin.is_empty()));
}

/// `watchlist add` answers `ok: true` even when the broker declines, and reports
/// the real outcome in `is_on_watchlist`. It refuses anything already held.
/// Trusting the envelope alone makes a failed add look like a success.
#[test]
fn watchlist_add_reports_refusal_inside_a_success_envelope() {
    let declined = r#"{"ok":true,"command":"broker.watchlist.add","data":{"result":{"action":"add","is_on_watchlist":false,"isin":"JP3228600007"}}}"#;
    let accepted = r#"{"ok":true,"command":"broker.watchlist.add","data":{"result":{"action":"add","is_on_watchlist":true,"isin":"US67066G1040"}}}"#;

    for (raw, expected) in [(declined, false), (accepted, true)] {
        let v = json(raw);
        // The envelope says success in both cases.
        assert_eq!(v.get("ok").unwrap().as_bool(), Some(true));
        let on = sc::pick(sc::result(v.get("data").unwrap()), &["is_on_watchlist"])
            .and_then(Json::as_bool);
        assert_eq!(on, Some(expected));
    }
}

/// A row with no quote yet must still say what it is. Names come from whichever
/// endpoint answered first, and an instrument's name does not change, so the
/// cache is safe to keep and reuse.
#[test]
fn names_are_learned_from_every_endpoint() {
    let mut names: std::collections::HashMap<String, String> = Default::default();

    // From the broker watchlist.
    let wl = envelope(WATCHLIST);
    for i in sc::result(&wl).get("items").unwrap().as_array().unwrap() {
        let q = Quote::from_watchlist_item(i);
        if !q.name.is_empty() {
            names.insert(q.isin.clone(), q.name.clone());
        }
    }
    assert!(names.contains_key("IE00B8GKDB10"));
    assert_eq!(
        names["IE00B8GKDB10"],
        "Vanguard FTSE All-World High Dividend Yield (Dist)"
    );

    // From holdings.
    let hd = envelope(HOLDINGS);
    for h in Holding::list_from(sc::result(&hd)) {
        names.insert(h.isin.clone(), h.name.clone());
    }
    assert_eq!(names["JP3228600007"], "Kansai El. Power");

    // From a full quote.
    let q = Quote::from_json("CA53056H1047", sc::result(&envelope(QUOTE)));
    names.insert(q.isin.clone(), q.name.clone());
    assert_eq!(names["CA53056H1047"], "Liberty Gold");

    // Every name learned is non empty, or the fallback is pointless.
    assert!(names.values().all(|n| !n.is_empty()));
}

#[test]
fn alerts_keep_what_has_an_id() {
    let v = json(
        r#"{"items":[
          {"alert_id":"a1","isin":"X","name":"N","security_type":"STOCK","price":110,
           "direction":"UP","is_active":true,"triggered_timestamp_utc":null},
          {"isin":"no id"},
          {"alert_id":"a2","price":"90,5","is_active":false,
           "triggered_timestamp_utc":"2026-09-17T00:00:00Z"}]}"#,
    );
    let alerts = PriceAlert::list_from(&v);
    assert_eq!(alerts.len(), 2);
    assert_eq!(alerts[0].direction, "UP");
    assert!(alerts[0].active && !alerts[0].has_triggered());
    assert!(!alerts[1].active && alerts[1].has_triggered());
    assert_eq!(alerts[0].distance(n(100.0)).map(f), Some(0.1));
    assert_eq!(alerts[1].distance(n(100.0)).map(f), Some(-0.095));
    assert!(alerts[0].distance(n(0.0)).is_none());
}

#[test]
fn news_may_be_empty() {
    let none = SecurityNews::from_json(&json(r#"{"isin":"X","sources":[{"headline":""}]}"#));
    assert!(none.is_empty());
    let some = SecurityNews::from_json(&json(
        r#"{"isin":"X","locale":"en","summary":{"short":"s","long":"l","last_updated":"u"},
            "sources":[{"headline":"h","source_name":"n","publication_time_utc":"p"},{}]}"#,
    ));
    assert!(!some.is_empty());
    assert_eq!((some.short.as_str(), some.long.as_str()), ("s", "l"));
    assert_eq!(some.sources.len(), 1);
    assert_eq!(some.sources[0].source, "n");
    let one = SecurityNews::from_json(&json(r#"{"sources":[{"headline":"h"}]}"#));
    assert!(!one.is_empty());
}

#[test]
fn dates_come_back_and_keep_their_order() {
    assert_eq!(days_from_civil(1970, 1, 1), 0);
    assert_eq!(days_from_civil(2000, 3, 1), 11_017);
    assert_eq!(civil_from_days(-1), (1969, 12, 31));
    assert_eq!(civil_from_days(11_016), (2000, 2, 29));
    // As far as day numbers go, they come back.
    for day in [i64::MIN, i64::MIN + 1, i64::MAX - 1, i64::MAX] {
        let (y, m, d) = civil_from_days(day);
        assert_eq!(days_from_civil(y, m, d), day);
    }
    assert_eq!(days_from_civil(1970, 1, i64::MAX), i64::MAX - 1);
    // From before the year zero to beyond the present, every day comes back.
    let mut last = civil_from_days(-800_000);
    for day in -799_999i64..60_000 {
        let date = civil_from_days(day);
        assert!(date > last);
        let (y, m, d) = date;
        assert_eq!(days_from_civil(y, m, d), day);
        last = date;
    }
}
