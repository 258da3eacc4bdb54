use scalable_terminal::json::Json;
use scalable_terminal::model::{Quote, Trail};
use scalable_terminal::num::Num;
use scalable_terminal::worker::trails::{load_trails, read_trails, save_trails};
use scalable_terminal::worker::Shared;

fn n(x: f64) -> Num {
    Num { bits: x.to_bits() }
}

fn f(x: Num) -> f64 {
    f64::from_bits(x.bits)
}

fn close(a: f64, b: f64) -> bool {
    (a - b).abs() < 1e-6
}

/// A trailing stop must never loosen. The high water mark only rises, so the
/// suggested stop can only rise with it.
#[test]
fn trail_high_water_and_stop_only_rise() {
    let mut t = Trail::new("X", n(0.03), true, n(190.0));
    assert!(close(f(t.high_water), 190.0));
    assert!(close(f(t.suggested_stop().unwrap()), 184.3));

    assert!(t.observe(n(194.20)), "a higher mid advances the mark");
    assert!(close(f(t.high_water), 194.20));
    assert!(close(f(t.suggested_stop().unwrap()), 188.374));

    // Falling prices change nothing at all.
    for p in [191.0, 185.0, 150.0, 1.0] {
        assert!(!t.observe(n(p)), "{p} must not move the mark");
        assert!(close(f(t.high_water), 194.20));
        assert!(close(f(t.suggested_stop().unwrap()), 188.374));
    }

    // Garbage input must not poison the mark.
    assert!(!t.observe(n(f64::NAN)));
    assert!(!t.observe(n(f64::INFINITY)));
    assert!(close(f(t.high_water), 194.20));
}

/// Rounding is downward, so it can only ever move the stop further from the
/// market. Rounding up could trigger an exit that should not have happened.
#[test]
fn trail_rounds_the_stop_away_from_the_market() {
    let t = Trail::new("X", n(0.037), true, n(123.4567));
    let raw = 123.4567 * (1.0 - 0.037);
    let s = f(t.suggested_stop().unwrap());
    assert!(s <= raw, "rounded stop {s} must not exceed raw {raw}");
    assert!(raw - s < 1e-4);

    let abs = Trail::new("X", n(2.5), false, n(100.0));
    assert!(close(f(abs.suggested_stop().unwrap()), 97.5));
}

/// Replacing costs three calls and opens an unprotected window, so a trail must
/// not churn for a rounding error.
#[test]
fn trail_only_moves_for_a_worthwhile_improvement() {
    let mut t = Trail::new("X", n(0.03), true, n(200.0));
    let stop = f(t.suggested_stop().unwrap());
    assert!(close(stop, 194.0));

    // No resting stop at all: always worth placing one.
    assert!(t.should_move(None));

    // Already at the suggestion: nothing to do.
    assert!(!t.should_move(Some(n(stop))));

    // A resting stop above the suggestion is never dragged back down.
    assert!(!t.should_move(Some(n(stop + 5.0))));

    // Just under the minimum step is not worth the exposure.
    let tiny = stop - stop * (f(t.min_step) * 0.5);
    assert!(!t.should_move(Some(n(tiny))));

    // A full step is.
    let worth = stop - stop * (f(t.min_step) * 2.0);
    assert!(t.should_move(Some(n(worth))));

    // After a real rally the old stop is clearly stale.
    t.observe(n(240.0));
    assert!(t.should_move(Some(n(stop))));
    assert!(close(f(t.suggested_stop().unwrap()), 232.8));
}

/// A misconfigured trail must produce no suggestion rather than a nonsense one.
#[test]
fn trail_rejects_impossible_distances() {
    for (d, pct) in [
        (0.0, true),
        (-0.05, true),
        (1.0, true),
        (1.5, true),
        (0.0, false),
    ] {
        let t = Trail::new("X", n(d), pct, n(100.0));
        assert!(!t.valid(), "distance {d} percent {pct} must be rejected");
        assert!(t.suggested_stop().is_none());
        assert!(!t.should_move(None));
    }

    // An absolute distance wider than the price leaves no stop to place.
    let t = Trail::new("X", n(150.0), false, n(100.0));
    assert!(t.valid());
    assert!(t.suggested_stop().is_none());
    assert!(!t.should_move(None));
}

/// The cushion is what the user actually reads: how far price can fall before
/// the stop is hit.
#[test]
fn trail_cushion_measures_distance_to_the_stop() {
    let t = Trail::new("X", n(0.03), true, n(200.0));
    // Against a resting stop, not the suggestion.
    let c = f(t.cushion(n(200.0), Some(n(190.0))).unwrap());
    assert!((c - 0.05).abs() < 1e-9);
    // With no resting stop it falls back to where the stop would go.
    let c = f(t.cushion(n(200.0), None).unwrap());
    assert!((c - 0.03).abs() < 1e-9);
    assert!(t.cushion(n(0.0), Some(n(190.0))).is_none());
}

#[test]
fn stops_are_cut_to_four_decimals() {
    let t = Trail::new("X", n(0.05), true, n(12.34567));
    assert_eq!(f(t.suggested_stop().unwrap()), 11.7283);
    assert_eq!(f(Trail::default_min_step()), 0.001);
    assert_eq!(f(t.min_step), 0.001);
    assert!(Trail::new("X", n(0.05), true, n(0.0)).suggested_stop().is_none());
}

#[test]
fn stored_trails_come_back() {
    let trails = vec![
        Trail::new("A", n(0.05), true, n(100.5)),
        Trail::new("B", n(2.5), false, n(0.0)),
    ];
    let rows = save_trails(&trails);
    let back = read_trails(&rows);
    assert_eq!(back.len(), 2);
    for (a, b) in trails.iter().zip(&back) {
        assert_eq!(a.isin, b.isin);
        assert_eq!(
            (f(a.distance), a.percent, f(a.high_water), f(a.min_step)),
            (f(b.distance), b.percent, f(b.high_water), f(b.min_step))
        );
    }
    match &rows {
        Json::Array(a) => match &a[0] {
            Json::Object(fields) => {
                let keys: Vec<&str> = fields.iter().map(|p| p.0.as_str()).collect();
                assert_eq!(keys, vec!["isin", "distance", "percent", "high_water"]);
            }
            _ => panic!("a row is an object"),
        },
        _ => panic!("the rows are an array"),
    }
}

#[test]
fn a_stored_text_is_read_as_far_as_it_makes_sense() {
    let ts = load_trails(
        r#"[{"isin":"A","distance":0.05,"percent":true,"high_water":12.5},
            {"isin":"B","distance":"2,5","percent":false},
            {"isin":"C","distance":0.5,"percent":"yes","high_water":1},
            {"isin":"D","distance":1.5,"percent":true,"high_water":1},
            {"isin":"E"}, {"distance":0.5}, 7]"#,
    );
    let seen: Vec<(&str, f64, bool, f64)> = ts
        .iter()
        .map(|t| (t.isin.as_str(), f(t.distance), t.percent, f(t.high_water)))
        .collect();
    assert_eq!(
        seen,
        vec![
            ("A", 0.05, true, 12.5),
            ("B", 2.5, false, 0.0),
            ("C", 0.5, true, 1.0)
        ]
    );
    assert!(load_trails("").is_empty());
    assert!(load_trails("[{").is_empty());
    assert!(load_trails(r#"{"isin":"A","distance":0.05}"#).is_empty());
}

fn quoted(isin: &str, mid: f64) -> Quote {
    let mut q = Quote::unquoted(isin);
    q.mid = Some(n(mid));
    q
}

#[test]
fn arming_leaves_one_trail_on_the_instrument() {
    let mut s = Shared::default();
    s.quotes.insert("X".to_string(), quoted("X", 50.0));
    s.trail_error = Some("old".to_string());
    let x = "X".to_string();
    s.arm_trail(&x, n(0.1), true, "50");
    s.arm_trail(&"Y".to_string(), n(1.0), false, "0");
    s.arm_trail(&x, n(0.2), true, "50");
    let seen: Vec<(&str, f64, f64)> = s
        .trails
        .iter()
        .map(|t| (t.isin.as_str(), f(t.distance), f(t.high_water)))
        .collect();
    assert_eq!(seen, vec![("Y", 1.0, 0.0), ("X", 0.2, 50.0)]);
    assert!(s.trail_error.is_none());
    let last = s.log.last().unwrap();
    assert_eq!((last.cmd.as_str(), last.detail.as_str()), ("trail.arm", "X at 50"));
    assert_eq!(f(s.trail_for("X").unwrap().distance), 0.2);
    s.disarm_trail("X");
    assert!(s.trail_for("X").is_none());
    assert_eq!(s.trails.len(), 1);
    assert_eq!(s.log.last().unwrap().cmd, "trail.disarm");
}

/// A stop is never a whole tick below the price that is rounded, nor above it but
/// for what is given back.
#[test]
fn a_stop_lies_within_a_tick() {
    for i in 1..2000u32 {
        let mid = 0.37 * i as f64 + 1.0 / (i as f64 + 2.0);
        let distance = 0.001 + 0.9 * (i % 97) as f64 / 97.0;
        let raw = mid * (1.0 - distance);
        let stop = f(Trail::new("X", n(distance), true, n(mid)).suggested_stop().unwrap());
        assert!(raw - stop < 1e-4, "{raw} {stop}");
        assert!(stop - raw <= 2e-10, "{raw} {stop}");
    }
}
