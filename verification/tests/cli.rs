use scalable_terminal::json::{parse, Json};
use scalable_terminal::options::read_options;
use scalable_terminal::sc::{
    answered, bool_at, f64_at, full_argv, not_started, parse_envelope, pick, read_envelope, result,
    str_at, ScErrorKind,
};

fn f(x: scalable_terminal::num::Num) -> f64 {
    f64::from_bits(x.bits)
}

fn args(a: &[&str]) -> Vec<String> {
    a.iter().map(|s| s.to_string()).collect()
}

/// A rate-limited response is a distinct kind, because retrying it immediately
/// makes things worse. It must not be lumped in with generic failures.
#[test]
fn rate_limited_is_classified_separately() {
    let kinds = [
        ScErrorKind::RateLimited,
        ScErrorKind::Auth,
        ScErrorKind::Network,
        ScErrorKind::Validation,
        ScErrorKind::Generic,
    ];
    assert_eq!(
        kinds
            .iter()
            .filter(|k| **k == ScErrorKind::RateLimited)
            .count(),
        1
    );
    assert_ne!(ScErrorKind::RateLimited, ScErrorKind::Network);
    assert_ne!(ScErrorKind::RateLimited, ScErrorKind::Generic);
}

/// `device_locked` arrives with exit code 20, the same as a real auth failure,
/// but the session is intact and the fix is to unlock the Mac. Classifying it as
/// an auth error would tell the user to log in again, which does nothing.
#[test]
fn device_locked_is_not_an_auth_failure() {
    let raw = r#"{"ok":false,"command":"whoami","error":{"code":"device_locked","message":"The Mac is locked, so the Secure Enclave signing key cannot be used. Unlock the Mac and retry."},"hints":["If the Mac is already unlocked, check Secure Enclave and keychain access."]}"#;
    let v = parse(raw).unwrap();
    assert_eq!(v.get("ok").unwrap().as_bool(), Some(false));
    assert_eq!(v.get("error").unwrap().get("code").unwrap().as_str(), Some("device_locked"));

    assert_ne!(ScErrorKind::DeviceLocked, ScErrorKind::Auth);
    assert_ne!(ScErrorKind::DeviceLocked, ScErrorKind::RateLimited);
    assert_ne!(ScErrorKind::DeviceLocked, ScErrorKind::Generic);

    assert_eq!(parse_envelope(raw, 20).unwrap_err().kind, ScErrorKind::DeviceLocked);
}

#[test]
fn each_failure_has_its_kind() {
    for (code, exit, kind) in [
        ("x", 10, ScErrorKind::Validation),
        ("x", 20, ScErrorKind::Auth),
        ("x", 30, ScErrorKind::Network),
        ("x", 0, ScErrorKind::Generic),
        ("x", 1, ScErrorKind::Generic),
        ("rate_limited", 30, ScErrorKind::RateLimited),
        ("device_locked", 20, ScErrorKind::DeviceLocked),
    ] {
        let raw = format!(r#"{{"ok":false,"error":{{"code":"{code}","message":"m"}}}}"#);
        let e = parse_envelope(&raw, exit).unwrap_err();
        assert_eq!(e.kind, kind);
        assert_eq!(e.code, code);
        assert_eq!(e.text(), format!("[{code}] m"));
    }
    assert_eq!(ScErrorKind::from_code(20), ScErrorKind::Auth);
}

#[test]
fn an_envelope_may_lack_anything() {
    let e = parse_envelope("{}", 20).unwrap_err();
    assert_eq!((e.code.as_str(), e.message.as_str()), ("unknown", "unknown error"));
    assert_eq!(e.kind, ScErrorKind::Auth);
    assert!(e.hints.is_empty());
    // Only `true` is a success.
    assert!(parse_envelope(r#"{"ok":"true","data":1}"#, 0).is_err());
    assert!(parse_envelope(r#"{"ok":true}"#, 0).unwrap().is_null());
    let e = parse_envelope(r#"{"ok":false,"hints":["a",7,"b"],"error":{"message":"m"}}"#, 0)
        .unwrap_err();
    assert_eq!(e.text(), "[unknown] m — a; b");
    let v = Json::Object(vec![("ok".to_string(), Json::Bool(true))]);
    assert!(read_envelope(&v, 0).unwrap().is_null());
}

#[test]
fn what_is_no_json_is_quoted() {
    let body = "é".repeat(500);
    let e = parse_envelope(&body, 30).unwrap_err();
    assert_eq!(e.code, "bad_json");
    assert_eq!(e.kind, ScErrorKind::Network);
    assert!(e.message.starts_with("non-JSON output (expected value at line 1 column 1): é"));
    assert_eq!(e.message.matches('é').count(), 400);
}

#[test]
fn answers_are_read_from_standard_output_or_error() {
    let ok = r#"{"ok":true,"data":{"a":1}}"#;
    let c = answered(args(&["whoami", "--json"]), 12, ok.into(), "noise".into(), Some(0));
    assert_eq!(c.raw, ok);
    assert_eq!(c.elapsed_ms, 12);
    assert!(c.data.is_ok());
    assert_eq!(c.cmdline(), "sc whoami --json");
    assert_eq!(c.raw_head(4), "{\"ok");
    assert_eq!(c.raw_head(4000), ok);

    let failed = r#"{"ok":false,"error":{"code":"c"}}"#;
    let c = answered(args(&["x"]), 1, " \n".into(), failed.into(), None);
    assert_eq!(c.raw, failed);
    // A process that was ended by a signal has the exit code one.
    assert_eq!(c.data.unwrap_err().kind, ScErrorKind::Generic);
}

#[test]
fn every_answer_is_asked_for_as_json() {
    assert_eq!(full_argv(args(&["whoami"])), args(&["whoami", "--json"]));
    assert_eq!(full_argv(args(&["--json", "x"])), args(&["--json", "x"]));
    let c = not_started(args(&["whoami"]), 3, "no such file");
    let e = c.data.unwrap_err();
    assert_eq!(
        e.text(),
        "[spawn_failed] cannot run `sc`: no such file — brew install scalable-cli"
    );
    assert_eq!(e.kind, ScErrorKind::Generic);
}

#[test]
fn paths_lead_through_objects_and_skip_nulls() {
    let v = parse(
        r#"{"a":{"b":{"c":"1,5"}},"n":null,"t":true,"i":7,"f":7.0,"s":" 2.5 ","w":"x",
            "big":12345678901234567890}"#,
    )
    .unwrap();
    assert_eq!(f64_at(&v, &["a/b/c"]).map(f), Some(1.5));
    assert_eq!(f64_at(&v, &["n", "s"]).map(f), Some(2.5));
    // The first that is there decides, whether or not it is a number.
    assert_eq!(f64_at(&v, &["w", "i"]).map(f), None);
    assert_eq!(f64_at(&v, &["missing", "i"]).map(f), Some(7.0));
    assert_eq!(f64_at(&v, &["big"]).map(f), Some(12345678901234567890.0));
    assert_eq!(str_at(&v, &["i"]).as_deref(), Some("7"));
    assert_eq!(str_at(&v, &["f"]).as_deref(), Some("7.0"));
    assert_eq!(str_at(&v, &["t"]).as_deref(), Some("true"));
    assert_eq!(str_at(&v, &["a"]), None);
    assert_eq!(str_at(&v, &["n"]), None);
    assert!(bool_at(&v, "t"));
    assert!(!bool_at(&v, "i"));
    assert!(pick(&v, &["a/x", "a/b"]).is_some());
    assert!(pick(&v, &["a/b/c/d"]).is_none());
    assert!(pick(&v, &[]).is_none());
}

#[test]
fn a_payload_may_be_nested() {
    let v = parse(r#"{"result":{"x":1}}"#).unwrap();
    assert!(result(&v).get("x").is_some());
    let v = parse(r#"{"x":1}"#).unwrap();
    assert!(result(&v).get("x").is_some());
}

#[test]
fn json_is_read_as_it_is() {
    let v = parse(r#"{"b":[1,-2,3.5e2,"x",null,true],"a":{}}"#).unwrap();
    let b = v.get("b").unwrap().as_array().unwrap();
    let shown: Vec<Option<String>> = (0..b.len())
        .map(|i| match &b[i] {
            Json::Number(t, _) => Some(t.clone()),
            _ => None,
        })
        .collect();
    assert_eq!(
        shown,
        vec![
            Some("1".to_string()),
            Some("-2".to_string()),
            Some("350.0".to_string()),
            None,
            None,
            None
        ]
    );
    assert!(b[4].is_null());
    assert_eq!(b[3].as_str(), Some("x"));
    assert!(v.get("c").is_none());
    assert!(b[0].get("x").is_none());
    assert!(parse("nul").is_err());
    let again = v.clone();
    assert_eq!(format!("{again:?}"), format!("{v:?}"));
}

#[test]
fn options_are_read_from_the_arguments() {
    let o = read_options(&args(&["app"]));
    assert!(o.shot.is_none() && !o.redact);
    let o = read_options(&args(&["app", "--redact", "--screenshot"]));
    assert!(o.redact);
    let shot = o.shot.unwrap();
    assert_eq!(shot.path, "shot.png");
    assert!(shot.warmup.is_none() && shot.tab.is_none() && shot.select.is_none());
    let o = read_options(&args(&[
        "app", "--screenshot", "a.png", "9", "--tab", "chart", "--select", "X",
    ]));
    let shot = o.shot.unwrap();
    assert_eq!(shot.path, "a.png");
    assert_eq!(shot.warmup.as_deref(), Some("9"));
    assert_eq!(shot.tab.as_deref(), Some("chart"));
    assert_eq!(shot.select.as_deref(), Some("X"));
    let o = read_options(&args(&["app", "--screenshot", "--tab"]));
    let shot = o.shot.unwrap();
    assert_eq!(shot.path, "--tab");
    assert!(shot.tab.is_none());
}
