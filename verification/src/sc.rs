//! The `sc` command line tool: what is handed to it, and what its answers mean.
//!
//! An answer is an envelope, `{"ok": true, "data": ..}` or
//! `{"ok": false, "error": {"code", "message"}, "hints": [..]}`. A failure is
//! read from the envelope, since it can come with an exit code of zero.

use crate::json::{self, Json, JsonView};
use crate::num::Num;
use crate::text::{self, head, join, listed, same_text, trim};
use vstd::prelude::*;
use vstd::string::*;

verus! {

pub const BIN: &'static str = "sc";

#[derive(Debug, Clone, Copy, PartialEq, Eq, Structural)]
pub enum ScErrorKind {
    Validation,
    Auth,
    Network,
    /// The backend refused for the rate of calls. Trying again at once makes it
    /// worse, so the caller must wait.
    RateLimited,
    /// The machine is locked, so the request cannot be signed. It comes with the
    /// exit code of an auth failure, but the session is intact.
    DeviceLocked,
    Generic,
}

/// What an exit code says of a failure.
pub open spec fn kind_of_exit(code: int) -> ScErrorKind {
    if code == 10 {
        ScErrorKind::Validation
    } else if code == 20 {
        ScErrorKind::Auth
    } else if code == 30 {
        ScErrorKind::Network
    } else {
        ScErrorKind::Generic
    }
}

/// What an error code and an exit code say of a failure.
pub open spec fn kind_of(code: Seq<char>, exit: int) -> ScErrorKind {
    if code == "rate_limited"@ {
        ScErrorKind::RateLimited
    } else if code == "device_locked"@ {
        ScErrorKind::DeviceLocked
    } else {
        kind_of_exit(exit)
    }
}

impl ScErrorKind {
    pub fn from_code(code: i32) -> (r: ScErrorKind)
        ensures
            r == kind_of_exit(code as int),
    {
        match code {
            10 => ScErrorKind::Validation,
            20 => ScErrorKind::Auth,
            30 => ScErrorKind::Network,
            _ => ScErrorKind::Generic,
        }
    }
}

#[derive(Debug, Clone)]
pub struct ScError {
    pub kind: ScErrorKind,
    pub code: String,
    pub message: String,
    pub hints: Vec<String>,
}

/// What an error is.
pub struct ScErrorView {
    pub kind: ScErrorKind,
    pub code: Seq<char>,
    pub message: Seq<char>,
    pub hints: Seq<Seq<char>>,
}

/// How an error is shown: its code, its message, and its hints if it has any.
pub open spec fn error_text(e: ScErrorView) -> Seq<char> {
    let start = "["@ + e.code + "] "@ + e.message;
    if e.hints.len() == 0 {
        start
    } else {
        start + " — "@ + text::joined(e.hints, "; "@)
    }
}

impl ScError {
    pub open spec fn view(self) -> ScErrorView {
        ScErrorView {
            kind: self.kind,
            code: self.code@,
            message: self.message@,
            hints: text::texts(self.hints@),
        }
    }

    pub fn text(&self) -> (r: String)
        ensures
            r@ == error_text(self.view()),
    {
        let mut s = String::new();
        s.append("[");
        s.append(self.code.as_str());
        s.append("] ");
        s.append(self.message.as_str());
        assert(s@ =~= "["@ + self.code@ + "] "@ + self.message@);
        if self.hints.len() > 0 {
            s.append(" — ");
            let hints = join(&self.hints, "; ");
            s.append(hints.as_str());
        }
        s
    }
}

/// One invocation and how long it took, so that the cost of a poll can be shown.
#[derive(Debug)]
pub struct Call {
    pub argv: Vec<String>,
    pub elapsed_ms: u64,
    pub raw: String,
    pub data: Result<Json, ScError>,
}

/// The payload of a call, or why there is none.
pub open spec fn outcome(c: Call) -> Result<JsonView, ScErrorView> {
    match c.data {
        Ok(j) => Ok(j.view()),
        Err(e) => Err(e.view()),
    }
}

/// `args` with `--json` among them.
pub open spec fn with_json(args: Seq<Seq<char>>) -> Seq<Seq<char>> {
    if args.contains("--json"@) {
        args
    } else {
        args.push("--json"@)
    }
}

/// The arguments of an invocation: every answer is asked for as JSON.
pub fn full_argv(args: Vec<String>) -> (r: Vec<String>)
    ensures
        text::texts(r@) == with_json(text::texts(args@)),
{
    let mut argv = args;
    if !listed(&argv, "--json") {
        argv.push("--json".to_owned());
    }
    assert(text::texts(argv@) =~= with_json(text::texts(args@)));
    argv
}

/// What stands for the answer of a process that could not be started.
pub fn not_started(argv: Vec<String>, elapsed_ms: u64, reason: &str) -> (r: Call)
    ensures
        r.argv == argv,
        r.elapsed_ms == elapsed_ms,
        r.raw@ == Seq::<char>::empty(),
        outcome(r) == Err::<JsonView, ScErrorView>(
            ScErrorView {
                kind: ScErrorKind::Generic,
                code: "spawn_failed"@,
                message: "cannot run `"@ + BIN@ + "`: "@ + reason@,
                hints: seq!["brew install scalable-cli"@],
            },
        ),
{
    let mut message = String::new();
    message.append("cannot run `");
    message.append(BIN);
    message.append("`: ");
    message.append(reason);
    assert(message@ =~= "cannot run `"@ + BIN@ + "`: "@ + reason@);
    let hints: Vec<String> = vec!["brew install scalable-cli".to_owned()];
    assert(text::texts(hints@) =~= seq!["brew install scalable-cli"@]);
    let e = ScError {
        kind: ScErrorKind::Generic,
        code: "spawn_failed".to_owned(),
        message,
        hints,
    };
    Call { argv, elapsed_ms, raw: String::new(), data: Err(e) }
}

/// The exit code that a process ended by a signal is taken to have.
pub open spec fn exit_of(exit: Option<i32>) -> i32 {
    match exit {
        Some(e) => e,
        None => 1,
    }
}

/// Where the answer is read: standard output, or standard error where standard
/// output is blank.
pub open spec fn body_of(stdout: Seq<char>, stderr: Seq<char>) -> Seq<char> {
    if text::trimmed(stdout).len() == 0 {
        stderr
    } else {
        stdout
    }
}

/// What a process that ran has answered.
pub fn answered(
    argv: Vec<String>,
    elapsed_ms: u64,
    stdout: String,
    stderr: String,
    exit: Option<i32>,
) -> (r: Call)
    ensures
        r.argv == argv,
        r.elapsed_ms == elapsed_ms,
        r.raw@ == body_of(stdout@, stderr@),
        outcome(r) == envelope(json::parse_outcome(r.raw@), r.raw@, exit_of(exit) as int),
{
    let code: i32 = match exit {
        Some(e) => e,
        None => 1,
    };
    let body = if trim(stdout.as_str()).is_empty() {
        stderr
    } else {
        stdout
    };
    let data = parse_envelope(body.as_str(), code);
    Call { argv, elapsed_ms, raw: body, data }
}

impl Call {
    /// The command line that ran.
    pub fn cmdline(&self) -> (r: String)
        ensures
            r@ == BIN@ + " "@ + text::joined(text::texts(self.argv@), " "@),
    {
        let mut s = String::new();
        s.append(BIN);
        s.append(" ");
        let args = join(&self.argv, " ");
        s.append(args.as_str());
        assert(s@ =~= BIN@ + " "@ + text::joined(text::texts(self.argv@), " "@));
        s
    }

    /// The start of what came back.
    pub fn raw_head(&self, n: usize) -> (r: String)
        ensures
            r@ == text::first_chars(self.raw@, n as int),
    {
        head(self.raw.as_str(), n)
    }
}

/// The text of a value, where it is one.
pub open spec fn text_in(v: Option<JsonView>) -> Option<Seq<char>> {
    match v {
        Some(JsonView::Text(t)) => Some(t),
        _ => None,
    }
}

/// The elements of a value, where it is an array.
pub open spec fn elements(v: Option<JsonView>) -> Option<Seq<JsonView>> {
    match v {
        Some(JsonView::Array(a)) => Some(a),
        _ => None,
    }
}

/// The member of a value that may not be there.
pub open spec fn member_of(v: Option<JsonView>, key: Seq<char>) -> Option<JsonView> {
    match v {
        Some(w) => json::member(w, key),
        None => None,
    }
}

/// The texts among a list of values.
pub open spec fn texts_among(a: Seq<JsonView>) -> Seq<Seq<char>> {
    a.filter_map(|v: JsonView| text_in(Some(v)))
}

/// The error that a failed envelope carries.
pub open spec fn failure(v: JsonView, exit: int) -> ScErrorView {
    let code = match text_in(member_of(json::member(v, "error"@), "code"@)) {
        Some(c) => c,
        None => "unknown"@,
    };
    ScErrorView {
        kind: kind_of(code, exit),
        code,
        message: match text_in(member_of(json::member(v, "error"@), "message"@)) {
            Some(m) => m,
            None => "unknown error"@,
        },
        hints: match elements(json::member(v, "hints"@)) {
            Some(a) => texts_among(a),
            None => Seq::empty(),
        },
    }
}

/// The payload of an envelope that says `ok`, and the error of any other.
pub open spec fn opened(v: JsonView, exit: int) -> Result<JsonView, ScErrorView> {
    if json::member(v, "ok"@) == Some(JsonView::Bool(true)) {
        Ok(
            match json::member(v, "data"@) {
                Some(d) => d,
                None => JsonView::Null,
            },
        )
    } else {
        Err(failure(v, exit))
    }
}

/// What an answer means, given what reading it as JSON gave.
pub open spec fn envelope(
    parsed: Result<JsonView, Seq<char>>,
    body: Seq<char>,
    exit: int,
) -> Result<JsonView, ScErrorView> {
    match parsed {
        Ok(v) => opened(v, exit),
        Err(e) => Err(
            ScErrorView {
                kind: kind_of_exit(exit),
                code: "bad_json"@,
                message: "non-JSON output ("@ + e + "): "@ + text::first_chars(body, 400),
                hints: Seq::empty(),
            },
        ),
    }
}

/// What was read, or why it was not, as views.
pub open spec fn seen_outcome(r: Result<Json, ScError>) -> Result<JsonView, ScErrorView> {
    match r {
        Ok(j) => Ok(j.view()),
        Err(e) => Err(e.view()),
    }
}

/// The text of a member, where it is there and is one.
fn member_text<'a>(v: Option<&'a Json>, key: &str) -> (r: Option<&'a str>)
    ensures
        (match r {
            Some(s) => text_in(member_of(json::seen(v), key@)) == Some(s@),
            None => text_in(member_of(json::seen(v), key@)) is None,
        }),
{
    match v {
        Some(j) => match j.get(key) {
            Some(m) => m.as_str(),
            None => None,
        },
        None => None,
    }
}

/// The payload of an envelope that was read as JSON, or the error in it.
pub fn read_envelope(v: &Json, exit: i32) -> (r: Result<Json, ScError>)
    ensures
        seen_outcome(r) == opened(v.view(), exit as int),
{
    let ok = match v.get("ok") {
        Some(j) => matches!(j.as_bool(), Some(true)),
        None => false,
    };
    if ok {
        return Ok(
            match v.get("data") {
                Some(d) => d.copy(),
                None => Json::Null,
            },
        );
    }
    let err = v.get("error");
    let code = match member_text(err, "code") {
        Some(c) => c,
        None => "unknown",
    };
    let kind = if same_text(code, "rate_limited") {
        ScErrorKind::RateLimited
    } else if same_text(code, "device_locked") {
        ScErrorKind::DeviceLocked
    } else {
        ScErrorKind::from_code(exit)
    };
    let message = match member_text(err, "message") {
        Some(m) => m,
        None => "unknown error",
    };
    let mut hints: Vec<String> = Vec::new();
    let given = match v.get("hints") {
        Some(h) => h.as_array(),
        None => None,
    };
    match given {
        Some(a) => {
            let ghost all = json::views(a@);
            assert(all.take(0) =~= Seq::empty());
            for i in 0..a.len()
                invariant
                    all == json::views(a@),
                    text::texts(hints@) == texts_among(all.take(i as int)),
            {
                assert(all.take(i + 1).drop_last() =~= all.take(i as int));
                assert(all.take(i + 1).last() == a@[i as int].view());
                match a[i].as_str() {
                    Some(s) => {
                        hints.push(s.to_owned());
                        assert(text::texts(hints@) =~= texts_among(all.take(i as int)) + seq![s@]);
                    },
                    None => {},
                }
            }
            assert(all.take(a@.len() as int) =~= all);
        },
        None => {
            assert(text::texts(hints@) =~= Seq::empty());
        },
    }
    Err(ScError { kind, code: code.to_owned(), message: message.to_owned(), hints })
}

/// What an answer means.
pub fn parse_envelope(body: &str, exit: i32) -> (r: Result<Json, ScError>)
    ensures
        seen_outcome(r) == envelope(json::parse_outcome(body@), body@, exit as int),
{
    match json::parse(body) {
        Ok(v) => read_envelope(&v, exit),
        Err(e) => {
            let mut message = String::new();
            message.append("non-JSON output (");
            message.append(e.as_str());
            message.append("): ");
            let start = head(body, 400);
            message.append(start.as_str());
            assert(message@ =~= "non-JSON output ("@ + e@ + "): "@ + text::first_chars(body@, 400));
            let hints: Vec<String> = Vec::new();
            assert(text::texts(hints@) =~= Seq::empty());
            Err(
                ScError {
                    kind: ScErrorKind::from_code(exit),
                    code: "bad_json".to_owned(),
                    message,
                    hints,
                },
            )
        },
    }
}

/// The payload proper, which most answers nest under `result`.
pub open spec fn unwrapped(v: JsonView) -> JsonView {
    match json::member(v, "result"@) {
        Some(r) => r,
        None => v,
    }
}

pub fn result(v: &Json) -> (r: &Json)
    ensures
        r.view() == unwrapped(v.view()),
{
    match v.get("result") {
        Some(r) => r,
        None => v,
    }
}

/// The place of the first slash, or the length where there is none.
pub open spec fn first_slash(p: Seq<char>) -> int
    decreases p.len(),
{
    if p.len() == 0 || p[0] == '/' {
        0
    } else {
        1 + first_slash(p.drop_first())
    }
}

proof fn lemma_slash_behind(p: Seq<char>, rest: Seq<char>)
    requires
        forall|i: int| 0 <= i < p.len() ==> p[i] != '/',
        rest.len() > 0 ==> rest[0] == '/',
    ensures
        first_slash(p + rest) == p.len(),
    decreases p.len(),
{
    if p.len() > 0 {
        assert((p + rest).drop_first() =~= p.drop_first() + rest);
        lemma_slash_behind(p.drop_first(), rest);
    } else {
        assert(p + rest =~= rest);
    }
}

/// A path of which no character is a slash has none.
pub proof fn lemma_no_slash(p: Seq<char>)
    requires
        forall|i: int| 0 <= i < p.len() ==> p[i] != '/',
    ensures
        first_slash(p) == p.len(),
{
    lemma_slash_behind(p, Seq::empty());
    assert(p + Seq::<char>::empty() =~= p);
}

/// A part of a path, where it is not empty.
pub open spec fn part(s: Seq<char>) -> Seq<Seq<char>> {
    if s.len() == 0 {
        Seq::empty()
    } else {
        seq![s]
    }
}

/// The parts of a path, which slashes separate; empty ones do not count.
pub open spec fn segments(p: Seq<char>) -> Seq<Seq<char>>
    decreases p.len(),
{
    let i = first_slash(p);
    if 0 <= i < p.len() {
        part(p.take(i)) + segments(p.skip(i + 1))
    } else {
        part(p)
    }
}

/// The value at the end of a path of members.
pub open spec fn walk(v: JsonView, path: Seq<Seq<char>>) -> Option<JsonView>
    decreases path.len(),
{
    if path.len() == 0 {
        Some(v)
    } else {
        match json::member(v, path[0]) {
            Some(w) => walk(w, path.drop_first()),
            None => None,
        }
    }
}

/// The value at a path, where there is one that is not null.
pub open spec fn value_at(v: JsonView, path: Seq<char>) -> Option<JsonView> {
    match walk(v, segments(path)) {
        Some(w) => if w == JsonView::Null {
            None
        } else {
            Some(w)
        },
        None => None,
    }
}

/// The value at the first of the paths that has one.
pub open spec fn picked(v: JsonView, paths: Seq<Seq<char>>) -> Option<JsonView>
    decreases paths.len(),
{
    if paths.len() == 0 {
        None
    } else {
        match value_at(v, paths[0]) {
            Some(w) => Some(w),
            None => picked(v, paths.drop_first()),
        }
    }
}

fn split(path: &str) -> (r: Vec<String>)
    ensures
        text::texts(r@) == segments(path@),
{
    let mut out: Vec<String> = Vec::new();
    let mut cur = String::new();
    let ghost p = path@;
    let n: usize = path.unicode_len();
    assert(p.skip(0) =~= p);
    assert(cur@ + p =~= p);
    assert(text::texts(out@) + segments(p) =~= segments(p));
    for i in 0..n
        invariant
            n == p.len(),
            p == path@,
            forall|k: int| 0 <= k < cur@.len() ==> cur@[k] != '/',
            segments(p) == text::texts(out@) + segments(cur@ + p.skip(i as int)),
    {
        let c = path.get_char(i);
        let ghost rest = p.skip(i as int);
        let ghost done = text::texts(out@);
        assert(rest.drop_first() =~= p.skip(i + 1));
        if c == '/' {
            proof {
                lemma_slash_behind(cur@, rest);
                assert((cur@ + rest).take(cur@.len() as int) =~= cur@);
                assert((cur@ + rest).skip(cur@.len() as int + 1) =~= p.skip(i + 1));
                assert(Seq::<char>::empty() + p.skip(i + 1) =~= p.skip(i + 1));
            }
            if !cur.as_str().is_empty() {
                let ghost last = cur@;
                out.push(cur);
                assert(text::texts(out@) =~= done + seq![last]);
                assert(done + (seq![last] + segments(p.skip(i + 1))) =~= text::texts(out@) + segments(
                    p.skip(i + 1),
                ));
            } else {
                assert(part(cur@) + segments(p.skip(i + 1)) =~= segments(p.skip(i + 1)));
            }
            cur = String::new();
        } else {
            assert(cur@ + rest =~= cur@.push(c) + p.skip(i + 1));
            cur.push(c);
        }
    }
    proof {
        assert(p.skip(n as int) =~= Seq::empty());
        assert(cur@ + Seq::<char>::empty() =~= cur@);
        lemma_slash_behind(cur@, Seq::empty());
    }
    let ghost done = text::texts(out@);
    if !cur.as_str().is_empty() {
        let ghost last = cur@;
        out.push(cur);
        assert(text::texts(out@) =~= done + seq![last]);
    } else {
        assert(done + Seq::<Seq<char>>::empty() =~= done);
    }
    out
}

/// The value at a path.
pub fn at<'a>(v: &'a Json, path: &str) -> (r: Option<&'a Json>)
    ensures
        json::seen(r) == value_at(v.view(), path@),
{
    let parts = split(path);
    let ghost all = text::texts(parts@);
    let mut cur = v;
    assert(all.skip(0) =~= all);
    for i in 0..parts.len()
        invariant
            all == text::texts(parts@),
            all == segments(path@),
            walk(v.view(), all) == walk(cur.view(), all.skip(i as int)),
    {
        assert(all.skip(i as int)[0] == parts@[i as int]@);
        assert(all.skip(i as int).drop_first() =~= all.skip(i + 1));
        match cur.get(parts[i].as_str()) {
            Some(next) => {
                cur = next;
            },
            None => {
                return None;
            },
        }
    }
    assert(all.skip(parts@.len() as int).len() == 0);
    if cur.is_null() {
        None
    } else {
        Some(cur)
    }
}

/// The texts that a list of paths holds.
pub open spec fn path_texts(paths: Seq<&str>) -> Seq<Seq<char>> {
    paths.map_values(|p: &str| p@)
}

/// Looks along several paths, so that a payload may change its shape.
pub fn pick<'a>(v: &'a Json, paths: &[&str]) -> (r: Option<&'a Json>)
    ensures
        json::seen(r) == picked(v.view(), path_texts(paths@)),
{
    let ghost all = path_texts(paths@);
    assert(all.skip(0) =~= all);
    for i in 0..paths.len()
        invariant
            all == path_texts(paths@),
            picked(v.view(), all) == picked(v.view(), all.skip(i as int)),
    {
        assert(all.skip(i as int)[0] == paths@[i as int]@);
        assert(all.skip(i as int).drop_first() =~= all.skip(i + 1));
        match at(v, paths[i]) {
            Some(found) => {
                return Some(found);
            },
            None => {},
        }
    }
    assert(all.skip(paths@.len() as int).len() == 0);
    None
}

/// The double that a text stands for, as its bit pattern.
pub uninterp spec fn parsed_number(s: Seq<char>) -> Option<u64>;

/// `str::parse` into a double, the double taken as its bit pattern. The result
/// depends on the text alone, and `parsed_number` is the name of it. (The call
/// of `from_f64` fixes the type that is parsed.)
#[verifier::external_body]
fn parse_number(s: &str) -> (r: Option<u64>)
    ensures
        r == parsed_number(s@),
{
    let x = s.parse().ok()?;
    let _ = serde_json::Number::from_f64(x);
    Some(x.to_bits())
}

/// A text with its decimal commas written as points.
pub open spec fn with_points(s: Seq<char>) -> Seq<char> {
    s.map_values(|c: char| if c == ',' { '.' } else { c })
}

/// The number that a value is: a number, or a text that reads as one.
pub open spec fn number_in(v: Option<JsonView>) -> Option<Num> {
    match v {
        Some(JsonView::Number(_, n)) => n,
        Some(JsonView::Text(t)) => match parsed_number(text::trimmed(with_points(t))) {
            Some(bits) => Some(Num { bits }),
            None => None,
        },
        _ => None,
    }
}

/// The text that a value is shown as: a text, a number, or a truth value.
pub open spec fn words_in(v: Option<JsonView>) -> Option<Seq<char>> {
    match v {
        Some(JsonView::Text(t)) => Some(t),
        Some(JsonView::Number(t, _)) => Some(t),
        Some(JsonView::Bool(b)) => Some(
            if b {
                "true"@
            } else {
                "false"@
            },
        ),
        _ => None,
    }
}

/// The truth value that a value is, and false for anything else.
pub open spec fn truth_in(v: Option<JsonView>) -> bool {
    v == Some(JsonView::Bool(true))
}

fn number_of(v: Option<&Json>) -> (r: Option<Num>)
    ensures
        r == number_in(json::seen(v)),
{
    match v {
        Some(Json::Number(_, n)) => *n,
        Some(Json::Text(t)) => {
            let n: usize = t.as_str().unicode_len();
            let mut s = String::new();
            for i in 0..n
                invariant
                    n == t@.len(),
                    s@ == with_points(t@).take(i as int),
            {
                let c = t.as_str().get_char(i);
                s.push(
                    if c == ',' {
                        '.'
                    } else {
                        c
                    },
                );
                assert(s@ =~= with_points(t@).take(i + 1));
            }
            assert(s@ =~= with_points(t@));
            match parse_number(trim(s.as_str())) {
                Some(bits) => Some(Num { bits }),
                None => None,
            }
        },
        _ => None,
    }
}

fn words_of(v: Option<&Json>) -> (r: Option<String>)
    ensures
        text::seen_text(r) == words_in(json::seen(v)),
{
    match v {
        Some(Json::Text(t)) => Some(t.clone()),
        Some(Json::Number(t, _)) => Some(t.clone()),
        Some(Json::Bool(b)) => Some(
            if *b {
                "true".to_owned()
            } else {
                "false".to_owned()
            },
        ),
        _ => None,
    }
}

/// The number at the first of the paths that has a value.
pub fn f64_at(v: &Json, paths: &[&str]) -> (r: Option<Num>)
    ensures
        r == number_in(picked(v.view(), path_texts(paths@))),
{
    number_of(pick(v, paths))
}

/// The text at the first of the paths that has a value.
pub fn str_at(v: &Json, paths: &[&str]) -> (r: Option<String>)
    ensures
        text::seen_text(r) == words_in(picked(v.view(), path_texts(paths@))),
{
    words_of(pick(v, paths))
}

/// The number at a path.
pub open spec fn number_at(v: JsonView, path: Seq<char>) -> Option<Num> {
    number_in(value_at(v, path))
}

pub fn number(v: &Json, path: &str) -> (r: Option<Num>)
    ensures
        r == number_at(v.view(), path@),
{
    number_of(at(v, path))
}

/// The number at a path, or zero.
pub open spec fn number_or_zero(v: JsonView, path: Seq<char>) -> Num {
    match number_at(v, path) {
        Some(n) => n,
        None => Num { bits: 0 },
    }
}

pub fn number_else_zero(v: &Json, path: &str) -> (r: Num)
    ensures
        r == number_or_zero(v.view(), path@),
{
    match number(v, path) {
        Some(n) => n,
        None => Num { bits: 0 },
    }
}

/// The text at a path.
pub open spec fn words_at(v: JsonView, path: Seq<char>) -> Option<Seq<char>> {
    words_in(value_at(v, path))
}

pub fn words(v: &Json, path: &str) -> (r: Option<String>)
    ensures
        text::seen_text(r) == words_at(v.view(), path@),
{
    words_of(at(v, path))
}

/// The text at a path, or nothing.
pub open spec fn words_or_empty(v: JsonView, path: Seq<char>) -> Seq<char> {
    text::or_empty(words_at(v, path))
}

pub fn words_else_empty(v: &Json, path: &str) -> (r: String)
    ensures
        r@ == words_or_empty(v.view(), path@),
{
    match words(v, path) {
        Some(s) => s,
        None => String::new(),
    }
}

/// Whether the value at a path is true.
pub open spec fn truth_at(v: JsonView, path: Seq<char>) -> bool {
    truth_in(value_at(v, path))
}

pub fn bool_at(v: &Json, path: &str) -> (r: bool)
    ensures
        r == truth_at(v.view(), path@),
{
    match at(v, path) {
        Some(j) => matches!(j.as_bool(), Some(true)),
        None => false,
    }
}

/// The elements of the array at a path, and none where there is no array.
pub open spec fn list_at(v: JsonView, path: Seq<char>) -> Seq<JsonView> {
    match elements(value_at(v, path)) {
        Some(a) => a,
        None => Seq::empty(),
    }
}

pub fn array_at<'a>(v: &'a Json, path: &str) -> (r: Option<&'a Vec<Json>>)
    ensures
        (match r {
            Some(a) => list_at(v.view(), path@) == json::views(a@),
            None => list_at(v.view(), path@) == Seq::<JsonView>::empty(),
        }),
{
    match at(v, path) {
        Some(j) => j.as_array(),
        None => None,
    }
}

} // verus!
