//! What the answers of the command line tool mean, by the members they have.

use crate::json::{self, JsonView};
use crate::laws::reading::{
    gives_text, gives_words, holds, law_the_first_of_a_name_counts, leads, lemma_given,
    lemma_longer_path, lemma_one_name, lemma_one_text,
};
use crate::laws::texts::{is_blank, is_tight, law_trimming_takes_white_space_off};
use crate::sc::{self, ScErrorKind, ScErrorView};
use crate::text;
use crate::worker;
use crate::worker::account;
use crate::worker::trade;
use vstd::prelude::*;

verus! {

/// An error is a refusal or a locked device by its code, whatever the exit code. The
/// exit code tells the others apart: 10 is a mistake in the request, 20 a missing
/// login, 30 the network.
pub proof fn law_errors_are_told_apart(code: Seq<char>, exit: int)
    ensures
        code == "rate_limited"@ ==> sc::kind_of(code, exit) == ScErrorKind::RateLimited,
        code == "device_locked"@ ==> sc::kind_of(code, exit) == ScErrorKind::DeviceLocked,
        code != "rate_limited"@ && code != "device_locked"@ ==> {
            &&& sc::kind_of(code, exit) == ScErrorKind::Validation <==> exit == 10
            &&& sc::kind_of(code, exit) == ScErrorKind::Auth <==> exit == 20
            &&& sc::kind_of(code, exit) == ScErrorKind::Network <==> exit == 30
            &&& sc::kind_of(code, exit) == ScErrorKind::Generic
                <==> exit != 10 && exit != 20 && exit
                != 30
        },
        sc::kind_of_exit(10) == ScErrorKind::Validation,
        sc::kind_of_exit(20) == ScErrorKind::Auth,
        sc::kind_of_exit(30) == ScErrorKind::Network,
{
    reveal_strlit("rate_limited");
    reveal_strlit("device_locked");
    assert("rate_limited"@.len() == 12 && "device_locked"@.len() == 13);
}

/// An answer is a success just where it says so, and what it brings is its data, or
/// nothing where it has none.
pub proof fn law_an_answer_says_whether_it_is_ok(v: JsonView, exit: int)
    ensures
        sc::opened(v, exit) is Ok <==> holds(v, "ok"@, JsonView::Bool(true)),
        forall|d: JsonView|
            sc::opened(v, exit) is Ok && #[trigger] holds(v, "data"@, d) ==> sc::opened(v, exit)
                == Ok::<JsonView, ScErrorView>(d),
        sc::opened(v, exit) is Ok && (forall|d: JsonView| !#[trigger] holds(v, "data"@, d))
            ==> sc::opened(v, exit) == Ok::<JsonView, ScErrorView>(JsonView::Null),
{
    law_the_first_of_a_name_counts(v, "ok"@);
    law_the_first_of_a_name_counts(v, "data"@);
    if json::member(v, "data"@) is Some {
        assert(holds(v, "data"@, json::member(v, "data"@)->0));
    }
}

/// A failure has the code and the message that the answer gives, and its hints; what
/// the answer does not give is said to be unknown.
pub proof fn law_a_failure_says_why(v: JsonView, w: JsonView, exit: int)
    requires
        !holds(v, "ok"@, JsonView::Bool(true)),
        holds(v, "error"@, w),
    ensures
        sc::opened(v, exit) is Err,
        ({
            let e = sc::opened(v, exit)->Err_0;
            &&& forall|c: Seq<char>| #[trigger] holds(w, "code"@, JsonView::Text(c)) ==> e.code == c
            &&& (forall|c: Seq<char>| !#[trigger] holds(w, "code"@, JsonView::Text(c))) ==> e.code
                == "unknown"@
            &&& forall|m: Seq<char>| #[trigger]
                holds(w, "message"@, JsonView::Text(m)) ==> e.message == m
            &&& (forall|m: Seq<char>| !#[trigger] holds(w, "message"@, JsonView::Text(m)))
                ==> e.message == "unknown error"@
            &&& e.kind == sc::kind_of(e.code, exit)
            &&& forall|a: Seq<JsonView>| #[trigger]
                holds(v, "hints"@, JsonView::Array(a)) ==> e.hints == sc::texts_among(a)
            &&& (forall|a: Seq<JsonView>| !#[trigger] holds(v, "hints"@, JsonView::Array(a)))
                ==> e.hints.len() == 0
        }),
{
    law_the_first_of_a_name_counts(v, "ok"@);
    law_the_first_of_a_name_counts(v, "error"@);
    law_the_first_of_a_name_counts(v, "hints"@);
    law_the_first_of_a_name_counts(w, "code"@);
    law_the_first_of_a_name_counts(w, "message"@);
    let e = sc::failure(v, exit);
    match json::member(w, "code"@) {
        Some(JsonView::Text(c)) => {
            assert(holds(w, "code"@, JsonView::Text(c)));
        },
        _ => {},
    }
    match json::member(w, "message"@) {
        Some(JsonView::Text(c)) => {
            assert(holds(w, "message"@, JsonView::Text(c)));
        },
        _ => {},
    }
    match json::member(v, "hints"@) {
        Some(JsonView::Array(c)) => {
            assert(holds(v, "hints"@, JsonView::Array(c)));
        },
        _ => {},
    }
}

/// Output that is no JSON is a failure of its own, which shows how it starts.
pub proof fn law_output_that_is_no_json(e: Seq<char>, body: Seq<char>, exit: int)
    ensures
        ({
            let r = sc::envelope(Err(e), body, exit);
            &&& r is Err
            &&& r->Err_0.code == "bad_json"@
            &&& r->Err_0.kind == sc::kind_of_exit(exit)
            &&& text::holds(r->Err_0.message, e)
            &&& text::holds(r->Err_0.message, text::first_chars(body, 400))
            &&& r->Err_0.hints.len() == 0
        }),
        forall|v: JsonView|
            #![trigger sc::envelope(Ok(v), body, exit)]
            sc::envelope(Ok(v), body, exit) == sc::opened(v, exit),
{
    let head = "non-JSON output ("@;
    let mid = "): "@;
    let tail = text::first_chars(body, 400);
    let m = head + e + mid + tail;
    let k = head.len() as int;
    assert(m.subrange(k, k + e.len()) =~= e);
    let i = (head + e + mid).len() as int;
    assert(m.subrange(i, i + tail.len()) =~= tail);
}

/// What an answer brings is under its result, or the answer itself where it has none.
pub proof fn law_the_result_is_unwrapped(v: JsonView)
    ensures
        forall|r: JsonView| #[trigger] holds(v, "result"@, r) ==> sc::unwrapped(v) == r,
        (forall|r: JsonView| !#[trigger] holds(v, "result"@, r)) ==> sc::unwrapped(v) == v,
{
    law_the_first_of_a_name_counts(v, "result"@);
    if json::member(v, "result"@) is Some {
        assert(holds(v, "result"@, json::member(v, "result"@)->0));
    }
}

/// An error is shown with its code in brackets, its message, and its hints behind it.
pub proof fn law_an_error_is_shown_with_its_hints(e: ScErrorView)
    ensures
        e.hints.len() == 0 ==> sc::error_text(e) == "["@ + e.code + "] "@ + e.message,
        e.hints.len() == 1 ==> sc::error_text(e) == "["@ + e.code + "] "@ + e.message + " — "@
            + e.hints[0],
        e.hints.len() == 2 ==> sc::error_text(e) == "["@ + e.code + "] "@ + e.message + " — "@ + (
        e.hints[0] + "; "@ + e.hints[1]),
        text::holds(sc::error_text(e), e.code),
        text::holds(sc::error_text(e), e.message),
{
    let start = "["@ + e.code + "] "@ + e.message;
    let all = sc::error_text(e);
    let i = "["@.len() as int;
    assert(all.subrange(i, i + e.code.len()) =~= e.code);
    let j = ("["@ + e.code + "] "@).len() as int;
    assert(all.subrange(j, j + e.message.len()) =~= e.message);
    if e.hints.len() == 2 {
        reveal_with_fuel(text::joined, 3);
        assert(e.hints.drop_last().len() == 1);
        assert(e.hints.drop_last()[0] == e.hints[0]);
        assert(text::joined(e.hints, "; "@) == e.hints[0] + "; "@ + e.hints[1]);
    }
}

/// JSON is asked for once: an argument list that asks for it stays as it is, and any
/// other gets the option behind what it has.
pub proof fn law_json_is_asked_for_once(args: Seq<Seq<char>>)
    ensures
        sc::with_json(args).contains("--json"@),
        args.contains("--json"@) ==> sc::with_json(args) == args,
        !args.contains("--json"@) ==> sc::with_json(args) == args + seq!["--json"@],
        args.is_prefix_of(sc::with_json(args)),
        sc::with_json(sc::with_json(args)) == sc::with_json(args),
{
    if !args.contains("--json"@) {
        let r = sc::with_json(args);
        assert(r[r.len() - 1] == "--json"@);
        assert(r =~= args + seq!["--json"@]);
    }
}

/// The answer is what was printed, or what was complained where nothing but white
/// space was printed.
pub proof fn law_complaints_stand_in_for_a_blank_answer(stdout: Seq<char>, stderr: Seq<char>)
    ensures
        is_blank(stdout) ==> sc::body_of(stdout, stderr) == stderr,
        !is_blank(stdout) ==> sc::body_of(stdout, stderr) == stdout,
{
    if is_blank(stdout) {
        law_trimming_takes_white_space_off(stdout, Seq::empty(), Seq::empty());
    } else {
        let ends = crate::laws::texts::law_trimming_leaves_no_white_space(stdout);
        if text::trimmed(stdout).len() == 0 {
            let (a, b) = ends;
            assert(stdout =~= a + b);
            assert forall|i: int| 0 <= i < stdout.len() implies text::white_space(
                #[trigger] stdout[i],
            ) by {
                if i < a.len() {
                    assert(stdout[i] == a[i]);
                } else {
                    assert(stdout[i] == b[i - a.len()]);
                }
            }
        }
    }
}

/// A session is named by the first and the last name, with a space between; where an
/// answer gives neither, it is just said to be there.
pub proof fn law_a_session_is_named_after_its_holder(v: JsonView, first: Seq<char>, last: Seq<char>)
    requires
        gives_text(v, seq!["personOverview"@, "personalDetails"@, "firstName"@], first),
        gives_text(v, seq!["personOverview"@, "personalDetails"@, "lastName"@], last),
    ensures
        is_tight(first) && is_tight(last) ==> account::session_name(v) == first + " "@ + last,
        first.len() == 0 && is_tight(last) ==> account::session_name(v) == last,
        is_tight(first) && last.len() == 0 ==> account::session_name(v) == first,
        first.len() == 0 && last.len() == 0 ==> account::session_name(v) == "authenticated"@,
{
    lemma_name_paths();
    lemma_given(
        v,
        "personOverview/personalDetails/firstName"@,
        seq!["personOverview"@, "personalDetails"@, "firstName"@],
    );
    lemma_given(
        v,
        "personOverview/personalDetails/lastName"@,
        seq!["personOverview"@, "personalDetails"@, "lastName"@],
    );
    lemma_same_text(
        v,
        seq!["personOverview"@, "personalDetails"@, "firstName"@],
        first,
        sc::words_or_empty(v, "personOverview/personalDetails/firstName"@),
    );
    lemma_same_text(
        v,
        seq!["personOverview"@, "personalDetails"@, "lastName"@],
        last,
        sc::words_or_empty(v, "personOverview/personalDetails/lastName"@),
    );
    reveal_strlit(" ");
    let all = first + " "@ + last;
    let none = Seq::<char>::empty();
    assert(is_blank(none));
    assert(is_blank(" "@));
    if is_tight(first) && is_tight(last) {
        assert(all[0] == first[0] && all.last() == last.last());
        law_trimming_takes_white_space_off(none, all, none);
        assert(none + all + none =~= all);
    } else if first.len() == 0 && is_tight(last) {
        law_trimming_takes_white_space_off(" "@, last, none);
        assert(" "@ + last + none =~= all);
    } else if is_tight(first) && last.len() == 0 {
        law_trimming_takes_white_space_off(none, first, " "@);
        assert(none + first + " "@ =~= all);
    } else if first.len() == 0 && last.len() == 0 {
        law_trimming_takes_white_space_off(" "@, none, none);
        assert(all =~= " "@);
    }
}

proof fn lemma_same_text(v: JsonView, keys: Seq<Seq<char>>, r: Seq<char>, other: Seq<char>)
    requires
        gives_text(v, keys, r),
        gives_text(v, keys, other),
    ensures
        r == other,
{
    if gives_words(v, keys, Some(r)) {
        if gives_words(v, keys, Some(other)) {
            lemma_one_text(v, keys, Some(r), Some(other));
        } else {
            lemma_one_text(v, keys, Some(r), None);
        }
    } else {
        if gives_words(v, keys, Some(other)) {
            lemma_one_text(v, keys, None, Some(other));
        } else {
            assert(r =~= other);
        }
    }
}

proof fn lemma_name_paths()
    ensures
        sc::segments("personOverview/personalDetails/firstName"@) == seq![
            "personOverview"@,
            "personalDetails"@,
            "firstName"@,
        ],
        sc::segments("personOverview/personalDetails/lastName"@) == seq![
            "personOverview"@,
            "personalDetails"@,
            "lastName"@,
        ],
{
    reveal_strlit("firstName");
    reveal_strlit("lastName");
    reveal_strlit("personalDetails");
    reveal_strlit("personOverview");
    reveal_strlit("personalDetails/firstName");
    reveal_strlit("personalDetails/lastName");
    reveal_strlit("personOverview/personalDetails/firstName");
    reveal_strlit("personOverview/personalDetails/lastName");
    lemma_one_name("firstName"@);
    lemma_one_name("lastName"@);
    assert("personalDetails/firstName"@ =~= "personalDetails"@ + seq!['/'] + "firstName"@);
    lemma_longer_path(
        "personalDetails/firstName"@,
        "personalDetails"@,
        "firstName"@,
        seq!["firstName"@],
    );
    assert(sc::segments("personalDetails/firstName"@) =~= seq!["personalDetails"@, "firstName"@]);
    assert("personOverview/personalDetails/firstName"@ =~= "personOverview"@ + seq!['/']
        + "personalDetails/firstName"@);
    lemma_longer_path(
        "personOverview/personalDetails/firstName"@,
        "personOverview"@,
        "personalDetails/firstName"@,
        seq!["personalDetails"@, "firstName"@],
    );
    assert(sc::segments("personOverview/personalDetails/firstName"@) =~= seq![
        "personOverview"@,
        "personalDetails"@,
        "firstName"@,
    ]);
    assert("personalDetails/lastName"@ =~= "personalDetails"@ + seq!['/'] + "lastName"@);
    lemma_longer_path(
        "personalDetails/lastName"@,
        "personalDetails"@,
        "lastName"@,
        seq!["lastName"@],
    );
    assert(sc::segments("personalDetails/lastName"@) =~= seq!["personalDetails"@, "lastName"@]);
    assert("personOverview/personalDetails/lastName"@ =~= "personOverview"@ + seq!['/']
        + "personalDetails/lastName"@);
    lemma_longer_path(
        "personOverview/personalDetails/lastName"@,
        "personOverview"@,
        "personalDetails/lastName"@,
        seq!["personalDetails"@, "lastName"@],
    );
    assert(sc::segments("personOverview/personalDetails/lastName"@) =~= seq![
        "personOverview"@,
        "personalDetails"@,
        "lastName"@,
    ]);
}

/// A placed order is known by its id, or by the id of the order or the transaction
/// where there is none.
pub proof fn law_a_placed_order_is_known_by_its_id(v: JsonView, id: Seq<char>)
    ensures
        leads(v, seq!["id"@], JsonView::Text(id)) ==> trade::placed_as(v) == id,
        (forall|w: JsonView| !#[trigger] holds(v, "id"@, w)) && leads(
            v,
            seq!["order_id"@],
            JsonView::Text(id),
        ) ==> trade::placed_as(v) == id,
        (forall|w: JsonView| !#[trigger] holds(v, "id"@, w)) && (forall|w: JsonView|
            !#[trigger] holds(v, "order_id"@, w)) && leads(
            v,
            seq!["transaction_id"@],
            JsonView::Text(id),
        ) ==> trade::placed_as(v) == id,
        (forall|w: JsonView| !#[trigger] holds(v, "id"@, w)) && (forall|w: JsonView|
            !#[trigger] holds(v, "order_id"@, w)) && (forall|w: JsonView|
            !#[trigger] holds(v, "transaction_id"@, w)) ==> trade::placed_as(v)
            == "(no id returned)"@,
{
    lemma_id_paths();
    lemma_found(v, "id"@);
    lemma_found(v, "order_id"@);
    lemma_found(v, "transaction_id"@);
    let paths = seq!["id"@, "order_id"@, "transaction_id"@];
    assert(paths.drop_first() =~= seq!["order_id"@, "transaction_id"@]);
    assert(paths.drop_first().drop_first() =~= seq!["transaction_id"@]);
    assert(paths.drop_first().drop_first().drop_first() =~= Seq::<Seq<char>>::empty());
    reveal_with_fuel(sc::picked, 5);
}

proof fn lemma_found(v: JsonView, key: Seq<char>)
    requires
        sc::segments(key) == seq![key],
    ensures
        forall|w: JsonView|
            w != JsonView::Null ==> (#[trigger] leads(v, seq![key], w) <==> sc::value_at(v, key)
                == Some(w)),
        (forall|w: JsonView| !#[trigger] holds(v, key, w)) ==> sc::value_at(v, key) is None,
{
    crate::laws::reading::law_a_walk_follows_the_members(v, seq![key]);
    law_the_first_of_a_name_counts(v, key);
    assert(seq![key].drop_first() =~= Seq::<Seq<char>>::empty());
    reveal_with_fuel(sc::walk, 3);
    if json::member(v, key) is Some {
        assert(holds(v, key, json::member(v, key)->0));
    }
}

proof fn lemma_id_paths()
    ensures
        sc::segments("id"@) == seq!["id"@],
        sc::segments("order_id"@) == seq!["order_id"@],
        sc::segments("transaction_id"@) == seq!["transaction_id"@],
{
    reveal_strlit("id");
    reveal_strlit("order_id");
    reveal_strlit("transaction_id");
    lemma_one_name("id"@);
    lemma_one_name("order_id"@);
    lemma_one_name("transaction_id"@);
}

/// What is shown for a lost session tells what to do about it.
pub proof fn law_session_trouble_tells_what_to_do(e: ScErrorView)
    ensures
        e.kind == ScErrorKind::DeviceLocked ==> account::session_trouble(e)
            == "Mac is locked, unlock it to resume"@,
        e.kind == ScErrorKind::RateLimited ==> account::session_trouble(e)
            == "rate limited, retrying shortly"@,
        e.kind == ScErrorKind::Auth ==> text::holds(account::session_trouble(e), "`sc login`"@)
            && text::holds(account::session_trouble(e), e.message),
        e.kind == ScErrorKind::Validation || e.kind == ScErrorKind::Network || e.kind
            == ScErrorKind::Generic ==> account::session_trouble(e) == sc::error_text(e),
{
    law_an_error_is_shown_with_its_hints(e);
    if e.kind == ScErrorKind::Auth {
        reveal_strlit("`sc login`");
        reveal_strlit(" — run `sc login`");
        let t = sc::error_text(e);
        let tail = " — run `sc login`"@;
        let all = t + tail;
        let i = choose|i: int|
            0 <= i <= t.len() - e.message.len() && #[trigger] t.subrange(i, i + e.message.len())
                == e.message;
        assert(all.subrange(i, i + e.message.len()) =~= e.message);
        let j = t.len() + tail.len() - "`sc login`"@.len();
        assert(all.subrange(j, j + "`sc login`"@.len()) =~= "`sc login`"@);
    }
}

/// A line of the log tells whether a call went well, and why not where it did not.
pub proof fn law_a_line_tells_how_a_call_went(name: Seq<char>, call: sc::Call, about: Seq<char>)
    ensures
        worker::call_line(name, call, about).ok <==> sc::outcome(call) is Ok,
        worker::call_line(name, call, about).cmd == name,
        worker::call_line(name, call, about).ms == call.elapsed_ms,
        sc::outcome(call) is Ok ==> worker::call_line(name, call, about).detail == about,
        sc::outcome(call) matches Err(e) ==> worker::call_line(name, call, about).detail == about
            + ": "@ + sc::error_text(e),
        account::refresh_line(name, call, about).ok <==> sc::outcome(call) is Ok,
        sc::outcome(call) is Ok ==> account::refresh_line(name, call, about).detail == about,
        sc::outcome(call) matches Err(e) ==> account::refresh_line(name, call, about).detail
            == sc::error_text(e),
{
}

} // verus!
