//! What the terminal knows after a command or an answer, and what it does not lose.

use crate::json::JsonView;
use crate::laws::positions::{
    law_a_position_is_read_by_name, law_an_order_is_read_by_name,
    law_working_orders_are_those_that_still_work, says_holding, says_order, still_works,
};
use crate::laws::reading::{
    gives_amount, gives_list, gives_number, gives_words, holds,
    law_the_first_of_a_name_counts, leads, lemma_given, lemma_longer_path, lemma_one_list,
    lemma_one_name, lemma_one_text,
};
use crate::model::{Holding, Quote, Trail};
use crate::model::preview;
use crate::model::trail;
use crate::num::{self, Num};
use crate::order;
use crate::sc::{self, Call, ScErrorKind};
use crate::text;
use crate::worker::{self, Shared};
use crate::worker::account;
use crate::worker::chart as charts;
use crate::worker::flow::{self, Cmd, Task};
use crate::worker::quotes;
use crate::worker::trade;
use crate::worker::trails;
use vstd::prelude::*;

verus! {

/// Nothing is placed, cancelled, previewed or moved but by the command to do so, and
/// then just what it says.
pub proof fn law_only_the_command_places_an_order(
    a: Shared,
    b: Shared,
    cmd: Cmd,
    now: u64,
    tasks: Seq<Task>,
    i: int,
)
    requires
        flow::dispatched(a, b, cmd, now, tasks),
        0 <= i < tasks.len(),
    ensures
        tasks[i] matches Task::Submit { intent, confirmation_id, accept_unsuitable } ==> cmd == (
        Cmd::SubmitTrade { intent, confirmation_id, accept_unsuitable }),
        tasks[i] matches Task::Cancel(id) ==> cmd == Cmd::CancelOrder(id),
        tasks[i] matches Task::Preview(intent) ==> cmd == Cmd::PreviewTrade(intent),
        tasks[i] matches Task::Ratchet(isin) ==> cmd == (Cmd::RatchetTrail { isin }),
        tasks[i] matches Task::Arm { isin, distance, percent } ==> cmd == (Cmd::ArmTrail {
            isin,
            distance,
            percent,
        }),
        tasks[i] matches Task::Add(isin) ==> cmd == Cmd::WatchlistAdd(isin),
        tasks[i] matches Task::Remove(isin) ==> cmd == Cmd::WatchlistRemove(isin),
        tasks[i] matches Task::Search(q) ==> cmd == Cmd::Search(q),
        tasks[i] is SaveTrails ==> cmd is ArmTrail || cmd is DisarmTrail,
{
}

/// A command is carried out at once, and what it changes is fetched again behind it.
pub proof fn law_commands_are_carried_out_in_order(
    a: Shared,
    b: Shared,
    cmd: Cmd,
    now: u64,
    tasks: Seq<Task>,
)
    requires
        flow::dispatched(a, b, cmd, now, tasks),
    ensures
        cmd matches Cmd::SubmitTrade { intent, confirmation_id, accept_unsuitable } ==> tasks.len()
            == 2 && tasks[0] == (Task::Submit { intent, confirmation_id, accept_unsuitable })
            && tasks[1] == Task::Account,
        cmd matches Cmd::CancelOrder(id) ==> tasks.len() == 2 && tasks[0] == Task::Cancel(id)
            && tasks[1] == Task::Account,
        cmd matches Cmd::PreviewTrade(intent) ==> tasks.len() == 1 && tasks[0] == Task::Preview(
            intent,
        ),
        cmd matches Cmd::WatchlistAdd(isin) ==> tasks.len() == 3 && tasks[0] == Task::Add(isin)
            && tasks[1] == Task::Watchlist,
        cmd matches Cmd::WatchlistRemove(isin) ==> tasks.len() == 2 && tasks[0] == Task::Remove(
            isin,
        ) && tasks[1] == Task::Watchlist,
        cmd is RefreshAll ==> tasks.len() == 3 && tasks[0] == Task::Account && tasks[1]
            == Task::Watchlist && tasks[2] == Task::Targets,
        cmd is RefreshQuotes ==> tasks.len() == 1 && tasks[0] == Task::Targets,
        cmd matches Cmd::LoadChart { isin, timeframe, force } ==> tasks.len() == 1 && tasks[0] == (
        Task::Chart { isin, timeframe, force }),
        cmd matches Cmd::ArmTrail { isin, distance, percent } ==> tasks.len() == 2 && tasks[0] == (
        Task::Arm { isin, distance, percent }) && tasks[1] == Task::SaveTrails,
        cmd matches Cmd::SetPollSet(set) ==> b.poll_set == set,
        cmd is ClearPreview
            ==> b.preview is None && b.preview_error is None && b.order_error is None
            && b.order_result is None,
        !(cmd is ClearPreview) ==> b.preview == a.preview && b.order_pending == a.order_pending,
        b.orders == a.orders,
        b.holdings == a.holdings,
        b.account == a.account,
        b.session == a.session,
        cmd is Shutdown ==> tasks.len() == 0 && b == a,
{
}

/// A preview starts from nothing, and a submission keeps what it submits.
pub proof fn law_a_request_clears_the_last_outcome(a: Shared)
    ensures
        ({
            let p = trade::previewing(a);
            &&& p.preview_pending && p.preview is None && p.preview_error is None
            &&& p.order_result is None && p.order_error is None
            &&& p.orders == a.orders && p.order_pending == a.order_pending
        }),
        ({
            let s = trade::submitting(a);
            &&& s.order_pending && s.order_error is None && s.order_result is None
            &&& s.preview == a.preview && s.orders == a.orders
        }),
{
}

/// A preview that comes with a confirmation id is kept under it. Without one, or after
/// a failure, there is no new preview but a reason.
pub proof fn law_a_preview_is_kept_under_its_id(a: Shared, b: Shared, call: Call, id: Seq<char>)
    requires
        trade::took_preview(a, b, call),
    ensures
        !b.preview_pending,
        sc::outcome(call) matches Ok(v) ==> {
            &&& gives_words(v, seq!["confirmation"@, "id"@], Some(id)) ==> b.preview is Some
                && b.preview->0.confirmation_id@ == id && b.preview->0.raw.view() == v
                && b.preview_error == a.preview_error
            &&& gives_words(v, seq!["confirmation"@, "id"@], None) ==> b.preview == a.preview
                && b.preview_error is Some
        },
        sc::outcome(call) is Err ==> b.preview == a.preview && b.preview_error is Some,
        sc::outcome(call) matches Err(e) ==> {
            &&& e.kind == ScErrorKind::Auth ==> b.session is None && b.session_error is Some
            &&& e.kind != ScErrorKind::Auth ==> b.session == a.session
            &&& worker::said(b.preview_error) == Some(sc::error_text(e))
        },
        b.orders == a.orders,
        b.order_result == a.order_result,
        b.order_pending == a.order_pending,
{
    lemma_confirmation_path();
    if let Ok(v) = sc::outcome(call) {
        lemma_given(v, "confirmation/id"@, seq!["confirmation"@, "id"@]);
        if gives_words(v, seq!["confirmation"@, "id"@], Some(id)) {
            lemma_one_text(
                v,
                seq!["confirmation"@, "id"@],
                Some(id),
                sc::words_at(v, "confirmation/id"@),
            );
        }
        if gives_words(v, seq!["confirmation"@, "id"@], None) {
            lemma_one_text(
                v,
                seq!["confirmation"@, "id"@],
                None,
                sc::words_at(v, "confirmation/id"@),
            );
        }
    }
}

proof fn lemma_confirmation_path()
    ensures
        sc::segments("confirmation/id"@) == seq!["confirmation"@, "id"@],
{
    reveal_strlit("id");
    reveal_strlit("confirmation");
    reveal_strlit("confirmation/id");
    lemma_one_name("id"@);
    assert("confirmation/id"@ =~= "confirmation"@ + seq!['/'] + "id"@);
    lemma_longer_path("confirmation/id"@, "confirmation"@, "id"@, seq!["id"@]);
    assert(sc::segments("confirmation/id"@) =~= seq!["confirmation"@, "id"@]);
}

/// A submitted order uses its preview up; one that failed keeps it, and says why.
pub proof fn law_a_submitted_order_uses_its_preview_up(a: Shared, b: Shared, call: Call)
    requires
        trade::took_submit(a, b, call),
    ensures
        !b.order_pending,
        sc::outcome(call) matches Ok(v) ==> {
            &&& b.preview is None
            &&& b.order_error == a.order_error
            &&& b.order_result is Some
            &&& b.order_result->0@ == "order submitted: "@ + trade::placed_as(sc::unwrapped(v))
        },
        sc::outcome(call) matches Err(e) ==> {
            &&& b.preview == a.preview
            &&& b.order_result == a.order_result
            &&& b.order_error is Some
            &&& b.order_error->0@ == sc::error_text(e)
        },
        b.orders == a.orders,
        b.session == a.session,
{
}

/// A cancelled order is told of by its id, and one that could not be cancelled by the
/// reason.
pub proof fn law_a_cancelled_order_is_told_of(a: Shared, b: Shared, id: Seq<char>, call: Call)
    requires
        trade::took_cancel(a, b, id, call),
    ensures
        sc::outcome(call) is Ok ==> b.order_result is Some && b.order_result->0@ == "cancelled "@
            + id && b.order_error == a.order_error,
        sc::outcome(call) matches Err(e) ==> b.order_error is Some && b.order_error->0@
            == sc::error_text(e) && b.order_result == a.order_result,
        b.orders == a.orders,
        b.preview == a.preview,
{
}

/// Whether nothing but the log differs, which has one line more.
pub open spec fn only_logged(a: Shared, b: Shared) -> bool {
    &&& b == (Shared { log: b.log, ..a })
    &&& exists|l: worker::Line| !(#[trigger] worker::logged(a.lines(), l).last()).ok && b.lines()
        == worker::logged(a.lines(), l)
}

proof fn lemma_logged_last(log: Seq<worker::Line>, l: worker::Line)
    ensures
        worker::logged(log, l).len() > 0,
        worker::logged(log, l).last() == l,
{
    worker::law_log_is_capped(log, l);
}

/// An answer that failed changes nothing but the log, where it is told of.
pub proof fn law_a_failed_answer_changes_nothing(a: Shared, b: Shared, call: Call, q: Seq<char>)
    requires
        sc::outcome(call) is Err,
    ensures
        account::took_overview(a, b, call) ==> only_logged(a, b),
        account::took_cash(a, b, call) ==> only_logged(a, b),
        account::took_holdings(a, b, call) ==> only_logged(a, b),
        account::took_transactions(a, b, call) ==> only_logged(a, b),
        account::took_analytics(a, b, call) ==> only_logged(a, b),
        account::took_watchlist(a, b, call) ==> only_logged(a, b),
        charts::took_search(a, b, q, call) ==> only_logged(a, b),
{
    let none = Seq::<char>::empty();
    lemma_logged_last(a.lines(), account::refresh_line("broker.overview"@, call, none));
    lemma_logged_last(a.lines(), account::refresh_line("broker.cash-breakdown"@, call, none));
    lemma_logged_last(
        a.lines(),
        account::refresh_line(
            "broker.holdings"@,
            call,
            text::decimal(b.holdings@.len() as int) + " positions"@,
        ),
    );
    lemma_logged_last(
        a.lines(),
        account::refresh_line(
            "broker.transactions"@,
            call,
            text::decimal(b.orders@.len() as int) + " working"@,
        ),
    );
    lemma_logged_last(a.lines(), account::refresh_line("broker.analytics"@, call, none));
    lemma_logged_last(
        a.lines(),
        account::refresh_line(
            "broker.watchlist"@,
            call,
            text::decimal(b.watchlist@.len() as int) + " items"@,
        ),
    );
    let e = sc::outcome(call)->Err_0;
    lemma_logged_last(
        a.lines(),
        worker::line(
            "broker.search"@,
            call.elapsed_ms as int,
            false,
            q + ": "@ + sc::error_text(e),
        ),
    );
}

/// The positions are the items of the answer, in order, and the answer is kept as it
/// came.
pub proof fn law_positions_are_the_items(
    a: Shared,
    b: Shared,
    call: Call,
    v: JsonView,
    list: Seq<JsonView>,
)
    requires
        account::took_holdings(a, b, call),
        sc::outcome(call) == Ok::<JsonView, sc::ScErrorView>(v),
        gives_list(sc::unwrapped(v), seq!["items"@], list),
    ensures
        b.holdings@.len() == list.len(),
        forall|i: int| 0 <= i < list.len() ==> says_holding(#[trigger] b.holdings@[i], list[i]),
        b.holdings_raw.view() == v,
        b.orders == a.orders,
        b.account == a.account,
{
    lemma_items(sc::unwrapped(v), list);
    assert forall|i: int| 0 <= i < list.len() implies says_holding(
        #[trigger] b.holdings@[i],
        list[i],
    ) by {
        law_a_position_is_read_by_name(b.holdings@[i], list[i]);
    }
}

/// The working orders are those transactions of the answer that still work, in order.
pub proof fn law_orders_are_the_working_transactions(
    a: Shared,
    b: Shared,
    call: Call,
    v: JsonView,
    list: Seq<JsonView>,
)
    requires
        account::took_transactions(a, b, call),
        sc::outcome(call) == Ok::<JsonView, sc::ScErrorView>(v),
        gives_list(sc::unwrapped(v), seq!["items"@], list),
    ensures
        ({
            let rows = list.filter(|t: JsonView| still_works(t));
            &&& b.orders@.len() == rows.len()
            &&& forall|i: int| 0 <= i < rows.len() ==> says_order(#[trigger] b.orders@[i], rows[i])
        }),
        b.holdings == a.holdings,
        b.trails == a.trails,
{
    law_working_orders_are_those_that_still_work(sc::unwrapped(v), list);
    let rows = list.filter(|t: JsonView| still_works(t));
    assert forall|i: int| 0 <= i < rows.len() implies says_order(#[trigger] b.orders@[i], rows[i]) by {
        law_an_order_is_read_by_name(b.orders@[i], rows[i]);
    }
}

proof fn lemma_items(v: JsonView, list: Seq<JsonView>)
    requires
        gives_list(v, seq!["items"@], list),
    ensures
        sc::list_at(v, "items"@) == list,
{
    reveal_strlit("items");
    lemma_one_name("items"@);
    lemma_given(v, "items"@, seq!["items"@]);
    lemma_one_list(v, seq!["items"@], list, sc::list_at(v, "items"@));
}

/// A session that answers is named and in order. A failure ends it just where the login
/// is missing, is told of in any case, and starts a wait where it was a refusal.
pub proof fn law_a_session_is_kept_or_lost(a: Shared, b: Shared, call: Call, now: u64)
    requires
        account::checked(a, b, call, now),
    ensures
        sc::outcome(call) matches Ok(v) ==> {
            &&& b.session is Some && b.session->0@ == account::session_name(sc::unwrapped(v))
            &&& b.session_error is None
            &&& b.backoff_until == a.backoff_until
        },
        sc::outcome(call) matches Err(e) ==> {
            &&& e.kind == ScErrorKind::Auth ==> b.session is None
            &&& e.kind != ScErrorKind::Auth ==> b.session == a.session
            &&& b.session_error is Some && b.session_error->0@ == account::session_trouble(e)
            &&& e.kind == ScErrorKind::RateLimited ==> b.probe_next && b.backoff_until == Some(
                worker::after(now, worker::backoff(a.backoff_level as nat) as int),
            )
            &&& e.kind != ScErrorKind::RateLimited ==> b.backoff_until == a.backoff_until
                && b.backoff_level == a.backoff_level
        },
        b.holdings == a.holdings,
        b.orders == a.orders,
        b.preview == a.preview,
{
}

/// After a round, the mark of the first trail on an instrument is the higher of what it
/// was and the mid that is now known.
pub proof fn law_a_round_marks_the_highest_mid(
    ts: Seq<Trail>,
    known: Map<Seq<char>, Quote>,
    i: int,
    mid: Num,
)
    requires
        0 <= i < ts.len(),
        forall|j: int| 0 <= j < i ==> (#[trigger] ts[j]).isin@ != ts[i].isin@,
        num::is_finite(ts[i].high_water),
        num::is_finite(mid),
    ensures
        ({
            let t = quotes::advanced(ts, known)[i];
            &&& known.dom().contains(ts[i].isin@) && known[ts[i].isin@].mid == Some(mid)
                ==> num::value(t.high_water) == if num::value(mid) > num::value(ts[i].high_water) {
                num::value(mid)
            } else {
                num::value(ts[i].high_water)
            }
            &&& !known.dom().contains(ts[i].isin@) || known[ts[i].isin@].mid is None ==> t == ts[i]
            &&& t.isin == ts[i].isin && t.distance == ts[i].distance && t.percent == ts[i].percent
                && t.min_step == ts[i].min_step
        }),
        quotes::advanced(ts, known).len() == ts.len(),
{
    order::lemma_order_of_values(ts[i].high_water, mid);
    assert(quotes::advanced(ts, known)[i] == quotes::advanced_trail(ts, i, known));
    assert(quotes::is_first_trail(ts, i));
}

/// The broker declined an instrument just where its answer says that it is not on the
/// watchlist.
pub proof fn law_the_broker_declines_by_its_answer(call: Call)
    ensures
        account::declined(call) <==> sc::outcome(call) is Ok && leads(
            sc::unwrapped(sc::outcome(call)->Ok_0),
            seq!["is_on_watchlist"@],
            JsonView::Bool(false),
        ),
{
    if let Ok(v) = sc::outcome(call) {
        let w = sc::unwrapped(v);
        reveal_strlit("is_on_watchlist");
        lemma_one_name("is_on_watchlist"@);
        crate::laws::reading::law_a_walk_follows_the_members(w, seq!["is_on_watchlist"@]);
    }
}

/// An instrument that was declined is told of, differently where it is held; one that
/// was taken is not.
pub proof fn law_a_declined_instrument_is_told_of(
    a: Shared,
    b: Shared,
    isin: Seq<char>,
    call: Call,
)
    requires
        account::took_added(a, b, isin, call),
    ensures
        b.watchlist_error is Some <==> account::declined(call),
        account::declined(call) && (exists|i: int|
            0 <= i < a.holdings@.len() && (#[trigger] a.holdings@[i]).isin@ == isin)
            ==> b.watchlist_error->0@ == isin
            + " is a position you hold; Scalable will not watchlist it. It is in Positions."@,
        account::declined(call) && (forall|i: int|
            0 <= i < a.holdings@.len() ==> (#[trigger] a.holdings@[i]).isin@ != isin)
            ==> b.watchlist_error->0@ == isin + " was declined by the broker"@,
        b.watchlist == a.watchlist,
        b.holdings == a.holdings,
{
}

/// A stored trail is read by the names of its members. One that does not say otherwise
/// is a fraction, and has seen nothing; one without an instrument, or whose distance
/// cannot be, is none.
pub proof fn law_a_stored_trail_is_read_by_name(v: JsonView)
    ensures
        trails::trail_in(v) matches Some(t) ==> {
            &&& gives_words(v, seq!["isin"@], Some(t.isin))
            &&& gives_number(v, seq!["distance"@], Some(t.distance))
            &&& gives_amount(v, seq!["high_water"@], t.high_water)
            &&& t.percent <==> !holds(v, "percent"@, JsonView::Bool(false))
            &&& t.min_step == num::ratio(1, 1000)
            &&& trail::is_distance(t.distance, t.percent)
        },
        trails::trail_in(v) is None ==> gives_words(v, seq!["isin"@], None) || gives_number(
            v,
            seq!["distance"@],
            None,
        ) || exists|d: Num| #[trigger]
            gives_number(v, seq!["distance"@], Some(d)) && !trail::is_distance(
                d,
                !holds(v, "percent"@, JsonView::Bool(false)),
            ),
{
    reveal_strlit("isin");
    reveal_strlit("distance");
    reveal_strlit("high_water");
    lemma_one_name("isin"@);
    lemma_one_name("distance"@);
    lemma_one_name("high_water"@);
    lemma_given(v, "isin"@, seq!["isin"@]);
    lemma_given(v, "distance"@, seq!["distance"@]);
    lemma_given(v, "high_water"@, seq!["high_water"@]);
    law_the_first_of_a_name_counts(v, "percent"@);
    let d = sc::number_at(v, "distance"@);
    if d is Some {
        assert(gives_number(v, seq!["distance"@], Some(d->0)));
    }
}

/// The name that is known of an instrument is the one that the last position in it
/// gives; what no position names stays known as it was.
pub proof fn law_names_are_learned_from_positions(
    names: Map<Seq<char>, Seq<char>>,
    hs: Seq<Holding>,
    isin: Seq<char>,
    i: int,
)
    requires
        -1 <= i < hs.len(),
        i >= 0 ==> hs[i].isin@ == isin && isin.len() > 0 && hs[i].name@.len() > 0,
        forall|j: int|
            i < j < hs.len() ==> (#[trigger] hs[j]).isin@ != isin || hs[j].name@.len() == 0,
    ensures
        i >= 0 ==> account::with_held(names, hs).dom().contains(isin) && account::with_held(
            names,
            hs,
        )[isin] == hs[i].name@,
        i < 0 ==> account::with_held(names, hs).dom().contains(isin) == names.dom().contains(isin),
        i < 0 && names.dom().contains(isin) ==> account::with_held(names, hs)[isin] == names[isin],
    decreases hs.len(),
{
    if hs.len() > 0 && i < hs.len() - 1 {
        let rest = hs.drop_last();
        assert forall|j: int| i < j < rest.len() implies (#[trigger] rest[j]).isin@ != isin
            || rest[j].name@.len() == 0 by {
            assert(rest[j] == hs[j]);
        }
        if i >= 0 {
            assert(rest[i] == hs[i]);
        }
        law_names_are_learned_from_positions(names, rest, isin, i);
        assert(hs[hs.len() - 1] == hs.last());
    }
}

/// The name that is known of an instrument is the one that the last row of the watchlist
/// that names it gives; what no row names stays known as it was.
pub proof fn law_names_are_learned_from_the_watchlist(
    names: Map<Seq<char>, Seq<char>>,
    items: Seq<JsonView>,
    isin: Seq<char>,
    name: Seq<char>,
)
    requires
        items.len() > 0,
        isin.len() > 0,
    ensures
        gives_words(items.last(), seq!["isin"@], Some(isin)) && gives_words(
            items.last(),
            seq!["name"@],
            Some(name),
        ) && name.len() > 0 ==> {
            let now = account::with_watched(names, items);
            now.dom().contains(isin) && now[isin] == name
        },
        gives_words(items.last(), seq!["isin"@], None) || gives_words(
            items.last(),
            seq!["name"@],
            None,
        ) ==> account::with_watched(names, items) == account::with_watched(
            names,
            items.drop_last(),
        ),
        gives_words(items.last(), seq!["isin"@], Some(isin)) && gives_words(
            items.last(),
            seq!["name"@],
            Some(name),
        ) ==> {
            let now = charts::with_found(names, items);
            now.dom().contains(isin) && now[isin] == name
        },
        gives_words(items.last(), seq!["isin"@], None) || gives_words(
            items.last(),
            seq!["name"@],
            None,
        ) ==> charts::with_found(names, items) == charts::with_found(names, items.drop_last()),
        account::with_watched(names, Seq::empty()) == names,
        charts::with_found(names, Seq::empty()) == names,
{
    reveal_strlit("isin");
    reveal_strlit("name");
    lemma_one_name("isin"@);
    lemma_one_name("name"@);
    let v = items.last();
    lemma_given(v, "isin"@, seq!["isin"@]);
    lemma_given(v, "name"@, seq!["name"@]);
    let (a, b) = (sc::words_at(v, "isin"@), sc::words_at(v, "name"@));
    if gives_words(v, seq!["isin"@], Some(isin)) {
        lemma_one_text(v, seq!["isin"@], Some(isin), a);
    }
    if gives_words(v, seq!["name"@], Some(name)) {
        lemma_one_text(v, seq!["name"@], Some(name), b);
    }
    if gives_words(v, seq!["isin"@], None) {
        lemma_one_text(v, seq!["isin"@], None, a);
    }
    if gives_words(v, seq!["name"@], None) {
        lemma_one_text(v, seq!["name"@], None, b);
    }
}

} // verus!
