//! Smaller promises: signs, names, the log, and when a stop is moved.

use crate::json::JsonView;
use crate::laws::quotes::{law_a_quote_is_read_by_name, says_percent};
use crate::laws::reading::{gives_list, gives_words, lemma_given, lemma_one_name, lemma_one_text};
use crate::laws::texts::law_a_text_holds_what_stands_in_it;
use crate::model::{Quote, Window};
use crate::model::quote;
use crate::num::{self, Num};
use crate::order;
use crate::sc::{self, Call};
use crate::screen;
use crate::shortcuts::{self, Act, Key, Modifiers};
use crate::text;
use crate::worker::{self, Line, Shared};
use crate::worker::account;
use crate::worker::chart as charts;
use crate::worker::quotes::{self, QuoteResult};
use crate::worker::trade::{self, Ratchet};
use vstd::prelude::*;

verus! {

/// Nothing changes where negative zero is added to it, the sign of a zero included.
pub proof fn law_negative_zero_adds_nothing(x: Num)
    requires
        num::is_finite(x),
    ensures
        num::sum(num::negative_zero(), x) == x,
        num::sum(x, num::negative_zero()) == x,
{
    order::lemma_zero_is_nothing();
    assert(num::mag(num::negative_zero()) == num::mag(num::zero()));
    assert(num::value(num::negative_zero()) == 0);
    let r = num::rounded(num::value(x), 1, num::negative(x));
    order::lemma_rounded_exact(x, num::negative(x));
    order::lemma_order_of_values(x, num::zero());
    order::lemma_order_of_values(num::zero(), x);
    assert(num::rank(r) == num::rank(x));
    if num::value(x) == 0 {
        assert(num::mag(x) == 0);
        assert(r == num::signed(num::negative(x), 0));
    } else {
        assert(num::rank(x) != 0);
    }
    assert(r == x);
}

/// Products and quotients follow the signs of what they are of: with the sign of one
/// turned, theirs is.
pub proof fn law_signs_turn_products_and_quotients(x: Num, y: Num)
    ensures
        !num::is_nan(num::product(x, y)) ==> num::product(num::negated(x), y) == num::negated(
            num::product(x, y),
        ) && num::product(x, num::negated(y)) == num::negated(num::product(x, y)),
        !num::is_nan(num::quotient(x, y)) ==> num::quotient(num::negated(x), y) == num::negated(
            num::quotient(x, y),
        ) && num::quotient(x, num::negated(y)) == num::negated(num::quotient(x, y)),
{
    order::lemma_negated(x);
    order::lemma_negated(y);
    let neg = num::negative(x) != num::negative(y);
    let (a, b, o) = (num::units(num::mag(x)), num::units(num::mag(y)), num::one_units());
    crate::laws::near::lemma_one_is_large();
    if num::is_finite(x) && num::is_finite(y) {
        num::lemma_units_increase(0, num::mag(x));
        num::lemma_units_increase(0, num::mag(y));
        order::lemma_zero_is_nothing();
        assert(a * b >= 0 && a * o >= 0) by (nonlinear_arith)
            requires
                a >= 0,
                b >= 0,
                o > 0,
        ;
        order::lemma_nearest_range(a * b, o);
        if num::mag(y) > 0 {
            order::lemma_nearest_range(a * o, b);
        }
    }
}

/// The timeframe that a window goes by in a payload.
pub open spec fn timeframe_of(w: Window) -> Seq<char> {
    match w {
        Window::Day => "INTRADAY"@,
        Window::Week => "ONE_WEEK"@,
        Window::Month => "ONE_MONTH"@,
        Window::Quarter => "THREE_MONTHS"@,
        Window::Half => "SIX_MONTHS"@,
        Window::Year => "ONE_YEAR"@,
    }
}

/// The performance over a window is that of its timeframe, and the window is labelled
/// as the timeframe is everywhere.
pub proof fn law_a_window_shows_its_timeframe(
    q: Quote,
    isin: Seq<char>,
    v: JsonView,
    list: Seq<JsonView>,
    w: Window,
)
    requires
        quote::is_quote(q, isin, v),
        gives_list(v, seq!["quote_performances"@], list),
    ensures
        says_percent(list, timeframe_of(w), q.perf.of(w)),
        quote::label_of(w) == screen::short_name(timeframe_of(w)),
{
    law_a_quote_is_read_by_name(q, isin, v, list);
    reveal_strlit("INTRADAY");
    reveal_strlit("TWO_DAYS");
    reveal_strlit("ONE_WEEK");
    reveal_strlit("ONE_MONTH");
    reveal_strlit("THREE_MONTHS");
    reveal_strlit("SIX_MONTHS");
    reveal_strlit("ONE_YEAR");
    assert("INTRADAY"@[4] == 'A' && "TWO_DAYS"@[4] == 'D');
    assert("ONE_WEEK"@[4] == 'W' && "ONE_YEAR"@[4] == 'Y');
    assert("INTRADAY"@.len() == 8 && "TWO_DAYS"@.len() == 8 && "ONE_WEEK"@.len() == 8);
    assert("ONE_MONTH"@.len() == 9 && "THREE_MONTHS"@.len() == 12);
    assert("SIX_MONTHS"@.len() == 10 && "ONE_YEAR"@.len() == 8);
}

/// The log keeps its newest 400 lines, in order.
pub proof fn law_the_log_keeps_its_newest_lines(log: Seq<Line>, l: Line)
    ensures
        ({
            let all = log.push(l);
            let kept = worker::logged(log, l);
            &&& kept.len() == if all.len() < 400 {
                all.len() as int
            } else {
                400
            }
            &&& forall|i: int|
                0 <= i < kept.len() ==> #[trigger] kept[i] == all[all.len() - kept.len() + i]
        }),
{
}

/// A round is told of with its time, and as gone well just where no call failed.
pub proof fn law_a_round_went_well_without_failures(rs: Seq<QuoteResult>, round_ms: u128)
    ensures
        quotes::round_line(rs, round_ms).ok <==> quotes::failures(rs) == 0,
        quotes::round_line(rs, round_ms).ms == round_ms,
{
}

/// A stop is moved just where its trail says so and there is something to protect. The
/// one that rests is cancelled first; where none rests, the new one is placed at once.
pub proof fn law_a_stop_is_moved_where_its_trail_says(
    a: Shared,
    b: Shared,
    isin: Seq<char>,
    r: Ratchet,
)
    requires
        trade::planned(a, b, isin, r),
    ensures
        ({
            let t = trade::trail_on(a.trails@, isin);
            let resting = worker::stop_among(a.orders@, isin);
            let shares = trade::shares_to_protect(a, isin);
            let due = t is Some && t->0.moves(
                if resting is Some {
                    resting->0.stop_price
                } else {
                    None
                },
            );
            &&& r is Idle <==> !due || num::at_most(shares, num::zero())
            &&& !due ==> b == a
            &&& due && num::at_most(shares, num::zero()) ==> b.trail_error is Some
            &&& r matches Ratchet::Cancel { id, shares: n, stop } ==> resting is Some && id@
                == resting->0.id@ && n == shares && t->0.stop() == Some(stop)
            &&& r matches Ratchet::Place { shares: n, stop } ==> resting is None && n == shares
                && t->0.stop() == Some(stop)
            &&& b.orders == a.orders && b.trails == a.trails
        }),
{
}

/// A stop that was cancelled leaves a gap, which is told of until a stop rests again;
/// one that could not be is left alone, and nothing follows.
pub proof fn law_a_cancelled_stop_leaves_a_gap(
    a: Shared,
    b: Shared,
    isin: Seq<char>,
    id: Seq<char>,
    call: Call,
    go_on: bool,
)
    requires
        trade::took_stop_cancel(a, b, isin, id, call, go_on),
    ensures
        go_on <==> sc::outcome(call) is Ok,
        go_on ==> b.trail_gap is Some && b.trail_gap->0@ == isin && b.trail_error == a.trail_error,
        !go_on ==> b.trail_gap == a.trail_gap && b.trail_error is Some,
        b.orders == a.orders,
        b.trails == a.trails,
        b.preview == a.preview,
{
}

/// The watchlist is what its rows name, in order: each instrument that a row gives, and
/// no other.
pub proof fn law_the_watchlist_is_what_its_rows_name(items: Seq<JsonView>)
    ensures
        account::watched(Seq::empty()).len() == 0,
        items.len() > 0 ==> {
            let before = account::watched(items.drop_last());
            &&& forall|isin: Seq<char>| #[trigger]
                gives_words(items.last(), seq!["isin"@], Some(isin)) ==> account::watched(items)
                    == before.push(isin)
            &&& gives_words(items.last(), seq!["isin"@], None) ==> account::watched(items) == before
        },
{
    reveal(Seq::filter_map);
    let f = |i: JsonView| sc::words_at(i, "isin"@);
    assert(Seq::<JsonView>::empty().filter_map(f).len() == 0);
    if items.len() > 0 {
        reveal_strlit("isin");
        lemma_one_name("isin"@);
        let v = items.last();
        lemma_given(v, "isin"@, seq!["isin"@]);
        let before = account::watched(items.drop_last());
        assert forall|isin: Seq<char>| #[trigger]
            gives_words(v, seq!["isin"@], Some(isin)) implies account::watched(items)
            == before.push(isin) by {
            lemma_one_text(v, seq!["isin"@], Some(isin), sc::words_at(v, "isin"@));
            assert(before + seq![isin] =~= before.push(isin));
        }
        if gives_words(v, seq!["isin"@], None) {
            lemma_one_text(v, seq!["isin"@], None, sc::words_at(v, "isin"@));
        }
    }
}

/// A bare key counts with no modifier held, one with shift with shift alone, and one
/// with the command key with that and neither shift nor alt.
pub proof fn law_modifiers_have_to_be_held(held: Modifiers)
    ensures
        shortcuts::matches(held, shortcuts::plain()) <==> !held.alt && !held.shift && !held.ctrl
            && !held.command,
        shortcuts::matches(held, shortcuts::shift()) <==> !held.alt && held.shift && !held.ctrl
            && !held.command,
        shortcuts::matches(held, shortcuts::command())
            <==> !held.alt && !held.shift && held.command,
{
}

/// The action that a key calls for is the one whose chord it is.
pub proof fn law_a_chord_calls_for_its_action(a: Act, key: Key, held: Modifiers)
    ensures
        shortcuts::is_pressed(a, seq![key], held) <==> shortcuts::chord(a).0 == key
            && shortcuts::matches(held, shortcuts::chord(a).1),
        shortcuts::is_pressed(a, seq![key], held) ==> shortcuts::first_pressed(
            0,
            seq![key],
            held,
        ) == Some(a),
        shortcuts::first_pressed(0, seq![key], held) matches Some(b) ==> shortcuts::is_pressed(
            b,
            seq![key],
            held,
        ),
{
    assert(seq![key][0] == key);
    lemma_first_pressed(0, seq![key], held);
    if shortcuts::is_pressed(a, seq![key], held) {
        shortcuts::law_every_action_is_bound_once(a);
        let b = shortcuts::first_pressed(0, seq![key], held);
        assert(b is Some) by {
            assert(shortcuts::acts()[shortcuts::place(a)] == a);
        }
        shortcuts::law_a_key_calls_for_one_action(a, b->0, key, held);
    }
}

proof fn lemma_first_pressed(i: int, keys: Seq<Key>, held: Modifiers)
    requires
        0 <= i,
    ensures
        match shortcuts::first_pressed(i, keys, held) {
            Some(a) => shortcuts::is_pressed(a, keys, held),
            None => forall|j: int|
                i <= j < shortcuts::acts().len() ==> !shortcuts::is_pressed(
                    #[trigger] shortcuts::acts()[j],
                    keys,
                    held,
                ),
        },
    decreases shortcuts::acts().len() - i,
{
    if i < shortcuts::acts().len() && !shortcuts::is_pressed(shortcuts::acts()[i], keys, held) {
        lemma_first_pressed(i + 1, keys, held);
    }
}

/// What is said of a wait, of a missing confirmation and of an unprotected position
/// names what it is about.
pub proof fn law_messages_name_what_they_are_about(
    secs: int,
    call: Call,
    isin: Seq<char>,
    level: u32,
)
    ensures
        text::holds(charts::retrying(secs), text::decimal(secs)),
        text::holds(trade::no_confirmation(call), text::first_chars(call.raw@, 600)),
        text::holds(trade::unprotected(isin), isin),
        text::holds(account::refusal(isin, true), isin),
        text::holds(account::refusal(isin, false), isin),
        account::refusal(isin, true) != account::refusal(isin, false),
        text::holds(
            worker::limit_line(level, isin).detail,
            text::decimal(worker::backoff(level as nat) as int),
        ),
        !worker::limit_line(level, isin).ok,
{
    let a = "rate limited — retrying in "@;
    let d = text::decimal(secs);
    law_a_text_holds_what_stands_in_it(a, d, "s"@);
    let head = "phase-1 returned no confirmation id.\n"@ + (sc::BIN@ + " "@ + text::joined(
        text::texts(call.argv@),
        " "@,
    )) + "\n"@;
    let raw = text::first_chars(call.raw@, 600);
    law_a_text_holds_what_stands_in_it(head, raw, Seq::empty());
    assert(head + raw + Seq::<char>::empty() =~= trade::no_confirmation(call));
    law_a_text_holds_what_stands_in_it(
        "the stop was cancelled but the replacement preview failed. "@,
        isin,
        " is UNPROTECTED.              Place a stop manually or retry."@,
    );
    let none = Seq::<char>::empty();
    let held = " is a position you hold; Scalable will not watchlist it. It is in Positions."@;
    let other = " was declined by the broker"@;
    law_a_text_holds_what_stands_in_it(none, isin, held);
    law_a_text_holds_what_stands_in_it(none, isin, other);
    assert(none + isin =~= isin);
    reveal_strlit(" is a position you hold; Scalable will not watchlist it. It is in Positions.");
    reveal_strlit(" was declined by the broker");
    assert((isin + held).len() != (isin + other).len());
    let start = isin + ": backing off "@;
    let wait = text::decimal(worker::backoff(level as nat) as int);
    let rest = "s (attempt "@ + text::decimal(worker::next_level(level) as int) + ")"@;
    law_a_text_holds_what_stands_in_it(start, wait, rest);
    assert(start + wait + rest =~= worker::limit_line(level, isin).detail);
}

/// No timeframe is offered twice.
pub proof fn law_timeframes_are_offered_once(i: int, j: int)
    requires
        0 <= i < j < worker::timeframe_names().len(),
    ensures
        worker::timeframe_names()[i] != worker::timeframe_names()[j],
        worker::timeframe_names().len() == 8,
{
    reveal_strlit("1d");
    reveal_strlit("7d");
    reveal_strlit("1m");
    reveal_strlit("3m");
    reveal_strlit("6m");
    reveal_strlit("ytd");
    reveal_strlit("1y");
    reveal_strlit("max");
    assert("1d"@[0] == '1' && "1d"@[1] == 'd');
    assert("7d"@[0] == '7' && "7d"@[1] == 'd');
    assert("1m"@[0] == '1' && "1m"@[1] == 'm');
    assert("3m"@[0] == '3' && "3m"@[1] == 'm');
    assert("6m"@[0] == '6' && "6m"@[1] == 'm');
    assert("1y"@[0] == '1' && "1y"@[1] == 'y');
    assert("ytd"@[0] == 'y' && "max"@[0] == 'm');
}

} // verus!
