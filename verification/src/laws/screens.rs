//! What is shown and chosen on the screen.

use crate::json::{self, JsonView};
use crate::model::{Holding, Quote};
use crate::model::chart;
use crate::sc::{self, Call, ScErrorKind};
use crate::screen::{self, Tone};
use crate::screen::rows;
use crate::shortcuts::{self, Act, Key};
use crate::text;
use crate::worker::{self, Shared};
use crate::worker::chart as charts;
use crate::workspace::{self, ListId, Workspace};
use vstd::prelude::*;

verus! {

/// Of several paths, the first counts that leads to something.
pub proof fn law_the_first_path_that_leads_counts(v: JsonView, paths: Seq<Seq<char>>, i: int)
    requires
        0 <= i < paths.len(),
        forall|j: int| 0 <= j < i ==> sc::value_at(v, #[trigger] paths[j]) is None,
    ensures
        sc::value_at(v, paths[i]) is Some ==> sc::picked(v, paths) == sc::value_at(v, paths[i]),
        i == paths.len() - 1 && sc::value_at(v, paths[i]) is None ==> sc::picked(v, paths) is None,
    decreases paths.len(),
{
    reveal_with_fuel(sc::picked, 2);
    let rest = paths.drop_first();
    if i > 0 {
        assert(sc::value_at(v, paths[0]) is None);
        assert forall|j: int| 0 <= j < i - 1 implies sc::value_at(v, #[trigger] rest[j]) is None by {
            assert(rest[j] == paths[j + 1]);
        }
        assert(rest[i - 1] == paths[i]);
        law_the_first_path_that_leads_counts(v, rest, i - 1);
    } else if paths.len() == 1 {
        assert(rest.len() == 0);
    }
}

/// The list that is shown is the one that is active: the broker's, with every position
/// on it, or the positions, or a list of the user's own.
pub proof fn law_the_active_list_is_shown(
    w: Workspace,
    broker: Seq<Seq<char>>,
    held: Seq<Seq<char>>,
)
    ensures
        w.active is Broker ==> {
            &&& broker.is_prefix_of(w.shown(broker, held))
            &&& forall|e: Seq<char>| #[trigger]
                w.shown(broker, held).contains(e) <==> broker.contains(e) || held.contains(e)
        },
        w.active is Positions ==> w.shown(broker, held) == held,
        w.active matches ListId::Local(i) ==> {
            &&& i < w.lists@.len() ==> w.shown(broker, held) == text::texts(
                w.lists@[i as int].isins@,
            )
            &&& i >= w.lists@.len() ==> w.shown(broker, held).len() == 0
        },
{
    workspace::law_adding_covers_everything(broker, held);
}

/// After a list is deleted, the one that was shown is still shown, and the broker's
/// where it was the one deleted.
pub proof fn law_deleting_shows_what_is_left(active: ListId, index: int, n: int)
    requires
        0 <= index < n <= usize::MAX,
        active matches ListId::Local(i) ==> i < n,
    ensures
        ({
            let now = workspace::repaired(workspace::after_delete(active, index), n - 1);
            &&& active is Broker ==> now is Broker
            &&& active is Positions ==> now is Positions
            &&& active matches ListId::Local(i) ==> {
                &&& i < index ==> now == active
                &&& i == index ==> now is Broker
                &&& i > index ==> now == ListId::Local((i - 1) as usize)
            }
        }),
{
}

/// The price of a position is the mid of its live quote, and what the position itself
/// says where there is none.
pub proof fn law_a_live_quote_prices_a_position(s: Shared, h: Holding)
    ensures
        s.quotes@.dom().contains(h.isin@) && s.quotes@[h.isin@].mid is Some
            ==> screen::mark_of(s, h)
            == s.quotes@[h.isin@].mid,
        !s.quotes@.dom().contains(h.isin@) || s.quotes@[h.isin@].mid is None ==> screen::mark_of(
            s,
            h,
        ) == h.mid,
{
}

/// What is selected at the start is the first position, or the first on the watchlist
/// where there is none.
pub proof fn law_the_first_position_is_selected(s: Shared)
    ensures
        s.holdings@.len() > 0 ==> screen::first_instrument(s) == Some(s.holdings@[0].isin@),
        s.holdings@.len() == 0 && s.watchlist@.len() > 0 ==> screen::first_instrument(s) == Some(
            s.watchlist@[0]@,
        ),
        s.holdings@.len() == 0 && s.watchlist@.len() == 0 ==> screen::first_instrument(s) is None,
{
}

/// A session is shown by its name, which is hidden on request; without one, the trouble
/// is, and until there is any, that it is being set up.
pub proof fn law_a_session_is_shown_or_its_trouble(s: Shared, redact: bool)
    ensures
        s.session is Some ==> screen::session_line(s, redact).0 == Tone::Good,
        s.session is Some && redact ==> screen::session_line(s, redact).1 == "Account holder"@,
        s.session is Some && !redact ==> screen::session_line(s, redact).1 == s.session->0@,
        s.session is None && s.session_error is Some ==> screen::session_line(s, redact) == (
            Tone::Bad,
            s.session_error->0@,
        ),
        s.session is None && s.session_error is None ==> screen::session_line(s, redact).0
            == Tone::Warn,
        redact ==> forall|other: Shared|
            s.session is Some && other.session is Some ==> #[trigger] screen::session_line(
                other,
                redact,
            ) == screen::session_line(s, redact),
{
}

/// A row shows the quote of its instrument, under the name that the quote gives or the
/// one that was learned elsewhere.
pub proof fn law_a_row_shows_its_quote(row: Quote, s: Shared, isin: Seq<char>)
    requires
        rows::is_row(row, s, isin),
    ensures
        s.quotes@.dom().contains(isin) ==> {
            let q = s.quotes@[isin];
            &&& row.bid == q.bid && row.ask == q.ask && row.mid == q.mid
            &&& row.change_pct == q.change_pct && row.prev_close == q.prev_close
            &&& row.perf == q.perf && row.outdated == q.outdated
            &&& q.name@.len() > 0 ==> row.name@ == q.name@
            &&& q.name@.len() == 0 && worker::names_in(s.names).dom().contains(isin) ==> row.name@
                == worker::names_in(s.names)[isin]
        },
        !s.quotes@.dom().contains(isin) ==> {
            &&& row.isin@ == isin
            &&& row.bid is None && row.ask is None && row.mid is None && row.change_pct is None
            &&& worker::names_in(s.names).dom().contains(isin) ==> row.name@ == worker::names_in(
                s.names,
            )[isin]
        },
{
}

/// A chart that was asked for is shown as the answer gives it, kept for its instrument
/// and timeframe, and no longer loading.
pub proof fn law_a_chart_is_shown_and_kept(
    a: Shared,
    b: Shared,
    isin: Seq<char>,
    timeframe: Seq<char>,
    call: Call,
    now: u64,
)
    requires
        charts::took_chart(a, b, isin, timeframe, call, now),
    ensures
        !b.chart_loading,
        sc::outcome(call) matches Ok(v) ==> {
            &&& chart::is_chart(b.chart, sc::unwrapped(v))
            &&& b.chart_error is None
            &&& b.chart_raw.view() == v
            &&& b.chart_cache@.dom().contains((isin, timeframe))
            &&& chart::alike(b.chart_cache@[(isin, timeframe)], b.chart)
            &&& b.deferred_chart == a.deferred_chart
        },
        sc::outcome(call) matches Err(e) ==> {
            &&& b.chart.points@.len() == 0 && b.chart.isin@ == isin
                && b.chart.timeframe@ == timeframe
            &&& b.chart_error is Some
            &&& b.chart_cache == a.chart_cache
            &&& e.kind == ScErrorKind::RateLimited ==> b.deferred_chart is Some && (
            b.deferred_chart->0).0@ == isin && (b.deferred_chart->0).1@ == timeframe
                && b.backoff_until == Some(
                worker::after(now, worker::backoff(a.backoff_level as nat) as int),
            )
            &&& e.kind != ScErrorKind::RateLimited ==> b.deferred_chart == a.deferred_chart
                && b.chart_error->0@ == sc::error_text(e) && b.backoff_until == a.backoff_until
        },
        b.holdings == a.holdings,
        b.quotes == a.quotes,
{
}

/// A page of derivatives that was asked for is the one that the answer gives, under the
/// underlying that was asked for where the answer names none; a failure leaves the page
/// as it was.
pub proof fn law_a_page_is_shown_and_kept(
    a: Shared,
    b: Shared,
    key: (Seq<char>, Seq<char>, Seq<char>),
    call: Call,
    now: u64,
)
    requires
        charts::took_page(a, b, key, call, now),
    ensures
        !b.derivatives_loading,
        sc::outcome(call) is Ok ==> b.derivatives_cache@.dom().contains(key)
            && crate::model::derivative::alike(b.derivatives_cache@[key], b.derivatives)
            && b.derivatives_error == a.derivatives_error,
        sc::outcome(call) is Ok ==> b.derivatives.underlying@.len() > 0 || key.0.len() == 0,
        sc::outcome(call) is Err ==> b.derivatives == a.derivatives && b.derivatives_cache
            == a.derivatives_cache && b.derivatives_error is Some,
        b.chart == a.chart,
        b.holdings == a.holdings,
{
}

/// What a search finds is what its answer lists, in order.
pub proof fn law_a_search_finds_what_is_listed(
    a: Shared,
    b: Shared,
    q: Seq<char>,
    call: Call,
    i: int,
)
    requires
        charts::took_search(a, b, q, call),
        sc::outcome(call) is Ok,
        0 <= i < sc::list_at(sc::unwrapped(sc::outcome(call)->Ok_0), "items"@).len(),
    ensures
        b.search_results@.len() == sc::list_at(
            sc::unwrapped(sc::outcome(call)->Ok_0),
            "items"@,
        ).len(),
        b.search_results@[i].view() == sc::list_at(
            sc::unwrapped(sc::outcome(call)->Ok_0),
            "items"@,
        )[i],
        b.watchlist == a.watchlist,
        b.quotes == a.quotes,
{
    let items = sc::list_at(sc::unwrapped(sc::outcome(call)->Ok_0), "items"@);
    let seen = json::views(b.search_results@);
    assert(seen.len() == items.len());
    assert(seen[i] == b.search_results@[i].view());
}

/// The letter or the word that a key is written with.
pub open spec fn key_name(k: Key) -> Seq<char> {
    match k {
        Key::Num1 => "1"@,
        Key::Num2 => "2"@,
        Key::Num3 => "3"@,
        Key::Num4 => "4"@,
        Key::Num5 => "5"@,
        Key::ArrowUp => "Up"@,
        Key::ArrowDown => "Down"@,
        Key::Slash => "/"@,
        Key::A => "A"@,
        Key::Questionmark => "?"@,
        Key::R => "R"@,
        Key::Space => "Space"@,
        Key::OpenBracket => "["@,
        Key::CloseBracket => "]"@,
        Key::C => "C"@,
        Key::Z => "Z"@,
        Key::X => "X"@,
        Key::V => "V"@,
        Key::F => "F"@,
        Key::B => "B"@,
        Key::S => "S"@,
        Key::M => "M"@,
        Key::L => "L"@,
        Key::T => "T"@,
        Key::Q => "Q"@,
        Key::P => "P"@,
        Key::Enter => "Enter"@,
        Key::Backspace => "Backspace"@,
    }
}

/// The help window writes a chord as its key, behind the modifiers that it takes. A
/// question mark takes shift by itself.
pub proof fn law_a_chord_is_written_as_it_is_pressed(a: Act)
    ensures
        ({
            let (key, mods) = shortcuts::chord(a);
            let shown = shortcuts::caption(a).0;
            &&& !mods.alt && !mods.ctrl && !mods.mac_cmd
            &&& mods.command ==> shown == "Cmd "@ + key_name(key)
            &&& mods.shift && key != Key::Questionmark ==> shown == "Shift "@ + key_name(key)
            &&& key == Key::Questionmark ==> mods.shift && shown == key_name(key)
            &&& !mods.command && !mods.shift ==> shown == key_name(key)
        }),
{
    reveal_strlit("Cmd ");
    reveal_strlit("Backspace");
    reveal_strlit("Cmd Backspace");
    reveal_strlit("Shift ");
    reveal_strlit("Shift R");
    reveal_strlit("Shift T");
    reveal_strlit("R");
    reveal_strlit("T");
    assert("Cmd "@ + "Backspace"@ =~= "Cmd Backspace"@);
    assert("Shift "@ + "R"@ =~= "Shift R"@);
    assert("Shift "@ + "T"@ =~= "Shift T"@);
}

} // verus!
