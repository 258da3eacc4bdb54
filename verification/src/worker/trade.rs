//! Previewing, submitting and cancelling orders, and moving a trailing stop up.
//!
//! An order takes two calls. The first gives a confirmation id and the full
//! disclosure of costs and places nothing; the second repeats the order with the
//! id, once the disclosure has been shown and accepted.

use crate::model::{preview, trail};
use crate::model::{Holding, OrderType, PendingOrder, Side, TradePreview, Trail};
use crate::num::{self, Num};
use crate::sc::{self, result, str_at, Call, ScErrorKind};
use crate::text::{self, same_text};
use crate::worker::intent::{self, ArgView};
use crate::worker::{self, linked, Shared, TradeIntent};
use vstd::prelude::*;
use vstd::string::*;

verus! {

/// What is said of a preview without a confirmation id.
pub open spec fn no_confirmation(call: Call) -> Seq<char> {
    "phase-1 returned no confirmation id.\n"@ + (sc::BIN@ + " "@ + text::joined(
        text::texts(call.argv@),
        " "@,
    )) + "\n"@ + text::first_chars(call.raw@, 600)
}

/// The state in which a preview is asked for.
pub open spec fn previewing(a: Shared) -> Shared {
    Shared {
        preview_pending: true,
        preview: None,
        preview_error: None,
        order_result: None,
        order_error: None,
        ..a
    }
}

/// Whether the answer to a preview has been taken in.
pub open spec fn took_preview(a: Shared, b: Shared, call: Call) -> bool {
    let ms = call.elapsed_ms as int;
    match sc::outcome(call) {
        Ok(v) => match sc::words_at(v, "confirmation/id"@) {
            Some(id) => {
                &&& b.preview is Some
                &&& preview::is_preview(b.preview->0, id, v)
                &&& b.lines() == worker::logged(
                    a.lines(),
                    worker::line("trade.preview"@, ms, true, id),
                )
                &&& b == (Shared {
                    preview_pending: false,
                    preview: b.preview,
                    log: b.log,
                    ..a
                })
            },
            None => {
                &&& worker::said(b.preview_error) == Some(no_confirmation(call))
                &&& b.lines() == worker::logged(
                    a.lines(),
                    worker::line("trade.preview"@, ms, false, "no confirmation id"@),
                )
                &&& b == (Shared {
                    preview_pending: false,
                    preview_error: b.preview_error,
                    log: b.log,
                    ..a
                })
            },
        },
        Err(e) => {
            &&& worker::said(b.preview_error) == Some(sc::error_text(e))
            &&& b.session == if e.kind == ScErrorKind::Auth {
                None
            } else {
                a.session
            }
            &&& if e.kind == ScErrorKind::DeviceLocked {
                worker::said(b.session_error) == Some("Mac is locked, unlock it to resume"@)
            } else if e.kind == ScErrorKind::Auth {
                worker::said(b.session_error) == Some(
                    sc::error_text(e) + " — run `sc login`"@,
                )
            } else {
                b.session_error == a.session_error
            }
            &&& b.lines() == worker::logged(
                a.lines(),
                worker::line("trade.preview"@, ms, false, sc::error_text(e)),
            )
            &&& b == (Shared {
                preview_pending: false,
                preview_error: b.preview_error,
                session: b.session,
                session_error: b.session_error,
                log: b.log,
                ..a
            })
        },
    }
}

/// The state in which an order is submitted.
pub open spec fn submitting(a: Shared) -> Shared {
    Shared { order_pending: true, order_error: None, order_result: None, ..a }
}

/// The id under which an order was placed, as far as it is known.
pub open spec fn placed_as(v: crate::json::JsonView) -> Seq<char> {
    match sc::words_in(sc::picked(v, seq!["id"@, "order_id"@, "transaction_id"@])) {
        Some(id) => id,
        None => "(no id returned)"@,
    }
}

/// Whether the answer to an order has been taken in.
pub open spec fn took_submit(a: Shared, b: Shared, call: Call) -> bool {
    let ms = call.elapsed_ms as int;
    match sc::outcome(call) {
        Ok(v) => {
            let id = placed_as(sc::unwrapped(v));
            &&& worker::said(b.order_result) == Some("order submitted: "@ + id)
            &&& b.lines() == worker::logged(
                a.lines(),
                worker::line("trade.submit"@, ms, true, id),
            )
            &&& b == (Shared {
                order_pending: false,
                order_result: b.order_result,
                preview: None,
                log: b.log,
                ..a
            })
        },
        Err(e) => {
            &&& worker::said(b.order_error) == Some(sc::error_text(e))
            &&& b.lines() == worker::logged(
                a.lines(),
                worker::line("trade.submit"@, ms, false, sc::error_text(e)),
            )
            &&& b == (Shared {
                order_pending: false,
                order_error: b.order_error,
                log: b.log,
                ..a
            })
        },
    }
}

/// Whether the answer to a cancellation has been taken in.
pub open spec fn took_cancel(a: Shared, b: Shared, id: Seq<char>, call: Call) -> bool {
    &&& b.lines() == worker::logged(
        a.lines(),
        worker::call_line("trade.cancel"@, call, id),
    )
    &&& match sc::outcome(call) {
        Ok(_) => {
            &&& worker::said(b.order_result) == Some("cancelled "@ + id)
            &&& b == (Shared { order_result: b.order_result, log: b.log, ..a })
        },
        Err(e) => {
            &&& worker::said(b.order_error) == Some(sc::error_text(e))
            &&& b == (Shared { order_error: b.order_error, log: b.log, ..a })
        },
    }
}

impl Shared {
    /// Gets ready for a preview.
    pub fn want_preview(&mut self)
        ensures
            *final(self) == previewing(*old(self)),
    {
        self.preview_pending = true;
        self.preview = None;
        self.preview_error = None;
        self.order_result = None;
        self.order_error = None;
    }

    /// Takes in the answer to a preview.
    pub fn do_preview(&mut self, call: &Call)
        ensures
            took_preview(*old(self), *final(self), *call),
    {
        self.preview_pending = false;
        match &call.data {
            Ok(v) => match TradePreview::from_json(v) {
                Some(p) => {
                    let id = p.confirmation_id.clone();
                    self.push_log("trade.preview", call.elapsed_ms as u128, true, id);
                    self.preview = Some(p);
                },
                None => {
                    let ran = call.cmdline();
                    let start = call.raw_head(600);
                    let mut told = linked(
                        "phase-1 returned no confirmation id.\n",
                        ran.as_str(),
                        "\n",
                    );
                    told.append(start.as_str());
                    assert(told@ =~= no_confirmation(*call));
                    self.preview_error = Some(told);
                    self.push_log(
                        "trade.preview",
                        call.elapsed_ms as u128,
                        false,
                        "no confirmation id".to_owned(),
                    );
                },
            },
            Err(e) => {
                let shown = e.text();
                if e.kind == ScErrorKind::DeviceLocked {
                    self.session_error = Some("Mac is locked, unlock it to resume".to_owned());
                } else if e.kind == ScErrorKind::Auth {
                    self.session = None;
                    let mut told = shown.clone();
                    told.append(" — run `sc login`");
                    self.session_error = Some(told);
                }
                self.preview_error = Some(shown.clone());
                self.push_log("trade.preview", call.elapsed_ms as u128, false, shown);
            },
        }
    }

    /// Gets ready for an order.
    pub fn want_submit(&mut self)
        ensures
            *final(self) == submitting(*old(self)),
    {
        self.order_pending = true;
        self.order_error = None;
        self.order_result = None;
    }

    /// Takes in the answer to an order.
    pub fn do_submit(&mut self, call: &Call)
        ensures
            took_submit(*old(self), *final(self), *call),
    {
        self.order_pending = false;
        match &call.data {
            Ok(v) => {
                let paths: [&str; 3] = ["id", "order_id", "transaction_id"];
                proof {
                    assert(sc::path_texts(paths@) =~= seq![
                        "id"@,
                        "order_id"@,
                        "transaction_id"@,
                    ]);
                }
                let id = match str_at(result(v), paths.as_slice()) {
                    Some(id) => id,
                    None => "(no id returned)".to_owned(),
                };
                let mut told = "order submitted: ".to_owned();
                told.append(id.as_str());
                self.order_result = Some(told);
                self.preview = None;
                self.push_log("trade.submit", call.elapsed_ms as u128, true, id);
            },
            Err(e) => {
                let shown = e.text();
                self.order_error = Some(shown.clone());
                self.push_log("trade.submit", call.elapsed_ms as u128, false, shown);
            },
        }
    }

    /// Takes in the answer to a cancellation.
    pub fn order_cancelled(&mut self, id: &str, call: &Call)
        ensures
            took_cancel(*old(self), *final(self), id@, *call),
    {
        match &call.data {
            Ok(_) => {
                let mut told = "cancelled ".to_owned();
                told.append(id);
                self.order_result = Some(told);
            },
            Err(e) => {
                self.order_error = Some(e.text());
            },
        }
        self.log_call("trade.cancel", call, id);
    }
}

/// What moving a trailing stop up begins with.
#[derive(Debug)]
pub enum Ratchet {
    /// Nothing is to be moved.
    Idle,
    /// The resting stop is to be cancelled, since its shares are committed to it.
    Cancel { id: String, shares: Num, stop: Num },
    /// No stop rests, so one can be placed right away.
    Place { shares: Num, stop: Num },
}

/// The first trail on an instrument.
pub open spec fn trail_on(trails: Seq<Trail>, isin: Seq<char>) -> Option<Trail>
    decreases trails.len(),
{
    if trails.len() == 0 {
        None
    } else if trails[0].isin@ == isin {
        Some(trails[0])
    } else {
        trail_on(trails.drop_first(), isin)
    }
}

/// The shares of an instrument that are held, by the first holding in it.
pub open spec fn shares_held(hs: Seq<Holding>, isin: Seq<char>) -> Option<Num>
    decreases hs.len(),
{
    if hs.len() == 0 {
        None
    } else if hs[0].isin@ == isin {
        Some(hs[0].quantity)
    } else {
        shares_held(hs.drop_first(), isin)
    }
}

/// The shares that a stop is to protect: those of the stop that rests, or else
/// those that are held.
pub open spec fn shares_to_protect(a: Shared, isin: Seq<char>) -> Num {
    let resting = worker::stop_among(a.orders@, isin);
    if resting is Some && resting->0.quantity is Some {
        resting->0.quantity->0
    } else {
        match shares_held(a.holdings@, isin) {
            Some(q) => q,
            None => num::zero(),
        }
    }
}

/// Where the trail on an instrument wants its stop.
pub open spec fn stop_wanted(a: Shared, isin: Seq<char>) -> Option<Num> {
    match trail_on(a.trails@, isin) {
        Some(t) => t.stop(),
        None => None,
    }
}

/// The price of the stop that rests, if one does.
pub open spec fn resting_price(a: Shared, isin: Seq<char>) -> Option<Num> {
    match worker::stop_among(a.orders@, isin) {
        Some(o) => o.stop_price,
        None => None,
    }
}

/// Whether the trail on an instrument calls for a stop to be placed, or for the
/// one that rests to be replaced.
pub open spec fn is_due(a: Shared, isin: Seq<char>) -> bool {
    match trail_on(a.trails@, isin) {
        Some(t) => t.moves(resting_price(a, isin)),
        None => false,
    }
}

/// Whether a plan is the one that a state calls for.
pub open spec fn planned(a: Shared, b: Shared, isin: Seq<char>, r: Ratchet) -> bool {
    let shares = shares_to_protect(a, isin);
    if !is_due(a, isin) {
        r is Idle && b == a
    } else if num::at_most(shares, num::zero()) {
        &&& r is Idle
        &&& worker::said(b.trail_error) == Some(isin + ": no shares to protect"@)
        &&& b == (Shared { trail_error: b.trail_error, ..a })
    } else {
        &&& b == a
        &&& match worker::stop_among(a.orders@, isin) {
            Some(o) => r matches Ratchet::Cancel { id, shares: n, stop } && id@ == o.id@ && n
                == shares && stop_wanted(a, isin) == Some(stop),
            None => r matches Ratchet::Place { shares: n, stop } && n == shares && stop_wanted(
                a,
                isin,
            ) == Some(stop),
        }
    }
}

/// Whether the answer to cancelling a stop has been taken in.
pub open spec fn took_stop_cancel(
    a: Shared,
    b: Shared,
    isin: Seq<char>,
    id: Seq<char>,
    call: Call,
    go_on: bool,
) -> bool {
    let ms = call.elapsed_ms as int;
    match sc::outcome(call) {
        Ok(_) => {
            &&& go_on
            &&& worker::said(b.trail_gap) == Some(isin)
            &&& b.lines() == worker::logged(
                a.lines(),
                worker::line("trail.cancel"@, ms, true, isin + " "@ + id),
            )
            &&& b == (Shared { trail_gap: b.trail_gap, log: b.log, ..a })
        },
        Err(e) => {
            &&& !go_on
            &&& worker::said(b.trail_error) == Some(
                "could not cancel the resting stop: "@ + sc::error_text(e),
            )
            &&& b.lines() == worker::logged(
                a.lines(),
                worker::line("trail.cancel"@, ms, false, sc::error_text(e)),
            )
            &&& b == (Shared { trail_error: b.trail_error, log: b.log, ..a })
        },
    }
}

/// What is said when the replacement of a stop cannot be previewed.
pub open spec fn unprotected(isin: Seq<char>) -> Seq<char> {
    "the stop was cancelled but the replacement preview failed. "@ + isin
        + " is UNPROTECTED.              Place a stop manually or retry."@
}

/// Whether an order is the stop that replaces another.
pub open spec fn is_replacement(t: TradeIntent, isin: Seq<char>, shares: Num, stop: Num) -> bool {
    &&& t.isin@ == isin
    &&& t.side == Side::Sell
    &&& t.order_type == OrderType::Stop
    &&& t.amount is None
    &&& t.shares == Some(shares)
    &&& t.limit_price is None
    &&& t.stop_price == Some(stop)
    &&& t.venue is None
}

/// The stop that replaces another.
pub fn replacement(isin: &str, shares: Num, stop: Num) -> (r: TradeIntent)
    ensures
        is_replacement(r, isin@, shares, stop),
{
    TradeIntent {
        isin: isin.to_owned(),
        side: Side::Sell,
        order_type: OrderType::Stop,
        amount: None,
        shares: Some(shares),
        limit_price: None,
        stop_price: Some(stop),
        venue: None,
    }
}

impl Shared {
    /// The first trail on an instrument.
    pub fn trail_for(&self, isin: &str) -> (r: Option<&Trail>)
        ensures
            (match r {
                Some(t) => trail_on(self.trails@, isin@) == Some(*t),
                None => trail_on(self.trails@, isin@) is None,
            }),
    {
        let ghost all = self.trails@;
        assert(all.skip(0) =~= all);
        for i in 0..self.trails.len()
            invariant
                all == self.trails@,
                trail_on(all, isin@) == trail_on(all.skip(i as int), isin@),
        {
            assert(all.skip(i as int)[0] == all[i as int]);
            assert(all.skip(i as int).drop_first() =~= all.skip(i + 1));
            if same_text(self.trails[i].isin.as_str(), isin) {
                return Some(&self.trails[i]);
            }
        }
        assert(all.skip(all.len() as int).len() == 0);
        None
    }

    fn shares_in(&self, isin: &str) -> (r: Option<Num>)
        ensures
            r == shares_held(self.holdings@, isin@),
    {
        let ghost all = self.holdings@;
        assert(all.skip(0) =~= all);
        for i in 0..self.holdings.len()
            invariant
                all == self.holdings@,
                shares_held(all, isin@) == shares_held(all.skip(i as int), isin@),
        {
            assert(all.skip(i as int)[0] == all[i as int]);
            assert(all.skip(i as int).drop_first() =~= all.skip(i + 1));
            if same_text(self.holdings[i].isin.as_str(), isin) {
                return Some(self.holdings[i].quantity);
            }
        }
        assert(all.skip(all.len() as int).len() == 0);
        None
    }

    /// Plans how a trailing stop is moved up. A stop that rests where the trail
    /// wants it, too little below that or above it, is left alone. Its shares are
    /// committed to the stop that rests, so that one has to be cancelled before
    /// another can even be previewed; from then until the new one is confirmed the
    /// position is unprotected. The plan ends with a preview: placing the order is
    /// left to the user.
    pub fn ratchet_trail(&mut self, isin: &str) -> (r: Ratchet)
        ensures
            planned(*old(self), *final(self), isin@, r),
    {
        let resting = self.resting_stop(isin);
        let current: Option<Num> = match &resting {
            Some(o) => o.stop_price,
            None => None,
        };
        let stop: Num = match self.trail_for(isin) {
            Some(t) => {
                if !t.should_move(current) {
                    return Ratchet::Idle;
                }
                match t.suggested_stop() {
                    Some(s) => s,
                    None => {
                        return Ratchet::Idle;
                    },
                }
            },
            None => {
                return Ratchet::Idle;
            },
        };
        let committed: Option<Num> = match &resting {
            Some(o) => o.quantity,
            None => None,
        };
        let shares: Num = match committed {
            Some(q) => q,
            None => match self.shares_in(isin) {
                Some(q) => q,
                None => Num::zero(),
            },
        };
        if shares.le(Num::zero()) {
            let mut told = isin.to_owned();
            told.append(": no shares to protect");
            self.trail_error = Some(told);
            return Ratchet::Idle;
        }
        match resting {
            Some(o) => Ratchet::Cancel { id: o.id, shares, stop },
            None => Ratchet::Place { shares, stop },
        }
    }

    /// Takes in the answer to cancelling a stop, and says whether to go on.
    pub fn stop_cancelled(&mut self, isin: &str, id: &str, call: &Call) -> (go_on: bool)
        ensures
            took_stop_cancel(*old(self), *final(self), isin@, id@, *call, go_on),
    {
        match &call.data {
            Ok(_) => {
                self.trail_gap = Some(isin.to_owned());
                let detail = linked(isin, " ", id);
                self.push_log("trail.cancel", call.elapsed_ms as u128, true, detail);
                true
            },
            Err(e) => {
                // The stop still rests, so the position stays protected.
                let shown = e.text();
                let mut told = "could not cancel the resting stop: ".to_owned();
                told.append(shown.as_str());
                self.trail_error = Some(told);
                self.push_log("trail.cancel", call.elapsed_ms as u128, false, shown);
                false
            },
        }
    }

    /// Says so when the replacement of a stop could not be previewed.
    pub fn replacement_previewed(&mut self, isin: &str)
        ensures
            worker::said(final(self).trail_error) == if old(self).preview is None {
                Some(unprotected(isin@))
            } else {
                worker::said(old(self).trail_error)
            },
            *final(self) == (Shared { trail_error: final(self).trail_error, ..*old(self) }),
            old(self).preview is Some ==> *final(self) == *old(self),
    {
        if self.preview.is_none() {
            let mut told = "the stop was cancelled but the replacement preview failed. ".to_owned();
            told.append(isin);
            told.append(" is UNPROTECTED.              Place a stop manually or retry.");
            assert(told@ =~= unprotected(isin@));
            self.trail_error = Some(told);
        }
    }
}

/// A stop that could not be cancelled opens no gap.
pub proof fn law_a_failed_cancel_opens_no_gap(
    a: Shared,
    b: Shared,
    isin: Seq<char>,
    id: Seq<char>,
    call: Call,
    go_on: bool,
)
    requires
        took_stop_cancel(a, b, isin, id, call, go_on),
        sc::outcome(call) is Err,
    ensures
        !go_on,
        b.trail_gap == a.trail_gap,
        b.orders == a.orders,
{
}

/// Moving a stop up only previews: what is run carries no confirmation.
pub proof fn law_moving_a_stop_places_nothing(
    t: TradeIntent,
    isin: Seq<char>,
    shares: Num,
    stop: Num,
)
    requires
        is_replacement(t, isin, shares, stop),
        isin != "--confirm"@,
    ensures
        !intent::order_args(t, None, false).contains(ArgView::Word("--confirm"@)),
{
    intent::law_a_preview_confirms_nothing(t);
}

/// The stop that is planned is the one that the trail suggests.
pub proof fn law_the_planned_stop_is_the_suggested_one(
    a: Shared,
    b: Shared,
    isin: Seq<char>,
    r: Ratchet,
)
    requires
        planned(a, b, isin, r),
    ensures
        r matches Ratchet::Cancel { stop, .. } ==> stop_wanted(a, isin) == Some(stop),
        r matches Ratchet::Place { stop, .. } ==> stop_wanted(a, isin) == Some(stop),
{
}

proof fn lemma_stop_has_a_price(orders: Seq<PendingOrder>, isin: Seq<char>)
    ensures
        worker::stop_among(orders, isin) is Some ==> worker::stop_among(orders, isin)->0.stop_price
            is Some,
    decreases orders.len(),
{
    if orders.len() > 0 {
        lemma_stop_has_a_price(orders.drop_first(), isin);
    }
}

/// A resting stop is only ever replaced by one higher up. Where the trail wants
/// no higher one it is left alone, and so is the rest of the state.
pub proof fn law_a_resting_stop_only_moves_up(a: Shared, b: Shared, isin: Seq<char>, r: Ratchet)
    requires
        planned(a, b, isin, r),
    ensures
        r matches Ratchet::Cancel { stop, .. } ==> resting_price(a, isin) is Some && num::less(
            resting_price(a, isin)->0,
            stop,
        ),
        resting_price(a, isin) matches Some(p) ==> (stop_wanted(a, isin) matches Some(s)
            ==> num::at_most(s, p) ==> r is Idle && b == a),
        r is Place ==> resting_price(a, isin) is None,
{
    lemma_stop_has_a_price(a.orders@, isin);
    if is_due(a, isin) && resting_price(a, isin) is Some {
        trail::law_stop_never_moves_down(
            trail_on(a.trails@, isin)->0,
            resting_price(a, isin)->0,
        );
    }
}

} // verus!
