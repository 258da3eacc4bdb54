//! What the screen shows, as far as it is decided and not drawn.

pub mod picks;
pub mod rows;

use crate::model::calendar::{self, civil_from_days};
use crate::model::{chart, preview};
use crate::model::{Candle, Chart, Holding, OrderType, PendingOrder, Side, TradePreview};
use crate::num::{self, Num};
use crate::text::{self, push_four_digits, push_two_digits, same_text, to_uppercase, trim};
use crate::worker::{quotes, trade};
use crate::worker::{Cmd, Shared, TradeIntent};
use vstd::prelude::*;
use vstd::string::*;

verus! {

#[derive(Clone, Copy, PartialEq, Eq, Debug, Structural)]
pub enum Tab {
    Portfolio,
    Chart,
    Derivatives,
    Log,
    Raw,
}

/// The view of a name. A name that is not known is that of the portfolio.
pub open spec fn tab_of(name: Seq<char>) -> Tab {
    if name == "chart"@ {
        Tab::Chart
    } else if name == "derivatives"@ {
        Tab::Derivatives
    } else if name == "log"@ {
        Tab::Log
    } else if name == "raw"@ {
        Tab::Raw
    } else {
        Tab::Portfolio
    }
}

pub fn tab_named(name: &str) -> (r: Tab)
    ensures
        r == tab_of(name@),
{
    if same_text(name, "chart") {
        Tab::Chart
    } else if same_text(name, "derivatives") {
        Tab::Derivatives
    } else if same_text(name, "log") {
        Tab::Log
    } else if same_text(name, "raw") {
        Tab::Raw
    } else {
        Tab::Portfolio
    }
}

/// A timeframe as traders write it.
pub open spec fn short_name(tf: Seq<char>) -> Seq<char> {
    if tf == "INTRADAY"@ {
        "1D"@
    } else if tf == "TWO_DAYS"@ {
        "2D"@
    } else if tf == "ONE_WEEK"@ {
        "1W"@
    } else if tf == "ONE_MONTH"@ {
        "1M"@
    } else if tf == "THREE_MONTHS"@ {
        "3M"@
    } else if tf == "SIX_MONTHS"@ {
        "6M"@
    } else if tf == "ONE_YEAR"@ {
        "1Y"@
    } else {
        tf
    }
}

pub fn short_timeframe(tf: &str) -> (r: &str)
    ensures
        r@ == short_name(tf@),
{
    if same_text(tf, "INTRADAY") {
        "1D"
    } else if same_text(tf, "TWO_DAYS") {
        "2D"
    } else if same_text(tf, "ONE_WEEK") {
        "1W"
    } else if same_text(tf, "ONE_MONTH") {
        "1M"
    } else if same_text(tf, "THREE_MONTHS") {
        "3M"
    } else if same_text(tf, "SIX_MONTHS") {
        "6M"
    } else if same_text(tf, "ONE_YEAR") {
        "1Y"
    } else {
        tf
    }
}

/// How something is coloured.
#[derive(Clone, Copy, PartialEq, Eq, Debug, Structural)]
pub enum Tone {
    Good,
    Warn,
    Bad,
    Dim,
}

/// A gain is good, a loss bad, and anything else neither.
pub open spec fn tone_of_sign(v: Option<Num>) -> Tone {
    match v {
        Some(x) => if num::less(num::zero(), x) {
            Tone::Good
        } else if num::less(x, num::zero()) {
            Tone::Bad
        } else {
            Tone::Dim
        },
        None => Tone::Dim,
    }
}

pub fn sign_tone(v: Option<Num>) -> (r: Tone)
    ensures
        r == tone_of_sign(v),
{
    match v {
        Some(x) => if Num::zero().lt(x) {
            Tone::Good
        } else if x.lt(Num::zero()) {
            Tone::Bad
        } else {
            Tone::Dim
        },
        None => Tone::Dim,
    }
}

/// A spread of more than thirty basis points is wide, one of more than a hundred
/// too wide.
pub open spec fn tone_of_spread(bps: Option<Num>) -> Tone {
    match bps {
        Some(b) => if num::less(num::whole(100), b) {
            Tone::Bad
        } else if num::less(num::whole(30), b) {
            Tone::Warn
        } else {
            Tone::Good
        },
        None => Tone::Dim,
    }
}

pub fn spread_tone(bps: Option<Num>) -> (r: Tone)
    ensures
        r == tone_of_spread(bps),
{
    match bps {
        Some(b) => if Num::from_i64(100).lt(b) {
            Tone::Bad
        } else if Num::from_i64(30).lt(b) {
            Tone::Warn
        } else {
            Tone::Good
        },
        None => Tone::Dim,
    }
}

/// The distance to the barrier is what a knockout survives: of five percent it is
/// thin, and of fifteen it is narrow.
pub open spec fn tone_of_margin(distance: Option<Num>) -> Tone {
    match distance {
        Some(d) => if num::less(num::ratio(15, 100), d) {
            Tone::Good
        } else if num::less(num::ratio(5, 100), d) {
            Tone::Warn
        } else {
            Tone::Bad
        },
        None => Tone::Dim,
    }
}

/// How the distance to a knockout barrier, as a fraction, is coloured.
pub fn margin_tone(distance: Option<Num>) -> (r: Tone)
    ensures
        r == tone_of_margin(distance),
{
    match distance {
        Some(d) => if Num::ratio(15, 100).lt(d) {
            Tone::Good
        } else if Num::ratio(5, 100).lt(d) {
            Tone::Warn
        } else {
            Tone::Bad
        },
        None => Tone::Dim,
    }
}

/// How the state of a health check is coloured.
pub fn health_tone(state: &str) -> (r: Tone)
    ensures
        r == if state@ == "HIGH"@ {
            Tone::Good
        } else if state@ == "MID"@ {
            Tone::Warn
        } else {
            Tone::Bad
        },
{
    if same_text(state, "HIGH") {
        Tone::Good
    } else if same_text(state, "MID") {
        Tone::Warn
    } else {
        Tone::Bad
    }
}

/// The instrument to show when none was picked: the first position, or else the
/// first on the watchlist.
pub open spec fn first_instrument(s: Shared) -> Option<Seq<char>> {
    if s.holdings@.len() > 0 {
        Some(s.holdings@[0].isin@)
    } else if s.watchlist@.len() > 0 {
        Some(s.watchlist@[0]@)
    } else {
        None
    }
}

pub fn autoselect(s: &Shared) -> (r: Option<String>)
    ensures
        text::seen_text(r) == first_instrument(*s),
{
    if s.holdings.len() > 0 {
        Some(s.holdings[0].isin.clone())
    } else if s.watchlist.len() > 0 {
        Some(s.watchlist[0].clone())
    } else {
        None
    }
}

/// The instrument that was typed, where it is long enough to be one.
pub open spec fn typed_isin(typed: Seq<char>) -> Option<Seq<char>> {
    let isin = text::trimmed(typed);
    if vstd::utf8::encode_utf8(isin).len() >= 6 {
        Some(text::raised(isin))
    } else {
        None
    }
}

pub fn isin_to_add(typed: &str) -> (r: Option<String>)
    ensures
        text::seen_text(r) == typed_isin(typed@),
{
    let isin = trim(typed);
    if isin.as_bytes().len() >= 6 {
        Some(to_uppercase(isin))
    } else {
        None
    }
}

/// What was typed to be searched for, where it is not blank.
pub open spec fn typed_query(typed: Seq<char>) -> Option<Seq<char>> {
    if text::trimmed(typed).len() == 0 {
        None
    } else {
        Some(text::trimmed(typed))
    }
}

pub fn query_to_search(typed: &str) -> (r: Option<String>)
    ensures
        text::seen_text(r) == typed_query(typed@),
{
    let q = trim(typed);
    if q.is_empty() {
        None
    } else {
        Some(q.to_owned())
    }
}

/// The price that a position is marked at: the one that is polled, or else the
/// one that came with the holdings.
pub open spec fn mark_of(s: Shared, h: Holding) -> Option<Num> {
    match quotes::mid_in(s.quotes@, h.isin@) {
        Some(m) => Some(m),
        None => h.mid,
    }
}

pub fn live_mid(s: &Shared, h: &Holding) -> (r: Option<Num>)
    ensures
        r == mark_of(*s, *h),
{
    match s.mid_of(&h.isin) {
        Some(m) => Some(m),
        None => h.mid,
    }
}

/// The order ticket.
#[derive(Debug, Clone)]
pub struct Ticket {
    pub side: Side,
    pub order_type: OrderType,
    pub size_by_shares: bool,
    pub amount: Num,
    pub shares: Num,
    pub limit_price: Num,
    pub stop_price: Num,
    pub venue: String,
}

/// Whether an order is what a ticket says of an instrument. A sale is sized by
/// shares whatever the ticket says, and an order has just the prices that its
/// type has.
pub open spec fn is_meant(t: TradeIntent, ticket: Ticket, isin: Seq<char>) -> bool {
    let by_shares = ticket.size_by_shares || ticket.side == Side::Sell;
    let venue = text::trimmed(ticket.venue@);
    &&& t.isin@ == isin
    &&& t.side == ticket.side
    &&& t.order_type == ticket.order_type
    &&& t.amount == if by_shares {
        None
    } else {
        Some(ticket.amount)
    }
    &&& t.shares == if by_shares {
        Some(ticket.shares)
    } else {
        None
    }
    &&& t.limit_price == if ticket.order_type == OrderType::Limit {
        Some(ticket.limit_price)
    } else {
        None
    }
    &&& t.stop_price == if ticket.order_type == OrderType::Stop {
        Some(ticket.stop_price)
    } else {
        None
    }
    &&& text::seen_text(t.venue) == if venue.len() == 0 {
        None
    } else {
        Some(venue)
    }
}

impl Ticket {
    /// A limit order to buy for five hundred.
    pub fn new() -> (r: Ticket)
        ensures
            r.side == Side::Buy,
            r.order_type == OrderType::Limit,
            !r.size_by_shares,
            r.amount == num::whole(500),
            r.shares == num::whole(1),
            r.limit_price == num::zero(),
            r.stop_price == num::zero(),
            r.venue@.len() == 0,
    {
        Ticket {
            side: Side::Buy,
            order_type: OrderType::Limit,
            size_by_shares: false,
            amount: Num::from_i64(500),
            shares: Num::from_i64(1),
            limit_price: Num::zero(),
            stop_price: Num::zero(),
            venue: String::new(),
        }
    }

    pub fn intent(&self, isin: &str) -> (r: TradeIntent)
        ensures
            is_meant(r, *self, isin@),
            r.limit_price is Some <==> self.order_type == OrderType::Limit,
            r.limit_price is Some ==> r.limit_price->0 == self.limit_price,
            r.stop_price is Some <==> self.order_type == OrderType::Stop,
            r.stop_price is Some ==> r.stop_price->0 == self.stop_price,
            r.amount is Some <==> self.side == Side::Buy && !self.size_by_shares,
            r.amount is Some ==> r.amount->0 == self.amount,
            r.shares is Some <==> r.amount is None,
            r.shares is Some ==> r.shares->0 == self.shares,
    {
        let by_shares = self.size_by_shares || self.side == Side::Sell;
        let venue = trim(self.venue.as_str());
        TradeIntent {
            isin: isin.to_owned(),
            side: self.side,
            order_type: self.order_type,
            amount: if by_shares {
                None
            } else {
                Some(self.amount)
            },
            shares: if by_shares {
                Some(self.shares)
            } else {
                None
            },
            limit_price: if self.order_type == OrderType::Limit {
                Some(self.limit_price)
            } else {
                None
            },
            stop_price: if self.order_type == OrderType::Stop {
                Some(self.stop_price)
            } else {
                None
            },
            venue: if venue.is_empty() {
                None
            } else {
                Some(venue.to_owned())
            },
        }
    }
}

/// An order is sized in one way: by shares or by an amount, and a sale by shares.
pub proof fn law_an_order_is_sized_once(t: TradeIntent, ticket: Ticket, isin: Seq<char>)
    requires
        is_meant(t, ticket, isin),
    ensures
        t.shares is Some != t.amount is Some,
        t.side == Side::Sell ==> t.shares is Some,
        !(t.limit_price is Some && t.stop_price is Some),
{
}

/// Half of what is free, rounded down to four decimals.
pub open spec fn half(free: Num) -> Num {
    num::quotient(
        num::floored(
            num::product(num::quotient(free, num::whole(2)), num::whole(10_000)),
        ),
        num::whole(10_000),
    )
}

/// How a position can be sold.
#[derive(Debug, Clone, Copy)]
pub struct SellSizing {
    pub free: Num,
    /// What working orders have of it, or is blocked.
    pub committed: Num,
    /// Of that, what resting sales have.
    pub resting: Num,
    /// Whether there is anything to sell.
    pub any: bool,
    /// What half of it is.
    pub half: Num,
    /// Whether part of the position is not free.
    pub partly: bool,
    /// Whether working orders, or a block, have any of it.
    pub busy: bool,
}

/// How a position can be sold, given the working orders.
pub open spec fn sizing_of(h: Holding, working: Seq<PendingOrder>) -> SellSizing {
    let free = h.free(working);
    SellSizing {
        free,
        committed: num::difference(h.quantity, free),
        resting: num::larger(
            num::difference(num::difference(h.quantity, h.blocked), free),
            num::zero(),
        ),
        any: num::less(num::zero(), free),
        half: half(free),
        partly: num::less(free, h.quantity),
        busy: num::less(num::zero(), num::difference(h.quantity, free)),
    }
}

pub fn sell_sizing(h: &Holding, working: &[PendingOrder]) -> (r: SellSizing)
    ensures
        r == sizing_of(*h, working@),
{
    let free: Num = h.free_quantity(working);
    SellSizing {
        free,
        committed: h.quantity.minus(free),
        resting: h.quantity.minus(h.blocked).minus(free).max(Num::zero()),
        any: Num::zero().lt(free),
        half: free.over(Num::from_i64(2)).times(Num::from_i64(10_000)).floor().over(
            Num::from_i64(10_000),
        ),
        partly: free.lt(h.quantity),
        busy: Num::zero().lt(h.quantity.minus(free)),
    }
}

/// Whether a sale is for more than can be sold.
pub fn is_oversized(sizing: &SellSizing, shares: Num) -> (r: bool)
    ensures
        r == num::less(sizing.free, shares),
{
    sizing.free.lt(shares)
}

/// What an order is about worth: the shares at the mid.
pub open spec fn worth(mid: Option<Num>, shares: Num) -> Option<Num> {
    match mid {
        Some(p) => Some(num::product(p, shares)),
        None => None,
    }
}

pub fn estimated_value(mid: Option<Num>, shares: Num) -> (r: Option<Num>)
    ensures
        r == worth(mid, shares),
{
    match mid {
        Some(p) => Some(p.times(shares)),
        None => None,
    }
}

/// About how many shares an amount buys, at the ask or else at the mid.
pub open spec fn bought(ask: Option<Num>, mid: Option<Num>, amount: Num) -> Option<Num> {
    let price = if ask is Some {
        ask
    } else {
        mid
    };
    match price {
        Some(p) => if num::less(num::zero(), p) {
            Some(num::quotient(amount, p))
        } else {
            None
        },
        None => None,
    }
}

pub fn estimated_shares(ask: Option<Num>, mid: Option<Num>, amount: Num) -> (r: Option<Num>)
    ensures
        r == bought(ask, mid, amount),
{
    let price: Option<Num> = match ask {
        Some(a) => Some(a),
        None => mid,
    };
    match price {
        Some(p) => if Num::zero().lt(p) {
            Some(amount.over(p))
        } else {
            None
        },
        None => None,
    }
}

/// The gains of those holdings that have one, added up, and how many have one.
pub open spec fn gains(hs: Seq<Holding>) -> (Num, int)
    decreases hs.len(),
{
    if hs.len() == 0 {
        (num::negative_zero(), 0)
    } else {
        let (total, n) = gains(hs.drop_last());
        match hs.last().gain() {
            Some(g) => (num::sum(total, g), n + 1),
            None => (total, n),
        }
    }
}

/// The costs of those holdings that have one, added up.
pub open spec fn costs(hs: Seq<Holding>) -> Num
    decreases hs.len(),
{
    if hs.len() == 0 {
        num::negative_zero()
    } else {
        let total = costs(hs.drop_last());
        match hs.last().cost() {
            Some(c) => num::sum(total, c),
            None => total,
        }
    }
}

/// The gain over all positions, where any has one.
pub open spec fn total_gain(hs: Seq<Holding>) -> Option<Num> {
    if gains(hs).1 > 0 {
        Some(gains(hs).0)
    } else {
        None
    }
}

/// What the positions are worth together.
#[derive(Debug, Clone, Copy)]
pub struct Totals {
    pub unrealized: Option<Num>,
    pub cost: Num,
    /// The gain as a percentage of the cost, where there was a cost.
    pub unrealized_pct: Option<Num>,
}

pub open spec fn totals_of(hs: Seq<Holding>) -> Totals {
    let gain = total_gain(hs);
    let cost = costs(hs);
    Totals {
        unrealized: gain,
        cost,
        unrealized_pct: if num::less(
            num::ratio(1, 1_000_000_000),
            num::signed(false, num::mag(cost)),
        ) {
            Some(
                num::product(
                    num::quotient(
                        match gain {
                            Some(g) => g,
                            None => num::zero(),
                        },
                        cost,
                    ),
                    num::whole(100),
                ),
            )
        } else {
            None
        },
    }
}

pub fn totals(hs: &Vec<Holding>) -> (r: Totals)
    ensures
        r == totals_of(hs@),
{
    let ghost all = hs@;
    let mut gain: Num = Num::negative_zero();
    let mut count: usize = 0;
    let mut cost: Num = Num::negative_zero();
    assert(all.take(0) =~= Seq::empty());
    for i in 0..hs.len()
        invariant
            all == hs@,
            (gain, count as int) == gains(all.take(i as int)),
            cost == costs(all.take(i as int)),
            count <= i,
    {
        assert(all.take(i + 1).drop_last() =~= all.take(i as int));
        assert(all.take(i + 1).last() == all[i as int]);
        match hs[i].unrealized() {
            Some(g) => {
                gain = gain.plus(g);
                count = count + 1;
            },
            None => {},
        }
        match hs[i].cost_basis() {
            Some(c) => {
                cost = cost.plus(c);
            },
            None => {},
        }
    }
    assert(all.take(all.len() as int) =~= all);
    let unrealized: Option<Num> = if count > 0 {
        Some(gain)
    } else {
        None
    };
    let unrealized_pct: Option<Num> = if Num::ratio(1, 1_000_000_000).lt(cost.abs()) {
        let g: Num = match unrealized {
            Some(g) => g,
            None => Num::zero(),
        };
        Some(g.over(cost).times(Num::from_i64(100)))
    } else {
        None
    };
    Totals { unrealized, cost, unrealized_pct }
}

/// The part of the securities that a position is, in percent.
pub open spec fn weight_of(valuation: Option<Num>, securities: Option<Num>) -> Option<Num> {
    match (valuation, securities) {
        (Some(v), Some(s)) => if num::less(num::zero(), s) {
            Some(num::product(num::quotient(v, s), num::whole(100)))
        } else {
            None
        },
        _ => None,
    }
}

pub fn weight(valuation: Option<Num>, securities: Option<Num>) -> (r: Option<Num>)
    ensures
        r == weight_of(valuation, securities),
{
    match (valuation, securities) {
        (Some(v), Some(s)) => if Num::zero().lt(s) {
            Some(v.over(s).times(Num::from_i64(100)))
        } else {
            None
        },
        _ => None,
    }
}

/// Whether an amount is worth a row of its own: it is there, and not zero.
pub fn is_reserved(amount: Option<Num>) -> (r: bool)
    ensures
        r == (match amount {
            Some(a) => !num::same(a, num::zero()),
            None => false,
        }),
{
    match amount {
        Some(a) => !a.equals(Num::zero()),
        None => false,
    }
}

/// Whether a series stands at or above the previous close; one that cannot be
/// told is taken to.
pub fn is_up(last: Option<Num>, reference: Option<Num>) -> (r: bool)
    ensures
        r == (match (last, reference) {
            (Some(l), Some(c)) => num::at_most(c, l),
            _ => true,
        }),
{
    match (last, reference) {
        (Some(l), Some(c)) => c.le(l),
        _ => true,
    }
}

/// The change from the previous close, and the same in percent.
pub open spec fn change_of(last: Option<Num>, reference: Option<Num>) -> Option<(Num, Num)> {
    match (last, reference) {
        (Some(l), Some(c)) => if num::less(
            num::ratio(1, 1_000_000_000),
            num::signed(false, num::mag(c)),
        ) {
            Some(
                (
                    num::difference(l, c),
                    num::product(
                        num::difference(num::quotient(l, c), num::whole(1)),
                        num::whole(100),
                    ),
                ),
            )
        } else {
            None
        },
        _ => None,
    }
}

pub fn change(last: Option<Num>, reference: Option<Num>) -> (r: Option<(Num, Num)>)
    ensures
        r == change_of(last, reference),
{
    match (last, reference) {
        (Some(l), Some(c)) => if Num::ratio(1, 1_000_000_000).lt(c.abs()) {
            Some((l.minus(c), l.over(c).minus(Num::from_i64(1)).times(Num::from_i64(100))))
        } else {
            None
        },
        _ => None,
    }
}

/// A candle as a box with whiskers, centred in its bucket.
#[derive(Debug, Clone, Copy)]
pub struct CandleBox {
    pub x: Num,
    pub low: Num,
    pub bottom: Num,
    pub close: Num,
    pub top: Num,
    pub high: Num,
    pub width: Num,
    pub up: bool,
}

pub open spec fn box_of(c: Candle, bucket: Num) -> CandleBox {
    let up = num::at_most(c.open, c.close);
    CandleBox {
        x: num::sum(c.t, num::quotient(bucket, num::whole(2))),
        low: c.low,
        bottom: if up {
            c.open
        } else {
            c.close
        },
        close: c.close,
        top: if up {
            c.close
        } else {
            c.open
        },
        high: c.high,
        width: num::product(bucket, num::ratio(62, 100)),
        up,
    }
}

pub fn candle_box(c: &Candle, bucket: Num) -> (r: CandleBox)
    ensures
        r == box_of(*c, bucket),
{
    let up = c.up();
    CandleBox {
        x: c.t.plus(bucket.over(Num::from_i64(2))),
        low: c.low,
        bottom: if up {
            c.open
        } else {
            c.close
        },
        close: c.close,
        top: if up {
            c.close
        } else {
            c.open
        },
        high: c.high,
        width: bucket.times(Num::ratio(62, 100)),
        up,
    }
}

/// Whether an order may be submitted: CONFIRM has been typed, the instrument is
/// tradable, the confirmation has not expired, and what is unsuitable has been
/// accepted.
pub open spec fn is_armed(
    typed: Seq<char>,
    p: TradePreview,
    now: Option<Num>,
    accept_unsuitable: bool,
) -> bool {
    &&& text::small(text::trimmed(typed)) == text::small("confirm"@)
    &&& p.tradable
    &&& !preview::has_passed(p.expires_at_epoch, now)
    &&& !p.requires_accept_unsuitable || accept_unsuitable
}

pub fn can_submit(
    typed: &str,
    p: &TradePreview,
    now: Option<Num>,
    accept_unsuitable: bool,
) -> (r: bool)
    ensures
        r == is_armed(typed@, *p, now, accept_unsuitable),
{
    trim(typed).eq_ignore_ascii_case("confirm") && p.tradable && !p.expired(now) && (
    !p.requires_accept_unsuitable || accept_unsuitable)
}

/// An expired confirmation, or one for what cannot be traded, cannot be
/// submitted whatever is typed.
pub proof fn law_an_expired_confirmation_disarms(
    typed: Seq<char>,
    p: TradePreview,
    now: Option<Num>,
    accept_unsuitable: bool,
)
    requires
        preview::has_passed(p.expires_at_epoch, now) || !p.tradable || (
        p.requires_accept_unsuitable && !accept_unsuitable),
    ensures
        !is_armed(typed, p, now, accept_unsuitable),
{
}

/// Whether an order is sent when it is submitted: one has been previewed, none is
/// under way, and it may be submitted.
pub open spec fn is_sent(
    s: Shared,
    typed: Seq<char>,
    accept_unsuitable: bool,
    now: Option<Num>,
) -> bool {
    s.preview is Some && !s.order_pending && is_armed(typed, s.preview->0, now, accept_unsuitable)
}

/// Whether a command submits the order that a ticket says, as it was previewed.
pub open spec fn submits(
    cmd: Cmd,
    p: TradePreview,
    ticket: Ticket,
    isin: Seq<char>,
    accept_unsuitable: bool,
) -> bool {
    cmd matches Cmd::SubmitTrade { intent, confirmation_id, accept_unsuitable: accepted }
        && is_meant(intent, ticket, isin) && confirmation_id@ == p.confirmation_id@ && accepted
        == accept_unsuitable
}

/// The command that the confirm dialog sends when an order is submitted, where it
/// sends one.
pub fn submission(
    s: &Shared,
    ticket: &Ticket,
    isin: &str,
    typed: &str,
    accept_unsuitable: bool,
    now: Option<Num>,
) -> (r: Option<Cmd>)
    ensures
        r is Some == is_sent(*s, typed@, accept_unsuitable, now),
        r matches Some(cmd) ==> submits(cmd, s.preview->0, *ticket, isin@, accept_unsuitable),
{
    match &s.preview {
        Some(p) => if !s.order_pending && can_submit(typed, p, now, accept_unsuitable) {
            Some(
                Cmd::SubmitTrade {
                    intent: ticket.intent(isin),
                    confirmation_id: p.confirmation_id.clone(),
                    accept_unsuitable,
                },
            )
        } else {
            None
        },
        None => None,
    }
}

/// Nothing is sent without a preview, while an order is under way, or before
/// anything has been typed: not from the state in which the order was submitted,
/// nor once what was typed has been cleared.
pub proof fn law_an_order_is_sent_once(
    s: Shared,
    typed: Seq<char>,
    accept_unsuitable: bool,
    now: Option<Num>,
)
    ensures
        s.preview is None ==> !is_sent(s, typed, accept_unsuitable, now),
        !is_sent(trade::submitting(s), typed, accept_unsuitable, now),
        !is_sent(s, Seq::empty(), accept_unsuitable, now),
{
    reveal_strlit("confirm");
    assert(text::trimmed(Seq::empty()).len() == 0);
    assert(text::small(text::trimmed(Seq::empty())).len() == 0);
    assert(text::small("confirm"@).len() == 7);
}

/// How long a confirmation holds.
pub fn validity(seconds: Option<i64>) -> (r: String)
    ensures
        r@ == (match seconds {
            Some(s) => if s > 0 {
                text::decimal(s as int) + " s"@
            } else {
                "EXPIRED"@
            },
            None => "—"@,
        }),
{
    match seconds {
        Some(s) => if s > 0 {
            let mut r = text::decimal_text(s as i128);
            r.append(" s");
            r
        } else {
            "EXPIRED".to_owned()
        },
        None => "—".to_owned(),
    }
}

/// A time span in the unit that suits it, and how many decimals it is shown with.
pub open spec fn span_of(s: Num) -> (Num, int, Seq<char>) {
    if num::at_most(num::whole(86_400), s) {
        (num::quotient(s, num::whole(86_400)), 1, " d"@)
    } else if num::at_most(num::whole(3_600), s) {
        (num::quotient(s, num::whole(3_600)), 1, " h"@)
    } else {
        (num::quotient(s, num::whole(60)), 0, " min"@)
    }
}

pub fn human_secs(s: Num) -> (r: (Num, usize, &'static str))
    ensures
        (r.0, r.1 as int, r.2@) == span_of(s),
{
    if Num::from_i64(86_400).le(s) {
        (s.over(Num::from_i64(86_400)), 1, " d")
    } else if Num::from_i64(3_600).le(s) {
        (s.over(Num::from_i64(3_600)), 1, " h")
    } else {
        (s.over(Num::from_i64(60)), 0, " min")
    }
}

/// The name of a month.
pub open spec fn month_name(m: int) -> Seq<char> {
    if m <= 1 {
        "Jan"@
    } else if m == 2 {
        "Feb"@
    } else if m == 3 {
        "Mar"@
    } else if m == 4 {
        "Apr"@
    } else if m == 5 {
        "May"@
    } else if m == 6 {
        "Jun"@
    } else if m == 7 {
        "Jul"@
    } else if m == 8 {
        "Aug"@
    } else if m == 9 {
        "Sep"@
    } else if m == 10 {
        "Oct"@
    } else if m == 11 {
        "Nov"@
    } else {
        "Dec"@
    }
}

fn month(m: i64) -> (r: &'static str)
    ensures
        r@ == month_name(m as int),
{
    if m <= 1 {
        "Jan"
    } else if m == 2 {
        "Feb"
    } else if m == 3 {
        "Mar"
    } else if m == 4 {
        "Apr"
    } else if m == 5 {
        "May"
    } else if m == 6 {
        "Jun"
    } else if m == 7 {
        "Jul"
    } else if m == 8 {
        "Aug"
    } else if m == 9 {
        "Sep"
    } else if m == 10 {
        "Oct"
    } else if m == 11 {
        "Nov"
    } else {
        "Dec"
    }
}

/// The hours and minutes of a time of day.
pub open spec fn clock(secs: int) -> Seq<char> {
    text::two_digits((secs / 3600) as nat) + ":"@ + text::two_digits(((secs % 3600) / 60) as nat)
}

/// The whole seconds of a time.
pub open spec fn whole_seconds(t: Num) -> int {
    num::cut(t, i64::MIN as int, i64::MAX as int)
}

/// Whether a text is the label of a time: the clock within a span of two days,
/// the day within some four hundred, and the month beyond that. What is no time
/// has no label.
pub open spec fn is_axis_label(r: Seq<char>, t: Num, span: Num) -> bool {
    let secs = whole_seconds(t);
    if secs < 1_000_000_000 {
        r.len() == 0
    } else {
        exists|y: int, m: int, d: int| #[trigger]
            calendar::is_date(y, m, d) && calendar::day_number(y, m, d) == secs / 86_400 && r == (
            if num::at_most(span, num::product(num::whole(2), num::whole(86_400))) {
                clock(secs % 86_400)
            } else if num::at_most(span, num::product(num::whole(400), num::whole(86_400))) {
                text::two_digits(d as nat) + " "@ + month_name(m)
            } else {
                month_name(m) + " "@ + text::decimal(y)
            })
    }
}

/// Whether a text is a time in full: the date and the clock.
pub open spec fn is_full_label(r: Seq<char>, t: Num) -> bool {
    let secs = whole_seconds(t);
    if secs < 1_000_000_000 {
        r == text::decimal(secs)
    } else {
        exists|y: int, m: int, d: int| #[trigger]
            calendar::is_date(y, m, d) && calendar::day_number(y, m, d) == secs / 86_400 && r
                == text::four_digits(y as nat) + "-"@ + text::two_digits(m as nat) + "-"@
                + text::two_digits(d as nat) + " "@ + clock(secs % 86_400)
    }
}

fn push_clock(s: &mut String, secs: i64)
    requires
        0 <= secs < 86_400,
    ensures
        final(s)@ == old(s)@ + clock(secs as int),
{
    push_two_digits(s, (secs / 3600) as u64);
    s.append(":");
    push_two_digits(s, ((secs % 3600) / 60) as u64);
    assert(s@ =~= old(s)@ + clock(secs as int));
}

proof fn lemma_recent(y: int, m: int, d: int, z: int)
    requires
        calendar::is_date(y, m, d),
        calendar::day_number(y, m, d) == z,
        z >= 11_574,
    ensures
        y >= 1970,
{
    calendar::law_day_numbers_order_dates(y, m, d, 1970, 1, 1);
    assert(calendar::day_number(1970, 1, 1) == 0) by {
        assert(calendar::march(1969) == 719_162);
        assert(calendar::cut_remainder(10, 12) == 10);
        assert(calendar::months_on(10) == 306);
    }
}

/// The seconds that a chart covers.
pub fn axis_span(chart: &Chart) -> (r: Num)
    ensures
        r == num::product(chart::span(chart.points@), num::whole(86_400)),
{
    chart.span_days().times(Num::from_i64(86_400))
}

/// The label of a time on an axis that covers a span of seconds.
pub fn axis_time(t: Num, span_secs: Num) -> (r: String)
    ensures
        is_axis_label(r@, t, span_secs),
{
    let secs: i64 = t.to_i64();
    let mut s = String::new();
    if secs < 1_000_000_000 {
        return s;
    }
    let (y, m, d): (i64, i64, i64) = civil_from_days(secs / 86_400);
    let two_days: Num = Num::from_i64(2).times(Num::from_i64(86_400));
    let year: Num = Num::from_i64(400).times(Num::from_i64(86_400));
    if span_secs.le(two_days) {
        push_clock(&mut s, secs % 86_400);
        assert(s@ =~= clock((secs % 86_400) as int));
    } else if span_secs.le(year) {
        push_two_digits(&mut s, d as u64);
        s.append(" ");
        s.append(month(m));
        assert(s@ =~= text::two_digits(d as nat) + " "@ + month_name(m as int));
    } else {
        s.append(month(m));
        s.append(" ");
        let year_text = text::decimal_text(y as i128);
        s.append(year_text.as_str());
        assert(s@ =~= month_name(m as int) + " "@ + text::decimal(y as int));
    }
    assert(calendar::is_date(y as int, m as int, d as int));
    s
}

/// A time in full.
pub fn hhmm(t: Num) -> (r: String)
    ensures
        is_full_label(r@, t),
{
    let secs: i64 = t.to_i64();
    if secs < 1_000_000_000 {
        return text::decimal_text(secs as i128);
    }
    let (y, m, d): (i64, i64, i64) = civil_from_days(secs / 86_400);
    proof {
        lemma_recent(y as int, m as int, d as int, secs as int / 86_400);
    }
    let mut s = String::new();
    push_four_digits(&mut s, y as u64);
    s.append("-");
    push_two_digits(&mut s, m as u64);
    s.append("-");
    push_two_digits(&mut s, d as u64);
    s.append(" ");
    push_clock(&mut s, secs % 86_400);
    assert(s@ =~= text::four_digits(y as nat) + "-"@ + text::two_digits(m as nat) + "-"@
        + text::two_digits(d as nat) + " "@ + clock((secs % 86_400) as int));
    assert(calendar::is_date(y as int, m as int, d as int));
    s
}

/// The name that is shown for a session, which is hidden where it is to be.
pub fn shown_name(name: &str, redact: bool) -> (r: String)
    ensures
        r@ == if redact {
            "Account holder"@
        } else {
            name@
        },
{
    if redact {
        "Account holder".to_owned()
    } else {
        name.to_owned()
    }
}

/// Who is logged in, or why nobody is: the name of the session, else what went
/// wrong, else that it is not known yet.
pub open spec fn session_line(s: Shared, redact: bool) -> (Tone, Seq<char>) {
    match (s.session, s.session_error) {
        (Some(who), _) => (
            Tone::Good,
            if redact {
                "Account holder"@
            } else {
                who@
            },
        ),
        (None, Some(trouble)) => (Tone::Bad, trouble@),
        (None, None) => (Tone::Warn, "connecting…"@),
    }
}

pub fn session_shown(s: &Shared, redact: bool) -> (r: (Tone, String))
    ensures
        (r.0, r.1@) == session_line(*s, redact),
{
    match (&s.session, &s.session_error) {
        (Some(who), _) => (Tone::Good, shown_name(who.as_str(), redact)),
        (None, Some(trouble)) => (Tone::Bad, trouble.clone()),
        (None, None) => (Tone::Warn, "connecting…".to_owned()),
    }
}

/// How the time that something took is coloured, given from when on it is long.
pub fn time_tone(ms: u128, long: u128) -> (r: Tone)
    ensures
        r == if ms > long {
            Tone::Warn
        } else {
            Tone::Dim
        },
{
    if ms > long {
        Tone::Warn
    } else {
        Tone::Dim
    }
}

/// What is said in place of a chart without points: why there is none, or that an
/// instrument is to be picked unless one is being loaded.
pub fn no_chart(error: &Option<String>, loading: bool) -> (r: Option<(Tone, String)>)
    ensures
        (match r {
            Some(said) => Some((said.0, said.1@)),
            None => None,
        }) == (match error {
            Some(e) => Some((Tone::Bad, e@)),
            None => if loading {
                None
            } else {
                Some((Tone::Dim, "no chart data — pick an instrument on the left"@))
            },
        }),
{
    match error {
        Some(e) => Some((Tone::Bad, e.clone())),
        None => if loading {
            None
        } else {
            Some((Tone::Dim, "no chart data — pick an instrument on the left".to_owned()))
        },
    }
}

/// What is to be done about a picture of the screen.
#[derive(Clone, Copy, PartialEq, Eq, Debug, Structural)]
pub enum ShotStep {
    Wait,
    Take,
    GiveUp,
}

/// A picture is taken once, after the data has had time to arrive, and given up
/// when it has not come after a minute.
pub fn shot_step(elapsed: Num, warmup: Num, taken: bool) -> (r: ShotStep)
    ensures
        r == if num::less(num::whole(60), elapsed) {
            ShotStep::GiveUp
        } else if num::at_most(warmup, elapsed) && !taken {
            ShotStep::Take
        } else {
            ShotStep::Wait
        },
{
    if Num::from_i64(60).lt(elapsed) {
        ShotStep::GiveUp
    } else if warmup.le(elapsed) && !taken {
        ShotStep::Take
    } else {
        ShotStep::Wait
    }
}

} // verus!
