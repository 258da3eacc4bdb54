//! Orders as they are meant, and how they are written on a command line.

use crate::model::pending;
use crate::model::{OrderType, Side};
use crate::num::{self, Num};
use crate::text::{self, trim};
use vstd::prelude::*;
use vstd::string::*;

verus! {

/// An argument on a command line. A number that is not whole is written by
/// whoever makes the call.
#[derive(Debug, Clone)]
pub enum Arg {
    Word(String),
    Number(Num),
}

/// What an argument is.
pub enum ArgView {
    Word(Seq<char>),
    Number(Num),
}

impl Arg {
    pub open spec fn view(self) -> ArgView {
        match self {
            Arg::Word(s) => ArgView::Word(s@),
            Arg::Number(n) => ArgView::Number(n),
        }
    }
}

pub open spec fn arg_views(a: Seq<Arg>) -> Seq<ArgView> {
    a.map_values(|x: Arg| x.view())
}

#[derive(Debug, Clone)]
pub struct TradeIntent {
    pub isin: String,
    pub side: Side,
    pub order_type: OrderType,
    /// A purchase may be sized by an amount of money; a sale is sized by shares.
    pub amount: Option<Num>,
    pub shares: Option<Num>,
    pub limit_price: Option<Num>,
    pub stop_price: Option<Num>,
    pub venue: Option<String>,
}

/// A number cut towards zero.
pub open spec fn truncated(x: Num) -> Num {
    if num::negative(x) {
        num::negated(num::floored(num::negated(x)))
    } else {
        num::floored(x)
    }
}

/// How a number is written: a whole one without decimals.
pub open spec fn number_arg(x: Num) -> ArgView {
    let fraction = num::difference(x, truncated(x));
    if num::less(num::signed(false, num::mag(fraction)), num::ratio(1, 1_000_000_000)) {
        ArgView::Word(text::decimal(num::cut(x, i64::MIN as int, i64::MAX as int)))
    } else {
        ArgView::Number(x)
    }
}

/// An option and its number, where there is one.
pub open spec fn number_option(name: Seq<char>, x: Option<Num>) -> Seq<ArgView> {
    match x {
        Some(n) => seq![ArgView::Word(name), number_arg(n)],
        None => Seq::empty(),
    }
}

/// How many an order is for: by shares where it has them, else by amount.
pub open spec fn size_args(t: TradeIntent) -> Seq<ArgView> {
    if t.shares is Some {
        number_option("--shares"@, t.shares)
    } else {
        number_option("--amount"@, t.amount)
    }
}

/// The venue, where it is not blank.
pub open spec fn venue_args(venue: Option<String>) -> Seq<ArgView> {
    match venue {
        Some(v) => if text::trimmed(v@).len() > 0 {
            seq![ArgView::Word("--venue"@), ArgView::Word(v@)]
        } else {
            Seq::empty()
        },
        None => Seq::empty(),
    }
}

/// The confirmation of an order that has been previewed.
pub open spec fn confirm_args(confirm: Option<Seq<char>>, accept_unsuitable: bool) -> Seq<ArgView> {
    match confirm {
        Some(id) => if accept_unsuitable {
            seq![
                ArgView::Word("--confirm"@),
                ArgView::Word(id),
                ArgView::Word("--accept-unsuitable"@),
            ]
        } else {
            seq![ArgView::Word("--confirm"@), ArgView::Word(id)]
        },
        None => Seq::empty(),
    }
}

/// How an order is written, with its confirmation once it has been previewed.
pub open spec fn order_args(
    t: TradeIntent,
    confirm: Option<Seq<char>>,
    accept_unsuitable: bool,
) -> Seq<ArgView> {
    seq![
        ArgView::Word("broker"@),
        ArgView::Word("trade"@),
        ArgView::Word(pending::side_word(t.side)),
        ArgView::Word("--isin"@),
        ArgView::Word(t.isin@),
    ] + size_args(t) + seq![
        ArgView::Word("--order-type"@),
        ArgView::Word(pending::type_word(t.order_type)),
    ] + number_option("--limit-price"@, t.limit_price) + number_option(
        "--stop-price"@,
        t.stop_price,
    ) + venue_args(t.venue) + confirm_args(confirm, accept_unsuitable)
}

/// A number as it is written.
pub fn fmt_num(x: Num) -> (r: Arg)
    ensures
        r.view() == number_arg(x),
{
    let cut: Num = if x.sign_is_negative() {
        x.negate().floor().negate()
    } else {
        x.floor()
    };
    let fraction: Num = x.minus(cut).abs();
    if fraction.lt(Num::ratio(1, 1_000_000_000)) {
        Arg::Word(text::decimal_text(x.to_i64() as i128))
    } else {
        Arg::Number(x)
    }
}

fn push_word(a: &mut Vec<Arg>, word: &str)
    ensures
        arg_views(final(a)@) == arg_views(old(a)@).push(ArgView::Word(word@)),
{
    a.push(Arg::Word(word.to_owned()));
    assert(arg_views(a@) =~= arg_views(old(a)@).push(ArgView::Word(word@)));
}

fn push_number(a: &mut Vec<Arg>, name: &str, x: Option<Num>)
    ensures
        arg_views(final(a)@) == arg_views(old(a)@) + number_option(name@, x),
{
    match x {
        Some(n) => {
            push_word(a, name);
            let ghost before = arg_views(a@);
            a.push(fmt_num(n));
            assert(arg_views(a@) =~= before.push(number_arg(n)));
            assert(arg_views(a@) =~= arg_views(old(a)@) + number_option(name@, x));
        },
        None => {
            assert(arg_views(a@) =~= arg_views(old(a)@) + number_option(name@, x));
        },
    }
}

fn push_venue(a: &mut Vec<Arg>, venue: &Option<String>)
    ensures
        arg_views(final(a)@) == arg_views(old(a)@) + venue_args(*venue),
{
    match venue {
        Some(v) => {
            if !trim(v.as_str()).is_empty() {
                push_word(a, "--venue");
                push_word(a, v.as_str());
            }
        },
        None => {},
    }
    assert(arg_views(a@) =~= arg_views(old(a)@) + venue_args(*venue));
}

fn push_confirmation(a: &mut Vec<Arg>, confirm: Option<&str>, accept_unsuitable: bool)
    ensures
        arg_views(final(a)@) == arg_views(old(a)@) + confirm_args(
            seen_id(confirm),
            accept_unsuitable,
        ),
{
    match confirm {
        Some(id) => {
            push_word(a, "--confirm");
            push_word(a, id);
            if accept_unsuitable {
                push_word(a, "--accept-unsuitable");
            }
        },
        None => {},
    }
    assert(arg_views(a@) =~= arg_views(old(a)@) + confirm_args(
        seen_id(confirm),
        accept_unsuitable,
    ));
}

/// The text of a confirmation id, where there is one.
pub open spec fn seen_id(confirm: Option<&str>) -> Option<Seq<char>> {
    match confirm {
        Some(id) => Some(id@),
        None => None,
    }
}

impl TradeIntent {
    pub fn argv(&self, confirm: Option<&str>, accept_unsuitable: bool) -> (r: Vec<Arg>)
        ensures
            arg_views(r@) == order_args(*self, seen_id(confirm), accept_unsuitable),
    {
        let mut a: Vec<Arg> = Vec::new();
        push_word(&mut a, "broker");
        push_word(&mut a, "trade");
        push_word(&mut a, self.side.cmd());
        push_word(&mut a, "--isin");
        push_word(&mut a, self.isin.as_str());
        assert(arg_views(a@) =~= seq![
            ArgView::Word("broker"@),
            ArgView::Word("trade"@),
            ArgView::Word(pending::side_word(self.side)),
            ArgView::Word("--isin"@),
            ArgView::Word(self.isin@),
        ]);
        match self.shares {
            Some(_) => push_number(&mut a, "--shares", self.shares),
            None => push_number(&mut a, "--amount", self.amount),
        }
        let ghost sized = arg_views(a@);
        push_word(&mut a, "--order-type");
        push_word(&mut a, self.order_type.cmd());
        assert(arg_views(a@) =~= sized + seq![
            ArgView::Word("--order-type"@),
            ArgView::Word(pending::type_word(self.order_type)),
        ]);
        push_number(&mut a, "--limit-price", self.limit_price);
        push_number(&mut a, "--stop-price", self.stop_price);
        push_venue(&mut a, &self.venue);
        push_confirmation(&mut a, confirm, accept_unsuitable);
        a
    }
}

/// An order is submitted as it was previewed, with the confirmation behind it.
pub proof fn law_a_submission_repeats_the_preview(
    t: TradeIntent,
    id: Seq<char>,
    accept_unsuitable: bool,
)
    ensures
        order_args(t, Some(id), accept_unsuitable) == order_args(t, None, false) + confirm_args(
            Some(id),
            accept_unsuitable,
        ),
{
    assert(order_args(t, Some(id), accept_unsuitable) =~= order_args(t, None, false)
        + confirm_args(Some(id), accept_unsuitable));
}

/// An order that is only previewed carries no confirmation, so it places nothing.
pub proof fn law_a_preview_confirms_nothing(t: TradeIntent)
    requires
        t.isin@ != "--confirm"@,
        t.venue is Some ==> t.venue->0@ != "--confirm"@,
    ensures
        !order_args(t, None, false).contains(ArgView::Word("--confirm"@)),
{
    lemma_no_option_confirms();
    lemma_decimal_is_no_option(t.shares);
    lemma_decimal_is_no_option(t.amount);
    lemma_decimal_is_no_option(t.limit_price);
    lemma_decimal_is_no_option(t.stop_price);
}

proof fn lemma_no_option_confirms()
    ensures
        "broker"@ != "--confirm"@,
        "trade"@ != "--confirm"@,
        "buy"@ != "--confirm"@,
        "sell"@ != "--confirm"@,
        "market"@ != "--confirm"@,
        "limit"@ != "--confirm"@,
        "stop"@ != "--confirm"@,
        "--isin"@ != "--confirm"@,
        "--shares"@ != "--confirm"@,
        "--amount"@ != "--confirm"@,
        "--order-type"@ != "--confirm"@,
        "--limit-price"@ != "--confirm"@,
        "--stop-price"@ != "--confirm"@,
        "--venue"@ != "--confirm"@,
{
    reveal_strlit("--confirm");
    reveal_strlit("broker");
    reveal_strlit("trade");
    reveal_strlit("buy");
    reveal_strlit("sell");
    reveal_strlit("market");
    reveal_strlit("limit");
    reveal_strlit("stop");
    reveal_strlit("--isin");
    reveal_strlit("--shares");
    reveal_strlit("--amount");
    reveal_strlit("--order-type");
    reveal_strlit("--limit-price");
    reveal_strlit("--stop-price");
    reveal_strlit("--venue");
    assert("--confirm"@.len() == 9);
    assert("broker"@.len() == 6 && "trade"@.len() == 5 && "buy"@.len() == 3);
    assert("sell"@.len() == 4 && "market"@.len() == 6 && "limit"@.len() == 5);
    assert("stop"@.len() == 4 && "--isin"@.len() == 6 && "--shares"@.len() == 8);
    assert("--amount"@.len() == 8 && "--order-type"@.len() == 12 && "--venue"@.len() == 7);
    assert("--limit-price"@.len() == 13 && "--stop-price"@.len() == 12);
}

/// A number is not written like the option.
proof fn lemma_decimal_is_no_option(x: Option<Num>)
    ensures
        x is Some ==> number_arg(x->0) != ArgView::Word("--confirm"@),
{
    reveal_strlit("--confirm");
    if x is Some {
        let n = num::cut(x->0, i64::MIN as int, i64::MAX as int);
        let d = text::decimal(n);
        if n < 0 {
            text::lemma_digits_first((-n) as nat);
            assert(d[1] == text::digits((-n) as nat)[0]);
            assert("--confirm"@[1] == '-');
        } else {
            text::lemma_digits_first(n as nat);
            assert("--confirm"@[0] == '-');
        }
    }
}

} // verus!
