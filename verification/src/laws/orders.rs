//! What an order asks for, from the ticket to the command line.

use crate::exact;
use crate::laws::buckets::lemma_floor_is_whole;
use crate::laws::near;
use crate::model::{OrderType, Side};
use crate::num::{self, Num};
use crate::screen::{self, Ticket};
use crate::text;
use crate::worker::intent::{self, ArgView, TradeIntent};
use crate::worker::trade;
use vstd::prelude::*;

verus! {

/// An order has the prices that its type calls for, those of the ticket, whichever
/// side it is on: a limit order its limit, a stop order its stop, a market order
/// neither.
pub proof fn law_an_order_has_the_prices_of_its_type(
    t: TradeIntent,
    ticket: Ticket,
    isin: Seq<char>,
)
    requires
        screen::is_meant(t, ticket, isin),
    ensures
        ticket.order_type == OrderType::Limit ==> t.limit_price == Some(ticket.limit_price)
            && t.stop_price is None,
        ticket.order_type == OrderType::Stop ==> t.stop_price == Some(ticket.stop_price)
            && t.limit_price is None,
        ticket.order_type == OrderType::Market ==> t.limit_price is None && t.stop_price is None,
        t.order_type == ticket.order_type,
{
}

/// An order is on the side and the instrument it is meant for. A sale is sized by
/// the shares of the ticket, and a purchase by those or by the amount, as the ticket
/// says.
pub proof fn law_an_order_has_the_size_of_its_ticket(
    t: TradeIntent,
    ticket: Ticket,
    isin: Seq<char>,
)
    requires
        screen::is_meant(t, ticket, isin),
    ensures
        t.isin@ == isin,
        t.side == ticket.side,
        ticket.side == Side::Sell ==> t.shares == Some(ticket.shares) && t.amount is None,
        ticket.side == Side::Buy && ticket.size_by_shares ==> t.shares == Some(ticket.shares)
            && t.amount is None,
        ticket.side == Side::Buy && !ticket.size_by_shares ==> t.amount == Some(ticket.amount)
            && t.shares is None,
        text::trimmed(ticket.venue@).len() > 0 ==> t.venue is Some && t.venue->0@
            == text::trimmed(ticket.venue@),
        text::trimmed(ticket.venue@).len() == 0 ==> t.venue is None,
{
}

/// What replaces a stop sells all that it protected, at the stop and nothing else.
pub proof fn law_a_replacement_is_a_stop_sale(
    t: TradeIntent,
    isin: Seq<char>,
    shares: Num,
    stop: Num,
)
    requires
        trade::is_replacement(t, isin, shares, stop),
    ensures
        t.isin@ == isin,
        t.side == Side::Sell,
        t.order_type == OrderType::Stop,
        t.shares == Some(shares),
        t.stop_price == Some(stop),
        t.amount is None,
        t.limit_price is None,
        t.venue is None,
{
}

/// What stands behind an option in a command line whose options start at `i`, each
/// with a value behind it.
pub open spec fn option(args: Seq<ArgView>, i: int, name: Seq<char>) -> Option<ArgView>
    decreases args.len() - i,
{
    if i < 0 || i + 1 >= args.len() {
        None
    } else if args[i] == ArgView::Word(name) {
        Some(args[i + 1])
    } else {
        option(args, i + 2, name)
    }
}

proof fn lemma_option_behind(a: Seq<ArgView>, b: Seq<ArgView>, i: int, name: Seq<char>)
    requires
        0 <= i <= a.len(),
        (a.len() - i) % 2 == 0,
    ensures
        option(a + b, i, name) == (match option(a, i, name) {
            Some(x) => Some(x),
            None => option(b, 0, name),
        }),
    decreases a.len() - i,
{
    if i < a.len() {
        lemma_option_behind(a, b, i + 2, name);
    } else {
        lemma_option_shifted(a, b, 0, name);
    }
}

proof fn lemma_option_shifted(a: Seq<ArgView>, b: Seq<ArgView>, i: int, name: Seq<char>)
    requires
        0 <= i,
    ensures
        option(a + b, a.len() + i, name) == option(b, i, name),
    decreases b.len() - i,
{
    if i + 1 < b.len() {
        lemma_option_shifted(a, b, i + 2, name);
    }
}

proof fn lemma_names()
    ensures
        "--isin"@.len() == 6,
        "--shares"@.len() == 8,
        "--amount"@.len() == 8,
        "--shares"@ != "--amount"@,
        "--order-type"@.len() == 12,
        "--stop-price"@.len() == 12,
        "--order-type"@ != "--stop-price"@,
        "--limit-price"@.len() == 13,
        "--venue"@.len() == 7,
        "--confirm"@.len() == 9,
{
    reveal_strlit("--isin");
    reveal_strlit("--shares");
    reveal_strlit("--amount");
    reveal_strlit("--order-type");
    reveal_strlit("--stop-price");
    reveal_strlit("--limit-price");
    reveal_strlit("--venue");
    reveal_strlit("--confirm");
    assert("--shares"@[2] == 's');
    assert("--amount"@[2] == 'a');
    assert("--order-type"@[2] == 'o');
    assert("--stop-price"@[2] == 's');
}

proof fn lemma_pair(a: Seq<ArgView>, name: Seq<char>)
    requires
        a.len() == 0 || a.len() == 2 || a.len() == 3,
    ensures
        option(a, 0, name) == (if a.len() > 0 && a[0] == ArgView::Word(name) {
            Some(a[1])
        } else {
            None
        }),
{
    reveal_with_fuel(option, 3);
}

/// The value that stands for a number on the command line.
pub open spec fn written(x: Option<Num>) -> Option<ArgView> {
    match x {
        Some(n) => Some(intent::number_arg(n)),
        None => None,
    }
}

proof fn lemma_options(
    t: TradeIntent,
    confirm: Option<Seq<char>>,
    accept_unsuitable: bool,
    name: Seq<char>,
)
    ensures
        ({
            let args = intent::order_args(t, confirm, accept_unsuitable);
            let size = intent::size_args(t);
            let limit = intent::number_option("--limit-price"@, t.limit_price);
            let stop = intent::number_option("--stop-price"@, t.stop_price);
            let venue = intent::venue_args(t.venue);
            let last = intent::confirm_args(confirm, accept_unsuitable);
            option(args, 3, name) == (if name == "--isin"@ {
                Some(ArgView::Word(t.isin@))
            } else if size.len() > 0 && size[0] == ArgView::Word(name) {
                Some(size[1])
            } else if name == "--order-type"@ {
                Some(ArgView::Word(crate::model::pending::type_word(t.order_type)))
            } else if limit.len() > 0 && limit[0] == ArgView::Word(name) {
                Some(limit[1])
            } else if stop.len() > 0 && stop[0] == ArgView::Word(name) {
                Some(stop[1])
            } else if venue.len() > 0 && venue[0] == ArgView::Word(name) {
                Some(venue[1])
            } else if last.len() > 0 && last[0] == ArgView::Word(name) {
                Some(last[1])
            } else {
                None
            })
        }),
{
    let head = seq![
        ArgView::Word("broker"@),
        ArgView::Word("trade"@),
        ArgView::Word(crate::model::pending::side_word(t.side)),
        ArgView::Word("--isin"@),
        ArgView::Word(t.isin@),
    ];
    let size = intent::size_args(t);
    let kind = seq![
        ArgView::Word("--order-type"@),
        ArgView::Word(crate::model::pending::type_word(t.order_type)),
    ];
    let limit = intent::number_option("--limit-price"@, t.limit_price);
    let stop = intent::number_option("--stop-price"@, t.stop_price);
    let venue = intent::venue_args(t.venue);
    let last = intent::confirm_args(confirm, accept_unsuitable);
    lemma_pair(size, name);
    lemma_pair(kind, name);
    lemma_pair(limit, name);
    lemma_pair(stop, name);
    lemma_pair(venue, name);
    lemma_pair(last, name);
    assert(option(head, 3, name) == (if name == "--isin"@ {
        Some(ArgView::Word(t.isin@))
    } else {
        None
    })) by {
        reveal_with_fuel(option, 3);
    }
    lemma_option_behind(head, size, 3, name);
    lemma_option_behind(head + size, kind, 3, name);
    lemma_option_behind(head + size + kind, limit, 3, name);
    lemma_option_behind(head + size + kind + limit, stop, 3, name);
    lemma_option_behind(head + size + kind + limit + stop, venue, 3, name);
    lemma_option_behind(head + size + kind + limit + stop + venue, last, 3, name);
}

/// The command line says what the order is: the side, and behind its own option each
/// of the instrument, the size, the type, the prices and the venue. What the order
/// does not have is not on it.
pub proof fn law_the_command_line_says_the_order(
    t: TradeIntent,
    confirm: Option<Seq<char>>,
    accept_unsuitable: bool,
)
    ensures
        ({
            let args = intent::order_args(t, confirm, accept_unsuitable);
            &&& args.len() >= 3
            &&& args[0] == ArgView::Word("broker"@)
            &&& args[1] == ArgView::Word("trade"@)
            &&& t.side == Side::Buy ==> args[2] == ArgView::Word("buy"@)
            &&& t.side == Side::Sell ==> args[2] == ArgView::Word("sell"@)
            &&& option(args, 3, "--isin"@) == Some(ArgView::Word(t.isin@))
            &&& t.shares is Some ==> option(args, 3, "--shares"@) == written(t.shares) && option(
                args,
                3,
                "--amount"@,
            ) is None
            &&& t.shares is None ==> option(args, 3, "--amount"@) == written(t.amount) && option(
                args,
                3,
                "--shares"@,
            ) is None
            &&& option(args, 3, "--order-type"@) == Some(
                ArgView::Word(
                    match t.order_type {
                        OrderType::Market => "market"@,
                        OrderType::Limit => "limit"@,
                        OrderType::Stop => "stop"@,
                    },
                ),
            )
            &&& option(args, 3, "--limit-price"@) == written(t.limit_price)
            &&& option(args, 3, "--stop-price"@) == written(t.stop_price)
            &&& t.venue is Some && text::trimmed(t.venue->0@).len() > 0 ==> option(
                args,
                3,
                "--venue"@,
            ) == Some(ArgView::Word(t.venue->0@))
            &&& t.venue is None ==> option(args, 3, "--venue"@) is None
            &&& confirm is Some ==> option(args, 3, "--confirm"@) == Some(ArgView::Word(confirm->0))
            &&& confirm is None ==> option(args, 3, "--confirm"@) is None
            &&& args.len() % 2 == 0 <==> confirm is Some && accept_unsuitable
            &&& args.len() % 2 == 0 ==> args.last() == ArgView::Word("--accept-unsuitable"@)
        }),
{
    lemma_names();
    lemma_options(t, confirm, accept_unsuitable, "--isin"@);
    lemma_options(t, confirm, accept_unsuitable, "--shares"@);
    lemma_options(t, confirm, accept_unsuitable, "--amount"@);
    lemma_options(t, confirm, accept_unsuitable, "--order-type"@);
    lemma_options(t, confirm, accept_unsuitable, "--limit-price"@);
    lemma_options(t, confirm, accept_unsuitable, "--stop-price"@);
    lemma_options(t, confirm, accept_unsuitable, "--venue"@);
    lemma_options(t, confirm, accept_unsuitable, "--confirm"@);
}

/// The number that decimal digits stand for.
pub open spec fn spelled(s: Seq<char>) -> int
    decreases s.len(),
{
    if s.len() == 0 {
        0
    } else {
        10 * spelled(s.drop_last()) + (s.last() as int - '0' as int)
    }
}

/// Digits spell the number that they were written for, and are digits.
pub proof fn law_digits_spell_their_number(n: nat)
    ensures
        spelled(text::digits(n)) == n,
        forall|i: int|
            0 <= i < text::digits(n).len() ==> '0' <= #[trigger] text::digits(n)[i] <= '9',
        text::digits(n).len() > 0,
        n > 0 ==> text::digits(n)[0] != '0',
        n < 10 ==> text::digits(n).len() == 1,
        10 <= n < 100 ==> text::digits(n).len() == 2,
        100 <= n < 1000 ==> text::digits(n).len() == 3,
        1000 <= n < 10_000 ==> text::digits(n).len() == 4,
    decreases n,
{
    let s = text::digits(n);
    if n < 10 {
        assert(s.drop_last() =~= Seq::empty());
        assert(spelled(s.drop_last()) == 0);
    } else {
        law_digits_spell_their_number(n / 10);
        assert(s.drop_last() =~= text::digits(n / 10));
        assert forall|i: int| 0 <= i < s.len() implies '0' <= #[trigger] s[i] <= '9' by {
            if i < s.len() - 1 {
                assert(s[i] == text::digits(n / 10)[i]);
            }
        }
        assert(s[0] == text::digits(n / 10)[0]);
    }
}

proof fn lemma_leading_zero(s: Seq<char>)
    requires
        s.len() > 0,
    ensures
        spelled(seq!['0'] + s) == spelled(s),
    decreases s.len(),
{
    let z = seq!['0'] + s;
    if s.len() == 1 {
        assert(z.drop_last() =~= seq!['0']);
        assert(seq!['0'].drop_last() =~= Seq::<char>::empty());
        assert(s.drop_last() =~= Seq::<char>::empty());
        reveal_with_fuel(spelled, 3);
    } else {
        lemma_leading_zero(s.drop_last());
        assert(z.drop_last() =~= seq!['0'] + s.drop_last());
    }
}

/// A number that fits two digits is written in two, and one that fits four in four;
/// they spell it.
pub proof fn law_padded_digits_spell_their_number(n: nat)
    ensures
        spelled(text::two_digits(n)) == n,
        n < 100 ==> text::two_digits(n).len() == 2,
        spelled(text::four_digits(n)) == n,
        n < 10_000 ==> text::four_digits(n).len() == 4,
{
    law_digits_spell_their_number(n);
    let s = text::digits(n);
    let z = seq!['0'] + s;
    lemma_leading_zero(s);
    lemma_leading_zero(z);
    lemma_leading_zero(seq!['0'] + z);
    assert(seq!['0', '0'] + s =~= seq!['0'] + z);
    assert(seq!['0', '0', '0'] + s =~= seq!['0'] + (seq!['0'] + z));
}

/// A whole number goes onto the command line in decimal.
pub proof fn law_a_whole_number_is_written_in_decimal(n: int)
    requires
        exact::fits(n),
    ensures
        intent::number_arg(num::whole(n)) == ArgView::Word(text::decimal(n)),
        n >= 0 ==> spelled(text::decimal(n)) == n,
        n < 0 ==> text::decimal(n)[0] == '-' && spelled(text::decimal(n).drop_first()) == -n,
{
    let x = num::whole(n);
    exact::law_whole_numbers_are_exact(n);
    exact::law_whole_numbers_stay_whole(n, i64::MIN as int, i64::MAX as int);
    if n >= 0 {
        law_digits_spell_their_number(n as nat);
        assert(intent::truncated(x) == x);
    } else {
        law_digits_spell_their_number((-n) as nat);
        assert(text::decimal(n).drop_first() =~= text::digits((-n) as nat));
        lemma_negated_whole(n);
        exact::law_whole_numbers_stay_whole(-n, 0, -n);
        lemma_negated_whole(-n);
        assert(intent::truncated(x) == x);
    }
    exact::law_whole_numbers_subtract(n, n);
    lemma_nothing_is_less();
    assert(num::difference(x, intent::truncated(x)) == num::whole(0));
}

proof fn lemma_negated_whole(n: int)
    requires
        exact::fits(n),
        n != 0,
    ensures
        num::negated(num::whole(n)) == num::whole(-n),
{
    near::lemma_one_is_large();
    assert((-n) * num::one_units() == -(n * num::one_units())) by (nonlinear_arith);
    let u = n * num::one_units();
    let m = if n < 0 {
        num::nearest(-u, 1)
    } else {
        num::nearest(u, 1)
    };
    crate::order::lemma_nearest_range(
        if n < 0 {
            -u
        } else {
            u
        },
        1,
    );
    assert(n < 0 ==> u < 0) by (nonlinear_arith)
        requires
            u == n * num::one_units(),
            num::one_units() > 0,
    ;
    assert(n > 0 ==> u > 0) by (nonlinear_arith)
        requires
            u == n * num::one_units(),
            num::one_units() > 0,
    ;
}

proof fn lemma_nothing_is_less()
    ensures
        num::less(
            num::signed(false, num::mag(num::whole(0))),
            num::ratio(1, 1_000_000_000),
        ),
{
    near::lemma_ratio_near(1, 1_000_000_000);
}

/// A number with a fraction that counts goes onto the command line as it is, and is not
/// cut to a whole one.
pub proof fn law_a_fraction_is_not_cut_off(x: Num, n: int)
    requires
        num::is_finite(x),
        n >= 0,
        2 * num::one_units() <= 1_000_000_000 * (num::value(x) - n * num::one_units()),
        num::value(x) < n * num::one_units() + num::one_units(),
    ensures
        intent::number_arg(x) == ArgView::Number(x),
{
    near::lemma_one_is_large();
    let (v, o) = (num::value(x), num::one_units());
    assert(n * o >= 0) by (nonlinear_arith)
        requires
            n >= 0,
            o > 0,
    ;
    crate::order::lemma_zero_is_nothing();
    crate::order::lemma_order_of_values(num::zero(), x);
    let k = num::floored(x);
    exact::law_the_floor_is_close(x);
    let m = lemma_floor_is_whole(x);
    assert(m == n) by (nonlinear_arith)
        requires
            m * o <= v < m * o + o,
            n * o <= v < n * o + o,
            o > 0,
    ;
    assert(num::negative(x) == false);
    assert(intent::truncated(x) == k);
    crate::order::lemma_order_of_values(num::zero(), k);
    crate::order::lemma_order_of_values(k, x);
    crate::order::lemma_difference_finite(x, k);
    let d = num::difference(x, k);
    near::law_a_difference_is_near(x, k);
    near::lemma_ratio_near(1, 1_000_000_000);
    let e = num::ratio(1, 1_000_000_000);
    let s = num::signed(false, num::mag(d));
    crate::order::lemma_order_of_values(num::zero(), d);
    assert(num::value(d) > 0);
    assert(num::value(s) == num::value(d));
    crate::order::lemma_order_of_values(s, e);
}

} // verus!
