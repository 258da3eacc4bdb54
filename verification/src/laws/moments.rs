//! Dates, times and waits, by the calendar and the clock.

use crate::exact;
use crate::laws::near::{
    is_off_by, law_a_difference_is_near, lemma_one_is_large, lemma_part_near, size,
};
use crate::laws::orders::{law_padded_digits_spell_their_number, spelled};
use crate::model::calendar;
use crate::model::preview;
use crate::num::{self, Num};
use crate::order;
use crate::screen;
use crate::text;
use crate::worker;
use vstd::prelude::*;

verus! {

/// The days of a month: 30 of April, June, September and November, 28 of February
/// but 29 in a leap year, and 31 of the others. A leap year is every fourth, but of
/// those that end a century only every fourth.
pub open spec fn month_length(y: int, m: int) -> int {
    if m == 4 || m == 6 || m == 9 || m == 11 {
        30
    } else if m != 2 {
        31
    } else if y % 400 == 0 || (y % 4 == 0 && y % 100 != 0) {
        29
    } else {
        28
    }
}

/// The date behind a date.
pub open spec fn next_date(y: int, m: int, d: int) -> (int, int, int) {
    if d < month_length(y, m) {
        (y, m, d + 1)
    } else if m < 12 {
        (y, m + 1, 1)
    } else {
        (y + 1, 1, 1)
    }
}

/// Days are numbered one after the other from the first of January 1970, which is
/// day zero, by the Gregorian calendar.
pub proof fn law_each_day_has_the_next_number(y: int, m: int, d: int)
    requires
        1 <= m <= 12,
        1 <= d <= month_length(y, m),
    ensures
        calendar::is_date(y, m, d),
        ({
            let n = next_date(y, m, d);
            &&& calendar::is_date(n.0, n.1, n.2)
            &&& calendar::day_number(n.0, n.1, n.2) == calendar::day_number(y, m, d) + 1
        }),
        calendar::day_number(1970, 1, 1) == 0,
{
    let n = next_date(y, m, d);
    calendar::lemma_months(y, m, d);
    calendar::lemma_months(n.0, n.1, n.2);
    calendar::lemma_months(1970, 1, 1);
    lemma_year_after(y);
}

proof fn lemma_year_after(y: int)
    ensures
        calendar::new_year(y + 1) == calendar::new_year(y) + if month_length(y, 2) == 29 {
            366int
        } else {
            365int
        },
{
    let z = y - 1;
    assert(y / 4 - z / 4 == if y % 4 == 0 {
        1int
    } else {
        0int
    });
    assert(y / 100 - z / 100 == if y % 100 == 0 {
        1int
    } else {
        0int
    });
    assert(y / 400 - z / 400 == if y % 400 == 0 {
        1int
    } else {
        0int
    });
    assert(y % 400 == 0 ==> y % 100 == 0);
    assert(y % 100 == 0 ==> y % 4 == 0);
}

/// A date is a month and a day that the calendar has.
pub proof fn law_a_date_is_in_the_calendar(y: int, m: int, d: int)
    ensures
        calendar::is_date(y, m, d) <==> 1 <= m <= 12 && 1 <= d <= month_length(y, m),
{
}

/// Whether two bytes are the decimal digits of a number.
pub open spec fn spell_two(b: Seq<u8>, at: int, n: int) -> bool {
    &&& 0 <= n < 100
    &&& b[at] == 48 + n / 10
    &&& b[at + 1] == 48 + n % 10
}

proof fn lemma_two(b: Seq<u8>, at: int, n: int)
    requires
        0 <= at,
        at + 2 <= b.len(),
        spell_two(b, at, n),
    ensures
        calendar::number_between(b, at, at + 2) == Some(n),
{
    let s = b.subrange(at, at + 2);
    assert(s.len() == 2);
    assert(s[0] == b[at] && s[1] == b[at + 1]);
    assert(calendar::all_digits(s));
    let t = s.drop_last();
    assert(t.len() == 1 && t[0] == s[0]);
    assert(t.drop_last().len() == 0);
    assert(calendar::digits_value(t.drop_last()) == 0);
    assert(calendar::digits_value(t) == t.last() - 48);
    assert(calendar::digits_value(s) == 10 * calendar::digits_value(t) + (s.last() - 48));
}

proof fn lemma_four(b: Seq<u8>, n: int, c: int)
    requires
        4 <= b.len(),
        spell_two(b, 0, c),
        spell_two(b, 2, n),
    ensures
        calendar::number_between(b, 0, 4) == Some(100 * c + n),
{
    let s = b.subrange(0, 4);
    assert(s.len() == 4);
    assert(s[0] == b[0] && s[1] == b[1] && s[2] == b[2] && s[3] == b[3]);
    assert(calendar::all_digits(s));
    let t3 = s.drop_last();
    let t2 = t3.drop_last();
    let t1 = t2.drop_last();
    assert(calendar::digits_value(t1.drop_last()) == 0);
    assert(t1.last() == s[0] && t2.last() == s[1] && t3.last() == s[2] && s.last() == s[3]);
    assert(calendar::digits_value(t1) == s[0] - 48);
    assert(calendar::digits_value(t2) == 10 * calendar::digits_value(t1) + (s[1] - 48));
    assert(calendar::digits_value(t3) == 10 * calendar::digits_value(t2) + (s[2] - 48));
    assert(calendar::digits_value(s) == 10 * calendar::digits_value(t3) + (s[3] - 48));
}

proof fn lemma_three(b: Seq<u8>, n: int, c: int)
    requires
        23 <= b.len(),
        b[20] == 48 + c,
        0 <= c <= 9,
        spell_two(b, 21, n),
    ensures
        calendar::number_between(b, 20, 23) == Some(100 * c + n),
{
    let s = b.subrange(20, 23);
    assert(s.len() == 3);
    assert(s[0] == b[20] && s[1] == b[21] && s[2] == b[22]);
    assert(calendar::all_digits(s));
    let t2 = s.drop_last();
    let t1 = t2.drop_last();
    assert(calendar::digits_value(t1.drop_last()) == 0);
    assert(t1.last() == s[0] && t2.last() == s[1] && s.last() == s[2]);
    assert(calendar::digits_value(t1) == s[0] - 48);
    assert(calendar::digits_value(t2) == 10 * calendar::digits_value(t1) + (s[1] - 48));
    assert(calendar::digits_value(s) == 10 * calendar::digits_value(t2) + (s[2] - 48));
}

/// A timestamp says so many seconds since 1970: those of the days before its date,
/// of its hour, of its minute, and its own. Where a point and three digits follow,
/// it says so many thousandths more.
pub proof fn law_a_timestamp_counts_the_seconds(
    b: Seq<u8>,
    century: int,
    year: int,
    mo: int,
    d: int,
    h: int,
    mi: int,
    s: int,
    tenth: int,
    rest: int,
)
    requires
        b.len() >= 19,
        spell_two(b, 0, century),
        spell_two(b, 2, year),
        spell_two(b, 5, mo),
        spell_two(b, 8, d),
        spell_two(b, 11, h),
        spell_two(b, 14, mi),
        spell_two(b, 17, s),
        calendar::is_date(100 * century + year, mo, d),
    ensures
        ({
            let n = calendar::day_number(100 * century + year, mo, d) * 86_400 + h * 3_600 + mi * 60
                + s;
            &&& calendar::moment(b) is Some
            &&& b.len() < 23 || b[19] != 46 ==> calendar::moment(b) == Some(
                num::sum(num::whole(n), num::ratio(0, 1000)),
            )
            &&& b.len() >= 23 && b[19] == 46 && 0 <= tenth <= 9 && b[20] == 48 + tenth && spell_two(
                b,
                21,
                rest,
            ) ==> calendar::moment(b) == Some(
                num::sum(num::whole(n), num::ratio(100 * tenth + rest, 1000)),
            )
        }),
{
    lemma_four(b, year, century);
    lemma_two(b, 5, mo);
    lemma_two(b, 8, d);
    lemma_two(b, 11, h);
    lemma_two(b, 14, mi);
    lemma_two(b, 17, s);
    if b.len() >= 23 && b[19] == 46 && 0 <= tenth <= 9 && b[20] == 48 + tenth && spell_two(
        b,
        21,
        rest,
    ) {
        lemma_three(b, rest, tenth);
    }
}

/// A number that is settled is the nearest whole one, the one further from zero of
/// two that are equally near.
pub proof fn law_settling_takes_the_nearest(x: Num, lo: int, hi: int)
    requires
        num::is_finite(x),
        lo <= 0 <= hi,
    ensures
        ({
            let (n, v, o) = (num::settled(x, lo, hi), num::value(x), num::one_units());
            &&& lo <= n <= hi
            &&& lo < n < hi ==> 2 * size(n * o - v) <= o
            &&& lo < n < hi && 2 * size(n * o - v) == o ==> size(n * o) > size(v)
        }),
{
    lemma_one_is_large();
    order::lemma_zero_is_nothing();
    order::lemma_order_of_values(x, num::zero());
    order::lemma_order_of_values(num::zero(), x);
    let (u, o) = (num::units(num::mag(x)), num::one_units());
    let n = (2 * u + o) / (2 * o);
    vstd::arithmetic::div_mod::lemma_fundamental_div_mod(2 * u + o, 2 * o);
    assert(2 * (n * o) <= 2 * u + o < 2 * (n * o) + 2 * o) by (nonlinear_arith)
        requires
            2 * u + o == (2 * o) * n + (2 * u + o) % (2 * o),
            0 <= (2 * u + o) % (2 * o) < 2 * o,
    ;
    assert(n >= 0) by (nonlinear_arith)
        requires
            2 * (n * o) + 2 * o > 2 * u + o,
            u >= 0,
            o > 0,
    ;
    assert((-n) * o == -(n * o)) by (nonlinear_arith);
    assert(n * o >= 0) by (nonlinear_arith)
        requires
            n >= 0,
            o > 0,
    ;
}

/// A number that is cut is the whole part of it.
pub proof fn law_cutting_drops_the_fraction(x: Num, lo: int, hi: int)
    requires
        num::is_finite(x),
        lo <= 0 <= hi,
    ensures
        ({
            let (n, v, o) = (num::cut(x, lo, hi), num::value(x), num::one_units());
            &&& lo <= n <= hi
            &&& lo < n < hi ==> size(n * o) <= size(v) < size(n * o) + o
            &&& n > 0 ==> v > 0
            &&& n < 0 ==> v < 0
        }),
{
    lemma_one_is_large();
    order::lemma_zero_is_nothing();
    order::lemma_order_of_values(x, num::zero());
    order::lemma_order_of_values(num::zero(), x);
    let (u, o) = (num::units(num::mag(x)), num::one_units());
    let n = u / o;
    vstd::arithmetic::div_mod::lemma_fundamental_div_mod(u, o);
    assert(n * o <= u < n * o + o) by (nonlinear_arith)
        requires
            u == o * n + u % o,
            0 <= u % o < o,
    ;
    assert(n >= 0) by (nonlinear_arith)
        requires
            n * o + o > u,
            u >= 0,
            o > 0,
    ;
    assert((-n) * o == -(n * o)) by (nonlinear_arith);
    assert(n * o >= 0) by (nonlinear_arith)
        requires
            n >= 0,
            o > 0,
    ;
    assert(n > 0 ==> u > 0) by (nonlinear_arith)
        requires
            n * o <= u,
            o > 0,
    ;
}

/// The seconds that a confirmation has left are those until its expiry, to the
/// nearest; it has passed once there are none.
pub proof fn law_seconds_left_count_to_the_expiry(expiry: Num, now: Num)
    requires
        num::is_finite(expiry),
        num::is_finite(now),
        num::is_finite(num::difference(expiry, now)),
        size(num::value(expiry) - num::value(now)) <= 1_000_000_000_000 * num::one_units(),
    ensures
        ({
            let d = num::value(expiry) - num::value(now);
            let left = preview::left_until(Some(expiry), Some(now));
            &&& left is Some
            &&& 2 * size(left->0 * num::one_units() - d) <= num::one_units() + size(d)
                / 1_000_000_000_000
            &&& preview::has_passed(Some(expiry), Some(now)) <==> left->0 <= 0
            &&& d >= num::one_units() ==> !preview::has_passed(Some(expiry), Some(now))
            &&& d <= 0 ==> preview::has_passed(Some(expiry), Some(now))
        }),
        preview::left_until(None, Some(now)) is None,
        preview::left_until(Some(expiry), None) is None,
        !preview::has_passed(None, Some(now)),
        !preview::has_passed(Some(expiry), None),
{
    lemma_one_is_large();
    let x = num::difference(expiry, now);
    law_a_difference_is_near(expiry, now);
    let (d, v, o) = (num::value(expiry) - num::value(now), num::value(x), num::one_units());
    let n = num::settled(x, i64::MIN as int, i64::MAX as int);
    law_settling_takes_the_nearest(x, i64::MIN as int, i64::MAX as int);
    lemma_settled_small(x);
    assert(d >= o ==> n > 0) by (nonlinear_arith)
        requires
            2 * size(n * o - v) <= o,
            size(0x20_0000_0000_0000 * (v - d)) <= size(d),
            o > 0,
    ;
    assert(d <= 0 ==> n <= 0) by (nonlinear_arith)
        requires
            2 * size(n * o - v) <= o,
            size(0x20_0000_0000_0000 * (v - d)) <= size(d),
            o > 0,
    ;
}

proof fn lemma_settled_small(x: Num)
    requires
        num::is_finite(x),
        size(num::value(x)) <= 2_000_000_000_000 * num::one_units(),
    ensures
        i64::MIN < num::settled(x, i64::MIN as int, i64::MAX as int) < i64::MAX,
{
    lemma_one_is_large();
    order::lemma_zero_is_nothing();
    order::lemma_order_of_values(x, num::zero());
    order::lemma_order_of_values(num::zero(), x);
    let (u, o) = (num::units(num::mag(x)), num::one_units());
    let n = (2 * u + o) / (2 * o);
    vstd::arithmetic::div_mod::lemma_fundamental_div_mod(2 * u + o, 2 * o);
    assert(0 <= n <= 2_000_000_000_001) by (nonlinear_arith)
        requires
            2 * u + o == (2 * o) * n + (2 * u + o) % (2 * o),
            0 <= (2 * u + o) % (2 * o) < 2 * o,
            0 <= u <= 2_000_000_000_000 * o,
            o > 0,
    ;
}

/// Whole seconds are left whole.
pub proof fn law_whole_seconds_left(expiry: int, now: int)
    requires
        exact::fits(expiry),
        exact::fits(now),
        exact::fits(expiry - now),
    ensures
        preview::left_until(Some(num::whole(expiry)), Some(num::whole(now))) == Some(expiry - now),
        preview::has_passed(Some(num::whole(expiry)), Some(num::whole(now))) <==> expiry <= now,
{
    exact::law_whole_numbers_subtract(expiry, now);
    let n = expiry - now;
    let x = num::whole(n);
    exact::law_whole_numbers_are_exact(n);
    lemma_one_is_large();
    let (u, o) = (num::units(num::mag(x)), num::one_units());
    let m = size(n);
    assert(u == m * o) by (nonlinear_arith)
        requires
            num::negative(x) ==> -u == n * o,
            !num::negative(x) ==> u == n * o,
            num::negative(x) == (n < 0),
            m == size(n),
    ;
    let k = (2 * u + o) / (2 * o);
    assert(k == m) by {
        assert(2 * u + o == m * (2 * o) + o) by (nonlinear_arith)
            requires
                u == m * o,
        ;
        vstd::arithmetic::div_mod::lemma_fundamental_div_mod_converse(2 * u + o, 2 * o, m, o);
    }
}

/// A span is shown in days from a day on, in hours from an hour on, and in minutes
/// below.
pub proof fn law_a_span_is_shown_in_its_unit(s: Num)
    requires
        num::is_finite(s),
    ensures
        ({
            let (n, places, unit) = screen::span_of(s);
            let (v, o) = (num::value(s), num::one_units());
            &&& v >= 86_400 * o ==> unit == " d"@ && places == 1 && is_off_by(
                num::value(n) * 86_400,
                v,
                size(v),
                86_400,
            )
            &&& 3_600 * o <= v < 86_400 * o ==> unit == " h"@ && places == 1 && is_off_by(
                num::value(n) * 3_600,
                v,
                size(v),
                3_600,
            )
            &&& v < 3_600 * o ==> unit == " min"@ && places == 0 && is_off_by(
                num::value(n) * 60,
                v,
                size(v),
                60,
            )
        }),
{
    exact::law_whole_numbers_are_exact(86_400);
    exact::law_whole_numbers_are_exact(3_600);
    order::lemma_order_of_values(num::whole(86_400), s);
    order::lemma_order_of_values(num::whole(3_600), s);
    lemma_part_near(s, 86_400);
    lemma_part_near(s, 3_600);
    lemma_part_near(s, 60);
}

/// The clock shows the hour and the minute of a day, in two digits each.
pub proof fn law_the_clock_shows_hours_and_minutes(hour: int, minute: int, second: int)
    requires
        0 <= hour < 24,
        0 <= minute < 60,
        0 <= second < 60,
    ensures
        ({
            let c = screen::clock(3_600 * hour + 60 * minute + second);
            &&& c.len() == 5
            &&& spelled(c.subrange(0, 2)) == hour
            &&& c[2] == ':'
            &&& spelled(c.subrange(3, 5)) == minute
        }),
{
    let secs = 3_600 * hour + 60 * minute + second;
    assert(secs / 3_600 == hour && (secs % 3_600) / 60 == minute);
    law_padded_digits_spell_their_number(hour as nat);
    law_padded_digits_spell_their_number(minute as nat);
    reveal_strlit(":");
    let c = screen::clock(secs);
    assert(c.subrange(0, 2) =~= text::two_digits(hour as nat));
    assert(c.subrange(3, 5) =~= text::two_digits(minute as nat));
}

/// A mark on the axis of a short chart is the time of day; on one of up to 400 days,
/// the day and the month; on a longer one, the month and the year.
pub proof fn law_the_axis_shows_what_matters(
    r: Seq<char>,
    t: Num,
    span: Num,
    y: int,
    m: int,
    d: int,
)
    requires
        screen::is_axis_label(r, t, span),
        screen::whole_seconds(t) >= 1_000_000_000,
        calendar::is_date(y, m, d),
        calendar::day_number(y, m, d) == screen::whole_seconds(t) / 86_400,
        num::is_finite(span),
    ensures
        num::value(span) <= 2 * 86_400 * num::one_units() ==> r == screen::clock(
            screen::whole_seconds(t) % 86_400,
        ),
        2 * 86_400 * num::one_units() < num::value(span) <= 400 * 86_400 * num::one_units() ==> r
            == text::two_digits(d as nat) + " "@ + screen::month_name(m),
        num::value(span) > 400 * 86_400 * num::one_units() ==> r == screen::month_name(m) + " "@
            + text::decimal(y),
{
    let secs = screen::whole_seconds(t);
    let (y2, m2, d2) = choose|y2: int, m2: int, d2: int| #[trigger]
        calendar::is_date(y2, m2, d2) && calendar::day_number(y2, m2, d2) == secs / 86_400 && r == (
        if num::at_most(span, num::product(num::whole(2), num::whole(86_400))) {
            screen::clock(secs % 86_400)
        } else if num::at_most(span, num::product(num::whole(400), num::whole(86_400))) {
            text::two_digits(d2 as nat) + " "@ + screen::month_name(m2)
        } else {
            screen::month_name(m2) + " "@ + text::decimal(y2)
        });
    calendar::law_dates_come_back(y, m, d, y2, m2, d2);
    exact::law_whole_numbers_multiply(2, 86_400);
    exact::law_whole_numbers_multiply(400, 86_400);
    exact::law_whole_numbers_are_exact(172_800);
    exact::law_whole_numbers_are_exact(34_560_000);
    order::lemma_order_of_values(span, num::whole(172_800));
    order::lemma_order_of_values(span, num::whole(34_560_000));
}

/// A full label is the date and the time of day: year, month and day, with hyphens
/// between, and the clock.
pub proof fn law_a_full_label_is_date_and_clock(r: Seq<char>, t: Num, y: int, m: int, d: int)
    requires
        screen::is_full_label(r, t),
        screen::whole_seconds(t) >= 1_000_000_000,
        calendar::is_date(y, m, d),
        calendar::day_number(y, m, d) == screen::whole_seconds(t) / 86_400,
        0 <= y < 10_000,
    ensures
        r.len() == 16,
        spelled(r.subrange(0, 4)) == y,
        r[4] == '-',
        spelled(r.subrange(5, 7)) == m,
        r[7] == '-',
        spelled(r.subrange(8, 10)) == d,
        r[10] == ' ',
        r.subrange(11, 16) == screen::clock(screen::whole_seconds(t) % 86_400),
{
    let secs = screen::whole_seconds(t);
    let (y2, m2, d2) = choose|y2: int, m2: int, d2: int| #[trigger]
        calendar::is_date(y2, m2, d2) && calendar::day_number(y2, m2, d2) == secs / 86_400 && r
            == text::four_digits(y2 as nat) + "-"@ + text::two_digits(m2 as nat) + "-"@
            + text::two_digits(d2 as nat) + " "@ + screen::clock(secs % 86_400);
    calendar::law_dates_come_back(y, m, d, y2, m2, d2);
    law_padded_digits_spell_their_number(y as nat);
    law_padded_digits_spell_their_number(m as nat);
    law_padded_digits_spell_their_number(d as nat);
    let k = secs % 86_400;
    law_the_clock_shows_hours_and_minutes(k / 3_600, (k % 3_600) / 60, k % 60);
    assert(3_600 * (k / 3_600) + 60 * ((k % 3_600) / 60) + k % 60 == k);
    lemma_label(
        text::four_digits(y as nat),
        text::two_digits(m as nat),
        text::two_digits(d as nat),
        screen::clock(k),
    );
}

proof fn lemma_label(a: Seq<char>, b: Seq<char>, c: Seq<char>, e: Seq<char>)
    requires
        a.len() == 4,
        b.len() == 2,
        c.len() == 2,
        e.len() == 5,
    ensures
        ({
            let r = a + "-"@ + b + "-"@ + c + " "@ + e;
            &&& r.len() == 16
            &&& r.subrange(0, 4) == a
            &&& r[4] == '-'
            &&& r.subrange(5, 7) == b
            &&& r[7] == '-'
            &&& r.subrange(8, 10) == c
            &&& r[10] == ' '
            &&& r.subrange(11, 16) == e
        }),
{
    reveal_strlit("-");
    reveal_strlit(" ");
    let r = a + "-"@ + b + "-"@ + c + " "@ + e;
    assert(r.subrange(0, 4) =~= a);
    assert(r.subrange(5, 7) =~= b);
    assert(r.subrange(8, 10) =~= c);
    assert(r.subrange(11, 16) =~= e);
}

/// The seconds until a moment are counted up: there are none once it has come, and
/// while it has not, each second that has begun counts.
pub proof fn law_the_wait_is_counted_up(until: u64, now: u64)
    ensures
        worker::seconds_until(None, now) is None,
        until <= now ==> worker::seconds_until(Some(until), now) is None,
        until > now ==> worker::seconds_until(Some(until), now) is Some,
        until > now ==> ({
            let s = worker::seconds_until(Some(until), now)->0;
            (s - 1) * 1_000_000_000 <= until - now < s * 1_000_000_000
        }),
{
}

/// A moment so many seconds on is that far on, as long as there is one.
pub proof fn law_a_moment_so_many_seconds_on(now: u64, secs: int)
    requires
        secs >= 0,
    ensures
        now + secs * 1_000_000_000 <= u64::MAX ==> worker::after(now, secs) == now + secs
            * 1_000_000_000,
        now + secs * 1_000_000_000 > u64::MAX ==> worker::after(now, secs) == u64::MAX,
{
}

/// The names of the months, in their order.
pub proof fn law_months_are_named_in_order(m: int)
    requires
        1 <= m <= 12,
    ensures
        screen::month_name(m) == "JanFebMarAprMayJunJulAugSepOctNovDec"@.subrange(
            3 * (m - 1),
            3 * m,
        ),
{
    reveal_strlit("JanFebMarAprMayJunJulAugSepOctNovDec");
    reveal_strlit("Jan");
    reveal_strlit("Feb");
    reveal_strlit("Mar");
    reveal_strlit("Apr");
    reveal_strlit("May");
    reveal_strlit("Jun");
    reveal_strlit("Jul");
    reveal_strlit("Aug");
    reveal_strlit("Sep");
    reveal_strlit("Oct");
    reveal_strlit("Nov");
    reveal_strlit("Dec");
    assert(screen::month_name(m) =~= "JanFebMarAprMayJunJulAugSepOctNovDec"@.subrange(
        3 * (m - 1),
        3 * m,
    ));
}

} // verus!
