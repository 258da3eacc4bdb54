//! Dates and points in time.

use crate::num::{self, Num};
use vstd::prelude::*;
use vstd::string::*;

verus! {

/// `a / b`, cut towards zero.
pub open spec fn cut_quotient(a: int, b: int) -> int {
    if a >= 0 {
        a / b
    } else {
        -((-a) / b)
    }
}

/// `a % b`, with the sign of `a`.
pub open spec fn cut_remainder(a: int, b: int) -> int {
    if a >= 0 {
        a % b
    } else {
        -((-a) % b)
    }
}

/// The days before the first of March of year `y`, counted from year 0.
pub open spec fn march(y: int) -> int {
    365 * y + y / 4 - y / 100 + y / 400
}

/// The days from the first of March to the start of the month `n` months on.
pub open spec fn months_on(n: int) -> int {
    cut_quotient(153 * n + 2, 5)
}

/// Days since the first of January 1970. A month outside a year is folded into
/// one, and a day outside its month runs on into the neighbouring ones.
pub open spec fn day_number(y: int, m: int, d: int) -> int {
    march(
        if m <= 2 {
            y - 1
        } else {
            y
        },
    ) + months_on(cut_remainder(m + 9, 12)) + d - 1 - 719_468
}

pub open spec fn leap(y: int) -> bool {
    y % 4 == 0 && (y % 100 != 0 || y % 400 == 0)
}

pub open spec fn days_in_month(y: int, m: int) -> int {
    if m == 2 {
        if leap(y) {
            29
        } else {
            28
        }
    } else if m == 4 || m == 6 || m == 9 || m == 11 {
        30
    } else {
        31
    }
}

/// A day of the Gregorian calendar.
pub open spec fn is_date(y: int, m: int, d: int) -> bool {
    1 <= m <= 12 && 1 <= d <= days_in_month(y, m)
}

fn quotient(a: i128, b: i128) -> (r: i128)
    requires
        b > 0,
        a > i128::MIN,
    ensures
        r == cut_quotient(a as int, b as int),
        -(if a < 0 {
            -a
        } else {
            a as int
        }) <= r <= (if a < 0 {
            -a
        } else {
            a as int
        }),
{
    if a >= 0 {
        proof {
            vstd::arithmetic::div_mod::lemma_div_is_ordered_by_denominator(a as int, 1, b as int);
        }
        a / b
    } else {
        proof {
            vstd::arithmetic::div_mod::lemma_div_is_ordered_by_denominator(-a, 1, b as int);
        }
        -((-a) / b)
    }
}

fn remainder(a: i128, b: i128) -> (r: i128)
    requires
        b > 0,
        a > i128::MIN,
    ensures
        r == cut_remainder(a as int, b as int),
        -b < r < b,
{
    if a >= 0 {
        a % b
    } else {
        -((-a) % b)
    }
}

/// The day number of a date, where it is one that can be held.
pub fn days_from_civil(y: i64, m: i64, d: i64) -> (r: i64)
    requires
        i64::MIN <= day_number(y as int, m as int, d as int) <= i64::MAX,
    ensures
        r == day_number(y as int, m as int, d as int),
{
    let y: i128 = if m <= 2 {
        y as i128 - 1
    } else {
        y as i128
    };
    let era: i128 = if y >= 0 {
        y / 400
    } else {
        -((399 - y) / 400)
    };
    let yoe: i128 = y - era * 400;
    proof {
        assert(0 <= yoe < 400);
        lemma_era(era as int, yoe as int);
    }
    let mp: i128 = remainder(m as i128 + 9, 12);
    let months: i128 = quotient(153 * mp + 2, 5);
    let doy: i128 = months + d as i128 - 1;
    let doe: i128 = yoe * 365 + yoe / 4 - yoe / 100 + doy;
    (era * 146_097 + doe - 719_468) as i64
}

/// A date comes before another exactly when its day number does.
pub proof fn law_day_numbers_order_dates(y: int, m: int, d: int, y2: int, m2: int, d2: int)
    requires
        is_date(y, m, d),
        is_date(y2, m2, d2),
    ensures
        (day_number(y, m, d) < day_number(y2, m2, d2)) == (y < y2 || (y == y2 && (m < m2 || (m
            == m2 && d < d2)))),
        (day_number(y, m, d) == day_number(y2, m2, d2)) == (y == y2 && m == m2 && d == d2),
{
    lemma_year_fits(y, m, d);
    lemma_year_fits(y2, m2, d2);
    lemma_months(y, m, d);
    lemma_months(y2, m2, d2);
    if y < y2 {
        lemma_new_year(y + 1, y2);
    } else if y2 < y {
        lemma_new_year(y2 + 1, y);
    } else {
        lemma_within_year(y, m, d, m2, d2);
    }
}

/// The day number of the first of January of a year.
pub open spec fn new_year(y: int) -> int {
    march(y - 1) + 306 - 719_468
}

proof fn lemma_new_year(a: int, b: int)
    requires
        a <= b,
    ensures
        new_year(a) <= new_year(b),
    decreases b - a,
{
    if a < b {
        lemma_new_year(a, b - 1);
        lemma_next_year(b - 1);
    }
}

proof fn lemma_next_year(y: int)
    ensures
        new_year(y + 1) == new_year(y) + (if leap(y) {
            366int
        } else {
            365int
        }),
{
    let q = y / 400;
    let r = y % 400;
    assert(y == 400 * q + r);
    assert(y / 4 == 100 * q + r / 4);
    assert(y / 100 == 4 * q + r / 100);
    assert(y % 4 == r % 4);
    assert(y % 100 == r % 100);
    let p = y - 1;
    if r > 0 {
        assert(p / 4 == 100 * q + (r - 1) / 4);
        assert(p / 100 == 4 * q + (r - 1) / 100);
        assert(p / 400 == q);
    } else {
        assert(p / 4 == 100 * q - 1);
        assert(p / 100 == 4 * q - 1);
        assert(p / 400 == q - 1);
    }
}

/// The days of a year before one of its months.
pub open spec fn before_month(y: int, m: int) -> int {
    let feb = if leap(y) {
        29int
    } else {
        28int
    };
    if m == 1 {
        0
    } else if m == 2 {
        31
    } else if m == 3 {
        31 + feb
    } else if m == 4 {
        62 + feb
    } else if m == 5 {
        92 + feb
    } else if m == 6 {
        123 + feb
    } else if m == 7 {
        153 + feb
    } else if m == 8 {
        184 + feb
    } else if m == 9 {
        215 + feb
    } else if m == 10 {
        245 + feb
    } else if m == 11 {
        276 + feb
    } else {
        306 + feb
    }
}

/// The day number counts whole years, then months, then days.
pub proof fn lemma_months(y: int, m: int, d: int)
    requires
        1 <= m <= 12,
    ensures
        day_number(y, m, d) == new_year(y) + before_month(y, m) + d - 1,
{
    lemma_next_year(y);
    assert(new_year(y + 1) == march(y) + 306 - 719_468);
    if m <= 2 {
        assert(cut_remainder(m + 9, 12) == m + 9);
    } else {
        assert(cut_remainder(m + 9, 12) == m - 3);
    }
}

proof fn lemma_year_fits(y: int, m: int, d: int)
    requires
        is_date(y, m, d),
    ensures
        new_year(y) <= day_number(y, m, d) < new_year(y + 1),
{
    lemma_months(y, m, d);
    lemma_next_year(y);
}

proof fn lemma_within_year(y: int, m: int, d: int, m2: int, d2: int)
    requires
        is_date(y, m, d),
        is_date(y, m2, d2),
    ensures
        (before_month(y, m) + d < before_month(y, m2) + d2) == (m < m2 || (m == m2 && d < d2)),
        (before_month(y, m) + d == before_month(y, m2) + d2) == (m == m2 && d == d2),
{
}

/// The year of the era, for a day in one of its centuries but the very last day.
proof fn lemma_year_of_century(doe: int, c: int)
    requires
        0 <= c <= 3,
        36_524 * c <= doe < 36_524 * (c + 1),
    ensures
        ({
            let yoe = (doe - doe / 1460 + c) / 365;
            let doy = doe - (365 * yoe + yoe / 4 - yoe / 100);
            &&& 100 * c <= yoe < 100 * (c + 1)
            &&& 0 <= doy <= 365
            &&& doy == 365 ==> (yoe + 1) % 4 == 0 && (yoe + 1) % 100 != 0
        }),
{
    let yoe = (doe - doe / 1460 + c) / 365;
    assert(100 * c <= yoe < 100 * (c + 1));
    assert(yoe / 100 == c);
}

/// The year of the era, of four hundred years from March to March, that a day of
/// the era lies in, and the day of that year.
proof fn lemma_year_of_era(doe: int)
    requires
        0 <= doe < 146_097,
    ensures
        ({
            let yoe = (doe - doe / 1460 + doe / 36_524 - doe / 146_096) / 365;
            let doy = doe - (365 * yoe + yoe / 4 - yoe / 100);
            &&& 0 <= yoe < 400
            &&& 0 <= doy <= 365
            &&& doy == 365 ==> leap(yoe + 1)
        }),
{
    let c = doe / 36_524;
    if doe == 146_096 {
    } else {
        assert(doe / 146_096 == 0);
        lemma_year_of_century(doe, c);
        let yoe = (doe - doe / 1460 + c) / 365;
        assert(leap(yoe + 1) <== (yoe + 1) % 4 == 0 && (yoe + 1) % 100 != 0);
    }
}

/// The length of the month that is `mp` months on from March, February taken at
/// its shortest.
spec fn length_on(mp: int) -> int {
    if mp == 11 {
        28
    } else if mp == 1 || mp == 3 || mp == 6 || mp == 8 {
        30
    } else {
        31
    }
}

/// The month that a day of a year from March lies in, and the day of the month.
proof fn lemma_month_of_year(doy: int)
    requires
        0 <= doy <= 365,
    ensures
        ({
            let mp = (5 * doy + 2) / 153;
            let d = doy - (153 * mp + 2) / 5 + 1;
            &&& 0 <= mp <= 11
            &&& 1 <= d
            &&& doy < 365 ==> d <= length_on(mp)
            &&& doy == 365 ==> mp == 11 && d == 29
        }),
{
}

proof fn lemma_era(era: int, yoe: int)
    requires
        0 <= yoe < 400,
    ensures
        march(yoe + era * 400) == era * 146_097 + 365 * yoe + yoe / 4 - yoe / 100,
        leap(yoe + era * 400 + 1) == leap(yoe + 1),
{
    let y = yoe + era * 400;
    assert(y / 4 == 100 * era + yoe / 4);
    assert(y / 100 == 4 * era + yoe / 100);
    assert(y / 400 == era);
    assert((y + 1) % 4 == (yoe + 1) % 4);
    assert((y + 1) % 100 == (yoe + 1) % 100);
    assert((y + 1) % 400 == (yoe + 1) % 400);
}

/// A day of a year from March as a date.
proof fn lemma_date(y: int, doy: int, mp: int, d: int, m: int)
    requires
        0 <= doy <= 365,
        doy == 365 ==> leap(y + 1),
        mp == (5 * doy + 2) / 153,
        d == doy - (153 * mp + 2) / 5 + 1,
        m == if mp < 10 {
            mp + 3
        } else {
            mp - 9
        },
    ensures
        is_date(
            if m <= 2 {
                y + 1
            } else {
                y
            },
            m,
            d,
        ),
        day_number(
            if m <= 2 {
                y + 1
            } else {
                y
            },
            m,
            d,
        ) == march(y) + doy - 719_468,
{
    lemma_month_of_year(doy);
    assert(cut_remainder(m + 9, 12) == mp);
}

/// The date of a day number.
pub fn civil_from_days(z: i64) -> (r: (i64, i64, i64))
    ensures
        is_date(r.0 as int, r.1 as int, r.2 as int),
        day_number(r.0 as int, r.1 as int, r.2 as int) == z,
{
    let z: i128 = z as i128 + 719_468;
    let era: i128 = if z >= 0 {
        z / 146_097
    } else {
        -((146_096 - z) / 146_097)
    };
    let doe: i128 = z - era * 146_097;
    assert(0 <= doe < 146_097);
    proof {
        lemma_year_of_era(doe as int);
    }
    let yoe: i128 = (doe - doe / 1460 + doe / 36_524 - doe / 146_096) / 365;
    let y: i128 = yoe + era * 400;
    let doy: i128 = doe - (365 * yoe + yoe / 4 - yoe / 100);
    proof {
        lemma_month_of_year(doy as int);
        lemma_era(era as int, yoe as int);
    }
    let mp: i128 = (5 * doy + 2) / 153;
    let d: i128 = doy - (153 * mp + 2) / 5 + 1;
    let m: i128 = if mp < 10 {
        mp + 3
    } else {
        mp - 9
    };
    proof {
        lemma_date(y as int, doy as int, mp as int, d as int, m as int);
    }
    let year: i128 = if m <= 2 {
        y + 1
    } else {
        y
    };
    (year as i64, m as i64, d as i64)
}

/// Turning a date into its day number and back gives the date.
pub proof fn law_dates_come_back(y: int, m: int, d: int, y2: int, m2: int, d2: int)
    requires
        is_date(y, m, d),
        is_date(y2, m2, d2),
        day_number(y2, m2, d2) == day_number(y, m, d),
    ensures
        (y2, m2, d2) == (y, m, d),
{
    law_day_numbers_order_dates(y, m, d, y2, m2, d2);
}

/// Whether every byte is a decimal digit, and there is one.
pub open spec fn all_digits(b: Seq<u8>) -> bool {
    b.len() > 0 && forall|i: int| 0 <= i < b.len() ==> 48 <= #[trigger] b[i] <= 57
}

/// The number that decimal digits stand for.
pub open spec fn digits_value(b: Seq<u8>) -> int
    decreases b.len(),
{
    if b.len() == 0 {
        0
    } else {
        10 * digits_value(b.drop_last()) + (b.last() - 48)
    }
}

/// The number that a text of digits stands for, which may begin with a sign.
pub open spec fn whole_number(b: Seq<u8>) -> Option<int> {
    if all_digits(b) {
        Some(digits_value(b))
    } else if b.len() > 0 && (b[0] == 43 || b[0] == 45) && all_digits(b.drop_first()) {
        Some(
            if b[0] == 45 {
                -digits_value(b.drop_first())
            } else {
                digits_value(b.drop_first())
            },
        )
    } else {
        None
    }
}

proof fn lemma_digits_bound(b: Seq<u8>)
    requires
        b.len() <= 4,
        forall|i: int| 0 <= i < b.len() ==> 48 <= #[trigger] b[i] <= 57,
    ensures
        0 <= digits_value(b) <= 9999,
{
    reveal_with_fuel(digits_value, 5);
}

fn digits_in(b: &[u8], from: usize, to: usize) -> (r: Option<i64>)
    requires
        from <= to <= b@.len(),
        to - from <= 4,
    ensures
        (match r {
            Some(n) => all_digits(b@.subrange(from as int, to as int)) && n == digits_value(
                b@.subrange(from as int, to as int),
            ) && 0 <= n <= 9999,
            None => !all_digits(b@.subrange(from as int, to as int)),
        }),
{
    if from == to {
        return None;
    }
    let ghost s = b@.subrange(from as int, to as int);
    let mut n: i64 = 0;
    for i in from..to
        invariant
            from < to <= b@.len(),
            to - from <= 4,
            s == b@.subrange(from as int, to as int),
            n == digits_value(s.take(i - from)),
            forall|k: int| 0 <= k < i - from ==> 48 <= #[trigger] s[k] <= 57,
    {
        let c: u8 = b[i];
        assert(s[i - from] == c);
        if c < 48 || c > 57 {
            return None;
        }
        proof {
            let next = s.take(i - from + 1);
            assert(next.drop_last() =~= s.take(i - from));
            lemma_digits_bound(s.take(i - from));
        }
        n = 10 * n + (c - 48) as i64;
    }
    proof {
        assert(s.take(to - from) =~= s);
        lemma_digits_bound(s);
    }
    Some(n)
}

/// The number that stands in some of the bytes.
fn number_in(b: &[u8], from: usize, to: usize) -> (r: Option<i64>)
    requires
        from < to <= b@.len(),
        to - from <= 4,
    ensures
        (match r {
            Some(n) => whole_number(b@.subrange(from as int, to as int)) == Some(n as int),
            None => whole_number(b@.subrange(from as int, to as int)) is None,
        }),
        r matches Some(n) ==> -9999 <= n <= 9999,
{
    let ghost s = b@.subrange(from as int, to as int);
    assert(s[0] == b@[from as int]);
    match digits_in(b, from, to) {
        Some(n) => Some(n),
        None => {
            assert(s.drop_first() =~= b@.subrange(from + 1, to as int));
            if b[from] == 45 {
                match digits_in(b, from + 1, to) {
                    Some(n) => Some(-n),
                    None => None,
                }
            } else if b[from] == 43 {
                digits_in(b, from + 1, to)
            } else {
                None
            }
        },
    }
}

/// The number in bytes `from` to `to`.
pub open spec fn number_between(b: Seq<u8>, from: int, to: int) -> Option<int> {
    if to <= b.len() {
        whole_number(b.subrange(from, to))
    } else {
        None
    }
}

/// The milliseconds behind the point, and none where there is no point.
pub open spec fn millis(b: Seq<u8>) -> int {
    match number_between(b, 20, 23) {
        Some(n) => if b[19] == 46 {
            n
        } else {
            0
        },
        None => 0,
    }
}

/// The seconds since 1970 of a time such as `2026-09-17T18:14:28.493Z`, given as
/// its bytes. What stands between the numbers is not looked at.
pub open spec fn moment(b: Seq<u8>) -> Option<Num> {
    match (
        number_between(b, 0, 4),
        number_between(b, 5, 7),
        number_between(b, 8, 10),
        number_between(b, 11, 13),
        number_between(b, 14, 16),
        number_between(b, 17, 19),
    ) {
        (Some(y), Some(mo), Some(d), Some(h), Some(mi), Some(s)) => Some(
            num::sum(
                num::whole(day_number(y, mo, d) * 86_400 + h * 3600 + mi * 60 + s),
                num::quotient(num::whole(millis(b)), num::whole(1000)),
            ),
        ),
        _ => None,
    }
}

proof fn lemma_day_number_bound(y: int, m: int, d: int)
    requires
        -9999 <= y <= 9999,
        -9999 <= m <= 9999,
        -9999 <= d <= 9999,
    ensures
        -10_000_000 <= day_number(y, m, d) <= 10_000_000,
{
}

/// The point in time that a timestamp stands for, in seconds since 1970.
pub fn parse_iso8601(s: &str) -> (r: Option<Num>)
    ensures
        r == moment(s.spec_bytes()),
{
    let b = s.as_bytes();
    if b.len() < 19 {
        return None;
    }
    let y: i64 = number_in(b, 0, 4)?;
    let mo: i64 = number_in(b, 5, 7)?;
    let d: i64 = number_in(b, 8, 10)?;
    let h: i64 = number_in(b, 11, 13)?;
    let mi: i64 = number_in(b, 14, 16)?;
    let sec: i64 = number_in(b, 17, 19)?;
    let thousandths: i64 = if b.len() >= 23 && b[19] == 46 {
        match number_in(b, 20, 23) {
            Some(n) => n,
            None => 0,
        }
    } else {
        0
    };
    proof {
        lemma_day_number_bound(y as int, mo as int, d as int);
    }
    let days: i64 = days_from_civil(y, mo, d);
    let whole: Num = Num::from_i64(days * 86_400 + h * 3600 + mi * 60 + sec);
    Some(whole.plus(Num::from_i64(thousandths).over(Num::from_i64(1000))))
}

} // verus!
