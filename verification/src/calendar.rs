//! Calendar dates in the Gregorian calendar, counted in days from 1970-01-01.

use vstd::prelude::*;

verus! {

/// Whether year `y` has a 29th of February.
pub open spec fn is_leap_year(y: int) -> bool {
    y % 4 == 0 && (y % 100 != 0 || y % 400 == 0)
}

/// The number of days of year `y`.
pub open spec fn days_in_year(y: int) -> int {
    if is_leap_year(y) {
        366
    } else {
        365
    }
}

/// The number of days of month `m` (January is 1) in year `y`.
pub open spec fn days_in_month(y: int, m: int) -> int {
    if m == 2 {
        if is_leap_year(y) {
            29
        } else {
            28
        }
    } else if m == 4 || m == 6 || m == 9 || m == 11 {
        30
    } else {
        31
    }
}

/// The number of days from 1970-01-01 to the first of January of year `y`.
pub open spec fn days_before_year(y: int) -> int
    decreases y - 1970,
{
    if y <= 1970 {
        0
    } else {
        days_before_year(y - 1) + days_in_year(y - 1)
    }
}

/// The number of days of year `y` that come before month `m`.
pub open spec fn days_before_month(y: int, m: int) -> int
    decreases m,
{
    if m <= 1 {
        0
    } else {
        days_before_month(y, m - 1) + days_in_month(y, m - 1)
    }
}

/// Whether year `y`, month `m`, day `d` is a date on or after 1970-01-01.
pub open spec fn is_date(y: int, m: int, d: int) -> bool {
    &&& 1970 <= y
    &&& 1 <= m <= 12
    &&& 1 <= d <= days_in_month(y, m)
}

/// The number of days from 1970-01-01 to a date.
pub open spec fn day_number(y: int, m: int, d: int) -> int {
    days_before_year(y) + days_before_month(y, m) + d - 1
}

/// The date that is `days` days after 1970-01-01.
pub open spec fn date_of(days: int) -> (int, int, int) {
    choose|date: (int, int, int)|
        #![trigger is_date(date.0, date.1, date.2)]
        is_date(date.0, date.1, date.2) && day_number(date.0, date.1, date.2) == days
}

/// The number of leap years in the years 1 to `y`.
spec fn leap_days(y: int) -> int {
    y / 4 - y / 100 + y / 400
}

proof fn lemma_leap_days_step(y: int)
    ensures
        leap_days(y) == leap_days(y - 1) + if is_leap_year(y) {
            1int
        } else {
            0int
        },
{
}

proof fn lemma_days_before_year(y: int)
    requires
        1970 <= y,
    ensures
        days_before_year(y) == 365 * y + leap_days(y - 1) - 719527,
    decreases y,
{
    if y > 1970 {
        lemma_days_before_year(y - 1);
        lemma_leap_days_step(y - 1);
    }
}

proof fn lemma_days_before_month(y: int, m: int)
    requires
        1 <= m <= 13,
    ensures
        days_before_month(y, m) == if m == 1 {
            0int
        } else if m == 2 {
            31int
        } else {
            (153 * (m - 3) + 2) / 5 + 59 + if is_leap_year(y) {
                1int
            } else {
                0int
            }
        },
    decreases m,
{
    if m > 1 {
        lemma_days_before_month(y, m - 1);
    }
}

/// The number of days in the first `k` years, each counted from the first of
/// March, of a cycle of 400 years.
spec fn cycle_days(k: int) -> int {
    365 * k + leap_days(k)
}

/// The year of the cycle, as the quotient picks it, is the one that holds the day.
#[verifier::rlimit(40)]
proof fn lemma_year_of_cycle(doe: int)
    requires
        0 <= doe < 146097,
    ensures
        ({
            let yoe = (doe - doe / 1460 + doe / 36524 - doe / 146096) / 365;
            &&& 0 <= yoe < 400
            &&& cycle_days(yoe) <= doe < cycle_days(yoe + 1)
        }),
{
}

proof fn lemma_whole_cycles(era: int, yoe: int)
    requires
        0 <= era,
        0 <= yoe <= 400,
    ensures
        cycle_days(400 * era + yoe) == 146097 * era + cycle_days(yoe),
        is_leap_year(400 * era + yoe) == is_leap_year(yoe),
{
    assert((400 * era + yoe) / 4 == 100 * era + yoe / 4);
    assert((400 * era + yoe) / 100 == 4 * era + yoe / 100);
    assert((400 * era + yoe) / 400 == era + yoe / 400);
}

/// The month that holds day `doy` of a year counted from the first of March.
#[verifier::rlimit(40)]
proof fn lemma_month_of_year(y: int, doy: int)
    requires
        0 <= doy < 365 + if is_leap_year(y + 1) {
            1int
        } else {
            0int
        },
    ensures
        ({
            let mp = (5 * doy + 2) / 153;
            let d = doy - (153 * mp + 2) / 5 + 1;
            &&& 0 <= mp < 12
            &&& (153 * mp + 2) / 5 <= doy
            &&& mp < 10 ==> 1 <= d <= days_in_month(y, mp + 3)
            &&& mp < 10 ==> days_before_month(y, mp + 3) + d - 1 == doy + days_before_month(y, 3)
            &&& mp >= 10 ==> 1 <= d <= days_in_month(y + 1, mp - 9)
            &&& mp >= 10 ==> days_before_month(y + 1, mp - 9) + d - 1 == doy - 306
        }),
{
    let mp = (5 * doy + 2) / 153;
    if mp < 10 {
        lemma_days_before_month(y, mp + 3);
        lemma_days_before_month(y, 3);
    } else {
        lemma_days_before_month(y + 1, mp - 9);
    }
}

/// The parts that `days_to_ymd` computes make a date, and the right one.
#[verifier::rlimit(40)]
proof fn lemma_date_of_parts(days: int, era: int, yoe: int, doy: int)
    requires
        0 <= days,
        0 <= era,
        0 <= yoe < 400,
        0 <= doy,
        cycle_days(yoe) + doy < cycle_days(yoe + 1),
        days + 719468 == 146097 * era + cycle_days(yoe) + doy,
    ensures
        ({
            let mp = (5 * doy + 2) / 153;
            let d = doy - (153 * mp + 2) / 5 + 1;
            let m = if mp < 10 {
                mp + 3
            } else {
                mp - 9
            };
            let y = 400 * era + yoe + if m <= 2 {
                1int
            } else {
                0int
            };
            &&& 0 <= mp < 12
            &&& (153 * mp + 2) / 5 <= doy
            &&& is_date(y, m, d)
            &&& day_number(y, m, d) == days
        }),
{
    let march_year = 400 * era + yoe;
    lemma_whole_cycles(era, yoe);
    lemma_whole_cycles(era, yoe + 1);
    lemma_leap_days_step(yoe + 1);
    lemma_leap_days_step(march_year);
    lemma_month_of_year(march_year, doy);
    lemma_days_before_month(march_year, 3);
    assert(march_year >= 1969) by {
        if march_year < 1969 {
            lemma_cycle_days_monotonic(march_year + 1, 1969);
        }
    }
    if march_year >= 1970 {
        lemma_days_before_year(march_year);
    }
    lemma_days_before_year(march_year + 1);
}

proof fn lemma_cycle_days_monotonic(a: int, b: int)
    requires
        a <= b,
    ensures
        cycle_days(a) <= cycle_days(b),
    decreases b - a,
{
    if a < b {
        lemma_cycle_days_monotonic(a, b - 1);
        lemma_leap_days_step(b);
    }
}

/// The date that is `days` days after 1970-01-01, as year, month and day.
pub fn days_to_ymd(days: u64) -> (date: (u64, u64, u64))
    requires
        days + 719468 <= u64::MAX,
    ensures
        is_date(date.0 as int, date.1 as int, date.2 as int),
        day_number(date.0 as int, date.1 as int, date.2 as int) == days,
        (date.0 as int, date.1 as int, date.2 as int) == date_of(days as int),
{
    // Years are counted from the first of March, in cycles of 400 years.
    let z: u64 = days + 719468;
    let era: u64 = z / 146097;
    let doe: u64 = z - era * 146097;
    proof {
        lemma_year_of_cycle(doe as int);
    }
    let yoe: u64 = (doe - doe / 1460 + doe / 36524 - doe / 146096) / 365;
    let y: u64 = yoe + era * 400;
    let doy: u64 = doe - (365 * yoe + yoe / 4 - yoe / 100);
    proof {
        lemma_date_of_parts(days as int, era as int, yoe as int, doy as int);
    }
    let mp: u64 = (5 * doy + 2) / 153;
    let d: u64 = doy - (153 * mp + 2) / 5 + 1;
    let m: u64 = if mp < 10 {
        mp + 3
    } else {
        mp - 9
    };
    let y: u64 = if m <= 2 {
        y + 1
    } else {
        y
    };
    proof {
        law_every_day_has_a_date(days as int);
        let date = date_of(days as int);
        law_day_number_is_injective(y as int, m as int, d as int, date.0, date.1, date.2);
    }
    (y, m, d)
}

proof fn lemma_within_year(y: int, m: int, d: int)
    requires
        is_date(y, m, d),
    ensures
        days_before_year(y) <= day_number(y, m, d) < days_before_year(y + 1),
{
    lemma_days_before_month(y, m);
}

proof fn lemma_days_before_year_monotonic(a: int, b: int)
    requires
        a <= b,
    ensures
        days_before_year(a) <= days_before_year(b),
    decreases b - a,
{
    if a < b {
        lemma_days_before_year_monotonic(a, b - 1);
    }
}

proof fn lemma_days_before_month_monotonic(y: int, a: int, b: int)
    requires
        a <= b,
    ensures
        days_before_month(y, a) <= days_before_month(y, b),
    decreases b - a,
{
    if a < b {
        lemma_days_before_month_monotonic(y, a, b - 1);
    }
}

/// Dates are numbered in the order of the calendar: a later date, by year,
/// then month, then day, has the greater number.
pub proof fn law_day_number_increases(y1: int, m1: int, d1: int, y2: int, m2: int, d2: int)
    requires
        is_date(y1, m1, d1),
        is_date(y2, m2, d2),
        y1 < y2 || (y1 == y2 && (m1 < m2 || (m1 == m2 && d1 < d2))),
    ensures
        day_number(y1, m1, d1) < day_number(y2, m2, d2),
{
    if y1 < y2 {
        lemma_within_year(y1, m1, d1);
        lemma_within_year(y2, m2, d2);
        lemma_days_before_year_monotonic(y1 + 1, y2);
    } else if m1 < m2 {
        lemma_days_before_month_monotonic(y1, m1 + 1, m2);
    }
}

/// No two dates have the same number, so a number of days belongs to one date only.
pub proof fn law_day_number_is_injective(y1: int, m1: int, d1: int, y2: int, m2: int, d2: int)
    requires
        is_date(y1, m1, d1),
        is_date(y2, m2, d2),
        day_number(y1, m1, d1) == day_number(y2, m2, d2),
    ensures
        y1 == y2,
        m1 == m2,
        d1 == d2,
{
    if y1 < y2 || (y1 == y2 && (m1 < m2 || (m1 == m2 && d1 < d2))) {
        law_day_number_increases(y1, m1, d1, y2, m2, d2);
    } else if y2 < y1 || (y1 == y2 && (m2 < m1 || (m1 == m2 && d2 < d1))) {
        law_day_number_increases(y2, m2, d2, y1, m1, d1);
    }
}

/// Every day from 1970-01-01 on has a date.
pub proof fn law_every_day_has_a_date(days: int)
    requires
        0 <= days,
    ensures
        is_date(date_of(days).0, date_of(days).1, date_of(days).2),
        day_number(date_of(days).0, date_of(days).1, date_of(days).2) == days,
{
    let z = days + 719468;
    let era = z / 146097;
    let doe = z % 146097;
    lemma_year_of_cycle(doe);
    let yoe = (doe - doe / 1460 + doe / 36524 - doe / 146096) / 365;
    let doy = doe - cycle_days(yoe);
    lemma_date_of_parts(days, era, yoe, doy);
    let mp = (5 * doy + 2) / 153;
    let d = doy - (153 * mp + 2) / 5 + 1;
    let m = if mp < 10 {
        mp + 3
    } else {
        mp - 9
    };
    let y = 400 * era + yoe + if m <= 2 {
        1int
    } else {
        0int
    };
    let date = (y, m, d);
    assert(is_date(date.0, date.1, date.2));
}

/// Dates go on as in the calendar: 1970-01-01 is day 0, and each day is
/// followed by the next one of its month or, after the last one, by the first
/// of the next month. April, June, September and November have 30 days,
/// February has 28, or 29 in every fourth year but for three in four of the
/// years that end a century, and the other months have 31.
pub proof fn law_each_day_follows_the_one_before(days: int)
    requires
        0 <= days,
    ensures
        date_of(0) == (1970int, 1int, 1int),
        ({
            let (y, m, d) = date_of(days);
            let leap = y % 400 == 0 || (y % 4 == 0 && y % 100 != 0);
            let last = if m == 2 && leap {
                29int
            } else if m == 2 {
                28int
            } else if m == 4 || m == 6 || m == 9 || m == 11 {
                30int
            } else {
                31int
            };
            &&& 1 <= m <= 12
            &&& 1 <= d <= last
            &&& date_of(days + 1) == if d < last {
                (y, m, d + 1)
            } else if m < 12 {
                (y, m + 1, 1int)
            } else {
                (y + 1, 1int, 1int)
            }
        }),
{
    law_every_day_has_a_date(0);
    law_every_day_has_a_date(days);
    law_every_day_has_a_date(days + 1);
    let first = date_of(0);
    law_day_number_is_injective(first.0, first.1, first.2, 1970, 1, 1);
    let (y, m, d) = date_of(days);
    let next = date_of(days + 1);
    lemma_days_before_month(y, m);
    if d < days_in_month(y, m) {
        law_day_number_is_injective(next.0, next.1, next.2, y, m, d + 1);
    } else if m < 12 {
        assert(is_date(y, m + 1, 1));
        law_day_number_is_injective(next.0, next.1, next.2, y, m + 1, 1);
    } else {
        assert(is_date(y + 1, 1, 1));
        law_day_number_is_injective(next.0, next.1, next.2, y + 1, 1, 1);
    }
}

/// The year 10000 begins on day 2932897.
pub proof fn law_year_10000(days: int)
    requires
        0 <= days,
    ensures
        date_of(days).0 <= 9999 <==> days < 2932897,
{
    law_every_day_has_a_date(days);
    let (y, m, d) = date_of(days);
    lemma_within_year(y, m, d);
    lemma_days_before_year(10000);
    if y <= 9999 {
        lemma_days_before_year_monotonic(y + 1, 10000);
    } else {
        lemma_days_before_year_monotonic(10000, y);
    }
}

} // verus!
