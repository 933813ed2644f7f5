//! The proleptic Gregorian calendar as used by the date library underneath:
//! day numbers count from 0001-01-01, which is day 1.
use vstd::prelude::*;

verus! {

pub open spec fn is_leap_year(y: int) -> bool {
    y % 4 == 0 && (y % 100 != 0 || y % 400 == 0)
}

pub open spec fn days_in_month(y: int, m: int) -> int {
    if m == 2 {
        if is_leap_year(y) {
            29
        } else {
            28
        }
    } else if m == 4 || m == 6 || m == 9 || m == 11 {
        30
    } else {
        31
    }
}

/// Days of the year that come before the first of month `m`.
pub open spec fn days_before_month(y: int, m: int) -> int {
    let base: int = if m <= 1 {
        0
    } else if m == 2 {
        31
    } else if m == 3 {
        59
    } else if m == 4 {
        90
    } else if m == 5 {
        120
    } else if m == 6 {
        151
    } else if m == 7 {
        181
    } else if m == 8 {
        212
    } else if m == 9 {
        243
    } else if m == 10 {
        273
    } else if m == 11 {
        304
    } else {
        334
    };
    base + if m > 2 && is_leap_year(y) {
        1int
    } else {
        0int
    }
}

/// The first and last year that a date can hold.
pub open spec fn min_year() -> int {
    -262143
}

pub open spec fn max_year() -> int {
    262142
}

pub open spec fn valid_civil(y: int, m: int, d: int) -> bool {
    &&& min_year() <= y <= max_year()
    &&& 1 <= m <= 12
    &&& 1 <= d <= days_in_month(y, m)
}

/// Day number of a civil date: 0001-01-01 is day 1.
pub open spec fn days_from_ce(y: int, m: int, d: int) -> int {
    let p = y - 1;
    365 * p + p / 4 - p / 100 + p / 400 + days_before_month(y, m) + d
}

/// Day numbers of the first and the last date that can be held.
pub open spec fn min_day() -> int {
    -95746129
}

pub open spec fn max_day() -> int {
    95745399
}

pub open spec fn valid_day(day: int) -> bool {
    min_day() <= day <= max_day()
}

/// The civil date (year, month, day) of a day number.
pub open spec fn civil_of(day: int) -> (int, int, int) {
    choose|c: (int, int, int)| valid_civil(c.0, c.1, c.2) && days_from_ce(c.0, c.1, c.2) == day
}

/// Lexicographic order on civil dates.
pub open spec fn civil_lt(a: (int, int, int), b: (int, int, int)) -> bool {
    a.0 < b.0 || (a.0 == b.0 && (a.1 < b.1 || (a.1 == b.1 && a.2 < b.2)))
}

proof fn lemma_floor_step(p: int)
    ensures
        (p + 1) / 4 - p / 4 == if (p + 1) % 4 == 0 {
            1int
        } else {
            0int
        },
        (p + 1) / 100 - p / 100 == if (p + 1) % 100 == 0 {
            1int
        } else {
            0int
        },
        (p + 1) / 400 - p / 400 == if (p + 1) % 400 == 0 {
            1int
        } else {
            0int
        },
{
    vstd::arithmetic::div_mod::lemma_fundamental_div_mod(p, 4);
    vstd::arithmetic::div_mod::lemma_fundamental_div_mod(p + 1, 4);
    vstd::arithmetic::div_mod::lemma_fundamental_div_mod(p, 100);
    vstd::arithmetic::div_mod::lemma_fundamental_div_mod(p + 1, 100);
    vstd::arithmetic::div_mod::lemma_fundamental_div_mod(p, 400);
    vstd::arithmetic::div_mod::lemma_fundamental_div_mod(p + 1, 400);
}

/// The first day of year `y + 1` follows the last day of year `y`.
proof fn lemma_year_step(y: int)
    ensures
        days_from_ce(y + 1, 1, 1) == days_from_ce(y, 12, 31) + 1,
{
    lemma_floor_step(y - 1);
}

proof fn lemma_month_step(y: int, m: int)
    requires
        1 <= m < 12,
    ensures
        days_from_ce(y, m + 1, 1) == days_from_ce(y, m, days_in_month(y, m)) + 1,
{
}

/// The first of the month after (y, m) follows the last day of (y, m).
pub proof fn lemma_next_month_first(y: int, m: int)
    requires
        1 <= m <= 12,
    ensures
        m < 12 ==> days_from_ce(y, m + 1, 1) == days_from_ce(y, m, days_in_month(y, m)) + 1,
        m == 12 ==> days_from_ce(y + 1, 1, 1) == days_from_ce(y, 12, 31) + 1,
{
    if m < 12 {
        lemma_month_step(y, m);
    } else {
        lemma_year_step(y);
    }
}

/// Within a valid civil date, the day number lies between the first and last day of its year.
proof fn lemma_within_year(y: int, m: int, d: int)
    requires
        1 <= m <= 12,
        1 <= d <= days_in_month(y, m),
    ensures
        days_from_ce(y, 1, 1) <= days_from_ce(y, m, d) <= days_from_ce(y, 12, 31),
{
}

proof fn lemma_year_start_monotone(y1: int, y2: int)
    requires
        y1 < y2,
    ensures
        days_from_ce(y1, 12, 31) < days_from_ce(y2, 1, 1),
    decreases y2 - y1,
{
    lemma_year_step(y1);
    if y1 + 1 < y2 {
        lemma_year_start_monotone(y1 + 1, y2);
        lemma_within_year(y1 + 1, 12, 31);
    }
}

/// Day numbers follow the lexicographic order of civil dates.
pub proof fn lemma_days_from_ce_strict(a: (int, int, int), b: (int, int, int))
    requires
        1 <= a.1 <= 12,
        1 <= a.2 <= days_in_month(a.0, a.1),
        1 <= b.1 <= 12,
        1 <= b.2 <= days_in_month(b.0, b.1),
        civil_lt(a, b),
    ensures
        days_from_ce(a.0, a.1, a.2) < days_from_ce(b.0, b.1, b.2),
{
    if a.0 < b.0 {
        lemma_within_year(a.0, a.1, a.2);
        lemma_within_year(b.0, b.1, b.2);
        lemma_year_start_monotone(a.0, b.0);
    }
}

/// Distinct valid civil dates have distinct day numbers.
pub proof fn lemma_days_from_ce_injective(a: (int, int, int), b: (int, int, int))
    requires
        valid_civil(a.0, a.1, a.2),
        valid_civil(b.0, b.1, b.2),
        days_from_ce(a.0, a.1, a.2) == days_from_ce(b.0, b.1, b.2),
    ensures
        a == b,
{
    if civil_lt(a, b) {
        lemma_days_from_ce_strict(a, b);
    } else if civil_lt(b, a) {
        lemma_days_from_ce_strict(b, a);
    }
}

/// A civil date whose day number is `day` is the civil date of `day`.
pub proof fn lemma_civil_of_unique(y: int, m: int, d: int)
    requires
        valid_civil(y, m, d),
    ensures
        civil_of(days_from_ce(y, m, d)) == (y, m, d),
{
    let day = days_from_ce(y, m, d);
    assert(valid_civil((y, m, d).0, (y, m, d).1, (y, m, d).2) && days_from_ce(
        (y, m, d).0,
        (y, m, d).1,
        (y, m, d).2,
    ) == day);
    let c = civil_of(day);
    lemma_days_from_ce_injective(c, (y, m, d));
}

} // verus!
