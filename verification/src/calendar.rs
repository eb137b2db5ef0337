//! Dates of the Gregorian calendar, counted in days from the first of January 1970.

use vstd::prelude::*;

verus! {

pub open spec fn is_leap(y: int) -> bool {
    y % 4 == 0 && (y % 100 != 0 || y % 400 == 0)
}

pub open spec fn days_in_month(y: int, m: int) -> int {
    if m == 2 {
        if is_leap(y) {
            29
        } else {
            28
        }
    } else if m == 4 || m == 6 || m == 9 || m == 11 {
        30
    } else {
        31
    }
}

pub open spec fn days_in_year(y: int) -> int {
    if is_leap(y) {
        366
    } else {
        365
    }
}

/// The days from the first of January 1970 to that of a year.
pub open spec fn days_before_year(y: int) -> int
    decreases (if y >= 1970 { y - 1970 } else { 1970 - y }),
{
    if y == 1970 {
        0
    } else if y > 1970 {
        days_before_year(y - 1) + days_in_year(y - 1)
    } else {
        days_before_year(y + 1) - days_in_year(y)
    }
}

/// The days from the first of January to the first of a month.
pub open spec fn days_before_month(y: int, m: int) -> int
    decreases m,
{
    if m <= 1 {
        0
    } else {
        days_before_month(y, m - 1) + days_in_month(y, m - 1)
    }
}

/// A date, and how many days it lies after the first of January 1970.
pub open spec fn is_date(days: int, y: int, m: int, d: int) -> bool {
    &&& 1 <= m <= 12
    &&& 1 <= d <= days_in_month(y, m)
    &&& days == days_before_year(y) + days_before_month(y, m) + d - 1
}

/// The leap years from year one to a year, in the Gregorian calendar run backwards.
spec fn leaps(y: int) -> int {
    y / 4 - y / 100 + y / 400
}

proof fn lemma_leaps_step(y: int)
    ensures
        leaps(y) - leaps(y - 1) == if is_leap(y) {
            1int
        } else {
            0int
        },
{
}

proof fn lemma_days_before_year(y: int)
    ensures
        days_before_year(y) == 365 * (y - 1970) + leaps(y - 1) - 477,
    decreases (if y >= 1970 { y - 1970 } else { 1970 - y }),
{
    if y > 1970 {
        lemma_days_before_year(y - 1);
        lemma_leaps_step(y - 1);
    } else if y < 1970 {
        lemma_days_before_year(y + 1);
        lemma_leaps_step(y);
    }
}

proof fn lemma_months(y: int)
    ensures
        days_before_month(y, 1) == 0,
        days_before_month(y, 2) == 31,
        days_before_month(y, 3) == 59 + days_in_year(y) - 365,
        days_before_month(y, 4) == 90 + days_in_year(y) - 365,
        days_before_month(y, 5) == 120 + days_in_year(y) - 365,
        days_before_month(y, 6) == 151 + days_in_year(y) - 365,
        days_before_month(y, 7) == 181 + days_in_year(y) - 365,
        days_before_month(y, 8) == 212 + days_in_year(y) - 365,
        days_before_month(y, 9) == 243 + days_in_year(y) - 365,
        days_before_month(y, 10) == 273 + days_in_year(y) - 365,
        days_before_month(y, 11) == 304 + days_in_year(y) - 365,
        days_before_month(y, 12) == 334 + days_in_year(y) - 365,
{
    reveal_with_fuel(days_before_month, 13);
}

/// The first of March of a year.
proof fn lemma_first_of_march(y: int)
    ensures
        days_before_year(y) + days_before_month(y, 3) == 365 * y + leaps(y) - 719468,
        days_before_year(y + 1) == 365 * y + leaps(y) - 719468 + 306,
{
    lemma_days_before_year(y);
    lemma_days_before_year(y + 1);
    lemma_months(y);
    lemma_leaps_step(y);
}

proof fn lemma_year_starts_rise(a: int, b: int)
    requires
        a < b,
    ensures
        days_before_year(a) + days_in_year(a) <= days_before_year(b),
    decreases b - a,
{
    lemma_days_before_year(a);
    lemma_days_before_year(a + 1);
    lemma_leaps_step(a);
    if a + 1 < b {
        lemma_year_starts_rise(a + 1, b);
    }
}

proof fn lemma_within_year(y: int, m: int, d: int)
    requires
        1 <= m <= 12,
        1 <= d <= days_in_month(y, m),
    ensures
        0 <= days_before_month(y, m) + d - 1 < days_in_year(y),
{
    lemma_months(y);
}

/// An earlier month ends before a later one begins.
proof fn lemma_month_starts_rise(y: int, a: int, b: int)
    requires
        1 <= a < b <= 12,
    ensures
        days_before_month(y, a) + days_in_month(y, a) <= days_before_month(y, b),
{
    lemma_months(y);
}

/// A later day has a later date: the years, then the months, then the days decide.
pub proof fn law_dates_follow_days(n1: int, y1: int, m1: int, d1: int, n2: int, y2: int, m2: int, d2: int)
    requires
        is_date(n1, y1, m1, d1),
        is_date(n2, y2, m2, d2),
    ensures
        n1 < n2 <==> (y1 < y2 || (y1 == y2 && (m1 < m2 || (m1 == m2 && d1 < d2)))),
        n1 == n2 <==> y1 == y2 && m1 == m2 && d1 == d2,
{
    lemma_within_year(y1, m1, d1);
    lemma_within_year(y2, m2, d2);
    if y1 < y2 {
        lemma_year_starts_rise(y1, y2);
    } else if y2 < y1 {
        lemma_year_starts_rise(y2, y1);
    } else if m1 < m2 {
        lemma_month_starts_rise(y1, m1, m2);
    } else if m2 < m1 {
        lemma_month_starts_rise(y1, m2, m1);
    }
}

/// Every day from 1970 on has a date, in 1970 or later.
pub proof fn law_every_day_has_a_date(days: nat) -> (date: (int, int, int))
    ensures
        is_date(days as int, date.0, date.1, date.2),
        date.0 >= 1970,
    decreases days,
{
    if days == 0 {
        lemma_months(1970);
        (1970, 1, 1)
    } else {
        let (y, m, d) = law_every_day_has_a_date((days - 1) as nat);
        lemma_months(y);
        lemma_months(y + 1);
        if d < days_in_month(y, m) {
            (y, m, d + 1)
        } else if m < 12 {
            (y, m + 1, 1)
        } else {
            (y + 1, 1, 1)
        }
    }
}

/// The era of 400 years that a day lies in, and the day within it; the first era begins on day zero.
fn split_era(z: i64) -> (r: (i64, i64))
    ensures
        0 <= r.1 < 146097,
        z == 146097 * r.0 + r.1,
{
    if z >= 0 {
        let era: i64 = z / 146097;
        let doe: i64 = z % 146097;
        (era, doe)
    } else {
        let back: i64 = -(z + 1);
        let era: i64 = -(back / 146097) - 1;
        let doe: i64 = 146096 - back % 146097;
        (era, doe)
    }
}

/// The year of an era that a day lies in, and the day within it, when every year begins in March.
fn split_year(doe: i64) -> (r: (i64, i64))
    requires
        0 <= doe < 146097,
    ensures
        0 <= r.0 < 400,
        0 <= r.1 <= 365,
        doe == 365 * r.0 + r.0 as int / 4 - r.0 as int / 100 + r.1,
        r.1 == 365 ==> (r.0 + 1) % 4 == 0 && ((r.0 + 1) % 100 != 0 || r.0 == 399),
{
    let century: i64 = if doe / 36524 > 3 {
        3
    } else {
        doe / 36524
    };
    let in_century: i64 = doe - 36524 * century;
    let four: i64 = in_century / 1461;
    let in_four: i64 = in_century - 1461 * four;
    let single: i64 = if in_four / 365 > 3 {
        3
    } else {
        in_four / 365
    };
    let doy: i64 = in_four - 365 * single;
    let yoe: i64 = 100 * century + 4 * four + single;
    proof {
        assert(0 <= century <= 3 && 0 <= four <= 24 && 0 <= single <= 3);
        assert(yoe as int / 4 == 25 * century + four);
        assert(yoe as int / 100 == century);
    }
    (yoe, doy)
}

/// The days from the first of March to that of a month, where January and February are months 13 and 14.
spec fn days_since_march(m: int) -> int {
    if m == 3 {
        0
    } else if m == 4 {
        31
    } else if m == 5 {
        61
    } else if m == 6 {
        92
    } else if m == 7 {
        122
    } else if m == 8 {
        153
    } else if m == 9 {
        184
    } else if m == 10 {
        214
    } else if m == 11 {
        245
    } else if m == 12 {
        275
    } else if m == 13 {
        306
    } else {
        337
    }
}

/// The month that a day of a year from March on lies in, and the day within it.
fn split_month(doy: i64) -> (r: (u32, u32))
    requires
        0 <= doy <= 365,
    ensures
        3 <= r.0 <= 14,
        1 <= r.1 <= 31,
        doy == days_since_march(r.0 as int) + r.1 - 1,
        r.0 < 14 ==> doy < days_since_march(r.0 + 1),
{
    if doy < 31 {
        (3, (doy + 1) as u32)
    } else if doy < 61 {
        (4, (doy - 30) as u32)
    } else if doy < 92 {
        (5, (doy - 60) as u32)
    } else if doy < 122 {
        (6, (doy - 91) as u32)
    } else if doy < 153 {
        (7, (doy - 121) as u32)
    } else if doy < 184 {
        (8, (doy - 152) as u32)
    } else if doy < 214 {
        (9, (doy - 183) as u32)
    } else if doy < 245 {
        (10, (doy - 213) as u32)
    } else if doy < 275 {
        (11, (doy - 244) as u32)
    } else if doy < 306 {
        (12, (doy - 274) as u32)
    } else if doy < 337 {
        (13, (doy - 305) as u32)
    } else {
        (14, (doy - 336) as u32)
    }
}

proof fn lemma_leaps_of_era(era: int, yoe: int)
    requires
        0 <= yoe < 400,
    ensures
        leaps(400 * era + yoe) == 97 * era + yoe / 4 - yoe / 100,
        (400 * era + yoe + 1) % 4 == (yoe + 1) % 4,
        (400 * era + yoe + 1) % 100 == (yoe + 1) % 100,
        (400 * era + yoe + 1) % 400 == (yoe + 1) % 400,
{
}

/// The day of a year from March on is a date of that year or of the next one.
proof fn lemma_date_from_march(days: int, y: int, doy: int, m: int, d: int)
    requires
        days == 365 * y + leaps(y) - 719468 + doy,
        0 <= doy <= 365,
        doy == 365 ==> is_leap(y + 1),
        3 <= m <= 14,
        d >= 1,
        doy == days_since_march(m) + d - 1,
        m < 14 ==> doy < days_since_march(m + 1),
    ensures
        m <= 12 ==> is_date(days, y, m, d),
        m > 12 ==> is_date(days, y + 1, m - 12, d),
{
    lemma_first_of_march(y);
    lemma_months(y);
    lemma_months(y + 1);
}

/// The date of a day.
pub fn civil_from_days(days: i64) -> (r: (i64, u32, u32))
    requires
        days + 719468 <= i64::MAX,
    ensures
        is_date(days as int, r.0 as int, r.1 as int, r.2 as int),
        days >= 0 ==> r.0 >= 1970,
{
    // Years are counted from the first of March, so that a leap day ends one, in eras of 400 years.
    let z: i64 = days + 719468;
    let (era, doe) = split_era(z);
    let (yoe, doy) = split_year(doe);
    let (m, d) = split_month(doy);
    let y: i64 = era * 400 + yoe;
    proof {
        lemma_leaps_of_era(era as int, yoe as int);
        lemma_date_from_march(days as int, y as int, doy as int, m as int, d as int);
    }
    let (year, month): (i64, u32) = if m <= 12 {
        (y, m)
    } else {
        (y + 1, m - 12)
    };
    proof {
        if days >= 0 && year < 1970 {
            lemma_within_year(year as int, month as int, d as int);
            lemma_year_starts_rise(year as int, 1970);
        }
    }
    (year, month, d)
}

} // verus!
