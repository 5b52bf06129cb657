//! The mathematical model of the proleptic Gregorian calendar that the
//! contracts of this crate are written in, and the facts about it that the
//! proofs rest on.
//!
//! A date is modelled as a pair `(year, ordinal)` of mathematical integers,
//! where `ordinal` is the day of the year counted from 1. Days are numbered
//! consecutively by their Julian day number.
use vstd::arithmetic::div_mod::*;
use vstd::arithmetic::mul::*;
use vstd::prelude::*;

verus! {

/// Whether `year` is a leap year of the Gregorian calendar.
pub open spec fn is_leap(year: int) -> bool {
    year % 4 == 0 && (year % 100 != 0 || year % 400 == 0)
}

/// The number of days in `year`.
pub open spec fn year_len(year: int) -> int {
    if is_leap(year) {
        366
    } else {
        365
    }
}

/// The number of days in `month` (1 to 12) of `year`.
pub open spec fn month_len(year: int, month: int) -> int {
    if month == 2 {
        if is_leap(year) {
            29
        } else {
            28
        }
    } else if month == 4 || month == 6 || month == 9 || month == 11 {
        30
    } else {
        31
    }
}

/// The number of days of `year` that come before the first day of `month`.
pub open spec fn days_before_month(year: int, month: int) -> int
    decreases month,
{
    if month <= 1 {
        0
    } else {
        days_before_month(year, month - 1) + month_len(year, month - 1)
    }
}

/// The month, searching from `month` on, that holds the `ordinal`-th day of
/// `year`.
pub open spec fn month_from(year: int, ordinal: int, month: int) -> int
    decreases 12 - month,
{
    if month >= 12 || ordinal <= days_before_month(year, month + 1) {
        month
    } else {
        month_from(year, ordinal, month + 1)
    }
}

/// The month that holds the `ordinal`-th day of `year`.
pub open spec fn month_of(year: int, ordinal: int) -> int {
    month_from(year, ordinal, 1)
}

/// The day of its month of the `ordinal`-th day of `year`.
pub open spec fn day_of(year: int, ordinal: int) -> int {
    ordinal - days_before_month(year, month_of(year, ordinal))
}

/// Whether `ordinal` is a day of `year`.
pub open spec fn valid_ordinal(year: int, ordinal: int) -> bool {
    1 <= ordinal <= year_len(year)
}

/// Whether `(year, month, day)` names a day of the calendar.
pub open spec fn valid_calendar_date(year: int, month: int, day: int) -> bool {
    1 <= month <= 12 && 1 <= day <= month_len(year, month)
}

/// The day after the `ordinal`-th day of `year`.
pub open spec fn next_ordinal_date(year: int, ordinal: int) -> (int, int) {
    if ordinal == year_len(year) {
        (year + 1, 1)
    } else {
        (year, ordinal + 1)
    }
}

/// The day before the `ordinal`-th day of `year`.
pub open spec fn previous_ordinal_date(year: int, ordinal: int) -> (int, int) {
    if ordinal == 1 {
        (year - 1, year_len(year - 1))
    } else {
        (year, ordinal - 1)
    }
}

/// The number of days in the years 1 through `year` (negative for years
/// before 1), with the leap days of the Gregorian rule.
pub open spec fn days_through_year(year: int) -> int {
    365 * year + year / 4 - year / 100 + year / 400
}

/// The Julian day number of the `ordinal`-th day of `year`: the count of days
/// since the start of the Julian period (-4713-11-24 in the proleptic
/// Gregorian calendar).
pub open spec fn julian_day(year: int, ordinal: int) -> int {
    days_through_year(year - 1) + ordinal + 1721425
}

/// The day of the week of Julian day `jd`, counted from Monday as 0.
pub open spec fn weekday_index(jd: int) -> int {
    jd % 7
}

/// The Julian day of the Monday that starts week 1 of ISO year `year`: the
/// Monday of the week that holds January 4.
pub open spec fn iso_week_start(year: int) -> int {
    let jan4 = julian_day(year, 4);
    jan4 - weekday_index(jan4)
}

/// The number of ISO weeks in `year`: 53 where the year begins on a
/// Thursday, or is a leap year that begins on a Wednesday, else 52.
pub open spec fn iso_weeks(year: int) -> int {
    let jan1 = weekday_index(julian_day(year, 1));
    if jan1 == 3 || (jan1 == 2 && is_leap(year)) {
        53
    } else {
        52
    }
}

/// The ISO year and week of the `ordinal`-th day of `year`.
pub open spec fn iso_year_week(year: int, ordinal: int) -> (int, int) {
    let jd = julian_day(year, ordinal);
    if jd < iso_week_start(year) {
        (year - 1, (jd - iso_week_start(year - 1)) / 7 + 1)
    } else if jd >= iso_week_start(year + 1) {
        (year + 1, (jd - iso_week_start(year + 1)) / 7 + 1)
    } else {
        (year, (jd - iso_week_start(year)) / 7 + 1)
    }
}

/// Truncating integer division, as Rust's `/` on signed integers computes it.
pub open spec fn trunc_div(x: int, d: int) -> int {
    if x >= 0 {
        x / d
    } else {
        -((-x) / d)
    }
}

// ---------------------------------------------------------------------------
// Arithmetic helpers
// ---------------------------------------------------------------------------

/// Floor division by a positive divisor brackets the dividend.
pub proof fn lemma_floor_div_bounds(x: int, d: int)
    requires
        d > 0,
    ensures
        d * (x / d) <= x,
        x < d * (x / d) + d,
        x % d == x - d * (x / d),
{
    lemma_fundamental_div_mod(x, d);
    lemma_mod_bound(x, d);
}

/// A quotient is determined by the multiples of the divisor that bracket the
/// dividend.
pub proof fn lemma_floor_div_unique(x: int, d: int, q: int)
    requires
        d > 0,
        d * q <= x < d * q + d,
    ensures
        x / d == q,
        x % d == x - d * q,
{
    lemma_mul_is_commutative(d, q);
    lemma_fundamental_div_mod_converse(x, d, q, x - d * q);
}

/// Going from `year - 1` to `year`, a floor quotient grows by one exactly
/// when `year` is a multiple of the divisor.
proof fn lemma_quotient_step(year: int, d: int)
    requires
        d > 0,
    ensures
        year / d - (year - 1) / d == (if year % d == 0 {
            1int
        } else {
            0int
        }),
{
    lemma_floor_div_bounds(year, d);
    lemma_floor_div_bounds(year - 1, d);
    let q1 = year / d;
    let q0 = (year - 1) / d;
    if year % d == 0 {
        lemma_mul_is_distributive_sub(d, q1, 1);
        lemma_floor_div_unique(year - 1, d, q1 - 1);
    } else {
        lemma_floor_div_unique(year - 1, d, q1);
    }
}

/// The leap rule, stated over the three divisibility tests as numbers.
proof fn lemma_leap_as_sum(year: int)
    ensures
        (if year % 4 == 0 {
            1int
        } else {
            0int
        }) - (if year % 100 == 0 {
            1int
        } else {
            0int
        }) + (if year % 400 == 0 {
            1int
        } else {
            0int
        }) == (if is_leap(year) {
            1int
        } else {
            0int
        }),
{
    lemma_floor_div_bounds(year, 4);
    lemma_floor_div_bounds(year, 100);
    lemma_floor_div_bounds(year, 400);
    if year % 100 == 0 {
        lemma_floor_div_unique(year, 4, 25 * (year / 100));
    }
    if year % 400 == 0 {
        lemma_floor_div_unique(year, 100, 4 * (year / 400));
    }
}


/// Rust's remainder on signed integers: it takes the sign of the dividend.
pub open spec fn trunc_rem(x: int, d: int) -> int {
    if x >= 0 {
        x % d
    } else {
        -((-x) % d)
    }
}

/// Rust's truncating quotient is the floor quotient, or one above it when the
/// division leaves a negative remainder.
pub proof fn lemma_trunc_div_floor(x: int, d: int)
    requires
        d > 0,
    ensures
        x == d * trunc_div(x, d) + trunc_rem(x, d),
        -d < trunc_rem(x, d) < d,
        trunc_rem(x, d) < 0 ==> trunc_div(x, d) - 1 == x / d,
        trunc_rem(x, d) >= 0 ==> trunc_div(x, d) == x / d,
        trunc_rem(x, d) == 0 <==> x % d == 0,
{
    lemma_floor_div_bounds(x, d);
    if x < 0 {
        let m = -x;
        let p = m / d;
        let s = m % d;
        lemma_floor_div_bounds(m, d);
        assert(x == d * (-p) - s) by (nonlinear_arith)
            requires
                x == -m,
                m == d * p + s,
        ;
        if s > 0 {
            assert(d * (-p - 1) <= x < d * (-p - 1) + d && x - d * (-p - 1) == d - s)
                by (nonlinear_arith)
                requires
                    x == d * (-p) - s,
                    0 < s < d,
            ;
            lemma_floor_div_unique(x, d, -p - 1);
        } else {
            assert(d * (-p) <= x < d * (-p) + d && x - d * (-p) == 0) by (nonlinear_arith)
                requires
                    x == d * (-p),
                    d > 0,
            ;
            lemma_floor_div_unique(x, d, -p);
        }
    }
}

// ---------------------------------------------------------------------------
// Facts about the calendar
// ---------------------------------------------------------------------------

/// The days through `year` are those through the year before, and the days of
/// `year` itself.
pub proof fn lemma_days_through_year_step(year: int)
    ensures
        days_through_year(year) == days_through_year(year - 1) + year_len(year),
{
    lemma_quotient_step(year, 4);
    lemma_quotient_step(year, 100);
    lemma_quotient_step(year, 400);
    lemma_leap_as_sum(year);
}

/// The first day of a year follows the last day of the year before.
pub proof fn lemma_julian_day_next_year(year: int)
    ensures
        julian_day(year + 1, 1) == julian_day(year, year_len(year)) + 1,
{
    lemma_days_through_year_step(year);
}

/// A later year starts after every day of an earlier year.
pub proof fn lemma_julian_day_years_ordered(y1: int, o1: int, y2: int)
    requires
        y1 < y2,
        o1 <= year_len(y1),
    ensures
        julian_day(y1, o1) < julian_day(y2, 1),
    decreases y2 - y1,
{
    lemma_julian_day_next_year(y1);
    if y1 + 1 < y2 {
        lemma_julian_day_years_ordered(y1 + 1, 1, y2);
        lemma_days_through_year_step(y1 + 1);
    }
}

/// Julian day numbers follow the order of dates: the order of years, then of
/// days within a year.
pub proof fn lemma_julian_day_strictly_increasing(y1: int, o1: int, y2: int, o2: int)
    requires
        valid_ordinal(y1, o1),
        valid_ordinal(y2, o2),
        y1 < y2 || (y1 == y2 && o1 < o2),
    ensures
        julian_day(y1, o1) < julian_day(y2, o2),
{
    if y1 < y2 {
        lemma_julian_day_years_ordered(y1, o1, y2);
    }
}

/// Distinct days have distinct Julian day numbers.
pub proof fn lemma_julian_day_injective(y1: int, o1: int, y2: int, o2: int)
    requires
        valid_ordinal(y1, o1),
        valid_ordinal(y2, o2),
        julian_day(y1, o1) == julian_day(y2, o2),
    ensures
        y1 == y2,
        o1 == o2,
{
    if y1 < y2 || (y1 == y2 && o1 < o2) {
        lemma_julian_day_strictly_increasing(y1, o1, y2, o2);
    } else if y2 < y1 || (y1 == y2 && o2 < o1) {
        lemma_julian_day_strictly_increasing(y2, o2, y1, o1);
    }
}


/// Where a day falls in the March-based years of the Julian day algorithm.
///
/// `z` counts days from 0000-02-29 (Julian day 1721119). The algorithm first
/// counts the centuries before `z` with a truncating division, derives from
/// them the leap days that the Gregorian rule skips (`b`), and then reads the
/// year `y` and the day `r` within it as in a calendar with a leap day every
/// fourth year. The result: `b` is exactly the number of skipped leap days up
/// to year `y`, the day `r` lies in `1..=366`, and `z` is `r` days after the
/// days through year `y`.
pub proof fn lemma_march_year_decomposition(z: int)
    ensures
        ({
            let g = 100 * z - 25;
            let a = trunc_div(g, 3652425);
            let b = a - trunc_div(a, 4);
            let y = (100 * b + g) / 36525;
            let r = b + z - (36525 * y) / 100;
            &&& b == y / 100 - y / 400
            &&& (36525 * y) / 100 == 365 * y + y / 4
            &&& 1 <= r <= 366
            &&& r == z - days_through_year(y)
        }),
{
    let n = 4 * z - 1;
    let g = 100 * z - 25;
    let a = trunc_div(g, 3652425);
    let b = a - trunc_div(a, 4);
    let af = n / 146097;
    let af4 = af / 4;
    lemma_floor_div_bounds(n, 146097);
    lemma_floor_div_bounds(af, 4);
    // The centuries `a` that the truncating division counts, against `af`.
    if g >= 0 {
        lemma_floor_div_bounds(g, 3652425);
        lemma_floor_div_unique(n, 146097, g / 3652425);
        assert(a == af);
        lemma_floor_div_unique(a, 4, af4);
        assert(b == af - af4);
    } else {
        let m = -g;
        lemma_floor_div_bounds(m, 3652425);
        let p = m / 3652425;
        assert(a == -p);
        if n == -146097 * p {
            lemma_floor_div_unique(n, 146097, -p);
            assert(a == af);
        } else {
            lemma_floor_div_unique(n, 146097, -p - 1);
            assert(a == af + 1);
        }
        // `a` is not positive here
        let m4 = (-a) / 4;
        lemma_floor_div_bounds(-a, 4);
        assert(trunc_div(a, 4) == -m4);
        if a == af + 1 {
            // -a == -af - 1, so ceil(-af / 4) == 1 + floor((-af - 1) / 4)
            assert(b == af - af4);
        } else if af % 4 == 0 {
            assert(b == af - af4);
        } else {
            assert(n % 146097 == 0);
            assert(b == af - af4 - 1);
        }
    }
    let y = (100 * b + g) / 36525;
    lemma_floor_div_bounds(100 * b + g, 36525);
    assert(1461 * y <= 4 * b + n < 1461 * y + 1461);
    if b == af - af4 {
        assert(100 * af <= y <= 100 * af + 99);
        lemma_floor_div_unique(y, 100, af);
        lemma_floor_div_unique(y, 400, af4);
    } else {
        assert(y == 100 * af - 1);
        lemma_floor_div_unique(y, 100, af - 1);
        lemma_floor_div_unique(y, 400, af4);
    }
    let p = y / 4;
    lemma_floor_div_bounds(y, 4);
    lemma_floor_div_unique(36525 * y, 100, 365 * y + p);
}

/// The Julian day of the `ordinal`-th day of a year, in terms of the weekday
/// of its January 1 and a multiple of seven.
proof fn lemma_weekday_of_day(year: int, ordinal: int)
    ensures
        ({
            let jan1 = julian_day(year, 1);
            let w1 = weekday_index(jan1);
            let q = jan1 / 7;
            &&& jan1 == 7 * q + w1
            &&& 0 <= w1 < 7
            &&& weekday_index(julian_day(year, ordinal)) == (w1 + ordinal - 1) % 7
        }),
{
    let jan1 = julian_day(year, 1);
    lemma_floor_div_bounds(jan1, 7);
    let q = jan1 / 7;
    let w1 = jan1 % 7;
    let x = w1 + ordinal - 1;
    lemma_floor_div_bounds(x, 7);
    lemma_floor_div_unique(julian_day(year, ordinal), 7, q + x / 7);
}

/// ISO week 1 of the next year starts as many weeks after week 1 of this year
/// as this year has ISO weeks.
pub proof fn lemma_iso_week_start_next(year: int)
    ensures
        iso_week_start(year + 1) == iso_week_start(year) + 7 * iso_weeks(year),
{
    lemma_days_through_year_step(year);
    lemma_weekday_of_day(year, 4);
    lemma_weekday_of_day(year, year_len(year) + 4);
    let jan1 = julian_day(year, 1);
    let w1 = weekday_index(jan1);
    assert(julian_day(year + 1, 4) == julian_day(year, year_len(year) + 4));
    lemma_floor_div_bounds(w1 + 3, 7);
    lemma_floor_div_bounds(w1 + year_len(year) + 3, 7);
}

/// The days before each month, and through December.
pub proof fn lemma_days_before_month_values(year: int)
    ensures
        ({
            let l = if is_leap(year) {
                1int
            } else {
                0int
            };
            &&& days_before_month(year, 1) == 0
            &&& days_before_month(year, 2) == 31
            &&& days_before_month(year, 3) == 59 + l
            &&& days_before_month(year, 4) == 90 + l
            &&& days_before_month(year, 5) == 120 + l
            &&& days_before_month(year, 6) == 151 + l
            &&& days_before_month(year, 7) == 181 + l
            &&& days_before_month(year, 8) == 212 + l
            &&& days_before_month(year, 9) == 243 + l
            &&& days_before_month(year, 10) == 273 + l
            &&& days_before_month(year, 11) == 304 + l
            &&& days_before_month(year, 12) == 334 + l
            &&& days_before_month(year, 13) == 365 + l
        }),
{
    reveal_with_fuel(days_before_month, 13);
}

/// The days before a month grow with the month.
pub proof fn lemma_days_before_month_monotone(year: int, m1: int, m2: int)
    requires
        1 <= m1 <= m2,
    ensures
        days_before_month(year, m1) + (m2 - m1) * 28 <= days_before_month(year, m2),
    decreases m2 - m1,
{
    if m1 < m2 {
        lemma_days_before_month_monotone(year, m1, m2 - 1);
    }
}

/// The month of a day is the one whose days hold it.
proof fn lemma_month_from(year: int, ordinal: int, from: int, month: int)
    requires
        1 <= from <= month <= 12,
        days_before_month(year, month) < ordinal <= days_before_month(year, month + 1),
    ensures
        month_from(year, ordinal, from) == month,
    decreases month - from,
{
    if from < month {
        lemma_days_before_month_monotone(year, from + 1, month);
        lemma_month_from(year, ordinal, from + 1, month);
    }
}

/// The month of a day is the one whose days hold it.
pub proof fn lemma_month_of(year: int, ordinal: int, month: int)
    requires
        1 <= month <= 12,
        days_before_month(year, month) < ordinal <= days_before_month(year, month + 1),
    ensures
        month_of(year, ordinal) == month,
        day_of(year, ordinal) == ordinal - days_before_month(year, month),
{
    lemma_month_from(year, ordinal, 1, month);
}

/// Every day of a year lies in one of its months: its month and day of month
/// name it, and name it alone.
pub proof fn lemma_calendar_date_of_ordinal(year: int, ordinal: int)
    requires
        valid_ordinal(year, ordinal),
    ensures
        valid_calendar_date(year, month_of(year, ordinal), day_of(year, ordinal)),
        days_before_month(year, month_of(year, ordinal)) + day_of(year, ordinal) == ordinal,
{
    lemma_days_before_month_values(year);
    let m = if ordinal <= days_before_month(year, 2) {
        1
    } else if ordinal <= days_before_month(year, 3) {
        2
    } else if ordinal <= days_before_month(year, 4) {
        3
    } else if ordinal <= days_before_month(year, 5) {
        4
    } else if ordinal <= days_before_month(year, 6) {
        5
    } else if ordinal <= days_before_month(year, 7) {
        6
    } else if ordinal <= days_before_month(year, 8) {
        7
    } else if ordinal <= days_before_month(year, 9) {
        8
    } else if ordinal <= days_before_month(year, 10) {
        9
    } else if ordinal <= days_before_month(year, 11) {
        10
    } else if ordinal <= days_before_month(year, 12) {
        11
    } else {
        12
    };
    lemma_month_of(year, ordinal, m);
}

/// A month and a day of it name a day of the year, whose month and day of
/// month are those again.
pub proof fn lemma_ordinal_of_calendar_date(year: int, month: int, day: int)
    requires
        valid_calendar_date(year, month, day),
    ensures
        valid_ordinal(year, days_before_month(year, month) + day),
        month_of(year, days_before_month(year, month) + day) == month,
        day_of(year, days_before_month(year, month) + day) == day,
{
    lemma_days_before_month_values(year);
    lemma_month_of(year, days_before_month(year, month) + day, month);
    lemma_days_before_month_monotone(year, month + 1, 13);
}

/// The week number that `Date::iso_year_week` reads off the ordinal and the
/// weekday, and how it gives the ISO year and week.
pub proof fn lemma_iso_week_number(year: int, ordinal: int)
    requires
        valid_ordinal(year, ordinal),
    ensures
        ({
            let k = (ordinal + 9 - weekday_index(julian_day(year, ordinal))) / 7;
            let iso = iso_year_week(year, ordinal);
            &&& 0 <= k <= 53
            &&& k == 0 ==> iso == (year - 1, iso_weeks(year - 1))
            &&& k == 53 && iso_weeks(year) == 52 ==> iso == (year + 1, 1int)
            &&& k >= 1 && !(k == 53 && iso_weeks(year) == 52) ==> iso == (year, k)
            &&& 1 <= iso.1 <= iso_weeks(iso.0)
        }),
{
    let jd = julian_day(year, ordinal);
    let jan1 = julian_day(year, 1);
    let w1 = weekday_index(jan1);
    let wd = weekday_index(jd);
    lemma_weekday_of_day(year, ordinal);
    lemma_weekday_of_day(year, 4);
    lemma_floor_div_bounds(w1 + ordinal - 1, 7);
    lemma_floor_div_bounds(w1 + 3, 7);
    let c = (w1 + 3) % 7;
    let start = iso_week_start(year);
    assert(start == jan1 + 3 - c);
    let d = jd - start;
    let t = (w1 + ordinal - 1) / 7 - (w1 + 3) / 7;
    assert(d == 7 * t + wd);
    let k = (ordinal + 9 - wd) / 7;
    lemma_floor_div_unique(ordinal + 9 - wd, 7, t + 1);
    lemma_floor_div_unique(d, 7, t);
    lemma_iso_week_start_next(year - 1);
    lemma_iso_week_start_next(year);
    if k == 0 {
        lemma_floor_div_unique(jd - iso_week_start(year - 1), 7, iso_weeks(year - 1) - 1);
    } else if k == 53 && iso_weeks(year) == 52 {
        lemma_floor_div_unique(jd - iso_week_start(year + 1), 7, 0);
    }
}

/// The ordinal, within `year`, of the `index`-th day (from Monday) of ISO week
/// `week` of `year`, as `Date::from_iso_week_date` computes it from the
/// weekday of January 1. It may fall before or after the year.
pub proof fn lemma_iso_week_date_ordinal(year: int, week: int, index: int)
    requires
        1 <= week <= 53,
        0 <= index < 7,
    ensures
        ({
            let ay = year - 1;
            let raw = ay + ay / 4 - ay / 100 + ay / 400 + 3;
            let ordinal = 7 * week + index + 1 - (raw % 7 + 4);
            &&& julian_day(year, ordinal) == iso_week_start(year) + 7 * (week - 1) + index
            &&& -2 <= ordinal <= 374
            &&& year == -9999 ==> ordinal >= 1
        }),
{
    let ay = year - 1;
    let raw = ay + ay / 4 - ay / 100 + ay / 400 + 3;
    let jan1 = julian_day(year, 1);
    lemma_floor_div_bounds(raw, 7);
    lemma_floor_div_bounds(jan1 + 3, 7);
    lemma_floor_div_unique(jan1 + 3, 7, raw / 7 + 52 * ay + 245918);
    lemma_weekday_of_day(year, 4);
    if year == -9999 {
        assert(weekday_index(jan1) == 0);
    }
}

/// ISO week 1 of a later year starts after all the weeks of an earlier year.
pub proof fn lemma_iso_week_start_increasing(y1: int, y2: int)
    requires
        y1 < y2,
    ensures
        iso_week_start(y1) + 7 * iso_weeks(y1) <= iso_week_start(y2),
    decreases y2 - y1,
{
    lemma_iso_week_start_next(y1);
    if y1 + 1 < y2 {
        lemma_iso_week_start_increasing(y1 + 1, y2);
    }
}

/// ISO week 1 starts on a Monday.
pub proof fn lemma_iso_week_start_monday(year: int)
    ensures
        weekday_index(iso_week_start(year)) == 0,
{
    let jan4 = julian_day(year, 4);
    lemma_floor_div_bounds(jan4, 7);
    lemma_floor_div_unique(iso_week_start(year), 7, jan4 / 7);
}

} // verus!
