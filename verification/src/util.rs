//! Facts about years and months, computed.
use crate::calendar::{
    is_leap, iso_weeks, julian_day, lemma_floor_div_bounds, lemma_trunc_div_floor, month_len,
    trunc_div, trunc_rem, weekday_index, year_len,
};
use vstd::prelude::*;

verus! {

/// Division rounding toward negative infinity, for a positive divisor.
pub(crate) fn div_floor(a: i32, b: i32) -> (r: i32)
    requires
        b > 0,
    ensures
        r == a as int / b as int,
{
    let quotient = a / b;
    let remainder = a % b;
    proof {
        lemma_trunc_div_floor(a as int, b as int);
        assert(quotient == trunc_div(a as int, b as int));
        assert(remainder == trunc_rem(a as int, b as int));
    }
    if (remainder > 0 && b < 0) || (remainder < 0 && b > 0) {
        quotient - 1
    } else {
        quotient
    }
}

/// Division rounding toward negative infinity, for a divisor above 1.
pub(crate) fn div_floor_wide(a: i64, b: i64) -> (r: i64)
    requires
        b > 1,
    ensures
        r == a as int / b as int,
{
    let quotient = a / b;
    let remainder = a % b;
    proof {
        lemma_trunc_div_floor(a as int, b as int);
        assert(quotient == trunc_div(a as int, b as int));
        assert(remainder == trunc_rem(a as int, b as int));
        if a < 0 {
            vstd::arithmetic::div_mod::lemma_div_is_ordered_by_denominator(-(a as int), 2, b as int);
            assert(quotient > i64::MIN);
        }
    }
    if (remainder > 0 && b < 0) || (remainder < 0 && b > 0) {
        quotient - 1
    } else {
        quotient
    }
}

/// Whether `year` is a leap year.
pub fn is_leap_year(year: i32) -> (r: bool)
    ensures
        r == is_leap(year as int),
{
    proof {
        lemma_floor_div_bounds(year as int, 4);
        lemma_floor_div_bounds(year as int, 100);
        lemma_floor_div_bounds(year as int, 400);
        lemma_floor_div_bounds(-(year as int), 4);
        lemma_floor_div_bounds(-(year as int), 100);
        lemma_floor_div_bounds(-(year as int), 400);
    }
    year % 4 == 0 && (year % 100 != 0 || year % 400 == 0)
}

/// The number of days in `year`: 365, or 366 in a leap year.
pub fn days_in_year(year: i32) -> (r: u16)
    ensures
        r == year_len(year as int),
{
    if is_leap_year(year) {
        366
    } else {
        365
    }
}

/// The number of days in `month` of `year`.
pub fn days_in_year_month(year: i32, month: u8) -> (r: u8)
    requires
        1 <= month <= 12,
    ensures
        r == month_len(year as int, month as int),
{
    match month {
        1 | 3 | 5 | 7 | 8 | 10 | 12 => 31,
        4 | 6 | 9 | 11 => 30,
        _ => {
            if is_leap_year(year) {
                29
            } else {
                28
            }
        },
    }
}

/// The number of ISO weeks in `year`: 53 where the year begins on a
/// Thursday, or is a leap year that begins on a Wednesday, else 52.
pub fn weeks_in_year(year: i32) -> (r: u8)
    ensures
        r == iso_weeks(year as int),
{
    let y = year as i64 - 1;
    let jan1 = 365 * y + div_floor_wide(y, 4) - div_floor_wide(y, 100) + div_floor_wide(y, 400)
        + 1_721_426;
    let remainder = jan1 % 7;
    let weekday = if remainder < 0 {
        remainder + 7
    } else {
        remainder
    };
    proof {
        lemma_trunc_div_floor(jan1 as int, 7);
        assert(remainder == trunc_rem(jan1 as int, 7));
        assert(weekday == weekday_index(julian_day(year as int, 1)));
    }
    if weekday == 3 || (weekday == 2 && is_leap_year(year)) {
        53
    } else {
        52
    }
}

} // verus!
