//! Calendar dates.
use crate::calendar::{
    day_of, days_before_month, days_through_year, iso_week_start, iso_weeks, iso_year_week,
    julian_day, lemma_calendar_date_of_ordinal, lemma_days_before_month_values,
    lemma_days_through_year_step, lemma_floor_div_bounds, lemma_floor_div_unique,
    lemma_iso_week_date_ordinal, lemma_iso_week_number, lemma_julian_day_next_year,
    lemma_julian_day_years_ordered, lemma_march_year_decomposition, lemma_month_of,
    lemma_ordinal_of_calendar_date, lemma_trunc_div_floor, month_len, month_of, next_ordinal_date,
    previous_ordinal_date, trunc_div, valid_calendar_date, valid_ordinal, weekday_index, year_len,
};
use crate::clock::{hms_error, Time};
use crate::duration::Duration;
use crate::error::{range_error, ComponentRange};
use crate::laws::law_julian_day_in_range;
use crate::primitive_date_time::PrimitiveDateTime;
use crate::util::{days_in_year, days_in_year_month, div_floor, is_leap_year, weeks_in_year};
use crate::weekday::Weekday;
use vstd::prelude::*;

verus! {

/// The minimum valid year.
pub const MIN_YEAR: i32 = -9999;

/// The maximum valid year.
pub const MAX_YEAR: i32 = 9999;

/// Date in the proleptic Gregorian calendar.
///
/// Years between ±9999 inclusive are representable.
#[derive(Clone, Copy, PartialEq, Eq, Structural, Hash, Ord, Debug)]
pub struct Date {
    /// Bitpacked field containing both the year and ordinal: the year in the
    /// high bits, the ordinal in the low 9 bits.
    value: i32,
}

/// A date is seen as its year and the day of that year, counted from 1.
impl View for Date {
    type V = (int, int);

    closed spec fn view(&self) -> (int, int) {
        (self.value as int / 512, self.value as int % 512)
    }
}

/// The packed value of the first day of year -9999.
const MIN_VALUE: i32 = -5119487;

/// The packed value of the last day of year 9999.
const MAX_VALUE: i32 = 5119853;

/// The Julian day of the first representable date.
pub open spec fn min_julian_day() -> int {
    julian_day(MIN_YEAR as int, 1)
}

/// The Julian day of the last representable date.
pub open spec fn max_julian_day() -> int {
    julian_day(MAX_YEAR as int, year_len(MAX_YEAR as int))
}

impl Date {
    /// The minimum valid `Date`: the first day of year -9999.
    pub fn minimum() -> (r: Date)
        ensures
            r.wf(),
            r@ == (MIN_YEAR as int, 1int),
    {
        proof {
            lemma_floor_div_unique(MIN_VALUE as int, 512, MIN_YEAR as int);
        }
        Date { value: MIN_VALUE }
    }

    /// The maximum valid `Date`: the last day of year 9999.
    pub fn maximum() -> (r: Date)
        ensures
            r.wf(),
            r@ == (MAX_YEAR as int, year_len(MAX_YEAR as int)),
    {
        proof {
            lemma_floor_div_unique(MAX_VALUE as int, 512, MAX_YEAR as int);
        }
        Date { value: MAX_VALUE }
    }

    /// Whether the date is one of the calendar, within the supported years.
    #[verifier::type_invariant]
    pub open spec fn wf(self) -> bool {
        MIN_YEAR <= self@.0 <= MAX_YEAR && valid_ordinal(self@.0, self@.1)
    }

    /// The Julian day of the date.
    pub open spec fn julian(self) -> int {
        julian_day(self@.0, self@.1)
    }

    /// How the packed value holds the year and the ordinal.
    proof fn lemma_packed(self)
        requires
            self.wf(),
        ensures
            self.value == 512 * self@.0 + self@.1,
    {
        lemma_floor_div_bounds(self.value as int, 512);
    }

    /// Two dates with the same year and ordinal are the same date.
    pub proof fn lemma_view_injective(self, other: Date)
        requires
            self@ == other@,
        ensures
            self == other,
    {
        lemma_floor_div_bounds(self.value as int, 512);
        lemma_floor_div_bounds(other.value as int, 512);
    }


    /// Construct a `Date` from the year and ordinal values, the validity of
    /// which must be guaranteed by the caller.
    pub fn from_ordinal_date_unchecked(year: i32, ordinal: u16) -> (r: Date)
        requires
            MIN_YEAR <= year <= MAX_YEAR,
            valid_ordinal(year as int, ordinal as int),
        ensures
            r.wf(),
            r@ == (year as int, ordinal as int),
    {
        let value = (year << 9) | ordinal as i32;
        proof {
            let o = ordinal as i32;
            assert((year << 9) | o == year * 512 + o) by (bit_vector)
                requires
                    -10000 <= year <= 10000,
                    0 <= o < 512,
            ;
            lemma_floor_div_unique(value as int, 512, year as int);
        }
        Date { value }
    }

    /// Attempt to create a `Date` from the year and ordinal day number.
    pub fn from_ordinal_date(year: i32, ordinal: u16) -> (r: Result<Date, ComponentRange>)
        ensures
            r is Ok <==> MIN_YEAR <= year <= MAX_YEAR && valid_ordinal(year as int, ordinal as int),
            r matches Ok(d) ==> d.wf() && d@ == (year as int, ordinal as int),
            !(MIN_YEAR <= year <= MAX_YEAR) ==> r == Err::<Date, ComponentRange>(
                range_error("year", MIN_YEAR as int, MAX_YEAR as int, year as int, false),
            ),
            MIN_YEAR <= year <= MAX_YEAR && !valid_ordinal(year as int, ordinal as int) ==> r
                == Err::<Date, ComponentRange>(
                range_error("ordinal", 1, year_len(year as int), ordinal as int, true),
            ),
    {
        if year < MIN_YEAR || year > MAX_YEAR {
            return Err(
                ComponentRange {
                    name: "year",
                    minimum: MIN_YEAR as i64,
                    maximum: MAX_YEAR as i64,
                    value: year as i64,
                    conditional_range: false,
                },
            );
        }
        let max_ordinal = days_in_year(year);
        if ordinal < 1 || ordinal > max_ordinal {
            return Err(
                ComponentRange {
                    name: "ordinal",
                    minimum: 1,
                    maximum: max_ordinal as i64,
                    value: ordinal as i64,
                    conditional_range: true,
                },
            );
        }
        Ok(Date::from_ordinal_date_unchecked(year, ordinal))
    }

    /// Attempt to create a `Date` from the year, month, and day.
    pub fn from_calendar_date(year: i32, month: u8, day: u8) -> (r: Result<Date, ComponentRange>)
        ensures
            r is Ok <==> MIN_YEAR <= year <= MAX_YEAR && valid_calendar_date(
                year as int,
                month as int,
                day as int,
            ),
            r matches Ok(d) ==> {
                &&& d.wf()
                &&& d@ == (year as int, days_before_month(year as int, month as int) + day)
                &&& month_of(d@.0, d@.1) == month
                &&& day_of(d@.0, d@.1) == day
            },
            !(MIN_YEAR <= year <= MAX_YEAR) ==> r == Err::<Date, ComponentRange>(
                range_error("year", MIN_YEAR as int, MAX_YEAR as int, year as int, false),
            ),
            MIN_YEAR <= year <= MAX_YEAR && !(1 <= month <= 12) ==> r == Err::<Date, ComponentRange>(
                range_error("month", 1, 12, month as int, false),
            ),
            MIN_YEAR <= year <= MAX_YEAR && 1 <= month <= 12 && !(1 <= day <= month_len(
                year as int,
                month as int,
            )) ==> r == Err::<Date, ComponentRange>(
                range_error("day", 1, month_len(year as int, month as int), day as int, true),
            ),
    {
        if year < MIN_YEAR || year > MAX_YEAR {
            return Err(
                ComponentRange {
                    name: "year",
                    minimum: MIN_YEAR as i64,
                    maximum: MAX_YEAR as i64,
                    value: year as i64,
                    conditional_range: false,
                },
            );
        }
        if month < 1 || month > 12 {
            return Err(
                ComponentRange {
                    name: "month",
                    minimum: 1,
                    maximum: 12,
                    value: month as i64,
                    conditional_range: false,
                },
            );
        }
        let max_day = days_in_year_month(year, month);
        if day < 1 || day > max_day {
            return Err(
                ComponentRange {
                    name: "day",
                    minimum: 1,
                    maximum: max_day as i64,
                    value: day as i64,
                    conditional_range: true,
                },
            );
        }
        // Cumulative days through the beginning of each month.
        let days_cumulative: [u16; 12] = if is_leap_year(year) {
            [0, 31, 60, 91, 121, 152, 182, 213, 244, 274, 305, 335]
        } else {
            [0, 31, 59, 90, 120, 151, 181, 212, 243, 273, 304, 334]
        };
        proof {
            lemma_days_before_month_values(year as int);
            lemma_ordinal_of_calendar_date(year as int, month as int, day as int);
        }
        Ok(
            Date::from_ordinal_date_unchecked(
                year,
                days_cumulative[month as usize - 1] + day as u16,
            ),
        )
    }

    /// Get the month and day.
    pub(crate) fn month_day(self) -> (r: (u8, u8))
        ensures
            r.0 == month_of(self@.0, self@.1),
            r.1 == day_of(self@.0, self@.1),
            valid_calendar_date(self@.0, r.0 as int, r.1 as int),
    {
        proof {
            use_type_invariant(&self);
        }
        // The number of days up to and including each month but December.
        let days: [u16; 11] = if is_leap_year(self.year()) {
            [31, 60, 91, 121, 152, 182, 213, 244, 274, 305, 335]
        } else {
            [31, 59, 90, 120, 151, 181, 212, 243, 273, 304, 334]
        };
        let ordinal = self.ordinal();
        proof {
            lemma_days_before_month_values(self@.0);
            lemma_calendar_date_of_ordinal(self@.0, self@.1);
        }
        let r: (u8, u8) = if ordinal > days[10] {
            (12, (ordinal - days[10]) as u8)
        } else if ordinal > days[9] {
            (11, (ordinal - days[9]) as u8)
        } else if ordinal > days[8] {
            (10, (ordinal - days[8]) as u8)
        } else if ordinal > days[7] {
            (9, (ordinal - days[7]) as u8)
        } else if ordinal > days[6] {
            (8, (ordinal - days[6]) as u8)
        } else if ordinal > days[5] {
            (7, (ordinal - days[5]) as u8)
        } else if ordinal > days[4] {
            (6, (ordinal - days[4]) as u8)
        } else if ordinal > days[3] {
            (5, (ordinal - days[3]) as u8)
        } else if ordinal > days[2] {
            (4, (ordinal - days[2]) as u8)
        } else if ordinal > days[1] {
            (3, (ordinal - days[1]) as u8)
        } else if ordinal > days[0] {
            (2, (ordinal - days[0]) as u8)
        } else {
            (1, ordinal as u8)
        };
        proof {
            lemma_month_of(self@.0, self@.1, r.0 as int);
        }
        r
    }

    /// Get the month.
    ///
    /// The returned value will always be in the range `1..=12`.
    pub fn month(self) -> (r: u8)
        ensures
            r == month_of(self@.0, self@.1),
            1 <= r <= 12,
    {
        proof {
            use_type_invariant(&self);
        }
        self.month_day().0
    }

    /// Get the day of the month.
    ///
    /// The returned value will always be in the range `1..=31`.
    pub fn day(self) -> (r: u8)
        ensures
            r == day_of(self@.0, self@.1),
            1 <= r <= 31,
    {
        proof {
            use_type_invariant(&self);
        }
        self.month_day().1
    }

    /// Get the year, month, and day.
    pub fn to_calendar_date(self) -> (r: (i32, u8, u8))
        ensures
            r.0 == self@.0,
            r.1 == month_of(self@.0, self@.1),
            r.2 == day_of(self@.0, self@.1),
    {
        proof {
            use_type_invariant(&self);
        }
        let (month, day) = self.month_day();
        (self.year(), month, day)
    }

    /// Attempt to create a `Date` from the ISO year, week, and weekday.
    ///
    /// The date is the given weekday of the given week, where week 1 of an
    /// ISO year is the week, from Monday, that holds January 4. The last two
    /// days of week 52 of year 9999 fall in year 10000, after the last
    /// representable date: for them the year is out of range.
    pub fn from_iso_week_date(year: i32, week: u8, weekday: Weekday) -> (r: Result<
        Date,
        ComponentRange,
    >)
        ensures
            r is Ok <==> MIN_YEAR <= year <= MAX_YEAR && 1 <= week <= iso_weeks(year as int)
                && iso_week_start(year as int) + 7 * (week - 1) + weekday.index()
                <= max_julian_day(),
            r matches Ok(d) ==> d.wf() && d.julian() == iso_week_start(year as int) + 7 * (week
                - 1) + weekday.index(),
            !(MIN_YEAR <= year <= MAX_YEAR) ==> r == Err::<Date, ComponentRange>(
                range_error("year", MIN_YEAR as int, MAX_YEAR as int, year as int, false),
            ),
            MIN_YEAR <= year <= MAX_YEAR && !(1 <= week <= iso_weeks(year as int)) ==> r == Err::<
                Date,
                ComponentRange,
            >(range_error("week", 1, iso_weeks(year as int), week as int, true)),
            MIN_YEAR <= year <= MAX_YEAR && 1 <= week <= iso_weeks(year as int) && iso_week_start(
                year as int,
            ) + 7 * (week - 1) + weekday.index() > max_julian_day() ==> r == Err::<
                Date,
                ComponentRange,
            >(range_error("year", MIN_YEAR as int, MAX_YEAR as int, MAX_YEAR + 1, false)),
    {
        if year < MIN_YEAR || year > MAX_YEAR {
            return Err(
                ComponentRange {
                    name: "year",
                    minimum: MIN_YEAR as i64,
                    maximum: MAX_YEAR as i64,
                    value: year as i64,
                    conditional_range: false,
                },
            );
        }
        let max_week = weeks_in_year(year);
        if week < 1 || week > max_week {
            return Err(
                ComponentRange {
                    name: "week",
                    minimum: 1,
                    maximum: max_week as i64,
                    value: week as i64,
                    conditional_range: true,
                },
            );
        }
        proof {
            Date::lemma_last_iso_week();
        }
        if year == MAX_YEAR && week == 52 && weekday.number_days_from_monday() >= 5 {
            return Err(
                ComponentRange {
                    name: "year",
                    minimum: MIN_YEAR as i64,
                    maximum: MAX_YEAR as i64,
                    value: MAX_YEAR as i64 + 1,
                    conditional_range: false,
                },
            );
        }
        let d = Date::from_iso_week_date_unchecked(year, week, weekday);
        proof {
            law_julian_day_in_range(d);
        }
        Ok(d)
    }

    /// The date of an ISO week date that lies within the supported years.
    fn from_iso_week_date_unchecked(year: i32, week: u8, weekday: Weekday) -> (r: Date)
        requires
            MIN_YEAR <= year <= MAX_YEAR,
            1 <= week <= iso_weeks(year as int),
            year == MAX_YEAR ==> iso_week_start(MAX_YEAR as int) + 7 * (week - 1) + weekday.index()
                <= max_julian_day(),
        ensures
            r.wf(),
            r.julian() == iso_week_start(year as int) + 7 * (week - 1) + weekday.index(),
    {
        // Modulo 7, `raw` is three days past the weekday of January 1.
        let adj_year = year - 1;
        let raw = adj_year + div_floor(adj_year, 4) - div_floor(adj_year, 100) + div_floor(
            adj_year,
            400,
        ) + 3;
        let rem = raw % 7;
        let adjustment = if rem < 0 {
            rem + 11
        } else {
            rem + 4
        };
        let ordinal = week as i32 * 7 + weekday.number_from_monday() as i32 - adjustment;
        proof {
            lemma_trunc_div_floor(raw as int, 7);
            lemma_iso_week_date_ordinal(year as int, week as int, weekday.index());
            lemma_julian_day_next_year(year as int - 1);
            lemma_julian_day_next_year(year as int);
        }
        if ordinal <= 0 {
            Date::from_ordinal_date_unchecked(year - 1, (ordinal + days_in_year(year - 1) as i32) as u16)
        } else if ordinal > days_in_year(year) as i32 {
            Date::from_ordinal_date_unchecked(year + 1, (ordinal - days_in_year(year) as i32) as u16)
        } else {
            Date::from_ordinal_date_unchecked(year, ordinal as u16)
        }
    }

    /// Week 52 of year 9999 is its last ISO week, and its Friday is the last
    /// representable date.
    proof fn lemma_last_iso_week()
        ensures
            iso_weeks(MAX_YEAR as int) == 52,
            iso_week_start(MAX_YEAR as int) + 7 * 51 + 4 == max_julian_day(),
    {
        assert(days_through_year(9998) == 3651694);
        assert(julian_day(9999, 1) == 5373120);
        assert(julian_day(9999, 4) == 5373123);
        assert(max_julian_day() == 5373484);
    }

    /// Get the ISO 8601 year and week number.
    pub(crate) fn iso_year_week(self) -> (r: (i32, u8))
        ensures
            (r.0 as int, r.1 as int) == iso_year_week(self@.0, self@.1),
            1 <= r.1 <= iso_weeks(r.0 as int),
    {
        proof {
            use_type_invariant(&self);
        }
        let (year, ordinal) = self.to_ordinal_date();
        proof {
            lemma_iso_week_number(self@.0, self@.1);
        }
        let week = ((ordinal + 10 - self.weekday().number_from_monday() as u16) / 7) as u8;
        if week == 0 {
            (year - 1, weeks_in_year(year - 1))
        } else if week == 53 && weeks_in_year(year) == 52 {
            (year + 1, 1)
        } else {
            (year, week)
        }
    }

    /// Get the ISO week number.
    ///
    /// The returned value will always be in the range `1..=53`.
    pub fn iso_week(self) -> (r: u8)
        ensures
            r == iso_year_week(self@.0, self@.1).1,
            1 <= r <= 53,
    {
        proof {
            use_type_invariant(&self);
        }
        self.iso_year_week().1
    }

    /// Get the week number where week 1 begins on the first Sunday.
    ///
    /// The returned value will always be in the range `0..=53`.
    pub fn sunday_based_week(self) -> (r: u8)
        ensures
            r == (self@.1 - (weekday_index(self.julian()) + 1) % 7 + 6) / 7,
            0 <= r <= 53,
    {
        proof {
            use_type_invariant(&self);
        }
        ((self.ordinal() as i16 - self.weekday().number_days_from_sunday() as i16 + 6) / 7) as u8
    }

    /// Get the week number where week 1 begins on the first Monday.
    ///
    /// The returned value will always be in the range `0..=53`.
    pub fn monday_based_week(self) -> (r: u8)
        ensures
            r == (self@.1 - weekday_index(self.julian()) + 6) / 7,
            0 <= r <= 53,
    {
        proof {
            use_type_invariant(&self);
        }
        ((self.ordinal() as i16 - self.weekday().number_days_from_monday() as i16 + 6) / 7) as u8
    }

    /// Get the ISO 8601 year, week number, and weekday.
    pub fn to_iso_week_date(self) -> (r: (i32, u8, Weekday))
        ensures
            (r.0 as int, r.1 as int) == iso_year_week(self@.0, self@.1),
            r.2 == Weekday::from_index(weekday_index(self.julian())),
    {
        proof {
            use_type_invariant(&self);
        }
        let (year, week) = self.iso_year_week();
        (year, week, self.weekday())
    }

    /// Get the year of the date.
    pub fn year(self) -> (r: i32)
        ensures
            r == self@.0,
    {
        proof {
            use_type_invariant(&self);
        }
        proof {
            self.lemma_packed();
            let v = self.value;
            let y = self@.0 as i32;
            let o = self@.1 as i32;
            assert(v >> 9 == y) by (bit_vector)
                requires
                    v == y * 512 + o,
                    -10000 <= y <= 10000,
                    0 <= o < 512,
            ;
        }
        self.value >> 9
    }

    /// Get the day of the year.
    ///
    /// The returned value will always be in the range `1..=366` (`1..=365`
    /// for common years).
    pub fn ordinal(self) -> (r: u16)
        ensures
            r == self@.1,
            1 <= r <= year_len(self@.0),
    {
        proof {
            use_type_invariant(&self);
        }
        proof {
            self.lemma_packed();
            let v = self.value;
            let y = self@.0 as i32;
            let o = self@.1 as i32;
            assert(v & 0x1FF == o) by (bit_vector)
                requires
                    v == y * 512 + o,
                    -10000 <= y <= 10000,
                    0 <= o < 512,
            ;
        }
        (self.value & 0x1FF) as u16
    }

    /// Get the year and ordinal day number.
    pub fn to_ordinal_date(self) -> (r: (i32, u16))
        ensures
            r.0 == self@.0,
            r.1 == self@.1,
    {
        proof {
            use_type_invariant(&self);
        }
        (self.year(), self.ordinal())
    }

    /// Get the Julian day for the date.
    pub fn to_julian_day(self) -> (r: i32)
        ensures
            r == self.julian(),
    {
        proof {
            use_type_invariant(&self);
        }
        let year = self.year() - 1;
        let ordinal = self.ordinal() as i32;
        ordinal + 365 * year + div_floor(year, 4) - div_floor(year, 100) + div_floor(year, 400)
            + 1_721_425
    }

    /// Create a `Date` from the Julian day.
    pub fn from_julian_day(julian_day: i32) -> (r: Result<Date, ComponentRange>)
        ensures
            r is Ok <==> min_julian_day() <= julian_day <= max_julian_day(),
            r matches Ok(d) ==> d.wf() && d.julian() == julian_day,
            r is Err ==> r == Err::<Date, ComponentRange>(
                range_error(
                    "julian_day",
                    min_julian_day(),
                    max_julian_day(),
                    julian_day as int,
                    false,
                ),
            ),
    {
        let minimum = Date::minimum().to_julian_day();
        let maximum = Date::maximum().to_julian_day();
        if julian_day < minimum || julian_day > maximum {
            return Err(
                ComponentRange {
                    name: "julian_day",
                    minimum: minimum as i64,
                    maximum: maximum as i64,
                    value: julian_day as i64,
                    conditional_range: false,
                },
            );
        }
        Ok(Date::from_julian_day_unchecked(julian_day))
    }

    /// Create a `Date` from a Julian day that lies within the supported years.
    pub(crate) fn from_julian_day_unchecked(julian_day: i32) -> (r: Date)
        requires
            min_julian_day() <= julian_day <= max_julian_day(),
        ensures
            r.wf(),
            r.julian() == julian_day,
    {
        let z = julian_day - 1_721_119;
        let g = 100 * z - 25;
        let a = g / 3_652_425;
        proof {
            lemma_trunc_div_floor(g as int, 3_652_425);
            lemma_trunc_div_floor(a as int, 4);
        }
        let b = a - a / 4;
        let mut year = div_floor(100 * b + g, 36525);
        proof {
            lemma_floor_div_bounds(100 * b + g, 36525);
            lemma_march_year_decomposition(z as int);
        }
        let mut ordinal = (b + z - div_floor(36525 * year, 100)) as u16;
        let ghost raw = ordinal as int;
        let ghost march_year = year as int;
        if is_leap_year(year) {
            ordinal += 60;
            if ordinal >= 367 {
                ordinal -= 366;
                year += 1;
            } else if ordinal < 1 {
                ordinal += 366;
                year -= 1;
            }
        } else {
            ordinal += 59;
            if ordinal >= 366 {
                ordinal -= 365;
                year += 1;
            } else if ordinal < 1 {
                ordinal += 365;
                year -= 1;
            }
        }
        proof {
            lemma_days_through_year_step(march_year);
            assert(valid_ordinal(year as int, ordinal as int));
            assert(crate::calendar::julian_day(year as int, ordinal as int) == julian_day);
            if year < MIN_YEAR {
                lemma_julian_day_years_ordered(year as int, ordinal as int, MIN_YEAR as int);
            }
            if year > MAX_YEAR {
                lemma_julian_day_years_ordered(MAX_YEAR as int, 365, year as int);
            }
        }
        Date::from_ordinal_date_unchecked(year, ordinal)
    }

    /// Get the weekday.
    pub fn weekday(self) -> (r: Weekday)
        ensures
            r == Weekday::from_index(weekday_index(self.julian())),
    {
        proof {
            use_type_invariant(&self);
        }
        let jd = self.to_julian_day();
        proof {
            lemma_trunc_div_floor(jd as int, 7);
            lemma_floor_div_bounds(jd as int, 7);
        }
        match jd % 7 {
            -6 | 1 => Weekday::Tuesday,
            -5 | 2 => Weekday::Wednesday,
            -4 | 3 => Weekday::Thursday,
            -3 | 4 => Weekday::Friday,
            -2 | 5 => Weekday::Saturday,
            -1 | 6 => Weekday::Sunday,
            _ => Weekday::Monday,
        }
    }

    /// Get the next calendar date, or `None` for the last representable one.
    pub fn next_day(self) -> (r: Option<Date>)
        ensures
            r is None <==> self@ == (MAX_YEAR as int, year_len(MAX_YEAR as int)),
            r matches Some(n) ==> n.wf() && n@ == next_ordinal_date(self@.0, self@.1),
    {
        proof {
            use_type_invariant(&self);
        }
        proof {
            self.lemma_packed();
        }
        if self.ordinal() == 366 || (self.ordinal() == 365 && !is_leap_year(self.year())) {
            if self.value == MAX_VALUE {
                None
            } else {
                Some(Date::from_ordinal_date_unchecked(self.year() + 1, 1))
            }
        } else {
            let value = self.value + 1;
            proof {
                lemma_floor_div_unique(value as int, 512, self@.0);
            }
            Some(Date { value })
        }
    }

    /// Get the previous calendar date, or `None` for the first representable
    /// one.
    pub fn previous_day(self) -> (r: Option<Date>)
        ensures
            r is None <==> self@ == (MIN_YEAR as int, 1int),
            r matches Some(p) ==> p.wf() && p@ == previous_ordinal_date(self@.0, self@.1),
    {
        proof {
            use_type_invariant(&self);
        }
        proof {
            self.lemma_packed();
        }
        if self.ordinal() != 1 {
            let value = self.value - 1;
            proof {
                lemma_floor_div_unique(value as int, 512, self@.0);
            }
            Some(Date { value })
        } else if self.value == MIN_VALUE {
            None
        } else {
            Some(Date::from_ordinal_date_unchecked(self.year() - 1, days_in_year(self.year() - 1)))
        }
    }
}

/// Methods to add a [`Time`] component, resulting in a [`PrimitiveDateTime`].
impl Date {
    /// Create a [`PrimitiveDateTime`] using the existing date. The [`Time`]
    /// component will be set to midnight.
    pub fn midnight(self) -> (r: PrimitiveDateTime)
        ensures
            r@.0 == self,
            r@.1.wf(),
            r@.1@ == (0int, 0int, 0int, 0int),
    {
        PrimitiveDateTime::new(self, Time::midnight())
    }

    /// Create a [`PrimitiveDateTime`] using the existing date and the provided
    /// [`Time`].
    pub fn with_time(self, time: Time) -> (r: PrimitiveDateTime)
        ensures
            r@ == (self, time),
    {
        PrimitiveDateTime::new(self, time)
    }

    /// Attempt to create a [`PrimitiveDateTime`] using the existing date and
    /// the provided time.
    pub fn with_hms(self, hour: u8, minute: u8, second: u8) -> (r: Result<
        PrimitiveDateTime,
        ComponentRange,
    >)
        ensures
            r is Ok <==> hour <= 23 && minute <= 59 && second <= 59,
            r matches Ok(dt) ==> dt@.0 == self && dt@.1.wf() && dt@.1@ == (
                hour as int,
                minute as int,
                second as int,
                0int,
            ),
            r matches Err(e) ==> e == hms_error(hour as int, minute as int, second as int),
    {
        match Time::from_hms(hour, minute, second) {
            Ok(time) => Ok(PrimitiveDateTime::new(self, time)),
            Err(e) => Err(e),
        }
    }

    /// Attempt to create a [`PrimitiveDateTime`] using the existing date and
    /// the provided time.
    pub fn with_hms_milli(self, hour: u8, minute: u8, second: u8, millisecond: u16) -> (r:
        Result<PrimitiveDateTime, ComponentRange>)
        ensures
            r is Ok <==> hour <= 23 && minute <= 59 && second <= 59 && millisecond <= 999,
            r matches Ok(dt) ==> dt@.0 == self && dt@.1.wf() && dt@.1@ == (
                hour as int,
                minute as int,
                second as int,
                millisecond * 1_000_000,
            ),
            r matches Err(e) ==> e == if hour <= 23 && minute <= 59 && second <= 59 {
                range_error("millisecond", 0, 999, millisecond as int, false)
            } else {
                hms_error(hour as int, minute as int, second as int)
            },
    {
        match Time::from_hms_milli(hour, minute, second, millisecond) {
            Ok(time) => Ok(PrimitiveDateTime::new(self, time)),
            Err(e) => Err(e),
        }
    }

    /// Attempt to create a [`PrimitiveDateTime`] using the existing date and
    /// the provided time.
    pub fn with_hms_micro(self, hour: u8, minute: u8, second: u8, microsecond: u32) -> (r:
        Result<PrimitiveDateTime, ComponentRange>)
        ensures
            r is Ok <==> hour <= 23 && minute <= 59 && second <= 59 && microsecond <= 999_999,
            r matches Ok(dt) ==> dt@.0 == self && dt@.1.wf() && dt@.1@ == (
                hour as int,
                minute as int,
                second as int,
                microsecond * 1_000,
            ),
            r matches Err(e) ==> e == if hour <= 23 && minute <= 59 && second <= 59 {
                range_error("microsecond", 0, 999_999, microsecond as int, false)
            } else {
                hms_error(hour as int, minute as int, second as int)
            },
    {
        match Time::from_hms_micro(hour, minute, second, microsecond) {
            Ok(time) => Ok(PrimitiveDateTime::new(self, time)),
            Err(e) => Err(e),
        }
    }

    /// Attempt to create a [`PrimitiveDateTime`] using the existing date and
    /// the provided time.
    pub fn with_hms_nano(self, hour: u8, minute: u8, second: u8, nanosecond: u32) -> (r: Result<
        PrimitiveDateTime,
        ComponentRange,
    >)
        ensures
            r is Ok <==> hour <= 23 && minute <= 59 && second <= 59 && nanosecond
                <= 999_999_999,
            r matches Ok(dt) ==> dt@.0 == self && dt@.1.wf() && dt@.1@ == (
                hour as int,
                minute as int,
                second as int,
                nanosecond as int,
            ),
            r matches Err(e) ==> e == if hour <= 23 && minute <= 59 && second <= 59 {
                range_error("nanosecond", 0, 999_999_999, nanosecond as int, false)
            } else {
                hms_error(hour as int, minute as int, second as int)
            },
    {
        match Time::from_hms_nano(hour, minute, second, nanosecond) {
            Ok(time) => Ok(PrimitiveDateTime::new(self, time)),
            Err(e) => Err(e),
        }
    }
}

/// Moving a date by whole days.
impl Date {
    /// The date `duration.whole_days()` days after this one.
    pub fn add_duration(self, duration: Duration) -> (r: Date)
        requires
            min_julian_day() <= self.julian() + trunc_div(duration@.0, 86_400)
                <= max_julian_day(),
        ensures
            r.wf(),
            r.julian() == self.julian() + trunc_div(duration@.0, 86_400),
    {
        proof {
            use_type_invariant(&self);
        }
        Date::from_julian_day_unchecked(self.to_julian_day() + duration.whole_days() as i32)
    }

    /// The date as many whole days after this one as `whole_seconds` holds
    /// (the whole seconds of a `core::time::Duration`).
    pub fn add_std_duration(self, whole_seconds: u64) -> (r: Date)
        requires
            self.julian() + whole_seconds / 86_400 <= max_julian_day(),
        ensures
            r.wf(),
            r.julian() == self.julian() + whole_seconds / 86_400,
    {
        proof {
            use_type_invariant(&self);
        }
        Date::from_julian_day_unchecked(self.to_julian_day() + (whole_seconds / 86_400) as i32)
    }

    /// Move the date `duration.whole_days()` days forward.
    pub fn add_assign_duration(&mut self, duration: Duration)
        requires
            min_julian_day() <= old(self).julian() + trunc_div(duration@.0, 86_400)
                <= max_julian_day(),
        ensures
            final(self).wf(),
            final(self).julian() == old(self).julian() + trunc_div(duration@.0, 86_400),
    {
        proof {
            use_type_invariant(&*self);
        }
        *self = self.add_duration(duration);
    }

    /// Move the date forward by as many whole days as `whole_seconds` holds.
    pub fn add_assign_std_duration(&mut self, whole_seconds: u64)
        requires
            old(self).julian() + whole_seconds / 86_400 <= max_julian_day(),
        ensures
            final(self).wf(),
            final(self).julian() == old(self).julian() + whole_seconds / 86_400,
    {
        proof {
            use_type_invariant(&*self);
        }
        *self = self.add_std_duration(whole_seconds);
    }

    /// The date `duration.whole_days()` days before this one.
    pub fn sub_duration(self, duration: Duration) -> (r: Date)
        requires
            duration@.0 > i64::MIN,
            min_julian_day() <= self.julian() - trunc_div(duration@.0, 86_400)
                <= max_julian_day(),
        ensures
            r.wf(),
            r.julian() == self.julian() - trunc_div(duration@.0, 86_400),
    {
        proof {
            use_type_invariant(&self);
        }
        self.add_duration(duration.neg())
    }

    /// The date as many whole days before this one as `whole_seconds` holds
    /// (the whole seconds of a `core::time::Duration`).
    pub fn sub_std_duration(self, whole_seconds: u64) -> (r: Date)
        requires
            min_julian_day() <= self.julian() - whole_seconds / 86_400,
        ensures
            r.wf(),
            r.julian() == self.julian() - whole_seconds / 86_400,
    {
        proof {
            use_type_invariant(&self);
        }
        Date::from_julian_day_unchecked(self.to_julian_day() - (whole_seconds / 86_400) as i32)
    }

    /// Move the date `duration.whole_days()` days back.
    pub fn sub_assign_duration(&mut self, duration: Duration)
        requires
            duration@.0 > i64::MIN,
            min_julian_day() <= old(self).julian() - trunc_div(duration@.0, 86_400)
                <= max_julian_day(),
        ensures
            final(self).wf(),
            final(self).julian() == old(self).julian() - trunc_div(duration@.0, 86_400),
    {
        proof {
            use_type_invariant(&*self);
        }
        *self = self.sub_duration(duration);
    }

    /// Move the date back by as many whole days as `whole_seconds` holds.
    pub fn sub_assign_std_duration(&mut self, whole_seconds: u64)
        requires
            min_julian_day() <= old(self).julian() - whole_seconds / 86_400,
        ensures
            final(self).wf(),
            final(self).julian() == old(self).julian() - whole_seconds / 86_400,
    {
        proof {
            use_type_invariant(&*self);
        }
        *self = self.sub_std_duration(whole_seconds);
    }

    /// The whole days from `other` to this date.
    pub fn sub_date(self, other: Date) -> (r: Duration)
        ensures
            r.wf(),
            r@ == ((self.julian() - other.julian()) * 86_400, 0int),
    {
        proof {
            use_type_invariant(&self);
            use_type_invariant(&other);
        }
        Duration::days((self.to_julian_day() - other.to_julian_day()) as i64)
    }
}

} // verus!
