//! The modifiers that refine how a component of a format description is
//! written and read.
use vstd::prelude::*;

verus! {

/// How a number is padded to its width.
#[derive(Clone, Copy, PartialEq, Eq, Structural, Debug, Hash)]
pub enum Padding {
    /// With leading spaces.
    Space,
    /// With leading zeros.
    Zero,
    /// Not at all: the number takes as many digits as it needs.
    NoPadding,
}

/// Day of the month.
#[derive(Clone, Copy, PartialEq, Eq, Structural, Debug, Hash)]
pub struct Day {
    pub padding: Padding,
}

/// How a month is written.
#[derive(Clone, Copy, PartialEq, Eq, Structural, Debug, Hash)]
pub enum MonthRepr {
    /// As its number, January being 1.
    Numerical,
    /// As its full English name.
    Long,
    /// As the first three letters of its English name.
    Short,
}

/// Month of the year.
#[derive(Clone, Copy, PartialEq, Eq, Structural, Debug, Hash)]
pub struct Month {
    pub padding: Padding,
    pub repr: MonthRepr,
}

/// Day of the year.
#[derive(Clone, Copy, PartialEq, Eq, Structural, Debug, Hash)]
pub struct Ordinal {
    pub padding: Padding,
}

/// How a weekday is written.
#[derive(Clone, Copy, PartialEq, Eq, Structural, Debug, Hash)]
pub enum WeekdayRepr {
    /// As the first three letters of its English name.
    Short,
    /// As its full English name.
    Long,
    /// As its number of days from Sunday.
    Sunday,
    /// As its number of days from Monday.
    Monday,
}

/// Day of the week.
#[derive(Clone, Copy, PartialEq, Eq, Structural, Debug, Hash)]
pub struct Weekday {
    pub repr: WeekdayRepr,
    /// Whether a number counts from 1 rather than from 0.
    pub one_indexed: bool,
}

/// Which week numbering is meant.
#[derive(Clone, Copy, PartialEq, Eq, Structural, Debug, Hash)]
pub enum WeekNumberRepr {
    /// The ISO week of the ISO year.
    Iso,
    /// Weeks from Sunday, week 1 beginning on the first Sunday of the year.
    Sunday,
    /// Weeks from Monday, week 1 beginning on the first Monday of the year.
    Monday,
}

/// Week of the year.
#[derive(Clone, Copy, PartialEq, Eq, Structural, Debug, Hash)]
pub struct WeekNumber {
    pub padding: Padding,
    pub repr: WeekNumberRepr,
}

/// How much of a year is written.
#[derive(Clone, Copy, PartialEq, Eq, Structural, Debug, Hash)]
pub enum YearRepr {
    /// The whole year.
    Full,
    /// Its last two digits.
    LastTwo,
}

/// Year.
#[derive(Clone, Copy, PartialEq, Eq, Structural, Debug, Hash)]
pub struct Year {
    pub padding: Padding,
    pub repr: YearRepr,
    /// Whether the ISO year is meant rather than the calendar year.
    pub iso_week_based: bool,
    /// Whether a `+` is written before a year that is not negative.
    pub sign_is_mandatory: bool,
}

/// Hour of the day.
#[derive(Clone, Copy, PartialEq, Eq, Structural, Debug, Hash)]
pub struct Hour {
    pub padding: Padding,
    /// Whether the hour counts from 1 to 12 rather than from 0 to 23.
    pub is_12_hour_clock: bool,
}

/// Minute of the hour.
#[derive(Clone, Copy, PartialEq, Eq, Structural, Debug, Hash)]
pub struct Minute {
    pub padding: Padding,
}

/// AM or PM.
#[derive(Clone, Copy, PartialEq, Eq, Structural, Debug, Hash)]
pub struct Period {
    pub is_uppercase: bool,
}

/// Second of the minute.
#[derive(Clone, Copy, PartialEq, Eq, Structural, Debug, Hash)]
pub struct Second {
    pub padding: Padding,
}

/// How many digits of the fraction of a second are meant.
#[derive(Clone, Copy, PartialEq, Eq, Structural, Debug, Hash)]
pub enum SubsecondDigits {
    One,
    Two,
    Three,
    Four,
    Five,
    Six,
    Seven,
    Eight,
    Nine,
    OneOrMore,
}

/// Fraction of a second.
#[derive(Clone, Copy, PartialEq, Eq, Structural, Debug, Hash)]
pub struct Subsecond {
    pub digits: SubsecondDigits,
}

/// Hours of an offset from UTC.
#[derive(Clone, Copy, PartialEq, Eq, Structural, Debug, Hash)]
pub struct OffsetHour {
    /// Whether a `+` is written before an offset that is not negative.
    pub sign_is_mandatory: bool,
    pub padding: Padding,
}

/// Minutes of an offset from UTC.
#[derive(Clone, Copy, PartialEq, Eq, Structural, Debug, Hash)]
pub struct OffsetMinute {
    pub padding: Padding,
}

/// Seconds of an offset from UTC.
#[derive(Clone, Copy, PartialEq, Eq, Structural, Debug, Hash)]
pub struct OffsetSecond {
    pub padding: Padding,
}

} // verus!
