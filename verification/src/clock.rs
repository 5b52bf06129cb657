//! Clock times within a day.
use crate::error::{range_error, ComponentRange};
use vstd::prelude::*;

verus! {

/// The clock time within a given date, to the nanosecond.
#[derive(Clone, Copy, PartialEq, Eq, Structural, Hash, PartialOrd, Ord, Debug)]
pub struct Time {
    hour: u8,
    minute: u8,
    second: u8,
    nanosecond: u32,
}

/// A time is seen as its hour, minute, second and nanosecond.
impl View for Time {
    type V = (int, int, int, int);

    closed spec fn view(&self) -> (int, int, int, int) {
        (self.hour as int, self.minute as int, self.second as int, self.nanosecond as int)
    }
}

/// Whether the four components name a time of day.
pub open spec fn valid_time(hour: int, minute: int, second: int, nanosecond: int) -> bool {
    0 <= hour <= 23 && 0 <= minute <= 59 && 0 <= second <= 59 && 0 <= nanosecond <= 999_999_999
}

/// The error for the first of `hour`, `minute` and `second` that lies
/// outside its range.
pub open spec fn hms_error(hour: int, minute: int, second: int) -> ComponentRange {
    if hour > 23 {
        range_error("hour", 0, 23, hour, false)
    } else if minute > 59 {
        range_error("minute", 0, 59, minute, false)
    } else {
        range_error("second", 0, 59, second, false)
    }
}

/// Checks that `hour`, `minute` and `second` lie in their ranges, in that
/// order, and reports the first that does not.
fn check_hms(hour: u8, minute: u8, second: u8) -> (r: Result<(), ComponentRange>)
    ensures
        r is Ok <==> hour <= 23 && minute <= 59 && second <= 59,
        r matches Err(e) ==> e == hms_error(hour as int, minute as int, second as int),
{
    if hour > 23 {
        return Err(
            ComponentRange {
                name: "hour",
                minimum: 0,
                maximum: 23,
                value: hour as i64,
                conditional_range: false,
            },
        );
    }
    if minute > 59 {
        return Err(
            ComponentRange {
                name: "minute",
                minimum: 0,
                maximum: 59,
                value: minute as i64,
                conditional_range: false,
            },
        );
    }
    if second > 59 {
        return Err(
            ComponentRange {
                name: "second",
                minimum: 0,
                maximum: 59,
                value: second as i64,
                conditional_range: false,
            },
        );
    }
    Ok(())
}

impl Time {
    /// Whether the time is one of the day.
    #[verifier::type_invariant]
    pub open spec fn wf(self) -> bool {
        valid_time(self@.0, self@.1, self@.2, self@.3)
    }

    /// Midnight: `0:00`.
    pub fn midnight() -> (r: Time)
        ensures
            r.wf(),
            r@ == (0int, 0int, 0int, 0int),
    {
        Time { hour: 0, minute: 0, second: 0, nanosecond: 0 }
    }

    /// Attempt to create a `Time` from the hour, minute, and second.
    pub fn from_hms(hour: u8, minute: u8, second: u8) -> (r: Result<Time, ComponentRange>)
        ensures
            r is Ok <==> hour <= 23 && minute <= 59 && second <= 59,
            r matches Ok(t) ==> t.wf() && t@ == (hour as int, minute as int, second as int, 0int),
            r matches Err(e) ==> e == hms_error(hour as int, minute as int, second as int),
    {
        match check_hms(hour, minute, second) {
            Ok(()) => Ok(Time { hour, minute, second, nanosecond: 0 }),
            Err(e) => Err(e),
        }
    }

    /// Attempt to create a `Time` from the hour, minute, second, and
    /// millisecond.
    pub fn from_hms_milli(hour: u8, minute: u8, second: u8, millisecond: u16) -> (r: Result<
        Time,
        ComponentRange,
    >)
        ensures
            r is Ok <==> hour <= 23 && minute <= 59 && second <= 59 && millisecond <= 999,
            r matches Ok(t) ==> t.wf() && t@ == (
                hour as int,
                minute as int,
                second as int,
                millisecond * 1_000_000,
            ),
            r matches Err(e) ==> e == if hour <= 23 && minute <= 59 && second <= 59 {
                range_error("millisecond", 0, 999, millisecond as int, false)
            } else {
                hms_error(hour as int, minute as int, second as int)
            },
    {
        match check_hms(hour, minute, second) {
            Ok(()) => {},
            Err(e) => {
                return Err(e);
            },
        }
        if millisecond > 999 {
            return Err(
                ComponentRange {
                    name: "millisecond",
                    minimum: 0,
                    maximum: 999,
                    value: millisecond as i64,
                    conditional_range: false,
                },
            );
        }
        Ok(Time { hour, minute, second, nanosecond: millisecond as u32 * 1_000_000 })
    }

    /// Attempt to create a `Time` from the hour, minute, second, and
    /// microsecond.
    pub fn from_hms_micro(hour: u8, minute: u8, second: u8, microsecond: u32) -> (r: Result<
        Time,
        ComponentRange,
    >)
        ensures
            r is Ok <==> hour <= 23 && minute <= 59 && second <= 59 && microsecond <= 999_999,
            r matches Ok(t) ==> t.wf() && t@ == (
                hour as int,
                minute as int,
                second as int,
                microsecond * 1_000,
            ),
            r matches Err(e) ==> e == if hour <= 23 && minute <= 59 && second <= 59 {
                range_error("microsecond", 0, 999_999, microsecond as int, false)
            } else {
                hms_error(hour as int, minute as int, second as int)
            },
    {
        match check_hms(hour, minute, second) {
            Ok(()) => {},
            Err(e) => {
                return Err(e);
            },
        }
        if microsecond > 999_999 {
            return Err(
                ComponentRange {
                    name: "microsecond",
                    minimum: 0,
                    maximum: 999_999,
                    value: microsecond as i64,
                    conditional_range: false,
                },
            );
        }
        Ok(Time { hour, minute, second, nanosecond: microsecond * 1_000 })
    }

    /// Attempt to create a `Time` from the hour, minute, second, and
    /// nanosecond.
    pub fn from_hms_nano(hour: u8, minute: u8, second: u8, nanosecond: u32) -> (r: Result<
        Time,
        ComponentRange,
    >)
        ensures
            r is Ok <==> hour <= 23 && minute <= 59 && second <= 59 && nanosecond
                <= 999_999_999,
            r matches Ok(t) ==> t.wf() && t@ == (
                hour as int,
                minute as int,
                second as int,
                nanosecond as int,
            ),
            r matches Err(e) ==> e == if hour <= 23 && minute <= 59 && second <= 59 {
                range_error("nanosecond", 0, 999_999_999, nanosecond as int, false)
            } else {
                hms_error(hour as int, minute as int, second as int)
            },
    {
        match check_hms(hour, minute, second) {
            Ok(()) => {},
            Err(e) => {
                return Err(e);
            },
        }
        if nanosecond > 999_999_999 {
            return Err(
                ComponentRange {
                    name: "nanosecond",
                    minimum: 0,
                    maximum: 999_999_999,
                    value: nanosecond as i64,
                    conditional_range: false,
                },
            );
        }
        Ok(Time { hour, minute, second, nanosecond })
    }

    /// Get the clock hour, in `0..=23`.
    pub fn hour(self) -> (r: u8)
        ensures
            r == self@.0,
            r <= 23,
    {
        proof {
            use_type_invariant(&self);
        }
        self.hour
    }

    /// Get the minute within the hour, in `0..=59`.
    pub fn minute(self) -> (r: u8)
        ensures
            r == self@.1,
            r <= 59,
    {
        proof {
            use_type_invariant(&self);
        }
        self.minute
    }

    /// Get the second within the minute, in `0..=59`.
    pub fn second(self) -> (r: u8)
        ensures
            r == self@.2,
            r <= 59,
    {
        proof {
            use_type_invariant(&self);
        }
        self.second
    }

    /// Get the nanoseconds within the second, in `0..=999_999_999`.
    pub fn nanosecond(self) -> (r: u32)
        ensures
            r == self@.3,
            r <= 999_999_999,
    {
        proof {
            use_type_invariant(&self);
        }
        self.nanosecond
    }
}

} // verus!
