//! A date and a time of day, without an offset.
use crate::clock::Time;
use crate::date::Date;
use vstd::prelude::*;

verus! {

/// A date and a time of day, with no offset from UTC.
#[derive(Clone, Copy, PartialEq, Eq, Structural, Hash, PartialOrd, Ord, Debug)]
pub struct PrimitiveDateTime {
    date: Date,
    time: Time,
}

/// A date-time is seen as its date and its time.
impl View for PrimitiveDateTime {
    type V = (Date, Time);

    closed spec fn view(&self) -> (Date, Time) {
        (self.date, self.time)
    }
}

impl PrimitiveDateTime {
    /// Create a `PrimitiveDateTime` from the provided date and time.
    pub fn new(date: Date, time: Time) -> (r: PrimitiveDateTime)
        ensures
            r@ == (date, time),
    {
        PrimitiveDateTime { date, time }
    }

    /// Get the date.
    pub fn date(self) -> (r: Date)
        ensures
            r == self@.0,
    {
        self.date
    }

    /// Get the time.
    pub fn time(self) -> (r: Time)
        ensures
            r == self@.1,
    {
        self.time
    }
}

} // verus!
