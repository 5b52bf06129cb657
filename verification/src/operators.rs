//! The arithmetic operators on dates: moving a date by a duration, and the
//! duration between two dates.
use crate::calendar::trunc_div;
use crate::date::{max_julian_day, min_julian_day, Date};
use crate::duration::Duration;
use crate::laws::law_julian_day_determines_date;
use core::ops::{Add, Sub};
use vstd::prelude::*;
use vstd::std_specs::ops::{AddSpecImpl, SubSpecImpl};

verus! {

/// The date whose Julian day is `jd`, for `jd` within the supported range.
pub open spec fn date_of_julian_day(jd: int) -> Date {
    choose|d: Date| d.wf() && d.julian() == jd
}

/// The duration of `seconds` whole seconds.
pub open spec fn duration_of_seconds(seconds: int) -> Duration {
    choose|d: Duration| d@ == (seconds, 0int)
}

/// A date is the date of its Julian day.
proof fn lemma_date_of_julian_day(d: Date)
    requires
        d.wf(),
    ensures
        date_of_julian_day(d.julian()) == d,
{
    let c = date_of_julian_day(d.julian());
    assert(c.wf() && c.julian() == d.julian());
    law_julian_day_determines_date(c, d);
}

/// `date + duration` moves the date `duration.whole_days()` days forward.
impl Add<Duration> for Date {
    type Output = Date;

    fn add(self, duration: Duration) -> (r: Date)
        ensures
            r.wf(),
            r.julian() == self.julian() + trunc_div(duration@.0, 86_400),
    {
        let r = self.add_duration(duration);
        proof {
            lemma_date_of_julian_day(r);
        }
        r
    }
}

/// In contracts, `date + duration` is the date `duration.whole_days()` days
/// later, which must lie within the supported years.
impl AddSpecImpl<Duration> for Date {
    open spec fn obeys_add_spec() -> bool {
        true
    }

    open spec fn add_req(self, duration: Duration) -> bool {
        min_julian_day() <= self.julian() + trunc_div(duration@.0, 86_400) <= max_julian_day()
    }

    open spec fn add_spec(self, duration: Duration) -> Date {
        date_of_julian_day(self.julian() + trunc_div(duration@.0, 86_400))
    }
}

/// `date - duration` moves the date `duration.whole_days()` days back.
impl Sub<Duration> for Date {
    type Output = Date;

    fn sub(self, duration: Duration) -> (r: Date)
        ensures
            r.wf(),
            r.julian() == self.julian() - trunc_div(duration@.0, 86_400),
    {
        let r = self.sub_duration(duration);
        proof {
            lemma_date_of_julian_day(r);
        }
        r
    }
}

/// In contracts, `date - duration` is the date `duration.whole_days()` days
/// earlier, which must lie within the supported years; the duration must be
/// one whose negation is a duration.
impl SubSpecImpl<Duration> for Date {
    open spec fn obeys_sub_spec() -> bool {
        true
    }

    open spec fn sub_req(self, duration: Duration) -> bool {
        &&& duration@.0 > i64::MIN
        &&& min_julian_day() <= self.julian() - trunc_div(duration@.0, 86_400) <= max_julian_day()
    }

    open spec fn sub_spec(self, duration: Duration) -> Date {
        date_of_julian_day(self.julian() - trunc_div(duration@.0, 86_400))
    }
}

/// `date - other` is the whole days from `other` to `date`.
impl Sub<Date> for Date {
    type Output = Duration;

    fn sub(self, other: Date) -> (r: Duration)
        ensures
            r@ == ((self.julian() - other.julian()) * 86_400, 0int),
    {
        let r = self.sub_date(other);
        proof {
            let c = duration_of_seconds((self.julian() - other.julian()) * 86_400);
            assert(c@ == r@);
            r.lemma_view_injective(c);
        }
        r
    }
}

/// In contracts, `date - other` is the duration of the whole days from
/// `other` to `date`.
impl SubSpecImpl<Date> for Date {
    open spec fn obeys_sub_spec() -> bool {
        true
    }

    open spec fn sub_req(self, other: Date) -> bool {
        true
    }

    open spec fn sub_spec(self, other: Date) -> Duration {
        duration_of_seconds((self.julian() - other.julian()) * 86_400)
    }
}

} // verus!
