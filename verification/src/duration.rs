//! Spans of time, which may be negative.
use crate::calendar::{lemma_trunc_div_floor, trunc_div};
use vstd::prelude::*;

verus! {

/// A span of time with nanosecond precision, which may be negative.
#[derive(Clone, Copy, PartialEq, Eq, Structural, Hash, Debug)]
pub struct Duration {
    /// The whole seconds of the span.
    seconds: i64,
    /// The nanoseconds beyond the whole seconds, with the sign of `seconds`
    /// where that is not zero.
    nanoseconds: i32,
}

/// A duration is seen as its whole seconds and the nanoseconds beyond them.
impl View for Duration {
    type V = (int, int);

    closed spec fn view(&self) -> (int, int) {
        (self.seconds as int, self.nanoseconds as int)
    }
}

impl Duration {
    /// Whether the nanoseconds are less than a second, with the sign of the
    /// seconds.
    #[verifier::type_invariant]
    pub open spec fn wf(self) -> bool {
        &&& -1_000_000_000 < self@.1 < 1_000_000_000
        &&& self@.0 > 0 ==> self@.1 >= 0
        &&& self@.0 < 0 ==> self@.1 <= 0
    }

    /// Two durations with the same seconds and nanoseconds are the same
    /// duration.
    pub proof fn lemma_view_injective(self, other: Duration)
        requires
            self@ == other@,
        ensures
            self == other,
    {
    }

    /// The span in nanoseconds.
    pub open spec fn total_nanoseconds(self) -> int {
        self@.0 * 1_000_000_000 + self@.1
    }

    /// Create a `Duration` from seconds and nanoseconds; nanoseconds beyond a
    /// second carry into the seconds.
    pub fn new(seconds: i64, nanoseconds: i32) -> (r: Duration)
        requires
            i64::MIN <= seconds + trunc_div(nanoseconds as int, 1_000_000_000) <= i64::MAX,
        ensures
            r.wf(),
            r.total_nanoseconds() == seconds * 1_000_000_000 + nanoseconds,
    {
        let mut seconds = seconds;
        let mut nanoseconds = nanoseconds;
        proof {
            lemma_trunc_div_floor(nanoseconds as int, 1_000_000_000);
        }
        seconds += nanoseconds as i64 / 1_000_000_000;
        nanoseconds = nanoseconds % 1_000_000_000;
        if seconds > 0 && nanoseconds < 0 {
            seconds -= 1;
            nanoseconds += 1_000_000_000;
        } else if seconds < 0 && nanoseconds > 0 {
            seconds += 1;
            nanoseconds -= 1_000_000_000;
        }
        Duration { seconds, nanoseconds }
    }

    /// Create a `Duration` of the given number of whole seconds.
    pub fn seconds(seconds: i64) -> (r: Duration)
        ensures
            r.wf(),
            r@ == (seconds as int, 0int),
    {
        Duration { seconds, nanoseconds: 0 }
    }

    /// Create a `Duration` of the given number of whole days.
    pub fn days(days: i64) -> (r: Duration)
        requires
            i64::MIN <= days * 86_400 <= i64::MAX,
        ensures
            r.wf(),
            r@ == (days * 86_400, 0int),
    {
        Duration::seconds(days * 86_400)
    }

    /// Get the number of whole days in the duration, rounded toward zero.
    pub fn whole_days(self) -> (r: i64)
        ensures
            r == trunc_div(self@.0, 86_400),
    {
        self.seconds / 86_400
    }

    /// Get the number of whole seconds in the duration.
    pub fn whole_seconds(self) -> (r: i64)
        ensures
            r == self@.0,
    {
        self.seconds
    }

    /// Get the nanoseconds beyond the whole seconds.
    pub fn subsec_nanoseconds(self) -> (r: i32)
        ensures
            r == self@.1,
    {
        self.nanoseconds
    }

    /// The duration of the same length in the opposite direction.
    pub fn neg(self) -> (r: Duration)
        requires
            self@.0 > i64::MIN,
        ensures
            r.wf(),
            r@ == (-self@.0, -self@.1),
    {
        proof {
            use_type_invariant(&self);
        }
        Duration { seconds: -self.seconds, nanoseconds: -self.nanoseconds }
    }
}

} // verus!
