//! The chronological order of dates.
use crate::date::Date;
use crate::laws::law_chronological_order;
use core::cmp::Ordering;
use vstd::prelude::*;
use vstd::std_specs::cmp::{PartialOrdSpec, PartialOrdSpecImpl};

verus! {

/// Dates are compared by year, then by day of the year.
impl PartialOrd for Date {
    fn partial_cmp(&self, other: &Date) -> (r: Option<Ordering>) {
        proof {
            use_type_invariant(self);
            use_type_invariant(other);
        }
        let (year, ordinal) = self.to_ordinal_date();
        let (other_year, other_ordinal) = other.to_ordinal_date();
        if year < other_year || (year == other_year && ordinal < other_ordinal) {
            Some(Ordering::Less)
        } else if year == other_year && ordinal == other_ordinal {
            proof {
                self.lemma_view_injective(*other);
            }
            Some(Ordering::Equal)
        } else {
            Some(Ordering::Greater)
        }
    }
}

/// In contracts, one date is before another where its year is earlier, or
/// its year is the same and its day of the year is earlier.
impl PartialOrdSpecImpl for Date {
    open spec fn obeys_partial_cmp_spec() -> bool {
        true
    }

    open spec fn partial_cmp_spec(&self, other: &Date) -> Option<Ordering> {
        if self@.0 < other@.0 || (self@.0 == other@.0 && self@.1 < other@.1) {
            Some(Ordering::Less)
        } else if self@ == other@ {
            Some(Ordering::Equal)
        } else {
            Some(Ordering::Greater)
        }
    }
}

/// Comparing two dates orders them as their Julian days are ordered, and
/// finds them equal exactly when they are the same date.
pub proof fn law_order_follows_julian_day(a: Date, b: Date)
    requires
        a.wf(),
        b.wf(),
    ensures
        PartialOrdSpec::partial_cmp_spec(&a, &b) == Some(Ordering::Less) <==> a.julian() < b.julian(),
        PartialOrdSpec::partial_cmp_spec(&a, &b) == Some(Ordering::Greater) <==> b.julian() < a.julian(),
        PartialOrdSpec::partial_cmp_spec(&a, &b) == Some(Ordering::Equal) <==> a == b,
{
    law_chronological_order(a, b);
    law_chronological_order(b, a);
    if a@ == b@ {
        a.lemma_view_injective(b);
    }
}

} // verus!
