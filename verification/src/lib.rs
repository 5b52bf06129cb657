//! Dates of the proleptic Gregorian calendar: constructing them from calendar,
//! ordinal, ISO week and Julian day forms, reading those forms back, moving
//! between days, and writing and reading them as text.
use vstd::prelude::*;

pub mod calendar;
pub mod clock;
pub mod date;
pub mod duration;
pub mod error;
pub mod format_description;
pub mod formatting;
pub mod laws;
pub mod modifier;
pub mod operators;
pub mod order;
pub mod parsing;
pub mod primitive_date_time;
pub mod text_laws;
pub mod util;
pub mod weekday;

verus! {

} // verus!
