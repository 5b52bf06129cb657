//! Days of the week.
use vstd::prelude::*;

verus! {

/// A day of the week.
#[derive(Clone, Copy, PartialEq, Eq, Structural, Debug, Hash)]
pub enum Weekday {
    Monday,
    Tuesday,
    Wednesday,
    Thursday,
    Friday,
    Saturday,
    Sunday,
}

impl Weekday {
    /// The number of days from Monday to this day: Monday is 0, Sunday 6.
    pub open spec fn index(self) -> int {
        match self {
            Weekday::Monday => 0,
            Weekday::Tuesday => 1,
            Weekday::Wednesday => 2,
            Weekday::Thursday => 3,
            Weekday::Friday => 4,
            Weekday::Saturday => 5,
            Weekday::Sunday => 6,
        }
    }

    /// The day that is `index` days after Monday, for `index` in `0..7`.
    pub open spec fn from_index(index: int) -> Weekday {
        if index == 0 {
            Weekday::Monday
        } else if index == 1 {
            Weekday::Tuesday
        } else if index == 2 {
            Weekday::Wednesday
        } else if index == 3 {
            Weekday::Thursday
        } else if index == 4 {
            Weekday::Friday
        } else if index == 5 {
            Weekday::Saturday
        } else {
            Weekday::Sunday
        }
    }

    /// Every day is found again from its index.
    pub proof fn lemma_from_index(self)
        ensures
            0 <= self.index() < 7,
            Weekday::from_index(self.index()) == self,
    {
    }

    /// The day before this one.
    pub fn previous(self) -> (r: Weekday)
        ensures
            r == Weekday::from_index((self.index() + 6) % 7),
    {
        match self {
            Weekday::Monday => Weekday::Sunday,
            Weekday::Tuesday => Weekday::Monday,
            Weekday::Wednesday => Weekday::Tuesday,
            Weekday::Thursday => Weekday::Wednesday,
            Weekday::Friday => Weekday::Thursday,
            Weekday::Saturday => Weekday::Friday,
            Weekday::Sunday => Weekday::Saturday,
        }
    }

    /// The day after this one.
    pub fn next(self) -> (r: Weekday)
        ensures
            r == Weekday::from_index((self.index() + 1) % 7),
    {
        match self {
            Weekday::Monday => Weekday::Tuesday,
            Weekday::Tuesday => Weekday::Wednesday,
            Weekday::Wednesday => Weekday::Thursday,
            Weekday::Thursday => Weekday::Friday,
            Weekday::Friday => Weekday::Saturday,
            Weekday::Saturday => Weekday::Sunday,
            Weekday::Sunday => Weekday::Monday,
        }
    }

    /// The one-indexed number of days from Monday: Monday is 1, Sunday 7.
    pub fn number_from_monday(self) -> (r: u8)
        ensures
            r == self.index() + 1,
    {
        self.number_days_from_monday() + 1
    }

    /// The one-indexed number of days from Sunday: Sunday is 1, Saturday 7.
    pub fn number_from_sunday(self) -> (r: u8)
        ensures
            r == (self.index() + 1) % 7 + 1,
    {
        self.number_days_from_sunday() + 1
    }

    /// The zero-indexed number of days from Monday: Monday is 0, Sunday 6.
    pub fn number_days_from_monday(self) -> (r: u8)
        ensures
            r == self.index(),
    {
        match self {
            Weekday::Monday => 0,
            Weekday::Tuesday => 1,
            Weekday::Wednesday => 2,
            Weekday::Thursday => 3,
            Weekday::Friday => 4,
            Weekday::Saturday => 5,
            Weekday::Sunday => 6,
        }
    }

    /// The zero-indexed number of days from Sunday: Sunday is 0, Saturday 6.
    pub fn number_days_from_sunday(self) -> (r: u8)
        ensures
            r == (self.index() + 1) % 7,
    {
        match self {
            Weekday::Monday => 1,
            Weekday::Tuesday => 2,
            Weekday::Wednesday => 3,
            Weekday::Thursday => 4,
            Weekday::Friday => 5,
            Weekday::Saturday => 6,
            Weekday::Sunday => 0,
        }
    }
}

} // verus!
