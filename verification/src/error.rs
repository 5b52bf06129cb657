//! The errors that constructors report.
use vstd::prelude::*;

verus! {

/// A component of a date or time was out of its range.
#[derive(Clone, Copy, PartialEq, Eq, Debug, Hash)]
pub struct ComponentRange {
    /// The name of the component.
    pub name: &'static str,
    /// The least value the component may take.
    pub minimum: i64,
    /// The greatest value the component may take.
    pub maximum: i64,
    /// The value that was given.
    pub value: i64,
    /// Whether the range depends on other components (the days of a month
    /// on the year and month, for instance).
    pub conditional_range: bool,
}

impl ComponentRange {
    /// The name of the component that was out of range.
    pub fn name(&self) -> (r: &'static str)
        ensures
            r == self.name,
    {
        self.name
    }

    /// Whether the range of the component depends on other components.
    pub fn is_conditional(&self) -> (r: bool)
        ensures
            r == self.conditional_range,
    {
        self.conditional_range
    }
}

/// The error for component `name` whose `value` lies outside
/// `minimum..=maximum`.
pub open spec fn range_error(
    name: &'static str,
    minimum: int,
    maximum: int,
    value: int,
    conditional_range: bool,
) -> ComponentRange {
    ComponentRange {
        name,
        minimum: minimum as i64,
        maximum: maximum as i64,
        value: value as i64,
        conditional_range,
    }
}

/// A description of a format could not be formatted with a date.
#[derive(Clone, Copy, PartialEq, Eq, Structural, Debug, Hash)]
pub enum Format {
    /// The description names a component (of a time of day, or of an offset)
    /// that a date does not hold.
    InsufficientTypeInformation,
}

/// The input did not match the description it was parsed with.
#[derive(Clone, Copy, PartialEq, Eq, Debug, Hash)]
pub enum ParseFromDescription {
    /// A literal of the description was not found where it belongs.
    InvalidLiteral,
    /// The named component was not found, or was out of its range.
    InvalidComponent(&'static str),
    /// The input goes on after the description has been matched.
    UnexpectedTrailingCharacters,
}

/// The components that were parsed do not make up a date.
#[derive(Clone, Copy, PartialEq, Eq, Debug, Hash)]
pub enum TryFromParsed {
    /// No set of the components parsed determines a date.
    InsufficientInformation,
    /// The components determine a date that does not exist.
    ComponentRange(ComponentRange),
}

/// A date could not be parsed.
#[derive(Clone, Copy, PartialEq, Eq, Debug, Hash)]
pub enum Parse {
    /// The parsed components do not make up a date.
    TryFromParsed(TryFromParsed),
    /// The input did not match the description.
    ParseFromDescription(ParseFromDescription),
}

/// The text of a format description is not well formed.
#[derive(Clone, Copy, PartialEq, Eq, Debug, Hash)]
pub enum InvalidFormatDescription {
    /// A `[` at this character index has no matching `]`.
    UnclosedOpeningBracket { index: usize },
    /// The component at this character index has a name that is not known.
    InvalidComponentName { index: usize },
    /// The modifier at this character index is not known for its component, or
    /// has a value that is not.
    InvalidModifier { index: usize },
    /// The brackets at this character index hold no component name.
    MissingComponentName { index: usize },
}

} // verus!
