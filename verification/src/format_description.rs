//! Descriptions of how a date is written as text.
use crate::error::InvalidFormatDescription;
use crate::modifier;
use crate::modifier::{
    MonthRepr, Padding, SubsecondDigits, WeekNumberRepr, WeekdayRepr, YearRepr,
};
use crate::formatting::push_char;
use crate::parsing::chars_of;
use vstd::prelude::*;
use vstd::string::*;

verus! {

/// A component of a date or time, with the modifiers that say how it is
/// written.
#[derive(Clone, Copy, PartialEq, Eq, Structural, Debug, Hash)]
pub enum Component {
    Day(modifier::Day),
    Month(modifier::Month),
    Ordinal(modifier::Ordinal),
    Weekday(modifier::Weekday),
    WeekNumber(modifier::WeekNumber),
    Year(modifier::Year),
    Hour(modifier::Hour),
    Minute(modifier::Minute),
    Period(modifier::Period),
    Second(modifier::Second),
    Subsecond(modifier::Subsecond),
    OffsetHour(modifier::OffsetHour),
    OffsetMinute(modifier::OffsetMinute),
    OffsetSecond(modifier::OffsetSecond),
}

/// One piece of a format description.
#[derive(PartialEq, Eq, Debug)]
pub enum FormatItem {
    /// Text written, and expected, as it is.
    Literal(String),
    /// A component of the date or time.
    Component(Component),
}

/// A description of how a date is written: its pieces, in order.
#[derive(PartialEq, Eq, Debug)]
pub struct FormatDescription {
    pub items: Vec<FormatItem>,
}

/// A piece of a format description, seen with its text as characters.
pub enum ItemView {
    Literal(Seq<char>),
    Component(Component),
}

/// A piece of a format description is seen with its text as characters.
impl View for FormatItem {
    type V = ItemView;

    open spec fn view(&self) -> ItemView {
        match self {
            FormatItem::Literal(s) => ItemView::Literal(s@),
            FormatItem::Component(c) => ItemView::Component(*c),
        }
    }
}

// ---------------------------------------------------------------------------
// The text of a format description
// ---------------------------------------------------------------------------

/// Whether `c` separates the words between brackets.
pub open spec fn is_space(c: char) -> bool {
    c == ' ' || c == '\t' || c == '\n' || c == '\r'
}

/// The first position from `pos` on, before `end`, that does not hold a
/// space, or `end`.
pub open spec fn skip_spaces(s: Seq<char>, pos: int, end: int) -> int
    decreases end - pos,
{
    if pos >= end || !is_space(s[pos]) {
        pos
    } else {
        skip_spaces(s, pos + 1, end)
    }
}

/// The first position from `pos` on, before `end`, that holds a space, or
/// `end`.
pub open spec fn word_end(s: Seq<char>, pos: int, end: int) -> int
    decreases end - pos,
{
    if pos >= end || is_space(s[pos]) {
        pos
    } else {
        word_end(s, pos + 1, end)
    }
}

/// The first position from `pos` on, before `end`, that holds `c`, or `end`.
pub open spec fn find_char(s: Seq<char>, pos: int, end: int, c: char) -> int
    decreases end - pos,
{
    if pos >= end || s[pos] == c {
        pos
    } else {
        find_char(s, pos + 1, end, c)
    }
}

/// The first position from `pos` on that holds `[`, or the end of `s`.
pub open spec fn literal_end(s: Seq<char>, pos: int) -> int {
    find_char(s, pos, s.len() as int, '[')
}

/// The component named by the characters of `s` from `start` to `end`, with
/// its default modifiers.
pub open spec fn component_named(s: Seq<char>, start: int, end: int) -> Option<Component> {
    let name = s.subrange(start, end);
    let padding = Padding::Zero;
    if name == "day"@ {
        Some(Component::Day(modifier::Day { padding }))
    } else if name == "hour"@ {
        Some(Component::Hour(modifier::Hour { padding, is_12_hour_clock: false }))
    } else if name == "minute"@ {
        Some(Component::Minute(modifier::Minute { padding }))
    } else if name == "month"@ {
        Some(Component::Month(modifier::Month { padding, repr: MonthRepr::Numerical }))
    } else if name == "offset_hour"@ {
        Some(Component::OffsetHour(modifier::OffsetHour { sign_is_mandatory: false, padding }))
    } else if name == "offset_minute"@ {
        Some(Component::OffsetMinute(modifier::OffsetMinute { padding }))
    } else if name == "offset_second"@ {
        Some(Component::OffsetSecond(modifier::OffsetSecond { padding }))
    } else if name == "ordinal"@ {
        Some(Component::Ordinal(modifier::Ordinal { padding }))
    } else if name == "period"@ {
        Some(Component::Period(modifier::Period { is_uppercase: true }))
    } else if name == "second"@ {
        Some(Component::Second(modifier::Second { padding }))
    } else if name == "subsecond"@ {
        Some(Component::Subsecond(modifier::Subsecond { digits: SubsecondDigits::OneOrMore }))
    } else if name == "weekday"@ {
        Some(Component::Weekday(modifier::Weekday { repr: WeekdayRepr::Long, one_indexed: true }))
    } else if name == "week_number"@ {
        Some(
            Component::WeekNumber(modifier::WeekNumber { padding, repr: WeekNumberRepr::Iso }),
        )
    } else if name == "year"@ {
        Some(
            Component::Year(
                modifier::Year {
                    padding,
                    repr: YearRepr::Full,
                    iso_week_based: false,
                    sign_is_mandatory: false,
                },
            ),
        )
    } else {
        None
    }
}

/// The padding that `value` names.
pub open spec fn padding_named(value: Seq<char>) -> Option<Padding> {
    if value == "space"@ {
        Some(Padding::Space)
    } else if value == "zero"@ {
        Some(Padding::Zero)
    } else if value == "none"@ {
        Some(Padding::NoPadding)
    } else {
        None
    }
}

/// Whether `value` is `true` or `false`, and which.
pub open spec fn bool_named(value: Seq<char>) -> Option<bool> {
    if value == "true"@ {
        Some(true)
    } else if value == "false"@ {
        Some(false)
    } else {
        None
    }
}

/// Whether `value` is `automatic` or `mandatory`: whether a sign is required.
pub open spec fn sign_named(value: Seq<char>) -> Option<bool> {
    if value == "automatic"@ {
        Some(false)
    } else if value == "mandatory"@ {
        Some(true)
    } else {
        None
    }
}

/// The digits of a fraction of a second that `value` names.
pub open spec fn digits_named(value: Seq<char>) -> Option<SubsecondDigits> {
    if value == "1"@ {
        Some(SubsecondDigits::One)
    } else if value == "2"@ {
        Some(SubsecondDigits::Two)
    } else if value == "3"@ {
        Some(SubsecondDigits::Three)
    } else if value == "4"@ {
        Some(SubsecondDigits::Four)
    } else if value == "5"@ {
        Some(SubsecondDigits::Five)
    } else if value == "6"@ {
        Some(SubsecondDigits::Six)
    } else if value == "7"@ {
        Some(SubsecondDigits::Seven)
    } else if value == "8"@ {
        Some(SubsecondDigits::Eight)
    } else if value == "9"@ {
        Some(SubsecondDigits::Nine)
    } else if value == "1+"@ {
        Some(SubsecondDigits::OneOrMore)
    } else {
        None
    }
}

/// `component` with the modifier `key:value` applied, or `None` where the
/// component has no such modifier, or it no such value.
pub open spec fn with_modifier(component: Component, key: Seq<char>, value: Seq<char>) -> Option<
    Component,
> {
    if key == "padding"@ {
        match padding_named(value) {
            None => None,
            Some(padding) => match component {
                Component::Day(_) => Some(Component::Day(modifier::Day { padding })),
                Component::Hour(m) => Some(Component::Hour(modifier::Hour { padding, ..m })),
                Component::Minute(_) => Some(Component::Minute(modifier::Minute { padding })),
                Component::Month(m) => Some(Component::Month(modifier::Month { padding, ..m })),
                Component::OffsetHour(m) => Some(
                    Component::OffsetHour(modifier::OffsetHour { padding, ..m }),
                ),
                Component::OffsetMinute(_) => Some(
                    Component::OffsetMinute(modifier::OffsetMinute { padding }),
                ),
                Component::OffsetSecond(_) => Some(
                    Component::OffsetSecond(modifier::OffsetSecond { padding }),
                ),
                Component::Ordinal(_) => Some(Component::Ordinal(modifier::Ordinal { padding })),
                Component::Second(_) => Some(Component::Second(modifier::Second { padding })),
                Component::WeekNumber(m) => Some(
                    Component::WeekNumber(modifier::WeekNumber { padding, ..m }),
                ),
                Component::Year(m) => Some(Component::Year(modifier::Year { padding, ..m })),
                _ => None,
            },
        }
    } else if key == "repr"@ {
        match component {
            Component::Hour(m) => if value == "24"@ {
                Some(Component::Hour(modifier::Hour { is_12_hour_clock: false, ..m }))
            } else if value == "12"@ {
                Some(Component::Hour(modifier::Hour { is_12_hour_clock: true, ..m }))
            } else {
                None
            },
            Component::Month(m) => if value == "numerical"@ {
                Some(Component::Month(modifier::Month { repr: MonthRepr::Numerical, ..m }))
            } else if value == "long"@ {
                Some(Component::Month(modifier::Month { repr: MonthRepr::Long, ..m }))
            } else if value == "short"@ {
                Some(Component::Month(modifier::Month { repr: MonthRepr::Short, ..m }))
            } else {
                None
            },
            Component::Weekday(m) => if value == "short"@ {
                Some(Component::Weekday(modifier::Weekday { repr: WeekdayRepr::Short, ..m }))
            } else if value == "long"@ {
                Some(Component::Weekday(modifier::Weekday { repr: WeekdayRepr::Long, ..m }))
            } else if value == "sunday"@ {
                Some(Component::Weekday(modifier::Weekday { repr: WeekdayRepr::Sunday, ..m }))
            } else if value == "monday"@ {
                Some(Component::Weekday(modifier::Weekday { repr: WeekdayRepr::Monday, ..m }))
            } else {
                None
            },
            Component::WeekNumber(m) => if value == "iso"@ {
                Some(Component::WeekNumber(modifier::WeekNumber { repr: WeekNumberRepr::Iso, ..m }))
            } else if value == "sunday"@ {
                Some(
                    Component::WeekNumber(modifier::WeekNumber { repr: WeekNumberRepr::Sunday, ..m }),
                )
            } else if value == "monday"@ {
                Some(
                    Component::WeekNumber(modifier::WeekNumber { repr: WeekNumberRepr::Monday, ..m }),
                )
            } else {
                None
            },
            Component::Year(m) => if value == "full"@ {
                Some(Component::Year(modifier::Year { repr: YearRepr::Full, ..m }))
            } else if value == "last_two"@ {
                Some(Component::Year(modifier::Year { repr: YearRepr::LastTwo, ..m }))
            } else {
                None
            },
            _ => None,
        }
    } else if key == "one_indexed"@ {
        match (component, bool_named(value)) {
            (Component::Weekday(m), Some(b)) => Some(
                Component::Weekday(modifier::Weekday { one_indexed: b, ..m }),
            ),
            _ => None,
        }
    } else if key == "base"@ {
        match component {
            Component::Year(m) => if value == "calendar"@ {
                Some(Component::Year(modifier::Year { iso_week_based: false, ..m }))
            } else if value == "iso_week"@ {
                Some(Component::Year(modifier::Year { iso_week_based: true, ..m }))
            } else {
                None
            },
            _ => None,
        }
    } else if key == "sign"@ {
        match (component, sign_named(value)) {
            (Component::Year(m), Some(b)) => Some(
                Component::Year(modifier::Year { sign_is_mandatory: b, ..m }),
            ),
            (Component::OffsetHour(m), Some(b)) => Some(
                Component::OffsetHour(modifier::OffsetHour { sign_is_mandatory: b, ..m }),
            ),
            _ => None,
        }
    } else if key == "case"@ {
        match component {
            Component::Period(_) => if value == "lower"@ {
                Some(Component::Period(modifier::Period { is_uppercase: false }))
            } else if value == "upper"@ {
                Some(Component::Period(modifier::Period { is_uppercase: true }))
            } else {
                None
            },
            _ => None,
        }
    } else if key == "digits"@ {
        match (component, digits_named(value)) {
            (Component::Subsecond(_), Some(d)) => Some(
                Component::Subsecond(modifier::Subsecond { digits: d }),
            ),
            _ => None,
        }
    } else {
        None
    }
}

/// `component` with the modifiers written from `pos` to `end` applied, each
/// a word `key:value`.
pub open spec fn with_modifiers(s: Seq<char>, component: Component, pos: int, end: int) -> Result<
    Component,
    InvalidFormatDescription,
>
    decreases end - pos,
{
    let start = skip_spaces(s, pos, end);
    if start >= end {
        Ok(component)
    } else {
        let stop = word_end(s, start, end);
        let colon = find_char(s, start, stop, ':');
        match with_modifier(
            component,
            s.subrange(start, colon),
            s.subrange(colon + 1, stop),
        ) {
            Some(next) => if colon < stop && pos < stop <= end {
                with_modifiers(s, next, stop, end)
            } else {
                Err(InvalidFormatDescription::InvalidModifier { index: start as usize })
            },
            None => Err(InvalidFormatDescription::InvalidModifier { index: start as usize }),
        }
    }
}

/// The component written between the brackets at `open` and `close`.
pub open spec fn bracketed_component(s: Seq<char>, open: int, close: int) -> Result<
    Component,
    InvalidFormatDescription,
> {
    let start = skip_spaces(s, open + 1, close);
    if start >= close {
        Err(InvalidFormatDescription::MissingComponentName { index: open as usize })
    } else {
        let stop = word_end(s, start, close);
        match component_named(s, start, stop) {
            None => Err(InvalidFormatDescription::InvalidComponentName { index: start as usize }),
            Some(component) => with_modifiers(s, component, stop, close),
        }
    }
}

/// The pieces that the text of a format description names from `pos` on.
pub open spec fn description_from(s: Seq<char>, pos: int) -> Result<
    Seq<ItemView>,
    InvalidFormatDescription,
>
    decreases s.len() - pos,
{
    if pos < 0 || pos >= s.len() {
        Ok(Seq::empty())
    } else if s[pos] != '[' {
        let end = literal_end(s, pos);
        if pos < end <= s.len() {
            match description_from(s, end) {
                Ok(rest) => Ok(seq![ItemView::Literal(s.subrange(pos, end))] + rest),
                Err(e) => Err(e),
            }
        } else {
            Ok(Seq::empty())
        }
    } else if pos + 1 < s.len() && s[pos + 1] == '[' {
        match description_from(s, pos + 2) {
            Ok(rest) => Ok(seq![ItemView::Literal(seq!['['])] + rest),
            Err(e) => Err(e),
        }
    } else {
        let close = find_char(s, pos + 1, s.len() as int, ']');
        if close >= s.len() {
            Err(InvalidFormatDescription::UnclosedOpeningBracket { index: pos as usize })
        } else {
            match bracketed_component(s, pos, close) {
                Err(e) => Err(e),
                Ok(component) => if pos < close + 1 <= s.len() {
                    match description_from(s, close + 1) {
                        Ok(rest) => Ok(seq![ItemView::Component(component)] + rest),
                        Err(e) => Err(e),
                    }
                } else {
                    Ok(Seq::empty())
                },
            }
        }
    }
}

/// The views of the pieces of a description.
pub open spec fn items_view(items: Seq<FormatItem>) -> Seq<ItemView> {
    items.map_values(|item: FormatItem| item@)
}

/// The pieces `done`, then those of `rest`, or the error of `rest`.
pub open spec fn after(done: Seq<ItemView>, rest: Result<Seq<ItemView>, InvalidFormatDescription>) -> Result<
    Seq<ItemView>,
    InvalidFormatDescription,
> {
    match rest {
        Ok(r) => Ok(done + r),
        Err(e) => Err(e),
    }
}

// ---------------------------------------------------------------------------
// Reading a format description
// ---------------------------------------------------------------------------

/// The first position from `pos` on, before `end`, that does not hold a
/// space.
fn skip_spaces_at(s: &Vec<char>, pos: usize, end: usize) -> (r: usize)
    requires
        pos <= end <= s@.len(),
    ensures
        r == skip_spaces(s@, pos as int, end as int),
        pos <= r <= end,
        r < end ==> !is_space(s@[r as int]),
    decreases end - pos,
{
    if pos >= end || !(s[pos] == ' ' || s[pos] == '\t' || s[pos] == '\n' || s[pos] == '\r') {
        pos
    } else {
        skip_spaces_at(s, pos + 1, end)
    }
}

/// The first position from `pos` on, before `end`, that holds a space.
fn word_end_at(s: &Vec<char>, pos: usize, end: usize) -> (r: usize)
    requires
        pos <= end <= s@.len(),
    ensures
        r == word_end(s@, pos as int, end as int),
        pos <= r <= end,
        pos < end && !is_space(s@[pos as int]) ==> r > pos,
    decreases end - pos,
{
    if pos >= end || (s[pos] == ' ' || s[pos] == '\t' || s[pos] == '\n' || s[pos] == '\r') {
        pos
    } else {
        word_end_at(s, pos + 1, end)
    }
}

/// The first position from `pos` on, before `end`, that holds `c`.
fn find_char_at(s: &Vec<char>, pos: usize, end: usize, c: char) -> (r: usize)
    requires
        pos <= end <= s@.len(),
    ensures
        r == find_char(s@, pos as int, end as int, c),
        pos <= r <= end,
        pos < end && s@[pos as int] != c ==> r > pos,
    decreases end - pos,
{
    if pos >= end || s[pos] == c {
        pos
    } else {
        find_char_at(s, pos + 1, end, c)
    }
}

/// Whether the characters from `start` to `end` spell `word`.
fn spells(s: &Vec<char>, start: usize, end: usize, word: &str) -> (r: bool)
    requires
        start <= end <= s@.len(),
    ensures
        r == (s@.subrange(start as int, end as int) == word@),
{
    let n = word.unicode_len();
    if end - start != n {
        assert(s@.subrange(start as int, end as int).len() != word@.len());
        return false;
    }
    let mut i: usize = 0;
    while i < n
        invariant
            n == word@.len(),
            start + n == end,
            end <= s@.len(),
            i <= n,
            s@.subrange(start as int, start + i) == word@.subrange(0, i as int),
        decreases n - i,
    {
        if s[start + i] != word.get_char(i) {
            assert(s@.subrange(start as int, end as int)[i as int] != word@[i as int]);
            return false;
        }
        i = i + 1;
        assert(s@.subrange(start as int, start + i) =~= word@.subrange(0, i as int));
    }
    assert(word@.subrange(0, i as int) =~= word@);
    true
}

/// The characters from `start` to `end`, as a string.
fn string_of(s: &Vec<char>, start: usize, end: usize) -> (r: String)
    requires
        start <= end <= s@.len(),
    ensures
        r@ == s@.subrange(start as int, end as int),
{
    let mut r = String::new();
    let mut i = start;
    while i < end
        invariant
            start <= i <= end,
            end <= s@.len(),
            r@ == s@.subrange(start as int, i as int),
        decreases end - i,
    {
        push_char(&mut r, s[i]);
        i = i + 1;
        assert(r@ =~= s@.subrange(start as int, i as int));
    }
    r
}

/// The component named by the characters from `start` to `end`.
fn component_named_at(s: &Vec<char>, start: usize, end: usize) -> (r: Option<Component>)
    requires
        start <= end <= s@.len(),
    ensures
        r == component_named(s@, start as int, end as int),
{
    let padding = Padding::Zero;
    if spells(s, start, end, "day") {
        Some(Component::Day(modifier::Day { padding }))
    } else if spells(s, start, end, "hour") {
        Some(Component::Hour(modifier::Hour { padding, is_12_hour_clock: false }))
    } else if spells(s, start, end, "minute") {
        Some(Component::Minute(modifier::Minute { padding }))
    } else if spells(s, start, end, "month") {
        Some(Component::Month(modifier::Month { padding, repr: MonthRepr::Numerical }))
    } else if spells(s, start, end, "offset_hour") {
        Some(Component::OffsetHour(modifier::OffsetHour { sign_is_mandatory: false, padding }))
    } else if spells(s, start, end, "offset_minute") {
        Some(Component::OffsetMinute(modifier::OffsetMinute { padding }))
    } else if spells(s, start, end, "offset_second") {
        Some(Component::OffsetSecond(modifier::OffsetSecond { padding }))
    } else if spells(s, start, end, "ordinal") {
        Some(Component::Ordinal(modifier::Ordinal { padding }))
    } else if spells(s, start, end, "period") {
        Some(Component::Period(modifier::Period { is_uppercase: true }))
    } else if spells(s, start, end, "second") {
        Some(Component::Second(modifier::Second { padding }))
    } else if spells(s, start, end, "subsecond") {
        Some(Component::Subsecond(modifier::Subsecond { digits: SubsecondDigits::OneOrMore }))
    } else if spells(s, start, end, "weekday") {
        Some(Component::Weekday(modifier::Weekday { repr: WeekdayRepr::Long, one_indexed: true }))
    } else if spells(s, start, end, "week_number") {
        Some(
            Component::WeekNumber(modifier::WeekNumber { padding, repr: WeekNumberRepr::Iso }),
        )
    } else if spells(s, start, end, "year") {
        Some(
            Component::Year(
                modifier::Year {
                    padding,
                    repr: YearRepr::Full,
                    iso_week_based: false,
                    sign_is_mandatory: false,
                },
            ),
        )
    } else {
        None
    }
}

/// The padding named by the characters from `start` to `end`.
fn padding_named_at(s: &Vec<char>, start: usize, end: usize) -> (r: Option<Padding>)
    requires
        start <= end <= s@.len(),
    ensures
        r == padding_named(s@.subrange(start as int, end as int)),
{
    if spells(s, start, end, "space") {
        Some(Padding::Space)
    } else if spells(s, start, end, "zero") {
        Some(Padding::Zero)
    } else if spells(s, start, end, "none") {
        Some(Padding::NoPadding)
    } else {
        None
    }
}

/// The digits of a fraction of a second named by the characters from `start`
/// to `end`.
fn digits_named_at(s: &Vec<char>, start: usize, end: usize) -> (r: Option<SubsecondDigits>)
    requires
        start <= end <= s@.len(),
    ensures
        r == digits_named(s@.subrange(start as int, end as int)),
{
    if spells(s, start, end, "1") {
        Some(SubsecondDigits::One)
    } else if spells(s, start, end, "2") {
        Some(SubsecondDigits::Two)
    } else if spells(s, start, end, "3") {
        Some(SubsecondDigits::Three)
    } else if spells(s, start, end, "4") {
        Some(SubsecondDigits::Four)
    } else if spells(s, start, end, "5") {
        Some(SubsecondDigits::Five)
    } else if spells(s, start, end, "6") {
        Some(SubsecondDigits::Six)
    } else if spells(s, start, end, "7") {
        Some(SubsecondDigits::Seven)
    } else if spells(s, start, end, "8") {
        Some(SubsecondDigits::Eight)
    } else if spells(s, start, end, "9") {
        Some(SubsecondDigits::Nine)
    } else if spells(s, start, end, "1+") {
        Some(SubsecondDigits::OneOrMore)
    } else {
        None
    }
}

/// `component` with the padding named from `start` to `end` applied.
fn with_padding_at(component: Component, s: &Vec<char>, start: usize, end: usize, Ghost(key): Ghost<Seq<char>>) -> (r: Option<Component>)
    requires
        start <= end <= s@.len(),
        key == "padding"@,
    ensures
        r == with_modifier(component, key, s@.subrange(start as int, end as int)),
{
    match padding_named_at(s, start, end) {
        None => None,
        Some(padding) => match component {
            Component::Day(_) => Some(Component::Day(modifier::Day { padding })),
            Component::Hour(m) => Some(
                Component::Hour(modifier::Hour { padding, is_12_hour_clock: m.is_12_hour_clock }),
            ),
            Component::Minute(_) => Some(Component::Minute(modifier::Minute { padding })),
            Component::Month(m) => Some(Component::Month(modifier::Month { padding, repr: m.repr })),
            Component::OffsetHour(m) => Some(
                Component::OffsetHour(
                    modifier::OffsetHour { padding, sign_is_mandatory: m.sign_is_mandatory },
                ),
            ),
            Component::OffsetMinute(_) => Some(
                Component::OffsetMinute(modifier::OffsetMinute { padding }),
            ),
            Component::OffsetSecond(_) => Some(
                Component::OffsetSecond(modifier::OffsetSecond { padding }),
            ),
            Component::Ordinal(_) => Some(Component::Ordinal(modifier::Ordinal { padding })),
            Component::Second(_) => Some(Component::Second(modifier::Second { padding })),
            Component::WeekNumber(m) => Some(
                Component::WeekNumber(modifier::WeekNumber { padding, repr: m.repr }),
            ),
            Component::Year(m) => Some(
                Component::Year(
                    modifier::Year {
                        padding,
                        repr: m.repr,
                        iso_week_based: m.iso_week_based,
                        sign_is_mandatory: m.sign_is_mandatory,
                    },
                ),
            ),
            _ => None,
        },
    }
}

/// `component` with the representation named from `start` to `end` applied.
fn with_repr_at(component: Component, s: &Vec<char>, start: usize, end: usize, Ghost(key): Ghost<Seq<char>>) -> (r: Option<Component>)
    requires
        start <= end <= s@.len(),
        key == "repr"@,
        key != "padding"@,
    ensures
        r == with_modifier(component, key, s@.subrange(start as int, end as int)),
{
    match component {
        Component::Hour(m) => if spells(s, start, end, "24") {
            Some(Component::Hour(modifier::Hour { padding: m.padding, is_12_hour_clock: false }))
        } else if spells(s, start, end, "12") {
            Some(Component::Hour(modifier::Hour { padding: m.padding, is_12_hour_clock: true }))
        } else {
            None
        },
        Component::Month(m) => if spells(s, start, end, "numerical") {
            Some(Component::Month(modifier::Month { padding: m.padding, repr: MonthRepr::Numerical }))
        } else if spells(s, start, end, "long") {
            Some(Component::Month(modifier::Month { padding: m.padding, repr: MonthRepr::Long }))
        } else if spells(s, start, end, "short") {
            Some(Component::Month(modifier::Month { padding: m.padding, repr: MonthRepr::Short }))
        } else {
            None
        },
        Component::Weekday(m) => if spells(s, start, end, "short") {
            Some(Component::Weekday(modifier::Weekday { repr: WeekdayRepr::Short, one_indexed: m.one_indexed }))
        } else if spells(s, start, end, "long") {
            Some(Component::Weekday(modifier::Weekday { repr: WeekdayRepr::Long, one_indexed: m.one_indexed }))
        } else if spells(s, start, end, "sunday") {
            Some(Component::Weekday(modifier::Weekday { repr: WeekdayRepr::Sunday, one_indexed: m.one_indexed }))
        } else if spells(s, start, end, "monday") {
            Some(Component::Weekday(modifier::Weekday { repr: WeekdayRepr::Monday, one_indexed: m.one_indexed }))
        } else {
            None
        },
        Component::WeekNumber(m) => if spells(s, start, end, "iso") {
            Some(Component::WeekNumber(modifier::WeekNumber { padding: m.padding, repr: WeekNumberRepr::Iso }))
        } else if spells(s, start, end, "sunday") {
            Some(Component::WeekNumber(modifier::WeekNumber { padding: m.padding, repr: WeekNumberRepr::Sunday }))
        } else if spells(s, start, end, "monday") {
            Some(Component::WeekNumber(modifier::WeekNumber { padding: m.padding, repr: WeekNumberRepr::Monday }))
        } else {
            None
        },
        Component::Year(m) => if spells(s, start, end, "full") {
            Some(Component::Year(modifier::Year { repr: YearRepr::Full, ..m }))
        } else if spells(s, start, end, "last_two") {
            Some(Component::Year(modifier::Year { repr: YearRepr::LastTwo, ..m }))
        } else {
            None
        },
        _ => None,
    }
}

/// `component` with the modifier whose key lies from `key_start` to `key_end`
/// and whose value from `value_start` to `value_end` applied.
fn with_modifier_at(
    component: Component,
    s: &Vec<char>,
    key_start: usize,
    key_end: usize,
    value_start: usize,
    value_end: usize,
) -> (r: Option<Component>)
    requires
        key_start <= key_end <= s@.len(),
        value_start <= value_end <= s@.len(),
    ensures
        r == with_modifier(
            component,
            s@.subrange(key_start as int, key_end as int),
            s@.subrange(value_start as int, value_end as int),
        ),
{
    let ghost key = s@.subrange(key_start as int, key_end as int);
    if spells(s, key_start, key_end, "padding") {
        with_padding_at(component, s, value_start, value_end, Ghost(key))
    } else if spells(s, key_start, key_end, "repr") {
        with_repr_at(component, s, value_start, value_end, Ghost(key))
    } else if spells(s, key_start, key_end, "one_indexed") {
        match component {
            Component::Weekday(m) => if spells(s, value_start, value_end, "true") {
                Some(Component::Weekday(modifier::Weekday { repr: m.repr, one_indexed: true }))
            } else if spells(s, value_start, value_end, "false") {
                Some(Component::Weekday(modifier::Weekday { repr: m.repr, one_indexed: false }))
            } else {
                None
            },
            _ => None,
        }
    } else if spells(s, key_start, key_end, "base") {
        match component {
            Component::Year(m) => if spells(s, value_start, value_end, "calendar") {
                Some(Component::Year(modifier::Year { iso_week_based: false, ..m }))
            } else if spells(s, value_start, value_end, "iso_week") {
                Some(Component::Year(modifier::Year { iso_week_based: true, ..m }))
            } else {
                None
            },
            _ => None,
        }
    } else if spells(s, key_start, key_end, "sign") {
        let mandatory = if spells(s, value_start, value_end, "automatic") {
            Some(false)
        } else if spells(s, value_start, value_end, "mandatory") {
            Some(true)
        } else {
            None
        };
        match (component, mandatory) {
            (Component::Year(m), Some(b)) => Some(
                Component::Year(modifier::Year { sign_is_mandatory: b, ..m }),
            ),
            (Component::OffsetHour(m), Some(b)) => Some(
                Component::OffsetHour(modifier::OffsetHour { sign_is_mandatory: b, padding: m.padding }),
            ),
            _ => None,
        }
    } else if spells(s, key_start, key_end, "case") {
        match component {
            Component::Period(_) => if spells(s, value_start, value_end, "lower") {
                Some(Component::Period(modifier::Period { is_uppercase: false }))
            } else if spells(s, value_start, value_end, "upper") {
                Some(Component::Period(modifier::Period { is_uppercase: true }))
            } else {
                None
            },
            _ => None,
        }
    } else if spells(s, key_start, key_end, "digits") {
        match (component, digits_named_at(s, value_start, value_end)) {
            (Component::Subsecond(_), Some(d)) => Some(
                Component::Subsecond(modifier::Subsecond { digits: d }),
            ),
            _ => None,
        }
    } else {
        None
    }
}

/// `component` with the modifiers written from `pos` to `end` applied.
fn with_modifiers_at(component: Component, s: &Vec<char>, pos: usize, end: usize) -> (r: Result<
    Component,
    InvalidFormatDescription,
>)
    requires
        pos <= end <= s@.len(),
    ensures
        r == with_modifiers(s@, component, pos as int, end as int),
    decreases end - pos,
{
    let start = skip_spaces_at(s, pos, end);
    if start >= end {
        return Ok(component);
    }
    let stop = word_end_at(s, start, end);
    let colon = find_char_at(s, start, stop, ':');
    if colon >= stop {
        return Err(InvalidFormatDescription::InvalidModifier { index: start });
    }
    match with_modifier_at(component, s, start, colon, colon + 1, stop) {
        Some(next) => with_modifiers_at(next, s, stop, end),
        None => Err(InvalidFormatDescription::InvalidModifier { index: start }),
    }
}

/// The component written between the brackets at `open` and `close`.
fn bracketed_component_at(s: &Vec<char>, open: usize, close: usize) -> (r: Result<
    Component,
    InvalidFormatDescription,
>)
    requires
        open < close <= s@.len(),
    ensures
        r == bracketed_component(s@, open as int, close as int),
{
    let start = skip_spaces_at(s, open + 1, close);
    if start >= close {
        return Err(InvalidFormatDescription::MissingComponentName { index: open });
    }
    let stop = word_end_at(s, start, close);
    match component_named_at(s, start, stop) {
        None => Err(InvalidFormatDescription::InvalidComponentName { index: start }),
        Some(component) => with_modifiers_at(component, s, stop, close),
    }
}

impl FormatDescription {
    /// Parse the text of a format description: literal text, with `[[` for
    /// a `[`, and components in brackets, each a name followed by modifiers
    /// `key:value`, as in `[year]-[month repr:numerical]-[day]`.
    pub fn parse(s: &str) -> (r: Result<FormatDescription, InvalidFormatDescription>)
        ensures
            match description_from(s@, 0) {
                Ok(items) => r matches Ok(d) && items_view(d.items@) == items,
                Err(e) => r == Err::<FormatDescription, InvalidFormatDescription>(e),
            },
    {
        let chars = chars_of(s);
        let len = chars.len();
        let mut items: Vec<FormatItem> = Vec::new();
        let mut pos: usize = 0;
        while pos < len
            invariant
                len == chars@.len(),
                chars@ == s@,
                pos <= len,
                description_from(chars@, 0) == after(
                    items_view(items@),
                    description_from(chars@, pos as int),
                ),
            decreases len - pos,
        {
            let ghost done = items_view(items@);
            if chars[pos] != '[' {
                let end = find_char_at(&chars, pos, len, '[');
                let literal = string_of(&chars, pos, end);
                items.push(FormatItem::Literal(literal));
                proof {
                    assert(items_view(items@) =~= done + seq![
                        ItemView::Literal(chars@.subrange(pos as int, end as int)),
                    ]);
                    lemma_after_push(done, ItemView::Literal(chars@.subrange(pos as int, end as int)), description_from(chars@, end as int));
                }
                pos = end;
            } else if pos + 1 < len && chars[pos + 1] == '[' {
                let literal = string_of(&chars, pos, pos + 1);
                items.push(FormatItem::Literal(literal));
                proof {
                    assert(chars@.subrange(pos as int, pos + 1) =~= seq!['[']);
                    assert(items_view(items@) =~= done + seq![ItemView::Literal(seq!['['])]);
                    lemma_after_push(done, ItemView::Literal(seq!['[']), description_from(chars@, pos + 2));
                }
                pos = pos + 2;
            } else {
                let close = find_char_at(&chars, pos + 1, len, ']');
                if close >= len {
                    return Err(InvalidFormatDescription::UnclosedOpeningBracket { index: pos });
                }
                match bracketed_component_at(&chars, pos, close) {
                    Err(e) => {
                        return Err(e);
                    },
                    Ok(component) => {
                        items.push(FormatItem::Component(component));
                        proof {
                            assert(items_view(items@) =~= done + seq![ItemView::Component(component)]);
                            lemma_after_push(done, ItemView::Component(component), description_from(chars@, close + 1));
                        }
                        pos = close + 1;
                    },
                }
            }
        }
        assert(items_view(items@) + Seq::<ItemView>::empty() =~= items_view(items@));
        Ok(FormatDescription { items })
    }
}

/// Moving one piece from what is left to what is done changes nothing.
proof fn lemma_after_push(done: Seq<ItemView>, item: ItemView, rest: Result<Seq<ItemView>, InvalidFormatDescription>)
    ensures
        after(done, match rest {
            Ok(r) => Ok(seq![item] + r),
            Err(e) => Err(e),
        }) == after(done + seq![item], rest),
{
    if let Ok(r) = rest {
        assert(done + (seq![item] + r) =~= (done + seq![item]) + r);
    }
}

} // verus!
