//! Reading dates from text.
use crate::calendar::{
    days_before_month, iso_week_start, iso_weeks, julian_day, month_len,
    valid_ordinal, weekday_index, year_len,
};
use crate::date::{max_julian_day, Date, MAX_YEAR, MIN_YEAR};
use crate::error::{range_error, ComponentRange, Parse, ParseFromDescription, TryFromParsed};
use crate::format_description::{Component, FormatDescription, FormatItem};
use crate::formatting::{
    month_name, month_name_str, short_month_name, short_month_name_str, short_weekday_name,
    short_weekday_name_str, weekday_name, weekday_name_str,
};
use crate::modifier::{MonthRepr, Padding, SubsecondDigits, WeekNumberRepr, WeekdayRepr, YearRepr};
use crate::weekday::Weekday;
use vstd::prelude::*;
use vstd::string::*;

verus! {

// ---------------------------------------------------------------------------
// The grammar of the pieces of a text
// ---------------------------------------------------------------------------

/// Whether `c` is a decimal digit.
pub open spec fn is_digit(c: char) -> bool {
    48 <= (c as int) <= 57
}

/// The value of the decimal digit `c`.
pub open spec fn digit_value(c: char) -> int {
    (c as int) - 48
}

/// The number of digits at `pos`, counting at most `max`.
pub open spec fn digit_run(s: Seq<char>, pos: int, max: int) -> int
    decreases max,
{
    if max <= 0 || pos < 0 || pos >= s.len() || !is_digit(s[pos]) {
        0
    } else {
        1 + digit_run(s, pos + 1, max - 1)
    }
}

/// The number of spaces at `pos`, counting at most `max`.
pub open spec fn space_run(s: Seq<char>, pos: int, max: int) -> int
    decreases max,
{
    if max <= 0 || pos < 0 || pos >= s.len() || s[pos] != ' ' {
        0
    } else {
        1 + space_run(s, pos + 1, max - 1)
    }
}

/// The value of the `count` digits at `pos`.
pub open spec fn digits_value(s: Seq<char>, pos: int, count: int) -> int
    decreases count,
{
    if count <= 0 {
        0
    } else {
        digits_value(s, pos, count - 1) * 10 + digit_value(s[pos + count - 1])
    }
}

/// Reads as many digits at `pos` as there are, up to `max`, where there are at
/// least `min`: their value, and the position after them.
pub open spec fn read_digits(s: Seq<char>, pos: int, min: int, max: int) -> Option<(int, int)> {
    let n = digit_run(s, pos, max);
    if n >= min {
        Some((digits_value(s, pos, n), pos + n))
    } else {
        None
    }
}

/// Reads a number written in `width` characters as `padding` says: exactly
/// `width` digits with zeros, one to `width` digits without padding, and
/// leading spaces and digits making `width` characters with spaces.
pub open spec fn read_padded(s: Seq<char>, pos: int, width: int, padding: Padding) -> Option<
    (int, int),
> {
    match padding {
        Padding::Zero => read_digits(s, pos, width, width),
        Padding::NoPadding => read_digits(s, pos, 1, width),
        Padding::Space => {
            let spaces = space_run(s, pos, width - 1);
            read_digits(s, pos + spaces, width - spaces, width - spaces)
        },
    }
}

/// Whether `word` is written at `pos`.
pub open spec fn matches_at(s: Seq<char>, pos: int, word: Seq<char>) -> bool {
    0 <= pos && pos + word.len() <= s.len() && s.subrange(pos, pos + word.len()) == word
}

/// The first month from `month` on whose name (or short name) is written at
/// `pos`.
pub open spec fn month_named_from(s: Seq<char>, pos: int, month: int, long: bool) -> Option<int>
    decreases 13 - month,
{
    if month > 12 {
        None
    } else if matches_at(
        s,
        pos,
        if long {
            month_name(month)
        } else {
            short_month_name(month)
        },
    ) {
        Some(month)
    } else {
        month_named_from(s, pos, month + 1, long)
    }
}

/// The first weekday from `index` on whose name (or short name) is written
/// at `pos`.
pub open spec fn weekday_named_from(s: Seq<char>, pos: int, index: int, long: bool) -> Option<
    int,
>
    decreases 7 - index,
{
    if index > 6 {
        None
    } else if matches_at(
        s,
        pos,
        if long {
            weekday_name(index)
        } else {
            short_weekday_name(index)
        },
    ) {
        Some(index)
    } else {
        weekday_named_from(s, pos, index + 1, long)
    }
}

// ---------------------------------------------------------------------------
// Reading the pieces of a text
// ---------------------------------------------------------------------------

/// The characters of `s`.
pub(crate) fn chars_of(s: &str) -> (r: Vec<char>)
    ensures
        r@ == s@,
{
    let len = s.unicode_len();
    let mut r: Vec<char> = Vec::new();
    let mut i: usize = 0;
    while i < len
        invariant
            len == s@.len(),
            i <= len,
            r@ == s@.subrange(0, i as int),
        decreases len - i,
    {
        r.push(s.get_char(i));
        i = i + 1;
        assert(r@ =~= s@.subrange(0, i as int));
    }
    assert(r@ =~= s@);
    r
}

/// Whether `c` is a decimal digit, and its value.
fn digit_of(c: char) -> (r: Option<u32>)
    ensures
        r is Some <==> is_digit(c),
        r matches Some(v) ==> v == digit_value(c) && v < 10,
{
    let code = c as u32;
    if 48 <= code && code <= 57 {
        Some(code - 48)
    } else {
        None
    }
}

/// Ten to the power `n`.
pub open spec fn pow10(n: nat) -> nat
    decreases n,
{
    if n == 0 {
        1
    } else {
        10 * pow10((n - 1) as nat)
    }
}

/// Reads at `pos` as many digits as there are, up to `max`, where there are at
/// least `min`.
fn read_digits_at(s: &Vec<char>, pos: usize, min: usize, max: usize) -> (r: Option<(u32, usize)>)
    requires
        pos <= s@.len(),
        max <= 9,
    ensures
        r is Some <==> read_digits(s@, pos as int, min as int, max as int) is Some,
        r matches Some((v, p)) ==> read_digits(s@, pos as int, min as int, max as int) == Some(
            (v as int, p as int),
        ),
        r matches Some((v, p)) ==> v < pow10(max as nat) && p <= s@.len(),
{
    let len = s.len();
    let mut n: usize = 0;
    let mut value: u32 = 0;
    proof {
        reveal_with_fuel(pow10, 10);
    }
    while n < max && n < len - pos
        invariant
            len == s@.len(),
            pos <= s@.len(),
            max <= 9,
            n <= max,
            pos + n <= s@.len(),
            digit_run(s@, pos as int, max as int) == n + digit_run(s@, pos + n, max - n),
            value == digits_value(s@, pos as int, n as int),
            value < pow10(n as nat),
            pow10(8) == 100_000_000,
        ensures
            digit_run(s@, pos + n, max - n) == 0,
        decreases max - n,
    {
        match digit_of(s[pos + n]) {
            Some(d) => {
                proof {
                    lemma_pow10_grows(n as nat, 8);
                }
                value = value * 10 + d;
                n = n + 1;
            },
            None => {
                break ;
            },
        }
    }
    proof {
        lemma_pow10_grows(n as nat, max as nat);
    }
    if n >= min {
        Some((value, pos + n))
    } else {
        None
    }
}

/// Powers of ten grow with the exponent.
proof fn lemma_pow10_grows(a: nat, b: nat)
    requires
        a <= b,
    ensures
        pow10(a) <= pow10(b),
    decreases b - a,
{
    if a < b {
        lemma_pow10_grows(a, (b - 1) as nat);
    }
}


// ---------------------------------------------------------------------------
// Components read from a text
// ---------------------------------------------------------------------------

/// The components of a date read from a text, each where it was found.
#[derive(Clone, Copy, PartialEq, Eq, Structural, Debug)]
pub struct Parsed {
    pub year: Option<i32>,
    pub year_last_two: Option<u8>,
    pub iso_year: Option<i32>,
    pub iso_year_last_two: Option<u8>,
    pub month: Option<u8>,
    pub sunday_week_number: Option<u8>,
    pub monday_week_number: Option<u8>,
    pub iso_week_number: Option<u8>,
    pub weekday: Option<Weekday>,
    pub ordinal: Option<u16>,
    pub day: Option<u8>,
}

impl Parsed {
    /// Nothing read yet.
    pub open spec fn empty() -> Parsed {
        Parsed {
            year: None,
            year_last_two: None,
            iso_year: None,
            iso_year_last_two: None,
            month: None,
            sunday_week_number: None,
            monday_week_number: None,
            iso_week_number: None,
            weekday: None,
            ordinal: None,
            day: None,
        }
    }

    /// Nothing read yet.
    pub fn new() -> (r: Parsed)
        ensures
            r == Parsed::empty(),
    {
        Parsed {
            year: None,
            year_last_two: None,
            iso_year: None,
            iso_year_last_two: None,
            month: None,
            sunday_week_number: None,
            monday_week_number: None,
            iso_week_number: None,
            weekday: None,
            ordinal: None,
            day: None,
        }
    }
}

/// The name of a component, as a parse error reports it.
pub open spec fn component_name(component: Component) -> &'static str {
    match component {
        Component::Day(_) => "day",
        Component::Month(_) => "month",
        Component::Ordinal(_) => "ordinal",
        Component::Weekday(_) => "weekday",
        Component::WeekNumber(_) => "week number",
        Component::Year(_) => "year",
        Component::Hour(_) => "hour",
        Component::Minute(_) => "minute",
        Component::Period(_) => "period",
        Component::Second(_) => "second",
        Component::Subsecond(_) => "subsecond",
        Component::OffsetHour(_) => "offset hour",
        Component::OffsetMinute(_) => "offset minute",
        Component::OffsetSecond(_) => "offset second",
    }
}

/// The sign read at `pos`, if any: whether it is `-`, and where the number
/// after it begins.
pub open spec fn read_sign(s: Seq<char>, pos: int) -> (bool, bool, int) {
    if 0 <= pos < s.len() && s[pos] == '-' {
        (true, true, pos + 1)
    } else if 0 <= pos < s.len() && s[pos] == '+' {
        (true, false, pos + 1)
    } else {
        (false, false, pos)
    }
}

/// A number of two characters at `pos` that is at most `max`.
pub open spec fn read_bounded(s: Seq<char>, pos: int, padding: Padding, min: int, max: int) -> Option<
    (int, int),
> {
    match read_padded(s, pos, 2, padding) {
        Some((v, q)) => if min <= v <= max {
            Some((v, q))
        } else {
            None
        },
        None => None,
    }
}

/// The number of digits of a fraction of a second that are read.
pub open spec fn subsecond_digits(digits: SubsecondDigits) -> (int, int) {
    match digits {
        SubsecondDigits::One => (1, 1),
        SubsecondDigits::Two => (2, 2),
        SubsecondDigits::Three => (3, 3),
        SubsecondDigits::Four => (4, 4),
        SubsecondDigits::Five => (5, 5),
        SubsecondDigits::Six => (6, 6),
        SubsecondDigits::Seven => (7, 7),
        SubsecondDigits::Eight => (8, 8),
        SubsecondDigits::Nine => (9, 9),
        SubsecondDigits::OneOrMore => (1, 9),
    }
}

/// Reads `component` at `pos`: the components read so far with it added, and
/// the position after it, or `None` where it is not there or out of range.
/// The components of a time of day or an offset are read and checked, but a
/// date keeps none of them.
pub open spec fn read_component(s: Seq<char>, pos: int, component: Component, p: Parsed) -> Option<
    (Parsed, int),
> {
    match component {
        Component::Day(m) => match read_padded(s, pos, 2, m.padding) {
            Some((v, q)) => if 1 <= v <= 31 {
                Some((Parsed { day: Some(v as u8), ..p }, q))
            } else {
                None
            },
            None => None,
        },
        Component::Month(m) => match m.repr {
            MonthRepr::Numerical => match read_padded(s, pos, 2, m.padding) {
                Some((v, q)) => if 1 <= v <= 12 {
                    Some((Parsed { month: Some(v as u8), ..p }, q))
                } else {
                    None
                },
                None => None,
            },
            MonthRepr::Long => match month_named_from(s, pos, 1, true) {
                Some(mo) => Some((Parsed { month: Some(mo as u8), ..p }, pos + month_name(mo).len())),
                None => None,
            },
            MonthRepr::Short => match month_named_from(s, pos, 1, false) {
                Some(mo) => Some(
                    (Parsed { month: Some(mo as u8), ..p }, pos + short_month_name(mo).len()),
                ),
                None => None,
            },
        },
        Component::Ordinal(m) => match read_padded(s, pos, 3, m.padding) {
            Some((v, q)) => if 1 <= v <= 366 {
                Some((Parsed { ordinal: Some(v as u16), ..p }, q))
            } else {
                None
            },
            None => None,
        },
        Component::Weekday(m) => match m.repr {
            WeekdayRepr::Long => match weekday_named_from(s, pos, 0, true) {
                Some(i) => Some(
                    (Parsed { weekday: Some(Weekday::from_index(i)), ..p }, pos + weekday_name(i).len()),
                ),
                None => None,
            },
            WeekdayRepr::Short => match weekday_named_from(s, pos, 0, false) {
                Some(i) => Some(
                    (
                        Parsed { weekday: Some(Weekday::from_index(i)), ..p },
                        pos + short_weekday_name(i).len(),
                    ),
                ),
                None => None,
            },
            WeekdayRepr::Sunday => match read_digits(s, pos, 1, 1) {
                Some((v, q)) => {
                    let first = if m.one_indexed {
                        1int
                    } else {
                        0
                    };
                    if first <= v <= first + 6 {
                        Some(
                            (
                                Parsed { weekday: Some(Weekday::from_index((v - first + 6) % 7)), ..p },
                                q,
                            ),
                        )
                    } else {
                        None
                    }
                },
                None => None,
            },
            WeekdayRepr::Monday => match read_digits(s, pos, 1, 1) {
                Some((v, q)) => {
                    let first = if m.one_indexed {
                        1int
                    } else {
                        0
                    };
                    if first <= v <= first + 6 {
                        Some((Parsed { weekday: Some(Weekday::from_index(v - first)), ..p }, q))
                    } else {
                        None
                    }
                },
                None => None,
            },
        },
        Component::WeekNumber(m) => match read_padded(s, pos, 2, m.padding) {
            Some((v, q)) => match m.repr {
                WeekNumberRepr::Iso => if 1 <= v <= 53 {
                    Some((Parsed { iso_week_number: Some(v as u8), ..p }, q))
                } else {
                    None
                },
                WeekNumberRepr::Sunday => if v <= 53 {
                    Some((Parsed { sunday_week_number: Some(v as u8), ..p }, q))
                } else {
                    None
                },
                WeekNumberRepr::Monday => if v <= 53 {
                    Some((Parsed { monday_week_number: Some(v as u8), ..p }, q))
                } else {
                    None
                },
            },
            None => None,
        },
        Component::Year(m) => match m.repr {
            YearRepr::Full => {
                let (signed, negative, start) = read_sign(s, pos);
                if m.sign_is_mandatory && !signed {
                    None
                } else {
                    match read_padded(s, start, 4, m.padding) {
                        Some((v, q)) => {
                            let year = if negative {
                                -v
                            } else {
                                v
                            };
                            if m.iso_week_based {
                                Some((Parsed { iso_year: Some(year as i32), ..p }, q))
                            } else {
                                Some((Parsed { year: Some(year as i32), ..p }, q))
                            }
                        },
                        None => None,
                    }
                }
            },
            YearRepr::LastTwo => match read_padded(s, pos, 2, m.padding) {
                Some((v, q)) => if m.iso_week_based {
                    Some((Parsed { iso_year_last_two: Some(v as u8), ..p }, q))
                } else {
                    Some((Parsed { year_last_two: Some(v as u8), ..p }, q))
                },
                None => None,
            },
        },
        Component::Hour(m) => match read_bounded(
            s,
            pos,
            m.padding,
            if m.is_12_hour_clock {
                1
            } else {
                0
            },
            if m.is_12_hour_clock {
                12
            } else {
                23
            },
        ) {
            Some((_, q)) => Some((p, q)),
            None => None,
        },
        Component::Minute(m) => match read_bounded(s, pos, m.padding, 0, 59) {
            Some((_, q)) => Some((p, q)),
            None => None,
        },
        Component::Second(m) => match read_bounded(s, pos, m.padding, 0, 59) {
            Some((_, q)) => Some((p, q)),
            None => None,
        },
        Component::OffsetMinute(m) => match read_bounded(s, pos, m.padding, 0, 59) {
            Some((_, q)) => Some((p, q)),
            None => None,
        },
        Component::OffsetSecond(m) => match read_bounded(s, pos, m.padding, 0, 59) {
            Some((_, q)) => Some((p, q)),
            None => None,
        },
        Component::Period(m) => {
            let (am, pm) = if m.is_uppercase {
                ("AM"@, "PM"@)
            } else {
                ("am"@, "pm"@)
            };
            if matches_at(s, pos, am) {
                Some((p, pos + am.len()))
            } else if matches_at(s, pos, pm) {
                Some((p, pos + pm.len()))
            } else {
                None
            }
        },
        Component::Subsecond(m) => match read_digits(
            s,
            pos,
            subsecond_digits(m.digits).0,
            subsecond_digits(m.digits).1,
        ) {
            Some((_, q)) => Some((p, q)),
            None => None,
        },
        Component::OffsetHour(m) => {
            let (signed, _, start) = read_sign(s, pos);
            if m.sign_is_mandatory && !signed {
                None
            } else {
                match read_bounded(s, start, m.padding, 0, 23) {
                    Some((_, q)) => Some((p, q)),
                    None => None,
                }
            }
        },
    }
}

/// Reads `items` from the start of `s`: the components read, and the position
/// after the last item, or the error at the first item that is not found.
pub open spec fn read_items(s: Seq<char>, items: Seq<FormatItem>) -> Result<
    (Parsed, int),
    ParseFromDescription,
>
    decreases items.len(),
{
    if items.len() == 0 {
        Ok((Parsed::empty(), 0))
    } else {
        match read_items(s, items.drop_last()) {
            Err(e) => Err(e),
            Ok((p, pos)) => match items.last() {
                FormatItem::Literal(l) => if matches_at(s, pos, l@) {
                    Ok((p, pos + l@.len()))
                } else {
                    Err(ParseFromDescription::InvalidLiteral)
                },
                FormatItem::Component(c) => match read_component(s, pos, c, p) {
                    Some((p2, q)) => Ok((p2, q)),
                    None => Err(ParseFromDescription::InvalidComponent(component_name(c))),
                },
            },
        }
    }
}

// ---------------------------------------------------------------------------
// Reading components
// ---------------------------------------------------------------------------

/// The number of spaces at `pos`, counting at most `max`.
fn count_spaces(s: &Vec<char>, pos: usize, max: usize) -> (r: usize)
    requires
        pos <= s@.len(),
    ensures
        r == space_run(s@, pos as int, max as int),
        r <= max,
        pos + r <= s@.len(),
{
    let len = s.len();
    let mut n: usize = 0;
    while n < max && n < len - pos
        invariant
            len == s@.len(),
            pos <= len,
            n <= max,
            pos + n <= len,
            space_run(s@, pos as int, max as int) == n + space_run(s@, pos + n, max - n),
        ensures
            space_run(s@, pos + n, max - n) == 0,
        decreases max - n,
    {
        if s[pos + n] != ' ' {
            break ;
        }
        n = n + 1;
    }
    n
}

/// Reads a number written in `width` characters as `padding` says.
fn read_padded_at(s: &Vec<char>, pos: usize, width: usize, padding: Padding) -> (r: Option<
    (u32, usize),
>)
    requires
        pos <= s@.len(),
        1 <= width <= 4,
    ensures
        r is Some <==> read_padded(s@, pos as int, width as int, padding) is Some,
        r matches Some((v, q)) ==> read_padded(s@, pos as int, width as int, padding) == Some(
            (v as int, q as int),
        ),
        r matches Some((v, q)) ==> v < pow10(width as nat) && q <= s@.len(),
{
    match padding {
        Padding::Zero => read_digits_at(s, pos, width, width),
        Padding::NoPadding => read_digits_at(s, pos, 1, width),
        Padding::Space => {
            let len = s.len();
            let spaces = count_spaces(s, pos, width - 1);
            assert(pos + spaces <= len);
            let r = read_digits_at(s, pos + spaces, width - spaces, width - spaces);
            proof {
                lemma_pow10_grows((width - spaces) as nat, width as nat);
            }
            r
        },
    }
}

/// Whether `word` is written at `pos`.
fn matches_word(s: &Vec<char>, pos: usize, word: &str) -> (r: bool)
    requires
        pos <= s@.len(),
    ensures
        r == matches_at(s@, pos as int, word@),
{
    let len = s.len();
    let word_len = word.unicode_len();
    if word_len > len - pos {
        return false;
    }
    let mut i: usize = 0;
    while i < word_len
        invariant
            len == s@.len(),
            word_len == word@.len(),
            pos + word_len <= len,
            i <= word_len,
            s@.subrange(pos as int, pos + i) == word@.subrange(0, i as int),
        decreases word_len - i,
    {
        if s[pos + i] != word.get_char(i) {
            assert(s@.subrange(pos as int, pos + word_len)[i as int] != word@[i as int]);
            return false;
        }
        i = i + 1;
        assert(s@.subrange(pos as int, pos + i) =~= word@.subrange(0, i as int));
    }
    assert(word@.subrange(0, i as int) =~= word@);
    true
}

/// The first month whose name (or short name) is written at `pos`.
fn month_named(s: &Vec<char>, pos: usize, long: bool) -> (r: Option<u8>)
    requires
        pos <= s@.len(),
    ensures
        r is Some <==> month_named_from(s@, pos as int, 1, long) is Some,
        r matches Some(m) ==> month_named_from(s@, pos as int, 1, long) == Some(m as int),
        r matches Some(m) ==> matches_at(
            s@,
            pos as int,
            if long {
                month_name(m as int)
            } else {
                short_month_name(m as int)
            },
        ),
{
    let mut m: u8 = 1;
    while m <= 12
        invariant
            1 <= m <= 13,
            pos <= s@.len(),
            month_named_from(s@, pos as int, 1, long) == month_named_from(
                s@,
                pos as int,
                m as int,
                long,
            ),
        decreases 13 - m,
    {
        let name = if long {
            month_name_str(m)
        } else {
            short_month_name_str(m)
        };
        if matches_word(s, pos, name) {
            return Some(m);
        }
        m = m + 1;
    }
    None
}

/// The first weekday whose name (or short name) is written at `pos`, by its
/// days from Monday.
fn weekday_named(s: &Vec<char>, pos: usize, long: bool) -> (r: Option<u8>)
    requires
        pos <= s@.len(),
    ensures
        r is Some <==> weekday_named_from(s@, pos as int, 0, long) is Some,
        r matches Some(i) ==> weekday_named_from(s@, pos as int, 0, long) == Some(i as int),
        r matches Some(i) ==> matches_at(
            s@,
            pos as int,
            if long {
                weekday_name(i as int)
            } else {
                short_weekday_name(i as int)
            },
        ),
{
    let mut i: u8 = 0;
    while i <= 6
        invariant
            i <= 7,
            pos <= s@.len(),
            weekday_named_from(s@, pos as int, 0, long) == weekday_named_from(
                s@,
                pos as int,
                i as int,
                long,
            ),
        decreases 7 - i,
    {
        let name = if long {
            weekday_name_str(i)
        } else {
            short_weekday_name_str(i)
        };
        if matches_word(s, pos, name) {
            return Some(i);
        }
        i = i + 1;
    }
    None
}

/// The sign at `pos`, if any: whether there is one, whether it is `-`, and
/// where the number after it begins.
fn read_sign_at(s: &Vec<char>, pos: usize) -> (r: (bool, bool, usize))
    requires
        pos <= s@.len(),
    ensures
        (r.0, r.1, r.2 as int) == read_sign(s@, pos as int),
        r.2 <= s@.len(),
{
    if pos < s.len() && s[pos] == '-' {
        (true, true, pos + 1)
    } else if pos < s.len() && s[pos] == '+' {
        (true, false, pos + 1)
    } else {
        (false, false, pos)
    }
}

/// A number of two characters at `pos` within `min..=max`.
fn read_bounded_at(s: &Vec<char>, pos: usize, padding: Padding, min: u32, max: u32) -> (r: Option<
    (u32, usize),
>)
    requires
        pos <= s@.len(),
    ensures
        r is Some <==> read_bounded(s@, pos as int, padding, min as int, max as int) is Some,
        r matches Some((v, q)) ==> read_bounded(s@, pos as int, padding, min as int, max as int)
            == Some((v as int, q as int)),
        r matches Some((v, q)) ==> q <= s@.len(),
{
    match read_padded_at(s, pos, 2, padding) {
        Some((v, q)) => {
            if min <= v && v <= max {
                Some((v, q))
            } else {
                None
            }
        },
        None => None,
    }
}

/// The least and the most digits of a fraction of a second that are read.
fn subsecond_digit_range(digits: SubsecondDigits) -> (r: (usize, usize))
    ensures
        (r.0 as int, r.1 as int) == subsecond_digits(digits),
{
    match digits {
        SubsecondDigits::One => (1, 1),
        SubsecondDigits::Two => (2, 2),
        SubsecondDigits::Three => (3, 3),
        SubsecondDigits::Four => (4, 4),
        SubsecondDigits::Five => (5, 5),
        SubsecondDigits::Six => (6, 6),
        SubsecondDigits::Seven => (7, 7),
        SubsecondDigits::Eight => (8, 8),
        SubsecondDigits::Nine => (9, 9),
        SubsecondDigits::OneOrMore => (1, 9),
    }
}

/// Reads a day of the month or of the year.
fn read_day_or_ordinal(s: &Vec<char>, pos: usize, component: Component, p: Parsed) -> (r: Option<
    (Parsed, usize),
>)
    requires
        pos <= s@.len(),
        component is Day || component is Ordinal,
    ensures
        r is Some <==> read_component(s@, pos as int, component, p) is Some,
        r matches Some((p2, q)) ==> read_component(s@, pos as int, component, p) == Some(
            (p2, q as int),
        ),
        r matches Some((p2, q)) ==> q <= s@.len(),
{
    let mut out = p;
    proof {
        reveal_with_fuel(pow10, 5);
    }
    match component {
        Component::Day(m) => match read_padded_at(s, pos, 2, m.padding) {
            Some((v, q)) => {
                if 1 <= v && v <= 31 {
                    out.day = Some(v as u8);
                    Some((out, q))
                } else {
                    None
                }
            },
            None => None,
        },
        Component::Ordinal(m) => match read_padded_at(s, pos, 3, m.padding) {
            Some((v, q)) => {
                if 1 <= v && v <= 366 {
                    out.ordinal = Some(v as u16);
                    Some((out, q))
                } else {
                    None
                }
            },
            None => None,
        },
        _ => None,
    }
}

/// Reads a month.
fn read_month(s: &Vec<char>, pos: usize, component: Component, p: Parsed) -> (r: Option<
    (Parsed, usize),
>)
    requires
        pos <= s@.len(),
        component is Month,
    ensures
        r is Some <==> read_component(s@, pos as int, component, p) is Some,
        r matches Some((p2, q)) ==> read_component(s@, pos as int, component, p) == Some(
            (p2, q as int),
        ),
        r matches Some((p2, q)) ==> q <= s@.len(),
{
    // The text's length, and so every position in it, fits in a `usize`.
    proof {
        assert(s@.len() == s.len());
    }
    let mut out = p;
    proof {
        reveal_with_fuel(pow10, 5);
    }
    match component {
        Component::Month(m) => match m.repr {
            MonthRepr::Numerical => match read_padded_at(s, pos, 2, m.padding) {
                Some((v, q)) => {
                    if 1 <= v && v <= 12 {
                        out.month = Some(v as u8);
                        Some((out, q))
                    } else {
                        None
                    }
                },
                None => None,
            },
            MonthRepr::Long => match month_named(s, pos, true) {
                Some(mo) => {
                    out.month = Some(mo);
                    Some((out, pos + month_name_str(mo).unicode_len()))
                },
                None => None,
            },
            MonthRepr::Short => match month_named(s, pos, false) {
                Some(mo) => {
                    out.month = Some(mo);
                    Some((out, pos + short_month_name_str(mo).unicode_len()))
                },
                None => None,
            },
        },
        _ => None,
    }
}

/// Reads a weekday.
fn read_weekday(s: &Vec<char>, pos: usize, component: Component, p: Parsed) -> (r: Option<
    (Parsed, usize),
>)
    requires
        pos <= s@.len(),
        component is Weekday,
    ensures
        r is Some <==> read_component(s@, pos as int, component, p) is Some,
        r matches Some((p2, q)) ==> read_component(s@, pos as int, component, p) == Some(
            (p2, q as int),
        ),
        r matches Some((p2, q)) ==> q <= s@.len(),
{
    // The text's length, and so every position in it, fits in a `usize`.
    proof {
        assert(s@.len() == s.len());
    }
    let mut out = p;
    proof {
        reveal_with_fuel(pow10, 5);
    }
    match component {
        Component::Weekday(m) => match m.repr {
            WeekdayRepr::Long => match weekday_named(s, pos, true) {
                Some(i) => {
                    out.weekday = Some(weekday_from_monday(i));
                    Some((out, pos + weekday_name_str(i).unicode_len()))
                },
                None => None,
            },
            WeekdayRepr::Short => match weekday_named(s, pos, false) {
                Some(i) => {
                    out.weekday = Some(weekday_from_monday(i));
                    Some((out, pos + short_weekday_name_str(i).unicode_len()))
                },
                None => None,
            },
            WeekdayRepr::Sunday => match read_digits_at(s, pos, 1, 1) {
                Some((v, q)) => {
                    let first: u32 = if m.one_indexed {
                        1
                    } else {
                        0
                    };
                    if first <= v && v <= first + 6 {
                        out.weekday = Some(weekday_from_monday(((v - first + 6) % 7) as u8));
                        Some((out, q))
                    } else {
                        None
                    }
                },
                None => None,
            },
            WeekdayRepr::Monday => match read_digits_at(s, pos, 1, 1) {
                Some((v, q)) => {
                    let first: u32 = if m.one_indexed {
                        1
                    } else {
                        0
                    };
                    if first <= v && v <= first + 6 {
                        out.weekday = Some(weekday_from_monday((v - first) as u8));
                        Some((out, q))
                    } else {
                        None
                    }
                },
                None => None,
            },
        },
        _ => None,
    }
}

/// Reads a week number.
fn read_week_number(s: &Vec<char>, pos: usize, component: Component, p: Parsed) -> (r: Option<
    (Parsed, usize),
>)
    requires
        pos <= s@.len(),
        component is WeekNumber,
    ensures
        r is Some <==> read_component(s@, pos as int, component, p) is Some,
        r matches Some((p2, q)) ==> read_component(s@, pos as int, component, p) == Some(
            (p2, q as int),
        ),
        r matches Some((p2, q)) ==> q <= s@.len(),
{
    let mut out = p;
    proof {
        reveal_with_fuel(pow10, 5);
    }
    match component {
        Component::WeekNumber(m) => match read_padded_at(s, pos, 2, m.padding) {
            Some((v, q)) => match m.repr {
                WeekNumberRepr::Iso => {
                    if 1 <= v && v <= 53 {
                        out.iso_week_number = Some(v as u8);
                        Some((out, q))
                    } else {
                        None
                    }
                },
                WeekNumberRepr::Sunday => {
                    if v <= 53 {
                        out.sunday_week_number = Some(v as u8);
                        Some((out, q))
                    } else {
                        None
                    }
                },
                WeekNumberRepr::Monday => {
                    if v <= 53 {
                        out.monday_week_number = Some(v as u8);
                        Some((out, q))
                    } else {
                        None
                    }
                },
            },
            None => None,
        },
        _ => None,
    }
}

/// Reads a year.
fn read_year(s: &Vec<char>, pos: usize, component: Component, p: Parsed) -> (r: Option<
    (Parsed, usize),
>)
    requires
        pos <= s@.len(),
        component is Year,
    ensures
        r is Some <==> read_component(s@, pos as int, component, p) is Some,
        r matches Some((p2, q)) ==> read_component(s@, pos as int, component, p) == Some(
            (p2, q as int),
        ),
        r matches Some((p2, q)) ==> q <= s@.len(),
{
    let mut out = p;
    proof {
        reveal_with_fuel(pow10, 5);
    }
    match component {
        Component::Year(m) => match m.repr {
            YearRepr::Full => {
                let (signed, negative, start) = read_sign_at(s, pos);
                if m.sign_is_mandatory && !signed {
                    None
                } else {
                    match read_padded_at(s, start, 4, m.padding) {
                        Some((v, q)) => {
                            let year: i32 = if negative {
                                -(v as i32)
                            } else {
                                v as i32
                            };
                            if m.iso_week_based {
                                out.iso_year = Some(year);
                            } else {
                                out.year = Some(year);
                            }
                            Some((out, q))
                        },
                        None => None,
                    }
                }
            },
            YearRepr::LastTwo => match read_padded_at(s, pos, 2, m.padding) {
                Some((v, q)) => {
                    if m.iso_week_based {
                        out.iso_year_last_two = Some(v as u8);
                    } else {
                        out.year_last_two = Some(v as u8);
                    }
                    Some((out, q))
                },
                None => None,
            },
        },
        _ => None,
    }
}

/// Reads a component of a time of day or an offset, which a date does not keep.
fn read_time_component(s: &Vec<char>, pos: usize, component: Component, p: Parsed) -> (r: Option<
    (Parsed, usize),
>)
    requires
        pos <= s@.len(),
        component is Hour || component is Minute || component is Second || component is OffsetMinute || component is OffsetSecond || component is Period || component is Subsecond || component is OffsetHour,
    ensures
        r is Some <==> read_component(s@, pos as int, component, p) is Some,
        r matches Some((p2, q)) ==> read_component(s@, pos as int, component, p) == Some(
            (p2, q as int),
        ),
        r matches Some((p2, q)) ==> q <= s@.len(),
{
    // The text's length, and so every position in it, fits in a `usize`.
    proof {
        assert(s@.len() == s.len());
    }
    let mut out = p;
    proof {
        reveal_with_fuel(pow10, 5);
    }
    match component {
        Component::Hour(m) => {
            let (min, max): (u32, u32) = if m.is_12_hour_clock {
                (1, 12)
            } else {
                (0, 23)
            };
            match read_bounded_at(s, pos, m.padding, min, max) {
                Some((_, q)) => Some((out, q)),
                None => None,
            }
        },
        Component::Minute(m) => match read_bounded_at(s, pos, m.padding, 0, 59) {
            Some((_, q)) => Some((out, q)),
            None => None,
        },
        Component::Second(m) => match read_bounded_at(s, pos, m.padding, 0, 59) {
            Some((_, q)) => Some((out, q)),
            None => None,
        },
        Component::OffsetMinute(m) => match read_bounded_at(s, pos, m.padding, 0, 59) {
            Some((_, q)) => Some((out, q)),
            None => None,
        },
        Component::OffsetSecond(m) => match read_bounded_at(s, pos, m.padding, 0, 59) {
            Some((_, q)) => Some((out, q)),
            None => None,
        },
        Component::Period(m) => {
            let (am, pm) = if m.is_uppercase {
                ("AM", "PM")
            } else {
                ("am", "pm")
            };
            if matches_word(s, pos, am) {
                Some((out, pos + am.unicode_len()))
            } else if matches_word(s, pos, pm) {
                Some((out, pos + pm.unicode_len()))
            } else {
                None
            }
        },
        Component::Subsecond(m) => {
            let (least, most) = subsecond_digit_range(m.digits);
            match read_digits_at(s, pos, least, most) {
                Some((_, q)) => Some((out, q)),
                None => None,
            }
        },
        Component::OffsetHour(m) => {
            let (signed, _, start) = read_sign_at(s, pos);
            if m.sign_is_mandatory && !signed {
                None
            } else {
                match read_bounded_at(s, start, m.padding, 0, 23) {
                    Some((_, q)) => Some((out, q)),
                    None => None,
                }
            }
        },
        _ => None,
    }
}

/// Reads `component` at `pos` into the components read so far.
fn read_component_at(s: &Vec<char>, pos: usize, component: Component, p: Parsed) -> (r: Option<
    (Parsed, usize),
>)
    requires
        pos <= s@.len(),
    ensures
        r is Some <==> read_component(s@, pos as int, component, p) is Some,
        r matches Some((p2, q)) ==> read_component(s@, pos as int, component, p) == Some(
            (p2, q as int),
        ),
        r matches Some((p2, q)) ==> q <= s@.len(),
{
    match component {
        Component::Day(_) | Component::Ordinal(_) => read_day_or_ordinal(s, pos, component, p),
        Component::Month(_) => read_month(s, pos, component, p),
        Component::Weekday(_) => read_weekday(s, pos, component, p),
        Component::WeekNumber(_) => read_week_number(s, pos, component, p),
        Component::Year(_) => read_year(s, pos, component, p),
        _ => read_time_component(s, pos, component, p),
    }
}

/// The weekday `index` days after Monday.
fn weekday_from_monday(index: u8) -> (r: Weekday)
    ensures
        r == Weekday::from_index(index as int),
{
    match index {
        0 => Weekday::Monday,
        1 => Weekday::Tuesday,
        2 => Weekday::Wednesday,
        3 => Weekday::Thursday,
        4 => Weekday::Friday,
        5 => Weekday::Saturday,
        _ => Weekday::Sunday,
    }
}

// ---------------------------------------------------------------------------
// From components to a date
// ---------------------------------------------------------------------------

/// The date with the `ordinal`-th day of `year`, by its Julian day, or the
/// error of `Date::from_ordinal_date`.
pub open spec fn ordinal_date_julian(year: int, ordinal: int) -> Result<int, TryFromParsed> {
    if !(MIN_YEAR <= year <= MAX_YEAR) {
        Err(
            TryFromParsed::ComponentRange(
                range_error("year", MIN_YEAR as int, MAX_YEAR as int, year, false),
            ),
        )
    } else if !valid_ordinal(year, ordinal) {
        Err(
            TryFromParsed::ComponentRange(
                range_error("ordinal", 1, year_len(year), ordinal, true),
            ),
        )
    } else {
        Ok(julian_day(year, ordinal))
    }
}

/// The days to take off `7 * week + weekday` to count the days of a year in
/// weeks that begin on the weekday `first` days after Monday: the days from
/// that weekday to January 1, or 7 where January 1 is that weekday.
pub open spec fn week_adjustment(year: int, first: int) -> int {
    let n = (weekday_index(julian_day(year, 1)) - first + 7) % 7;
    if n == 0 {
        7
    } else {
        n
    }
}

/// The date that the components read make up, by its Julian day, or why
/// there is none. The first of these that was read decides: year and
/// ordinal; year, month and day; ISO year, ISO week and weekday; year,
/// Sunday-based week and weekday; year, Monday-based week and weekday.
pub open spec fn parsed_date(p: Parsed) -> Result<int, TryFromParsed> {
    if p.year is Some && p.ordinal is Some {
        ordinal_date_julian(p.year->0 as int, p.ordinal->0 as int)
    } else if p.year is Some && p.month is Some && p.day is Some {
        let (year, month, day) = (p.year->0 as int, p.month->0 as int, p.day->0 as int);
        if !(MIN_YEAR <= year <= MAX_YEAR) {
            Err(
                TryFromParsed::ComponentRange(
                    range_error("year", MIN_YEAR as int, MAX_YEAR as int, year, false),
                ),
            )
        } else if !(1 <= month <= 12) {
            Err(TryFromParsed::ComponentRange(range_error("month", 1, 12, month, false)))
        } else if !(1 <= day <= month_len(year, month)) {
            Err(
                TryFromParsed::ComponentRange(
                    range_error("day", 1, month_len(year, month), day, true),
                ),
            )
        } else {
            Ok(julian_day(year, days_before_month(year, month) + day))
        }
    } else if p.iso_year is Some && p.iso_week_number is Some && p.weekday is Some {
        let (year, week) = (p.iso_year->0 as int, p.iso_week_number->0 as int);
        let jd = iso_week_start(year) + 7 * (week - 1) + p.weekday->0.index();
        if !(MIN_YEAR <= year <= MAX_YEAR) {
            Err(
                TryFromParsed::ComponentRange(
                    range_error("year", MIN_YEAR as int, MAX_YEAR as int, year, false),
                ),
            )
        } else if !(1 <= week <= iso_weeks(year)) {
            Err(
                TryFromParsed::ComponentRange(range_error("week", 1, iso_weeks(year), week, true)),
            )
        } else if jd > max_julian_day() {
            Err(
                TryFromParsed::ComponentRange(
                    range_error("year", MIN_YEAR as int, MAX_YEAR as int, MAX_YEAR + 1, false),
                ),
            )
        } else {
            Ok(jd)
        }
    } else if p.year is Some && p.sunday_week_number is Some && p.weekday is Some {
        let year = p.year->0 as int;
        ordinal_date_julian(
            year,
            ((7 * p.sunday_week_number->0 + (p.weekday->0.index() + 1) % 7 - week_adjustment(
                year,
                6,
            ) + 1) as u16) as int,
        )
    } else if p.year is Some && p.monday_week_number is Some && p.weekday is Some {
        let year = p.year->0 as int;
        ordinal_date_julian(
            year,
            ((7 * p.monday_week_number->0 + p.weekday->0.index() - week_adjustment(year, 0) + 1) as u16) as int,
        )
    } else {
        Err(TryFromParsed::InsufficientInformation)
    }
}

/// Reads `items` from the start of `s`.
fn read_items_at(s: &Vec<char>, items: &Vec<FormatItem>) -> (r: Result<
    (Parsed, usize),
    ParseFromDescription,
>)
    ensures
        r is Ok <==> read_items(s@, items@) is Ok,
        r matches Ok((p, pos)) ==> read_items(s@, items@) == Ok::<(Parsed, int), ParseFromDescription>((p, pos as int)),
        r matches Err(e) ==> read_items(s@, items@) == Err::<(Parsed, int), ParseFromDescription>(e),
{
    let len = s.len();
    let mut parsed = Parsed::new();
    let mut pos: usize = 0;
    let mut i: usize = 0;
    while i < items.len()
        invariant
            len == s@.len(),
            i <= items@.len(),
            pos <= len,
            read_items(s@, items@.take(i as int)) == Ok::<(Parsed, int), ParseFromDescription>((parsed, pos as int)),
        decreases items@.len() - i,
    {
        assert(items@.take(i + 1).drop_last() =~= items@.take(i as int));
        assert(items@.take(i + 1).last() == items@[i as int]);
        match &items[i] {
            FormatItem::Literal(l) => {
                if matches_word(s, pos, l.as_str()) {
                    pos = pos + l.as_str().unicode_len();
                } else {
                    proof {
                        lemma_read_items_stops(s@, items@, i as int + 1);
                    }
                    return Err(ParseFromDescription::InvalidLiteral);
                }
            },
            FormatItem::Component(c) => {
                match read_component_at(s, pos, *c, parsed) {
                    Some((p2, q)) => {
                        parsed = p2;
                        pos = q;
                    },
                    None => {
                        proof {
                            lemma_read_items_stops(s@, items@, i as int + 1);
                        }
                        return Err(ParseFromDescription::InvalidComponent(component_name_of(*c)));
                    },
                }
            },
        }
        i = i + 1;
    }
    assert(items@.take(i as int) =~= items@);
    Ok((parsed, pos))
}

/// Once an item is not found, the reading ends with its error.
proof fn lemma_read_items_stops(s: Seq<char>, items: Seq<FormatItem>, n: int)
    requires
        0 <= n <= items.len(),
        read_items(s, items.take(n)) is Err,
    ensures
        read_items(s, items) == read_items(s, items.take(n)),
    decreases items.len() - n,
{
    if n < items.len() {
        assert(items.take(n + 1).drop_last() =~= items.take(n));
        lemma_read_items_stops(s, items, n + 1);
    } else {
        assert(items.take(n) =~= items);
    }
}

/// The name of a component, as a parse error reports it.
fn component_name_of(component: Component) -> (r: &'static str)
    ensures
        r == component_name(component),
{
    match component {
        Component::Day(_) => "day",
        Component::Month(_) => "month",
        Component::Ordinal(_) => "ordinal",
        Component::Weekday(_) => "weekday",
        Component::WeekNumber(_) => "week number",
        Component::Year(_) => "year",
        Component::Hour(_) => "hour",
        Component::Minute(_) => "minute",
        Component::Period(_) => "period",
        Component::Second(_) => "second",
        Component::Subsecond(_) => "subsecond",
        Component::OffsetHour(_) => "offset hour",
        Component::OffsetMinute(_) => "offset minute",
        Component::OffsetSecond(_) => "offset second",
    }
}

impl Date {
    /// The date that the components read make up, or why there is none.
    pub fn try_from_parsed(parsed: Parsed) -> (r: Result<Date, TryFromParsed>)
        ensures
            match parsed_date(parsed) {
                Ok(jd) => r matches Ok(d) && d.wf() && d.julian() == jd,
                Err(e) => r == Err::<Date, TryFromParsed>(e),
            },
    {
        if let (Some(year), Some(ordinal)) = (parsed.year, parsed.ordinal) {
            return match Date::from_ordinal_date(year, ordinal) {
                Ok(date) => Ok(date),
                Err(e) => Err(TryFromParsed::ComponentRange(e)),
            };
        }
        if let (Some(year), Some(month), Some(day)) = (parsed.year, parsed.month, parsed.day) {
            return match Date::from_calendar_date(year, month, day) {
                Ok(date) => Ok(date),
                Err(e) => Err(TryFromParsed::ComponentRange(e)),
            };
        }
        if let (Some(year), Some(week), Some(weekday)) = (
            parsed.iso_year,
            parsed.iso_week_number,
            parsed.weekday,
        ) {
            return match Date::from_iso_week_date(year, week, weekday) {
                Ok(date) => Ok(date),
                Err(e) => Err(TryFromParsed::ComponentRange(e)),
            };
        }
        if let (Some(year), Some(week), Some(weekday)) = (
            parsed.year,
            parsed.sunday_week_number,
            parsed.weekday,
        ) {
            return Date::from_week_number(year, week, weekday, true);
        }
        if let (Some(year), Some(week), Some(weekday)) = (
            parsed.year,
            parsed.monday_week_number,
            parsed.weekday,
        ) {
            return Date::from_week_number(year, week, weekday, false);
        }
        Err(TryFromParsed::InsufficientInformation)
    }

    /// The date of `weekday` in week `week` of `year`, where week 1 begins on
    /// the first Sunday (or Monday) of the year.
    fn from_week_number(year: i32, week: u8, weekday: Weekday, sunday_based: bool) -> (r: Result<
        Date,
        TryFromParsed,
    >)
        ensures
            ({
                let ordinal = if sunday_based {
                    ((7 * week + (weekday.index() + 1) % 7 - week_adjustment(year as int, 6) + 1) as u16) as int
                } else {
                    ((7 * week + weekday.index() - week_adjustment(year as int, 0) + 1) as u16) as int
                };
                match ordinal_date_julian(year as int, ordinal) {
                    Ok(jd) => r matches Ok(d) && d.wf() && d.julian() == jd,
                    Err(e) => r == Err::<Date, TryFromParsed>(e),
                }
            }),
    {
        if year < MIN_YEAR || year > MAX_YEAR {
            return Err(
                TryFromParsed::ComponentRange(
                    ComponentRange {
                        name: "year",
                        minimum: MIN_YEAR as i64,
                        maximum: MAX_YEAR as i64,
                        value: year as i64,
                        conditional_range: false,
                    },
                ),
            );
        }
        let jan1 = Date::from_ordinal_date_unchecked(year, 1).weekday();
        let (first_of_year, day) = if sunday_based {
            (jan1.number_days_from_sunday(), weekday.number_days_from_sunday())
        } else {
            (jan1.number_days_from_monday(), weekday.number_days_from_monday())
        };
        proof {
            jan1.lemma_from_index();
        }
        let adjustment: i16 = if first_of_year == 0 {
            7
        } else {
            first_of_year as i16
        };
        let ordinal = (week as i16 * 7 + day as i16 - adjustment + 1) as u16;
        match Date::from_ordinal_date(year, ordinal) {
            Ok(date) => Ok(date),
            Err(e) => Err(TryFromParsed::ComponentRange(e)),
        }
    }

    /// Parse a `Date` from the input using the provided format description.
    pub fn parse(input: &str, description: &FormatDescription) -> (r: Result<Date, Parse>)
        ensures
            match read_items(input@, description.items@) {
                Err(e) => r == Err::<Date, Parse>(Parse::ParseFromDescription(e)),
                Ok((parsed, pos)) => if pos != input@.len() {
                    r == Err::<Date, Parse>(
                        Parse::ParseFromDescription(
                            ParseFromDescription::UnexpectedTrailingCharacters,
                        ),
                    )
                } else {
                    match parsed_date(parsed) {
                        Ok(jd) => r matches Ok(d) && d.wf() && d.julian() == jd,
                        Err(e) => r == Err::<Date, Parse>(Parse::TryFromParsed(e)),
                    }
                },
            },
    {
        let chars = chars_of(input);
        match read_items_at(&chars, &description.items) {
            Err(e) => Err(Parse::ParseFromDescription(e)),
            Ok((parsed, pos)) => {
                if pos != chars.len() {
                    return Err(
                        Parse::ParseFromDescription(
                            ParseFromDescription::UnexpectedTrailingCharacters,
                        ),
                    );
                }
                match Date::try_from_parsed(parsed) {
                    Ok(date) => Ok(date),
                    Err(e) => Err(Parse::TryFromParsed(e)),
                }
            },
        }
    }
}

} // verus!
