//! Writing dates as text.
use crate::calendar::{day_of, iso_year_week, julian_day, month_of, weekday_index};
use crate::date::Date;
use crate::error::Format;
use crate::format_description::{Component, FormatDescription, FormatItem};
use crate::modifier::{
    Day, Month, MonthRepr, Ordinal, Padding, WeekNumber, WeekNumberRepr, WeekdayRepr, Year,
    YearRepr,
};
use vstd::prelude::*;
use vstd::string::*;

verus! {

// ---------------------------------------------------------------------------
// The text of numbers and names
// ---------------------------------------------------------------------------

/// The character of decimal digit `d`.
pub open spec fn digit_char(d: int) -> char {
    if d == 0 {
        '0'
    } else if d == 1 {
        '1'
    } else if d == 2 {
        '2'
    } else if d == 3 {
        '3'
    } else if d == 4 {
        '4'
    } else if d == 5 {
        '5'
    } else if d == 6 {
        '6'
    } else if d == 7 {
        '7'
    } else if d == 8 {
        '8'
    } else {
        '9'
    }
}

/// The decimal digits of `n`, with no leading zero.
pub open spec fn decimal(n: nat) -> Seq<char>
    decreases n,
{
    if n < 10 {
        seq![digit_char(n as int)]
    } else {
        decimal(n / 10).push(digit_char((n % 10) as int))
    }
}

/// `count` copies of `c`, none for a count below one.
pub open spec fn repeat(c: char, count: int) -> Seq<char> {
    Seq::new(
        if count > 0 {
            count as nat
        } else {
            0
        },
        |i: int| c,
    )
}

/// The decimal digits of `n`, padded as `padding` says to at least `width`
/// characters.
pub open spec fn padded(n: nat, width: int, padding: Padding) -> Seq<char> {
    let digits = decimal(n);
    match padding {
        Padding::Space => repeat(' ', width - digits.len()) + digits,
        Padding::Zero => repeat('0', width - digits.len()) + digits,
        Padding::NoPadding => digits,
    }
}

/// The absolute value of `x`.
pub open spec fn abs(x: int) -> nat {
    if x < 0 {
        (-x) as nat
    } else {
        x as nat
    }
}

/// The English name of month `m`.
pub open spec fn month_name(m: int) -> Seq<char> {
    if m == 1 {
        "January"@
    } else if m == 2 {
        "February"@
    } else if m == 3 {
        "March"@
    } else if m == 4 {
        "April"@
    } else if m == 5 {
        "May"@
    } else if m == 6 {
        "June"@
    } else if m == 7 {
        "July"@
    } else if m == 8 {
        "August"@
    } else if m == 9 {
        "September"@
    } else if m == 10 {
        "October"@
    } else if m == 11 {
        "November"@
    } else {
        "December"@
    }
}

/// The first three letters of the English name of month `m`.
pub open spec fn short_month_name(m: int) -> Seq<char> {
    if m == 1 {
        "Jan"@
    } else if m == 2 {
        "Feb"@
    } else if m == 3 {
        "Mar"@
    } else if m == 4 {
        "Apr"@
    } else if m == 5 {
        "May"@
    } else if m == 6 {
        "Jun"@
    } else if m == 7 {
        "Jul"@
    } else if m == 8 {
        "Aug"@
    } else if m == 9 {
        "Sep"@
    } else if m == 10 {
        "Oct"@
    } else if m == 11 {
        "Nov"@
    } else {
        "Dec"@
    }
}

/// The English name of the weekday `index` days after Monday.
pub open spec fn weekday_name(index: int) -> Seq<char> {
    if index == 0 {
        "Monday"@
    } else if index == 1 {
        "Tuesday"@
    } else if index == 2 {
        "Wednesday"@
    } else if index == 3 {
        "Thursday"@
    } else if index == 4 {
        "Friday"@
    } else if index == 5 {
        "Saturday"@
    } else {
        "Sunday"@
    }
}

/// The first three letters of the English name of the weekday `index` days
/// after Monday.
pub open spec fn short_weekday_name(index: int) -> Seq<char> {
    if index == 0 {
        "Mon"@
    } else if index == 1 {
        "Tue"@
    } else if index == 2 {
        "Wed"@
    } else if index == 3 {
        "Thu"@
    } else if index == 4 {
        "Fri"@
    } else if index == 5 {
        "Sat"@
    } else {
        "Sun"@
    }
}

// ---------------------------------------------------------------------------
// The text of a date
// ---------------------------------------------------------------------------

/// The text of a year as `modifier` describes it, for the `ordinal`-th day of
/// `year`.
pub open spec fn year_text(year: int, ordinal: int, modifier: Year) -> Seq<char> {
    let full = if modifier.iso_week_based {
        iso_year_week(year, ordinal).0
    } else {
        year
    };
    match modifier.repr {
        YearRepr::Full => (if full < 0 {
            seq!['-']
        } else if modifier.sign_is_mandatory {
            seq!['+']
        } else {
            Seq::empty()
        }) + padded(abs(full), 4, modifier.padding),
        YearRepr::LastTwo => padded(abs(full) % 100, 2, modifier.padding),
    }
}

/// The text of `component` for the `ordinal`-th day of `year`, or `None` for
/// a component that a date does not hold.
pub open spec fn component_text(year: int, ordinal: int, component: Component) -> Option<
    Seq<char>,
> {
    let weekday = weekday_index(julian_day(year, ordinal));
    match component {
        Component::Day(m) => Some(padded(day_of(year, ordinal) as nat, 2, m.padding)),
        Component::Month(m) => Some(
            match m.repr {
                MonthRepr::Numerical => padded(month_of(year, ordinal) as nat, 2, m.padding),
                MonthRepr::Long => month_name(month_of(year, ordinal)),
                MonthRepr::Short => short_month_name(month_of(year, ordinal)),
            },
        ),
        Component::Ordinal(m) => Some(padded(ordinal as nat, 3, m.padding)),
        Component::Weekday(m) => Some(
            match m.repr {
                WeekdayRepr::Short => short_weekday_name(weekday),
                WeekdayRepr::Long => weekday_name(weekday),
                WeekdayRepr::Sunday => decimal(
                    ((weekday + 1) % 7 + if m.one_indexed {
                        1int
                    } else {
                        0
                    }) as nat,
                ),
                WeekdayRepr::Monday => decimal(
                    (weekday + if m.one_indexed {
                        1int
                    } else {
                        0
                    }) as nat,
                ),
            },
        ),
        Component::WeekNumber(m) => Some(
            padded(
                (match m.repr {
                    WeekNumberRepr::Iso => iso_year_week(year, ordinal).1,
                    WeekNumberRepr::Sunday => (ordinal - (weekday + 1) % 7 + 6) / 7,
                    WeekNumberRepr::Monday => (ordinal - weekday + 6) / 7,
                }) as nat,
                2,
                m.padding,
            ),
        ),
        Component::Year(m) => Some(year_text(year, ordinal, m)),
        _ => None,
    }
}

/// The text of `items` for the `ordinal`-th day of `year`: what is written up
/// to the first component that a date does not hold, and whether there is no
/// such component.
pub open spec fn items_text(year: int, ordinal: int, items: Seq<FormatItem>) -> (Seq<char>, bool)
    decreases items.len(),
{
    if items.len() == 0 {
        (Seq::empty(), true)
    } else {
        let (before, complete) = items_text(year, ordinal, items.drop_last());
        if !complete {
            (before, false)
        } else {
            match items.last() {
                FormatItem::Literal(s) => (before + s@, true),
                FormatItem::Component(c) => match component_text(year, ordinal, c) {
                    Some(t) => (before + t, true),
                    None => (before, false),
                },
            }
        }
    }
}

/// The modifiers of a year written as `[year]`: the full year, its sign only
/// where it is negative, and at least four digits, led by zeros.
pub open spec fn default_year() -> Year {
    Year {
        padding: Padding::Zero,
        repr: YearRepr::Full,
        iso_week_based: false,
        sign_is_mandatory: false,
    }
}

/// The text of a date as its `Date::to_string` writes it: year, month and day,
/// zero-padded and joined by `-`.
pub open spec fn date_text(year: int, ordinal: int) -> Seq<char> {
    year_text(year, ordinal, default_year()) + seq!['-'] + padded(month_of(year, ordinal) as nat, 2, Padding::Zero) + seq!['-']
        + padded(day_of(year, ordinal) as nat, 2, Padding::Zero)
}

// ---------------------------------------------------------------------------
// Writing
// ---------------------------------------------------------------------------

/// Appends `c` to `s`, by `String::push`, which appends a character to the
/// end of a string.
#[verifier::external_body]
pub(crate) fn push_char(s: &mut String, c: char)
    ensures
        final(s)@ == old(s)@.push(c),
{
    s.push(c);
}

/// The character of decimal digit `d`.
fn digit(d: u32) -> (r: char)
    requires
        d < 10,
    ensures
        r == digit_char(d as int),
{
    match d {
        0 => '0',
        1 => '1',
        2 => '2',
        3 => '3',
        4 => '4',
        5 => '5',
        6 => '6',
        7 => '7',
        8 => '8',
        _ => '9',
    }
}

/// The number of decimal digits of `n`.
fn decimal_len(n: u32) -> (r: u32)
    ensures
        r == decimal(n as nat).len(),
        r == 1 + (if n >= 10 {
            1int
        } else {
            0
        }) + (if n >= 100 {
            1int
        } else {
            0
        }) + (if n >= 1_000 {
            1int
        } else {
            0
        }) + (if n >= 10_000 {
            1int
        } else {
            0
        }) + (if n >= 100_000 {
            1int
        } else {
            0
        }) + (if n >= 1_000_000 {
            1int
        } else {
            0
        }) + (if n >= 10_000_000 {
            1int
        } else {
            0
        }) + (if n >= 100_000_000 {
            1int
        } else {
            0
        }) + (if n >= 1_000_000_000 {
            1int
        } else {
            0
        }),
    decreases n,
{
    if n < 10 {
        1
    } else {
        decimal_len(n / 10) + 1
    }
}

/// Appends the decimal digits of `n`.
fn push_decimal(output: &mut String, n: u32)
    ensures
        final(output)@ == old(output)@ + decimal(n as nat),
    decreases n,
{
    if n >= 10 {
        push_decimal(output, n / 10);
    }
    push_char(output, digit(n % 10));
    proof {
        assert(decimal(n as nat) == if n < 10 {
            seq![digit_char(n as int)]
        } else {
            decimal((n / 10) as nat).push(digit_char((n % 10) as int))
        });
    }
}

/// Appends `count` copies of `c`.
fn push_repeated(output: &mut String, c: char, count: u32)
    ensures
        final(output)@ == old(output)@ + repeat(c, count as int),
{
    let ghost start = output@;
    let mut i: u32 = 0;
    while i < count
        invariant
            i <= count,
            output@ == start + repeat(c, i as int),
        decreases count - i,
    {
        push_char(output, c);
        i = i + 1;
        assert(output@ =~= start + repeat(c, i as int));
    }
}

/// Appends the decimal digits of `n`, padded to at least `width` characters.
fn push_padded(output: &mut String, n: u32, width: u32, padding: Padding)
    ensures
        final(output)@ == old(output)@ + padded(n as nat, width as int, padding),
{
    let ghost start = output@;
    let len = decimal_len(n);
    match padding {
        Padding::Space => {
            if width > len {
                push_repeated(output, ' ', width - len);
            } else {
                assert(repeat(' ', width - len) =~= Seq::empty());
                assert(output@ =~= start + repeat(' ', width - len));
            }
        },
        Padding::Zero => {
            if width > len {
                push_repeated(output, '0', width - len);
            } else {
                assert(repeat('0', width - len) =~= Seq::empty());
                assert(output@ =~= start + repeat('0', width - len));
            }
        },
        Padding::NoPadding => {},
    }
    push_decimal(output, n);
    assert(output@ =~= start + padded(n as nat, width as int, padding));
}

/// The English name of month `m`.
pub(crate) fn month_name_str(m: u8) -> (r: &'static str)
    ensures
        r@ == month_name(m as int),
{
    match m {
        1 => "January",
        2 => "February",
        3 => "March",
        4 => "April",
        5 => "May",
        6 => "June",
        7 => "July",
        8 => "August",
        9 => "September",
        10 => "October",
        11 => "November",
        _ => "December",
    }
}

/// The first three letters of the English name of month `m`.
pub(crate) fn short_month_name_str(m: u8) -> (r: &'static str)
    ensures
        r@ == short_month_name(m as int),
{
    match m {
        1 => "Jan",
        2 => "Feb",
        3 => "Mar",
        4 => "Apr",
        5 => "May",
        6 => "Jun",
        7 => "Jul",
        8 => "Aug",
        9 => "Sep",
        10 => "Oct",
        11 => "Nov",
        _ => "Dec",
    }
}

/// The English name of the weekday `index` days after Monday.
pub(crate) fn weekday_name_str(index: u8) -> (r: &'static str)
    ensures
        r@ == weekday_name(index as int),
{
    match index {
        0 => "Monday",
        1 => "Tuesday",
        2 => "Wednesday",
        3 => "Thursday",
        4 => "Friday",
        5 => "Saturday",
        _ => "Sunday",
    }
}

/// The first three letters of the English name of the weekday `index` days
/// after Monday.
pub(crate) fn short_weekday_name_str(index: u8) -> (r: &'static str)
    ensures
        r@ == short_weekday_name(index as int),
{
    match index {
        0 => "Mon",
        1 => "Tue",
        2 => "Wed",
        3 => "Thu",
        4 => "Fri",
        5 => "Sat",
        _ => "Sun",
    }
}

/// Appends the year of `date` as `modifier` describes it.
fn push_year(output: &mut String, date: Date, modifier: Year)
    ensures
        final(output)@ == old(output)@ + year_text(date@.0, date@.1, modifier),
{
    proof {
        use_type_invariant(&date);
    }
    let ghost start = output@;
    let full_year = if modifier.iso_week_based {
        date.iso_year_week().0
    } else {
        date.year()
    };
    let magnitude: u32 = if full_year < 0 {
        (-full_year) as u32
    } else {
        full_year as u32
    };
    match modifier.repr {
        YearRepr::Full => {
            if full_year < 0 {
                push_char(output, '-');
            } else if modifier.sign_is_mandatory {
                push_char(output, '+');
            }
            push_padded(output, magnitude, 4, modifier.padding);
            assert(output@ =~= start + year_text(date@.0, date@.1, modifier));
        },
        YearRepr::LastTwo => {
            push_padded(output, magnitude % 100, 2, modifier.padding);
        },
    }
}

/// Appends the text of `component` for `date`, and tells whether a date holds
/// that component; where it does not, nothing is appended.
fn push_component(output: &mut String, date: Date, component: Component) -> (r: bool)
    ensures
        r == component_text(date@.0, date@.1, component) is Some,
        r ==> final(output)@ == old(output)@ + component_text(
            date@.0,
            date@.1,
            component,
        )->Some_0,
        !r ==> final(output)@ == old(output)@,
{
    proof {
        use_type_invariant(&date);
    }
    match component {
        Component::Day(Day { padding }) => {
            push_padded(output, date.day() as u32, 2, padding);
            true
        },
        Component::Month(Month { padding, repr }) => {
            let month = date.month();
            match repr {
                MonthRepr::Numerical => push_padded(output, month as u32, 2, padding),
                MonthRepr::Long => output.append(month_name_str(month)),
                MonthRepr::Short => output.append(short_month_name_str(month)),
            }
            true
        },
        Component::Ordinal(Ordinal { padding }) => {
            push_padded(output, date.ordinal() as u32, 3, padding);
            true
        },
        Component::Weekday(modifier) => {
            let weekday = date.weekday();
            proof {
                weekday.lemma_from_index();
            }
            let offset: u8 = if modifier.one_indexed {
                1
            } else {
                0
            };
            match modifier.repr {
                WeekdayRepr::Short => output.append(
                    short_weekday_name_str(weekday.number_days_from_monday()),
                ),
                WeekdayRepr::Long => output.append(
                    weekday_name_str(weekday.number_days_from_monday()),
                ),
                WeekdayRepr::Sunday => push_decimal(
                    output,
                    (weekday.number_days_from_sunday() + offset) as u32,
                ),
                WeekdayRepr::Monday => push_decimal(
                    output,
                    (weekday.number_days_from_monday() + offset) as u32,
                ),
            }
            true
        },
        Component::WeekNumber(WeekNumber { padding, repr }) => {
            let week = match repr {
                WeekNumberRepr::Iso => date.iso_week(),
                WeekNumberRepr::Sunday => date.sunday_based_week(),
                WeekNumberRepr::Monday => date.monday_based_week(),
            };
            push_padded(output, week as u32, 2, padding);
            true
        },
        Component::Year(modifier) => {
            push_year(output, date, modifier);
            true
        },
        _ => false,
    }
}

impl Date {
    /// Format the `Date` using the provided format description, appending the
    /// text to `output`.
    ///
    /// Where the description names a component that a date does not hold
    /// (of a time of day or an offset), the text of the pieces before it is
    /// appended and the error is returned.
    pub fn format_into(self, output: &mut String, description: &FormatDescription) -> (r: Result<
        (),
        Format,
    >)
        ensures
            final(output)@ == old(output)@ + items_text(self@.0, self@.1, description.items@).0,
            r is Ok <==> items_text(self@.0, self@.1, description.items@).1,
            r matches Err(e) ==> e == Format::InsufficientTypeInformation,
    {
        proof {
            use_type_invariant(&self);
        }
        let ghost start = output@;
        let items = &description.items;
        let mut i: usize = 0;
        while i < items.len()
            invariant
                self.wf(),
                items@ == description.items@,
                start == old(output)@,
                i <= items@.len(),
                items_text(self@.0, self@.1, items@.take(i as int)).1,
                output@ == start + items_text(self@.0, self@.1, items@.take(i as int)).0,
            decreases items@.len() - i,
        {
            assert(items@.take(i + 1).drop_last() =~= items@.take(i as int));
            match &items[i] {
                FormatItem::Literal(s) => {
                    output.append(s.as_str());
                },
                FormatItem::Component(c) => {
                    if !push_component(output, self, *c) {
                        proof {
                            assert(items@.take(i + 1).last() == items@[i as int]);
                            assert(!items_text(self@.0, self@.1, items@.take(i + 1)).1);
                            assert(items_text(self@.0, self@.1, items@.take(i + 1)).0 == items_text(
                                self@.0,
                                self@.1,
                                items@.take(i as int),
                            ).0);
                            lemma_items_text_stops(self@.0, self@.1, items@, i as int + 1);
                        }
                        return Err(Format::InsufficientTypeInformation);
                    }
                },
            }
            i = i + 1;
            assert(output@ =~= start + items_text(self@.0, self@.1, items@.take(i as int)).0);
        }
        assert(items@.take(i as int) =~= items@);
        Ok(())
    }

    /// Format the `Date` using the provided format description.
    pub fn format(self, description: &FormatDescription) -> (r: Result<String, Format>)
        ensures
            r is Ok <==> items_text(self@.0, self@.1, description.items@).1,
            r matches Ok(s) ==> s@ == items_text(self@.0, self@.1, description.items@).0,
            r matches Err(e) ==> e == Format::InsufficientTypeInformation,
    {
        proof {
            use_type_invariant(&self);
        }
        let mut s = String::new();
        match self.format_into(&mut s, description) {
            Ok(()) => Ok(s),
            Err(e) => Err(e),
        }
    }

    /// The date as text: the year, month and day, zero-padded and joined by
    /// `-`, as in `2019-01-01` or `-0001-12-31`.
    pub fn to_string(self) -> (r: String)
        ensures
            r@ == date_text(self@.0, self@.1),
    {
        proof {
            use_type_invariant(&self);
        }
        let mut s = String::new();
        push_year(
            &mut s,
            self,
            Year {
                padding: Padding::Zero,
                repr: YearRepr::Full,
                iso_week_based: false,
                sign_is_mandatory: false,
            },
        );
        push_char(&mut s, '-');
        push_padded(&mut s, self.month() as u32, 2, Padding::Zero);
        push_char(&mut s, '-');
        push_padded(&mut s, self.day() as u32, 2, Padding::Zero);
        s
    }
}

/// Once an item cannot be written, nothing after it is.
proof fn lemma_items_text_stops(year: int, ordinal: int, items: Seq<FormatItem>, n: int)
    requires
        0 <= n <= items.len(),
        !items_text(year, ordinal, items.take(n)).1,
    ensures
        items_text(year, ordinal, items) == items_text(year, ordinal, items.take(n)),
    decreases items.len() - n,
{
    if n < items.len() {
        assert(items.take(n + 1).drop_last() =~= items.take(n));
        lemma_items_text_stops(year, ordinal, items, n + 1);
    } else {
        assert(items.take(n) =~= items);
    }
}

} // verus!
