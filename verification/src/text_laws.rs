//! Laws that tie writing the components of a date to reading them back, and
//! that say what a format description's modifiers mean.
use crate::calendar::{
    day_of, iso_year_week, julian_day, lemma_calendar_date_of_ordinal, lemma_floor_div_bounds,
    lemma_iso_week_number, month_of, weekday_index,
};
use crate::error::TryFromParsed;
use crate::format_description::{with_modifier, Component};
use crate::formatting::{
    abs, component_text, decimal, digit_char, padded, repeat, year_text, month_name, short_month_name, short_weekday_name,
    weekday_name,
};
use crate::date::Date;
use crate::laws::{
    law_iso_week_date_of_date, law_julian_day_in_range, lemma_decimal_digits, lemma_decimal_len, lemma_digit_char,
    lemma_digit_run_all, lemma_padded_value, lemma_read_zero_padded,
};
use crate::modifier;
use crate::modifier::{Month, MonthRepr, Padding, WeekNumberRepr, WeekdayRepr, Year, YearRepr};
use crate::parsing::{
    digit_run, digits_value, is_digit, parsed_date, matches_at, pow10, read_padded, space_run, month_named_from, read_component, read_digits,
    weekday_named_from, Parsed,
};
use crate::weekday::Weekday;
use vstd::prelude::*;

verus! {

/// A text cannot begin with two words that differ at a position both hold.
proof fn lemma_words_differ(s: Seq<char>, pos: int, a: Seq<char>, b: Seq<char>, i: int)
    requires
        matches_at(s, pos, a),
        matches_at(s, pos, b),
        0 <= i < a.len(),
        i < b.len(),
    ensures
        a[i] == b[i],
{
    assert(s.subrange(pos, pos + a.len())[i] == s[pos + i]);
    assert(s.subrange(pos, pos + b.len())[i] == s[pos + i]);
}

/// The names of two different months, and their short names, differ within
/// their first three letters; every name has at least three.
proof fn lemma_month_names_differ(k: int, m: int)
    requires
        1 <= k <= 12,
        1 <= m <= 12,
        k != m,
    ensures
        month_name(k).len() >= 3,
        short_month_name(k).len() == 3,
        forall|i: int| 0 <= i < 3 ==> #[trigger] short_month_name(k)[i] == month_name(k)[i],
        month_name(k)[0] != month_name(m)[0] || month_name(k)[1] != month_name(m)[1]
            || month_name(k)[2] != month_name(m)[2],
        short_month_name(k)[0] != short_month_name(m)[0] || short_month_name(k)[1]
            != short_month_name(m)[1] || short_month_name(k)[2] != short_month_name(m)[2],
{
    reveal_strlit("January");
    reveal_strlit("February");
    reveal_strlit("March");
    reveal_strlit("April");
    reveal_strlit("May");
    reveal_strlit("June");
    reveal_strlit("July");
    reveal_strlit("August");
    reveal_strlit("September");
    reveal_strlit("October");
    reveal_strlit("November");
    reveal_strlit("December");
    reveal_strlit("Jan");
    reveal_strlit("Feb");
    reveal_strlit("Mar");
    reveal_strlit("Apr");
    reveal_strlit("Jun");
    reveal_strlit("Jul");
    reveal_strlit("Aug");
    reveal_strlit("Sep");
    reveal_strlit("Oct");
    reveal_strlit("Nov");
    reveal_strlit("Dec");
}

/// Searching the month names from month `k` on finds month `m`, whose name
/// begins the text at `pos`.
proof fn lemma_month_named_from(s: Seq<char>, pos: int, k: int, m: int, long: bool)
    requires
        1 <= k <= m <= 12,
        matches_at(s, pos, if long { month_name(m) } else { short_month_name(m) }),
    ensures
        month_named_from(s, pos, k, long) == Some(m),
    decreases m - k,
{
    if k < m {
        let name_k = if long { month_name(k) } else { short_month_name(k) };
        let name_m = if long { month_name(m) } else { short_month_name(m) };
        lemma_month_names_differ(k, m);
        lemma_month_names_differ(m, k);
        if matches_at(s, pos, name_k) {
            lemma_words_differ(s, pos, name_k, name_m, 0);
            lemma_words_differ(s, pos, name_k, name_m, 1);
            lemma_words_differ(s, pos, name_k, name_m, 2);
        }
        lemma_month_named_from(s, pos, k + 1, m, long);
    }
}

/// A month written by its name, or by its short name, is read back as that
/// month, for each of the twelve months: reading `[month repr:long]` (or
/// `repr:short`) where the text holds the name of month `m` gives `m`, and
/// goes on after the name.
pub proof fn law_month_name_read_back(
    s: Seq<char>,
    pos: int,
    m: int,
    long: bool,
    padding: Padding,
    p: Parsed,
)
    requires
        1 <= m <= 12,
        matches_at(s, pos, if long { month_name(m) } else { short_month_name(m) }),
    ensures
        ({
            let name = if long { month_name(m) } else { short_month_name(m) };
            let repr = if long { MonthRepr::Long } else { MonthRepr::Short };
            read_component(s, pos, Component::Month(Month { padding, repr }), p) == Some(
                (Parsed { month: Some(m as u8), ..p }, pos + name.len()),
            )
        }),
{
    lemma_month_named_from(s, pos, 1, m, long);
}

/// The names of two different weekdays, and their short names, differ
/// within their first three letters; every name has at least three.
proof fn lemma_weekday_names_differ(k: int, w: int)
    requires
        0 <= k <= 6,
        0 <= w <= 6,
        k != w,
    ensures
        weekday_name(k).len() >= 3,
        short_weekday_name(k).len() == 3,
        weekday_name(k)[0] != weekday_name(w)[0] || weekday_name(k)[1] != weekday_name(w)[1]
            || weekday_name(k)[2] != weekday_name(w)[2],
        short_weekday_name(k)[0] != short_weekday_name(w)[0] || short_weekday_name(k)[1]
            != short_weekday_name(w)[1] || short_weekday_name(k)[2] != short_weekday_name(w)[2],
{
    reveal_strlit("Monday");
    reveal_strlit("Tuesday");
    reveal_strlit("Wednesday");
    reveal_strlit("Thursday");
    reveal_strlit("Friday");
    reveal_strlit("Saturday");
    reveal_strlit("Sunday");
    reveal_strlit("Mon");
    reveal_strlit("Tue");
    reveal_strlit("Wed");
    reveal_strlit("Thu");
    reveal_strlit("Fri");
    reveal_strlit("Sat");
    reveal_strlit("Sun");
}

/// Searching the weekday names from weekday `k` on finds weekday `w`, whose
/// name begins the text at `pos`.
proof fn lemma_weekday_named_from(s: Seq<char>, pos: int, k: int, w: int, long: bool)
    requires
        0 <= k <= w <= 6,
        matches_at(s, pos, if long { weekday_name(w) } else { short_weekday_name(w) }),
    ensures
        weekday_named_from(s, pos, k, long) == Some(w),
    decreases w - k,
{
    if k < w {
        let name_k = if long { weekday_name(k) } else { short_weekday_name(k) };
        let name_w = if long { weekday_name(w) } else { short_weekday_name(w) };
        lemma_weekday_names_differ(k, w);
        lemma_weekday_names_differ(w, k);
        if matches_at(s, pos, name_k) {
            lemma_words_differ(s, pos, name_k, name_w, 0);
            lemma_words_differ(s, pos, name_k, name_w, 1);
            lemma_words_differ(s, pos, name_k, name_w, 2);
        }
        lemma_weekday_named_from(s, pos, k + 1, w, long);
    }
}

/// A weekday written in any of its four forms (long or short name, or its
/// number of days from Sunday or from Monday, counted from 0 or from 1) is
/// read back, with the same modifiers, as that weekday: reading undoes
/// writing for every weekday.
pub proof fn law_weekday_read_back(
    year: int,
    ordinal: int,
    modifier: modifier::Weekday,
    s: Seq<char>,
    pos: int,
    p: Parsed,
)
    requires
        matches_at(s, pos, component_text(year, ordinal, Component::Weekday(modifier))->0),
    ensures
        ({
            let w = weekday_index(julian_day(year, ordinal));
            let text = component_text(year, ordinal, Component::Weekday(modifier))->0;
            read_component(s, pos, Component::Weekday(modifier), p) == Some(
                (Parsed { weekday: Some(Weekday::from_index(w)), ..p }, pos + text.len()),
            )
        }),
{
    let w = weekday_index(julian_day(year, ordinal));
    lemma_floor_div_bounds(julian_day(year, ordinal), 7);
    let text = component_text(year, ordinal, Component::Weekday(modifier))->0;
    let first: int = if modifier.one_indexed { 1 } else { 0 };
    match modifier.repr {
        WeekdayRepr::Long => {
            lemma_weekday_named_from(s, pos, 0, w, true);
        },
        WeekdayRepr::Short => {
            lemma_weekday_named_from(s, pos, 0, w, false);
        },
        WeekdayRepr::Sunday => {
            let n = (w + 1) % 7 + first;
            assert(text == decimal(n as nat));
            lemma_single_digit_read(s, pos, n);
            lemma_floor_div_bounds(w + 1, 7);
            lemma_floor_div_bounds(n - first + 6, 7);
        },
        WeekdayRepr::Monday => {
            let n = w + first;
            assert(text == decimal(n as nat));
            lemma_single_digit_read(s, pos, n);
        },
    }
}

/// A number below ten, written, is read back as one digit.
proof fn lemma_single_digit_read(s: Seq<char>, pos: int, n: int)
    requires
        0 <= n <= 9,
        matches_at(s, pos, decimal(n as nat)),
    ensures
        read_digits(s, pos, 1, 1) == Some((n, pos + 1)),
        decimal(n as nat).len() == 1,
{
    assert(decimal(n as nat) == seq![digit_char(n)]);
    assert(s[pos] == s.subrange(pos, pos + 1)[0]);
    lemma_digit_char(n);
    assert(digit_run(s, pos + 1, 0) == 0);
    assert(digits_value(s, pos, 0) == 0);
}

/// A clock component written as two digits is read exactly when its value
/// lies in its range: an hour of the 12-hour clock from 1 to 12, of the
/// 24-hour clock from 0 to 23, and a minute or a second from 0 to 59. Where
/// it is read, reading goes on after the two digits.
pub proof fn law_clock_components_read(
    s: Seq<char>,
    pos: int,
    value: int,
    twelve_hour: bool,
    p: Parsed,
)
    requires
        0 <= value <= 99,
        0 <= pos,
        pos + 2 <= s.len(),
        s.subrange(pos, pos + 2) == padded(value as nat, 2, Padding::Zero),
    ensures
        ({
            let hour = Component::Hour(modifier::Hour { padding: Padding::Zero, is_12_hour_clock: twelve_hour });
            let in_range = if twelve_hour { 1 <= value <= 12 } else { value <= 23 };
            &&& read_component(s, pos, hour, p) is Some <==> in_range
            &&& in_range ==> read_component(s, pos, hour, p) == Some((p, pos + 2))
        }),
        read_component(s, pos, Component::Minute(modifier::Minute { padding: Padding::Zero }), p)
            is Some <==> value <= 59,
        read_component(s, pos, Component::Second(modifier::Second { padding: Padding::Zero }), p)
            is Some <==> value <= 59,
{
    assert(pow10(2) == 100) by {
        reveal_with_fuel(pow10, 3);
    }
    lemma_decimal_len(value as nat, 2);
    lemma_read_zero_padded(s, pos, value as nat, 2);
}

/// A run of `count` digits that the text ends, or a character that is not a
/// digit ends, or that is `max` long, is read whole.
proof fn lemma_digit_run_exact(s: Seq<char>, pos: int, count: int, max: int)
    requires
        0 <= pos,
        0 <= count <= max,
        pos + count <= s.len(),
        forall|i: int| pos <= i < pos + count ==> is_digit(#[trigger] s[i]),
        count == max || pos + count == s.len() || !is_digit(s[pos + count]),
    ensures
        digit_run(s, pos, max) == count,
    decreases count,
{
    if count > 0 {
        assert(is_digit(s[pos]));
        lemma_digit_run_exact(s, pos + 1, count - 1, max - 1);
    }
}

/// A run of `count` spaces, that a character other than a space ends or that
/// is `max` long, is counted whole.
proof fn lemma_space_run_exact(s: Seq<char>, pos: int, count: int, max: int)
    requires
        0 <= pos,
        0 <= count <= max,
        pos + count <= s.len(),
        forall|i: int| pos <= i < pos + count ==> #[trigger] s[i] == ' ',
        count == max || (pos + count < s.len() && s[pos + count] != ' '),
    ensures
        space_run(s, pos, max) == count,
    decreases count,
{
    if count > 0 {
        assert(s[pos] == ' ');
        lemma_space_run_exact(s, pos + 1, count - 1, max - 1);
    }
}

/// The digits of a number below `10^width`, padded to `width` characters as
/// `padding` says and ended by the end of the text or by a character that is
/// not a digit, are read back as that number, and reading goes on after
/// them. The first character is a digit or a space.
proof fn lemma_padded_read(s: Seq<char>, pos: int, n: nat, width: int, padding: Padding)
    requires
        1 <= width <= 4,
        n < pow10(width as nat),
        matches_at(s, pos, padded(n, width, padding)),
        ({
            let end = pos + padded(n, width, padding).len();
            end == s.len() || !is_digit(s[end])
        }),
    ensures
        read_padded(s, pos, width, padding) == Some(
            (n as int, pos + padded(n, width, padding).len()),
        ),
        s[pos] == ' ' || is_digit(s[pos]),
{
    lemma_decimal_len(n, width as nat);
    let digits = decimal(n);
    let k = digits.len() as int;
    let text = padded(n, width, padding);
    assert(s.subrange(pos, pos + text.len()) == text);
    match padding {
        Padding::Zero => {
            lemma_read_zero_padded(s, pos, n, width);
        },
        Padding::NoPadding => {
            assert(s.subrange(pos, pos + k) =~= repeat('0', k - k) + digits);
            lemma_padded_value(s, pos, n, k);
            lemma_digit_run_exact(s, pos, k, width);
        },
        Padding::Space => {
            let j = width - k;
            assert forall|i: int| pos <= i < pos + j implies #[trigger] s[i] == ' ' by {
                assert(s[i] == text[i - pos]);
            }
            assert(s.subrange(pos + j, pos + width) =~= repeat('0', k - k) + digits) by {
                assert forall|i: int| 0 <= i < k implies s.subrange(pos + j, pos + width)[i]
                    == digits[i] by {
                    assert(s[pos + j + i] == text[j + i]);
                }
            }
            lemma_padded_value(s, pos + j, n, k);
            lemma_decimal_digits(n, 0);
            assert(s[pos + j] == text[j]);
            lemma_space_run_exact(s, pos, j, width - 1);
            lemma_digit_run_all(s, pos + j, k);
            if j == 0 {
                assert(s[pos] == text[0]);
            }
        },
    }
    if padding != Padding::Space {
        lemma_decimal_digits(n, 0);
        assert(s[pos] == text[0]);
    }
}

/// A number of a date written as `component` says (its day, numerical month,
/// ordinal, week number, or last two digits of its year), where the text
/// ends after it or goes on with something other than a digit, is read back
/// with the same modifiers as that number, and reading goes on after it.
pub proof fn law_number_read_back(d: Date, component: Component, s: Seq<char>, pos: int, p: Parsed)
    requires
        d.wf(),
        component is Day || component is Ordinal || component is WeekNumber || (
        component matches Component::Month(m) && m.repr == MonthRepr::Numerical) || (
        component matches Component::Year(m) && m.repr == YearRepr::LastTwo),
        matches_at(s, pos, component_text(d@.0, d@.1, component)->0),
        ({
            let end = pos + component_text(d@.0, d@.1, component)->0.len();
            end == s.len() || !is_digit(s[end])
        }),
    ensures
        ({
            let (y, o) = d@;
            let w = weekday_index(d.julian());
            let end = pos + component_text(y, o, component)->0.len();
            let read = read_component(s, pos, component, p);
            match component {
                Component::Day(_) => read == Some(
                    (Parsed { day: Some(day_of(y, o) as u8), ..p }, end),
                ),
                Component::Month(_) => read == Some(
                    (Parsed { month: Some(month_of(y, o) as u8), ..p }, end),
                ),
                Component::Ordinal(_) => read == Some((Parsed { ordinal: Some(o as u16), ..p }, end)),
                Component::WeekNumber(m) => read == Some(
                    (
                        match m.repr {
                            WeekNumberRepr::Iso => Parsed {
                                iso_week_number: Some(iso_year_week(y, o).1 as u8),
                                ..p
                            },
                            WeekNumberRepr::Sunday => Parsed {
                                sunday_week_number: Some(((o - (w + 1) % 7 + 6) / 7) as u8),
                                ..p
                            },
                            WeekNumberRepr::Monday => Parsed {
                                monday_week_number: Some(((o - w + 6) / 7) as u8),
                                ..p
                            },
                        },
                        end,
                    ),
                ),
                Component::Year(m) => {
                    let full = if m.iso_week_based { iso_year_week(y, o).0 } else { y };
                    read == Some(
                        (
                            if m.iso_week_based {
                                Parsed { iso_year_last_two: Some((abs(full) % 100) as u8), ..p }
                            } else {
                                Parsed { year_last_two: Some((abs(full) % 100) as u8), ..p }
                            },
                            end,
                        ),
                    )
                },
                _ => true,
            }
        }),
{
    let (y, o) = d@;
    let w = weekday_index(d.julian());
    lemma_floor_div_bounds(d.julian(), 7);
    lemma_calendar_date_of_ordinal(y, o);
    lemma_iso_week_number(y, o);
    law_iso_week_date_of_date(d);
    assert(pow10(2) == 100 && pow10(3) == 1000) by {
        reveal_with_fuel(pow10, 4);
    }
    match component {
        Component::Day(m) => {
            lemma_padded_read(s, pos, day_of(y, o) as nat, 2, m.padding);
        },
        Component::Month(m) => {
            lemma_padded_read(s, pos, month_of(y, o) as nat, 2, m.padding);
        },
        Component::Ordinal(m) => {
            lemma_padded_read(s, pos, o as nat, 3, m.padding);
        },
        Component::WeekNumber(m) => {
            let week = match m.repr {
                WeekNumberRepr::Iso => iso_year_week(y, o).1,
                WeekNumberRepr::Sunday => (o - (w + 1) % 7 + 6) / 7,
                WeekNumberRepr::Monday => (o - w + 6) / 7,
            };
            lemma_floor_div_bounds(w + 1, 7);
            lemma_floor_div_bounds(o - (w + 1) % 7 + 6, 7);
            lemma_floor_div_bounds(o - w + 6, 7);
            assert(0 <= week <= 53);
            lemma_padded_read(s, pos, week as nat, 2, m.padding);
        },
        Component::Year(m) => {
            let full = if m.iso_week_based { iso_year_week(y, o).0 } else { y };
            lemma_floor_div_bounds(abs(full) as int, 100);
            lemma_padded_read(s, pos, abs(full) % 100, 2, m.padding);
        },
        _ => {},
    }
}

/// The components of a date that the readers keep determine the date again:
/// its year and ordinal, its year, month and day, and its ISO year, ISO week
/// and weekday each make up the date, as `Date::try_from_parsed` builds it.
pub proof fn law_parsed_date_of_date(d: Date)
    requires
        d.wf(),
    ensures
        ({
            let (y, o) = d@;
            let (iso_year, iso_week) = iso_year_week(y, o);
            let weekday = Weekday::from_index(weekday_index(d.julian()));
            &&& parsed_date(Parsed { year: Some(y as i32), ordinal: Some(o as u16), ..Parsed::empty() })
                == Ok::<int, TryFromParsed>(d.julian())
            &&& parsed_date(
                Parsed {
                    year: Some(y as i32),
                    month: Some(month_of(y, o) as u8),
                    day: Some(day_of(y, o) as u8),
                    ..Parsed::empty()
                },
            ) == Ok::<int, TryFromParsed>(d.julian())
            &&& parsed_date(
                Parsed {
                    iso_year: Some(iso_year as i32),
                    iso_week_number: Some(iso_week as u8),
                    weekday: Some(weekday),
                    ..Parsed::empty()
                },
            ) == Ok::<int, TryFromParsed>(d.julian())
        }),
{
    let (y, o) = d@;
    lemma_calendar_date_of_ordinal(y, o);
    law_iso_week_date_of_date(d);
    law_julian_day_in_range(d);
    lemma_floor_div_bounds(d.julian(), 7);
    assert(Weekday::from_index(weekday_index(d.julian())).index() == weekday_index(d.julian()));
}

/// A full year of a date is written with a leading `-` exactly when it is
/// negative, and with a leading `+` exactly when it is not and the sign is
/// mandatory; read back with the same modifiers, where the text ends after
/// it or goes on with something other than a digit, it gives the year
/// again (the ISO year where the modifiers ask for it).
pub proof fn law_year_read_back(d: Date, modifier: Year, s: Seq<char>, pos: int, p: Parsed)
    requires
        d.wf(),
        modifier.repr == YearRepr::Full,
        matches_at(s, pos, year_text(d@.0, d@.1, modifier)),
        ({
            let end = pos + year_text(d@.0, d@.1, modifier).len();
            end == s.len() || !is_digit(s[end])
        }),
    ensures
        ({
            let full = if modifier.iso_week_based { iso_year_week(d@.0, d@.1).0 } else { d@.0 };
            let text = year_text(d@.0, d@.1, modifier);
            &&& text.len() > 0
            &&& text[0] == '-' <==> full < 0
            &&& text[0] == '+' <==> full >= 0 && modifier.sign_is_mandatory
            &&& read_component(s, pos, Component::Year(modifier), p) == Some(
                (
                    if modifier.iso_week_based {
                        Parsed { iso_year: Some(full as i32), ..p }
                    } else {
                        Parsed { year: Some(full as i32), ..p }
                    },
                    pos + text.len(),
                ),
            )
        }),
{
    law_iso_week_date_of_date(d);
    let full = if modifier.iso_week_based { iso_year_week(d@.0, d@.1).0 } else { d@.0 };
    let text = year_text(d@.0, d@.1, modifier);
    let digits = padded(abs(full), 4, modifier.padding);
    let sign: Seq<char> = if full < 0 {
        seq!['-']
    } else if modifier.sign_is_mandatory {
        seq!['+']
    } else {
        Seq::empty()
    };
    assert(text == sign + digits);
    let sl = sign.len() as int;
    assert(s.subrange(pos, pos + text.len()) == text);
    assert(s.subrange(pos + sl, pos + sl + digits.len()) =~= digits) by {
        assert forall|i: int| 0 <= i < digits.len() implies s.subrange(
            pos + sl,
            pos + sl + digits.len(),
        )[i] == digits[i] by {
            assert(s[pos + sl + i] == text[sl + i]);
        }
    }
    assert(pow10(4) == 10000) by {
        reveal_with_fuel(pow10, 5);
    }
    lemma_decimal_len(abs(full), 4);
    lemma_padded_read(s, pos + sl, abs(full), 4, modifier.padding);
    assert(text[0] == s[pos]);
    if sl == 0 {
        assert(s[pos] == ' ' || is_digit(s[pos]));
    }
    if sl == 1 {
        assert(text[0] == sign[0]);
    }
}

/// A modifier `key:value` applied to `component`, where it applies.
pub open spec fn then_modifier(component: Option<Component>, key: Seq<char>, value: Seq<char>) -> Option<
    Component,
> {
    match component {
        Some(c) => with_modifier(c, key, value),
        None => None,
    }
}

/// The component that a bracket names does not depend on the order of its
/// modifiers: two modifiers with different keys, applied in either order,
/// give the same component, or are refused either way.
pub proof fn law_modifier_order(
    component: Component,
    key1: Seq<char>,
    value1: Seq<char>,
    key2: Seq<char>,
    value2: Seq<char>,
)
    requires
        key1 != key2,
    ensures
        then_modifier(with_modifier(component, key1, value1), key2, value2) == then_modifier(
            with_modifier(component, key2, value2),
            key1,
            value1,
        ),
{
    lemma_modifier_keys_differ();
    if key1 == "padding"@ {
        lemma_modifier_order_padding(component, key2, value1, value2);
    } else if key1 == "repr"@ {
        lemma_modifier_order_repr(component, key2, value1, value2);
    } else if key1 == "one_indexed"@ {
        lemma_modifier_order_one_indexed(component, key2, value1, value2);
    } else if key1 == "base"@ {
        lemma_modifier_order_base(component, key2, value1, value2);
    } else if key1 == "sign"@ {
        lemma_modifier_order_sign(component, key2, value1, value2);
    } else if key1 == "case"@ {
        lemma_modifier_order_case(component, key2, value1, value2);
    } else if key1 == "digits"@ {
        lemma_modifier_order_digits(component, key2, value1, value2);
    }
}

/// Modifiers in either order, the first of them `padding`.
proof fn lemma_modifier_order_padding(
    component: Component,
    key2: Seq<char>,
    value1: Seq<char>,
    value2: Seq<char>,
)
    requires
        key2 != "padding"@,
    ensures
        then_modifier(with_modifier(component, "padding"@, value1), key2, value2) == then_modifier(
            with_modifier(component, key2, value2),
            "padding"@,
            value1,
        ),
{
    lemma_modifier_keys_differ();
    match component {
        Component::Day(_) => {},
        Component::Month(_) => {},
        Component::Ordinal(_) => {},
        Component::Weekday(_) => {},
        Component::WeekNumber(_) => {},
        Component::Year(_) => {},
        Component::Hour(_) => {},
        Component::Minute(_) => {},
        Component::Period(_) => {},
        Component::Second(_) => {},
        Component::Subsecond(_) => {},
        Component::OffsetHour(_) => {},
        Component::OffsetMinute(_) => {},
        Component::OffsetSecond(_) => {},
    }
}

/// Modifiers in either order, the first of them `repr`.
proof fn lemma_modifier_order_repr(
    component: Component,
    key2: Seq<char>,
    value1: Seq<char>,
    value2: Seq<char>,
)
    requires
        key2 != "repr"@,
    ensures
        then_modifier(with_modifier(component, "repr"@, value1), key2, value2) == then_modifier(
            with_modifier(component, key2, value2),
            "repr"@,
            value1,
        ),
{
    lemma_modifier_keys_differ();
    match component {
        Component::Day(_) => {},
        Component::Month(_) => {},
        Component::Ordinal(_) => {},
        Component::Weekday(_) => {},
        Component::WeekNumber(_) => {},
        Component::Year(_) => {},
        Component::Hour(_) => {},
        Component::Minute(_) => {},
        Component::Period(_) => {},
        Component::Second(_) => {},
        Component::Subsecond(_) => {},
        Component::OffsetHour(_) => {},
        Component::OffsetMinute(_) => {},
        Component::OffsetSecond(_) => {},
    }
}

/// Modifiers in either order, the first of them `one_indexed`.
proof fn lemma_modifier_order_one_indexed(
    component: Component,
    key2: Seq<char>,
    value1: Seq<char>,
    value2: Seq<char>,
)
    requires
        key2 != "one_indexed"@,
    ensures
        then_modifier(with_modifier(component, "one_indexed"@, value1), key2, value2) == then_modifier(
            with_modifier(component, key2, value2),
            "one_indexed"@,
            value1,
        ),
{
    lemma_modifier_keys_differ();
    match component {
        Component::Day(_) => {},
        Component::Month(_) => {},
        Component::Ordinal(_) => {},
        Component::Weekday(_) => {},
        Component::WeekNumber(_) => {},
        Component::Year(_) => {},
        Component::Hour(_) => {},
        Component::Minute(_) => {},
        Component::Period(_) => {},
        Component::Second(_) => {},
        Component::Subsecond(_) => {},
        Component::OffsetHour(_) => {},
        Component::OffsetMinute(_) => {},
        Component::OffsetSecond(_) => {},
    }
}

/// Modifiers in either order, the first of them `base`.
proof fn lemma_modifier_order_base(
    component: Component,
    key2: Seq<char>,
    value1: Seq<char>,
    value2: Seq<char>,
)
    requires
        key2 != "base"@,
    ensures
        then_modifier(with_modifier(component, "base"@, value1), key2, value2) == then_modifier(
            with_modifier(component, key2, value2),
            "base"@,
            value1,
        ),
{
    lemma_modifier_keys_differ();
    match component {
        Component::Day(_) => {},
        Component::Month(_) => {},
        Component::Ordinal(_) => {},
        Component::Weekday(_) => {},
        Component::WeekNumber(_) => {},
        Component::Year(_) => {},
        Component::Hour(_) => {},
        Component::Minute(_) => {},
        Component::Period(_) => {},
        Component::Second(_) => {},
        Component::Subsecond(_) => {},
        Component::OffsetHour(_) => {},
        Component::OffsetMinute(_) => {},
        Component::OffsetSecond(_) => {},
    }
}

/// Modifiers in either order, the first of them `sign`.
proof fn lemma_modifier_order_sign(
    component: Component,
    key2: Seq<char>,
    value1: Seq<char>,
    value2: Seq<char>,
)
    requires
        key2 != "sign"@,
    ensures
        then_modifier(with_modifier(component, "sign"@, value1), key2, value2) == then_modifier(
            with_modifier(component, key2, value2),
            "sign"@,
            value1,
        ),
{
    lemma_modifier_keys_differ();
    match component {
        Component::Day(_) => {},
        Component::Month(_) => {},
        Component::Ordinal(_) => {},
        Component::Weekday(_) => {},
        Component::WeekNumber(_) => {},
        Component::Year(_) => {},
        Component::Hour(_) => {},
        Component::Minute(_) => {},
        Component::Period(_) => {},
        Component::Second(_) => {},
        Component::Subsecond(_) => {},
        Component::OffsetHour(_) => {},
        Component::OffsetMinute(_) => {},
        Component::OffsetSecond(_) => {},
    }
}

/// Modifiers in either order, the first of them `case`.
proof fn lemma_modifier_order_case(
    component: Component,
    key2: Seq<char>,
    value1: Seq<char>,
    value2: Seq<char>,
)
    requires
        key2 != "case"@,
    ensures
        then_modifier(with_modifier(component, "case"@, value1), key2, value2) == then_modifier(
            with_modifier(component, key2, value2),
            "case"@,
            value1,
        ),
{
    lemma_modifier_keys_differ();
    match component {
        Component::Day(_) => {},
        Component::Month(_) => {},
        Component::Ordinal(_) => {},
        Component::Weekday(_) => {},
        Component::WeekNumber(_) => {},
        Component::Year(_) => {},
        Component::Hour(_) => {},
        Component::Minute(_) => {},
        Component::Period(_) => {},
        Component::Second(_) => {},
        Component::Subsecond(_) => {},
        Component::OffsetHour(_) => {},
        Component::OffsetMinute(_) => {},
        Component::OffsetSecond(_) => {},
    }
}

/// Modifiers in either order, the first of them `digits`.
proof fn lemma_modifier_order_digits(
    component: Component,
    key2: Seq<char>,
    value1: Seq<char>,
    value2: Seq<char>,
)
    requires
        key2 != "digits"@,
    ensures
        then_modifier(with_modifier(component, "digits"@, value1), key2, value2) == then_modifier(
            with_modifier(component, key2, value2),
            "digits"@,
            value1,
        ),
{
    lemma_modifier_keys_differ();
    match component {
        Component::Day(_) => {},
        Component::Month(_) => {},
        Component::Ordinal(_) => {},
        Component::Weekday(_) => {},
        Component::WeekNumber(_) => {},
        Component::Year(_) => {},
        Component::Hour(_) => {},
        Component::Minute(_) => {},
        Component::Period(_) => {},
        Component::Second(_) => {},
        Component::Subsecond(_) => {},
        Component::OffsetHour(_) => {},
        Component::OffsetMinute(_) => {},
        Component::OffsetSecond(_) => {},
    }
}

/// The keys of the modifiers are different words.
proof fn lemma_modifier_keys_differ()
    ensures
        "padding"@ != "repr"@,
        "padding"@ != "one_indexed"@,
        "padding"@ != "base"@,
        "padding"@ != "sign"@,
        "padding"@ != "case"@,
        "padding"@ != "digits"@,
        "repr"@ != "one_indexed"@,
        "repr"@ != "base"@,
        "repr"@ != "sign"@,
        "repr"@ != "case"@,
        "repr"@ != "digits"@,
        "one_indexed"@ != "base"@,
        "one_indexed"@ != "sign"@,
        "one_indexed"@ != "case"@,
        "one_indexed"@ != "digits"@,
        "base"@ != "sign"@,
        "base"@ != "case"@,
        "base"@ != "digits"@,
        "sign"@ != "case"@,
        "sign"@ != "digits"@,
        "case"@ != "digits"@,
{
    reveal_strlit("padding");
    reveal_strlit("repr");
    reveal_strlit("one_indexed");
    reveal_strlit("base");
    reveal_strlit("sign");
    reveal_strlit("case");
    reveal_strlit("digits");
    assert("padding"@[0] != "one_indexed"@[0]);
    assert("padding"@[0] != "digits"@[0]);
    assert("repr"@[0] != "base"@[0]);
    assert("repr"@[0] != "sign"@[0]);
    assert("repr"@[0] != "case"@[0]);
    assert("base"@[0] != "sign"@[0]);
    assert("base"@[0] != "case"@[0]);
    assert("sign"@[0] != "case"@[0]);
}

} // verus!
