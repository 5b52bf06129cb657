//! Laws that tie the operations on dates together.
use crate::calendar::{
    day_of, days_before_month, is_leap, iso_week_start, iso_weeks, iso_year_week, julian_day,
    lemma_calendar_date_of_ordinal, lemma_days_before_month_values, lemma_floor_div_bounds,
    lemma_floor_div_unique,
    lemma_iso_week_number, lemma_iso_week_start_increasing, lemma_iso_week_start_monday,
    lemma_julian_day_injective, lemma_julian_day_next_year, lemma_julian_day_strictly_increasing,
    lemma_julian_day_years_ordered, lemma_ordinal_of_calendar_date, month_len, month_of, next_ordinal_date, previous_ordinal_date, trunc_div,
    valid_calendar_date, valid_ordinal, weekday_index, year_len,
};
use crate::date::{max_julian_day, min_julian_day, Date, MAX_YEAR, MIN_YEAR};
use crate::error::{ParseFromDescription, TryFromParsed};
use crate::error::InvalidFormatDescription;
use crate::format_description::{
    bracketed_component, description_from, find_char, items_view, word_end, Component, FormatItem,
    ItemView,
};
use crate::formatting::{
    abs, date_text, decimal, default_year, digit_char, items_text, padded, repeat, year_text,
};
use crate::modifier::{Day, Month, MonthRepr, Padding};
use crate::parsing::{
    digit_run, digit_value, digits_value, is_digit, ordinal_date_julian, parsed_date, pow10,
    read_items, read_padded, read_sign, week_adjustment, Parsed,
};
use crate::weekday::Weekday;
use vstd::prelude::*;

verus! {

/// A date is determined by its Julian day, so `Date::from_julian_day` gives
/// back the date whose `Date::to_julian_day` it is handed.
pub proof fn law_julian_day_determines_date(a: Date, b: Date)
    requires
        a.wf(),
        b.wf(),
        a.julian() == b.julian(),
    ensures
        a == b,
{
    lemma_julian_day_injective(a@.0, a@.1, b@.0, b@.1);
    a.lemma_view_injective(b);
}

/// The Julian day of every date lies in the range that
/// `Date::from_julian_day` accepts.
pub proof fn law_julian_day_in_range(d: Date)
    requires
        d.wf(),
    ensures
        min_julian_day() <= d.julian() <= max_julian_day(),
{
    if d@.0 > MIN_YEAR {
        lemma_julian_day_years_ordered(MIN_YEAR as int, 1, d@.0);
    }
    if d@.0 < MAX_YEAR {
        lemma_julian_day_years_ordered(d@.0, d@.1, MAX_YEAR as int);
    }
}

/// The month and day of a date name a day of the calendar, and that day is
/// the date: `Date::from_calendar_date` undoes `Date::to_calendar_date`.
pub proof fn law_calendar_date_of_date(d: Date)
    requires
        d.wf(),
    ensures
        valid_calendar_date(d@.0, month_of(d@.0, d@.1), day_of(d@.0, d@.1)),
        days_before_month(d@.0, month_of(d@.0, d@.1)) + day_of(d@.0, d@.1) == d@.1,
{
    lemma_calendar_date_of_ordinal(d@.0, d@.1);
}

/// The year, week number and weekday of a date name the date again, with
/// weeks that begin on Sunday and with weeks that begin on Monday: what
/// `Date::sunday_based_week`, `Date::monday_based_week` and `Date::weekday`
/// give, read back by `Date::try_from_parsed`, is the date.
pub proof fn law_week_number_of_date(d: Date)
    requires
        d.wf(),
    ensures
        ({
            let w = weekday_index(d.julian());
            let sunday_week = (d@.1 - (w + 1) % 7 + 6) / 7;
            let monday_week = (d@.1 - w + 6) / 7;
            let base = Parsed {
                year: Some(d@.0 as i32),
                weekday: Some(Weekday::from_index(w)),
                ..Parsed::empty()
            };
            &&& parsed_date(Parsed { sunday_week_number: Some(sunday_week as u8), ..base })
                == Ok::<int, TryFromParsed>(d.julian())
            &&& parsed_date(Parsed { monday_week_number: Some(monday_week as u8), ..base })
                == Ok::<int, TryFromParsed>(d.julian())
        }),
{
    let (y, o) = d@;
    let jd = d.julian();
    let j1 = julian_day(y, 1);
    let w = weekday_index(jd);
    lemma_floor_div_bounds(jd, 7);
    assert(jd == j1 + o - 1);
    lemma_floor_div_unique(w + 7, 7, 1);
    lemma_week_count(o, jd, j1, 6);
    lemma_week_count(o, jd, j1, 0);
    lemma_parsed_week_number(y, (o - (w + 1) % 7 + 6) / 7, w, true);
    lemma_parsed_week_number(y, (o - w + 6) / 7, w, false);
}

/// The date that a year, a week number and a weekday make up is the day of
/// the year that they count to.
proof fn lemma_parsed_week_number(y: int, week: int, w: int, sunday_based: bool)
    requires
        MIN_YEAR <= y <= MAX_YEAR,
        0 <= week <= 53,
        0 <= w < 7,
    ensures
        ({
            let base = Parsed {
                year: Some(y as i32),
                weekday: Some(Weekday::from_index(w)),
                ..Parsed::empty()
            };
            if sunday_based {
                parsed_date(Parsed { sunday_week_number: Some(week as u8), ..base })
                    == ordinal_date_julian(
                    y,
                    ((7 * week + (w + 1) % 7 - week_adjustment(y, 6) + 1) as u16) as int,
                )
            } else {
                parsed_date(Parsed { monday_week_number: Some(week as u8), ..base })
                    == ordinal_date_julian(
                    y,
                    ((7 * week + w - week_adjustment(y, 0) + 1) as u16) as int,
                )
            }
        }),
{
    assert(Weekday::from_index(w).index() == w);
}

/// Counting the days of a year in weeks that begin on the weekday `first`
/// days after Monday: the `o`-th day lies in week `(o - day + 6) / 7`, where
/// `day` counts from that weekday, and the week and day give `o` back.
proof fn lemma_week_count(o: int, jd: int, j1: int, first: int)
    requires
        1 <= o <= 366,
        jd == j1 + o - 1,
        first == 0 || first == 6,
    ensures
        ({
            let day = (weekday_index(jd) - first + 7) % 7;
            let week = (o - day + 6) / 7;
            let year_start = (weekday_index(j1) - first + 7) % 7;
            let adjustment = if year_start == 0 { 7 } else { year_start };
            &&& 0 <= week <= 53
            &&& 7 * week + day - adjustment + 1 == o
        }),
{
    let w = weekday_index(jd);
    let w1 = weekday_index(j1);
    lemma_floor_div_bounds(jd, 7);
    lemma_floor_div_bounds(j1, 7);
    let day = (w - first + 7) % 7;
    let year_start = (w1 - first + 7) % 7;
    lemma_floor_div_bounds(w - first + 7, 7);
    lemma_floor_div_bounds(w1 - first + 7, 7);
    let n = o - day + 6;
    let k = (jd / 7 - j1 / 7) + (w - first + 7) / 7 - (w1 - first + 7) / 7 + 1;
    assert(n + year_start == 7 * k);
    if year_start == 0 {
        lemma_floor_div_unique(n, 7, k);
    } else {
        lemma_floor_div_unique(n, 7, k - 1);
    }
}

/// Dates are ordered by year, then by day of the year, exactly as their
/// Julian days are.
pub proof fn law_chronological_order(a: Date, b: Date)
    requires
        a.wf(),
        b.wf(),
    ensures
        (a@.0 < b@.0 || (a@.0 == b@.0 && a@.1 < b@.1)) <==> a.julian() < b.julian(),
{
    if a@.0 < b@.0 || (a@.0 == b@.0 && a@.1 < b@.1) {
        lemma_julian_day_strictly_increasing(a@.0, a@.1, b@.0, b@.1);
    } else if b@.0 < a@.0 || (a@.0 == b@.0 && b@.1 < a@.1) {
        lemma_julian_day_strictly_increasing(b@.0, b@.1, a@.0, a@.1);
    }
}

/// The day that `Date::next_day` gives is one Julian day later, falls on the
/// next weekday, and `Date::previous_day` leads back from it.
pub proof fn law_next_day(d: Date)
    requires
        d.wf(),
        d@ != (MAX_YEAR as int, year_len(MAX_YEAR as int)),
    ensures
        ({
            let n = next_ordinal_date(d@.0, d@.1);
            &&& MIN_YEAR <= n.0 <= MAX_YEAR
            &&& valid_ordinal(n.0, n.1)
            &&& julian_day(n.0, n.1) == d.julian() + 1
            &&& weekday_index(julian_day(n.0, n.1)) == (weekday_index(d.julian()) + 1) % 7
            &&& previous_ordinal_date(n.0, n.1) == d@
        }),
{
    lemma_julian_day_next_year(d@.0);
    lemma_floor_div_bounds(d.julian(), 7);
    lemma_floor_div_bounds(weekday_index(d.julian()) + 1, 7);
    lemma_floor_div_unique(
        d.julian() + 1,
        7,
        d.julian() / 7 + (weekday_index(d.julian()) + 1) / 7,
    );
}

/// The day that `Date::previous_day` gives is one Julian day earlier, falls
/// on the previous weekday, and `Date::next_day` leads back from it.
pub proof fn law_previous_day(d: Date)
    requires
        d.wf(),
        d@ != (MIN_YEAR as int, 1int),
    ensures
        ({
            let p = previous_ordinal_date(d@.0, d@.1);
            &&& MIN_YEAR <= p.0 <= MAX_YEAR
            &&& valid_ordinal(p.0, p.1)
            &&& julian_day(p.0, p.1) == d.julian() - 1
            &&& weekday_index(julian_day(p.0, p.1)) == (weekday_index(d.julian()) + 6) % 7
            &&& next_ordinal_date(p.0, p.1) == d@
        }),
{
    lemma_julian_day_next_year(d@.0 - 1);
    lemma_floor_div_bounds(d.julian(), 7);
    lemma_floor_div_bounds(weekday_index(d.julian()) + 6, 7);
    lemma_floor_div_unique(
        d.julian() - 1,
        7,
        d.julian() / 7 - 1 + (weekday_index(d.julian()) + 6) / 7,
    );
}

/// The ISO year and week of a date, with its weekday, name the date again:
/// `Date::from_iso_week_date` undoes `Date::to_iso_week_date`.
pub proof fn law_iso_week_date_of_date(d: Date)
    requires
        d.wf(),
    ensures
        ({
            let (year, week) = iso_year_week(d@.0, d@.1);
            &&& MIN_YEAR <= year <= MAX_YEAR
            &&& 1 <= week <= iso_weeks(year)
            &&& iso_week_start(year) + 7 * (week - 1) + weekday_index(d.julian()) == d.julian()
        }),
{
    let (year, week) = iso_year_week(d@.0, d@.1);
    lemma_iso_week_number(d@.0, d@.1);
    lemma_iso_week_start_monday(year);
    let start = iso_week_start(year);
    lemma_floor_div_bounds(d.julian() - start, 7);
    lemma_floor_div_bounds(start, 7);
    lemma_floor_div_bounds(d.julian(), 7);
    lemma_floor_div_unique(d.julian(), 7, start / 7 + (d.julian() - start) / 7);
}

/// The date of an ISO week date has that ISO year, week and weekday:
/// `Date::to_iso_week_date` undoes `Date::from_iso_week_date`.
pub proof fn law_date_of_iso_week_date(year: int, week: int, weekday: Weekday, d: Date)
    requires
        d.wf(),
        1 <= week <= iso_weeks(year),
        d.julian() == iso_week_start(year) + 7 * (week - 1) + weekday.index(),
    ensures
        iso_year_week(d@.0, d@.1) == (year, week),
        Weekday::from_index(weekday_index(d.julian())) == weekday,
{
    law_iso_week_date_of_date(d);
    let (y, w) = iso_year_week(d@.0, d@.1);
    lemma_iso_week_start_monday(year);
    let start = iso_week_start(year);
    lemma_floor_div_bounds(start, 7);
    lemma_floor_div_unique(d.julian(), 7, start / 7 + week - 1);
    if y < year {
        lemma_iso_week_start_increasing(y, year);
    } else if year < y {
        lemma_iso_week_start_increasing(year, y);
    }
    weekday.lemma_from_index();
}

/// The days from one date to another, as `Date::sub_date` measures them, are
/// what `Date::add_duration` moves the first date by to reach the second.
pub proof fn law_add_duration_undoes_sub_date(d: Date, e: Date)
    requires
        d.wf(),
        e.wf(),
    ensures
        ({
            let days = e.julian() - d.julian();
            &&& i64::MIN <= days * 86_400 <= i64::MAX
            &&& trunc_div(days * 86_400, 86_400) == days
            &&& min_julian_day() <= d.julian() + days <= max_julian_day()
        }),
{
    law_julian_day_in_range(d);
    law_julian_day_in_range(e);
    let days = e.julian() - d.julian();
    if days >= 0 {
        lemma_floor_div_unique(days * 86_400, 86_400, days);
    } else {
        lemma_floor_div_unique(-days * 86_400, 86_400, -days);
    }
}

/// The next weekday of the previous one, and the previous of the next, is the
/// day itself.
pub proof fn law_weekday_cycle(w: Weekday)
    ensures
        Weekday::from_index((Weekday::from_index((w.index() + 1) % 7).index() + 6) % 7) == w,
        Weekday::from_index((Weekday::from_index((w.index() + 6) % 7).index() + 1) % 7) == w,
{
}

/// A year has 366 days exactly when it is a leap year, and its months hold
/// all its days.
pub proof fn law_year_length(year: int)
    ensures
        year_len(year) == 366 <==> is_leap(year),
        days_before_month(year, 13) == year_len(year),
{
    lemma_days_before_month_values(year);
}

// ---------------------------------------------------------------------------
// Text written and read back
// ---------------------------------------------------------------------------

/// The pieces of the description `[year]-[month]-[day]`, every modifier left
/// at its default.
pub open spec fn calendar_date_items() -> Seq<ItemView> {
    seq![
        ItemView::Component(Component::Year(default_year())),
        ItemView::Literal(seq!['-']),
        ItemView::Component(
            Component::Month(Month { padding: Padding::Zero, repr: MonthRepr::Numerical }),
        ),
        ItemView::Literal(seq!['-']),
        ItemView::Component(Component::Day(Day { padding: Padding::Zero })),
    ]
}

/// The description `[year]-[month]-[day]` is read as the pieces of
/// `calendar_date_items`: `FormatDescription::parse` of that text gives the
/// description that the text laws above speak of.
pub proof fn law_calendar_description()
    ensures
        description_from("[year]-[month]-[day]"@, 0) == Ok::<
            Seq<ItemView>,
            InvalidFormatDescription,
        >(calendar_date_items()),
{
    reveal_strlit("[year]-[month]-[day]");
    reveal_strlit("year");
    reveal_strlit("month");
    reveal_strlit("day");
    reveal_strlit("hour");
    reveal_strlit("minute");
    reveal_strlit("offset_hour");
    reveal_strlit("offset_minute");
    reveal_strlit("offset_second");
    reveal_strlit("ordinal");
    reveal_strlit("period");
    reveal_strlit("second");
    reveal_strlit("subsecond");
    reveal_strlit("weekday");
    reveal_strlit("week_number");
    let s = "[year]-[month]-[day]"@;
    assert(s.len() == 20);
    // The closing brackets, and the ends of the names before them.
    assert(find_char(s, 5, 20, ']') == 5);
    assert(find_char(s, 4, 20, ']') == 5);
    assert(find_char(s, 3, 20, ']') == 5);
    assert(find_char(s, 2, 20, ']') == 5);
    assert(find_char(s, 1, 20, ']') == 5);
    assert(word_end(s, 5, 5) == 5);
    assert(word_end(s, 4, 5) == 5);
    assert(word_end(s, 3, 5) == 5);
    assert(word_end(s, 2, 5) == 5);
    assert(word_end(s, 1, 5) == 5);
    assert(find_char(s, 13, 20, ']') == 13);
    assert(find_char(s, 12, 20, ']') == 13);
    assert(find_char(s, 11, 20, ']') == 13);
    assert(find_char(s, 10, 20, ']') == 13);
    assert(find_char(s, 9, 20, ']') == 13);
    assert(find_char(s, 8, 20, ']') == 13);
    assert(word_end(s, 13, 13) == 13);
    assert(word_end(s, 12, 13) == 13);
    assert(word_end(s, 11, 13) == 13);
    assert(word_end(s, 10, 13) == 13);
    assert(word_end(s, 9, 13) == 13);
    assert(word_end(s, 8, 13) == 13);
    assert(find_char(s, 19, 20, ']') == 19);
    assert(find_char(s, 18, 20, ']') == 19);
    assert(find_char(s, 17, 20, ']') == 19);
    assert(find_char(s, 16, 20, ']') == 19);
    assert(word_end(s, 19, 19) == 19);
    assert(word_end(s, 18, 19) == 19);
    assert(word_end(s, 17, 19) == 19);
    assert(word_end(s, 16, 19) == 19);
    // The literals, each ended by the next `[`.
    assert(find_char(s, 7, 20, '[') == 7);
    assert(find_char(s, 6, 20, '[') == 7);
    assert(find_char(s, 15, 20, '[') == 15);
    assert(find_char(s, 14, 20, '[') == 15);
    // The names.
    assert(s.subrange(1, 5) =~= "year"@);
    assert("year"@[0] != "hour"@[0]);
    assert(s.subrange(8, 13) =~= "month"@);
    assert(s.subrange(16, 19) =~= "day"@);
    assert(s.subrange(6, 7) =~= seq!['-']);
    assert(s.subrange(14, 15) =~= seq!['-']);
    assert(bracketed_component(s, 0, 5) == Ok::<Component, InvalidFormatDescription>(
        Component::Year(default_year()),
    ));
    assert(bracketed_component(s, 7, 13) == Ok::<Component, InvalidFormatDescription>(
        Component::Month(Month { padding: Padding::Zero, repr: MonthRepr::Numerical }),
    ));
    assert(bracketed_component(s, 15, 19) == Ok::<Component, InvalidFormatDescription>(
        Component::Day(Day { padding: Padding::Zero }),
    ));
    // The pieces, from the last to the first.
    let day = seq![ItemView::Component(Component::Day(Day { padding: Padding::Zero }))];
    assert(description_from(s, 20) == Ok::<Seq<ItemView>, InvalidFormatDescription>(Seq::empty()));
    assert(description_from(s, 15) == Ok::<Seq<ItemView>, InvalidFormatDescription>(
        day + Seq::empty(),
    ));
    let month = seq![
        ItemView::Component(
            Component::Month(Month { padding: Padding::Zero, repr: MonthRepr::Numerical }),
        ),
    ];
    assert(description_from(s, 14) == Ok::<Seq<ItemView>, InvalidFormatDescription>(
        seq![ItemView::Literal(seq!['-'])] + (day + Seq::empty()),
    ));
    assert(description_from(s, 7) == Ok::<Seq<ItemView>, InvalidFormatDescription>(
        month + (seq![ItemView::Literal(seq!['-'])] + (day + Seq::empty())),
    ));
    assert(description_from(s, 6) == Ok::<Seq<ItemView>, InvalidFormatDescription>(
        seq![ItemView::Literal(seq!['-'])] + (month + (seq![ItemView::Literal(seq!['-'])] + (
        day + Seq::empty()))),
    ));
    assert(description_from(s, 0) == Ok::<Seq<ItemView>, InvalidFormatDescription>(
        seq![ItemView::Component(Component::Year(default_year()))] + (seq![
            ItemView::Literal(seq!['-']),
        ] + (month + (seq![ItemView::Literal(seq!['-'])] + (day + Seq::empty())))),
    ));
    assert(seq![ItemView::Component(Component::Year(default_year()))] + (seq![
        ItemView::Literal(seq!['-']),
    ] + (month + (seq![ItemView::Literal(seq!['-'])] + (day + Seq::empty()))))
        =~= calendar_date_items());
}

/// What `Date::to_string` writes is what `Date::format` writes with the
/// description `[year]-[month]-[day]`, and `Date::parse` reads it back, with
/// that description, as the same date.
pub proof fn law_text_round_trip(d: Date, items: Seq<FormatItem>)
    requires
        d.wf(),
        items_view(items) == calendar_date_items(),
    ensures
        items_text(d@.0, d@.1, items) == (date_text(d@.0, d@.1), true),
        ({
            let text = date_text(d@.0, d@.1);
            read_items(text, items) matches Ok((p, pos)) && pos == text.len() && parsed_date(p)
                == Ok::<int, TryFromParsed>(d.julian())
        }),
{
    lemma_calendar_items(items);
    lemma_calendar_text_written(d@.0, d@.1, items);
    lemma_calendar_text_read(d@.0, d@.1, items);
}

/// The pieces of `[year]-[month]-[day]`, one by one.
proof fn lemma_calendar_items(items: Seq<FormatItem>)
    requires
        items_view(items) == calendar_date_items(),
    ensures
        items.len() == 5,
        items[0] == FormatItem::Component(Component::Year(default_year())),
        items[1] matches FormatItem::Literal(l) && l@ == seq!['-'],
        items[2] == FormatItem::Component(
            Component::Month(Month { padding: Padding::Zero, repr: MonthRepr::Numerical }),
        ),
        items[3] matches FormatItem::Literal(l) && l@ == seq!['-'],
        items[4] == FormatItem::Component(Component::Day(Day { padding: Padding::Zero })),
        items.take(0).len() == 0,
        items.take(1).drop_last() == items.take(0) && items.take(1).last() == items[0],
        items.take(2).drop_last() == items.take(1) && items.take(2).last() == items[1],
        items.take(3).drop_last() == items.take(2) && items.take(3).last() == items[2],
        items.take(4).drop_last() == items.take(3) && items.take(4).last() == items[3],
        items.take(5).drop_last() == items.take(4) && items.take(5).last() == items[4],
        items.take(5) == items,
{
    assert(items_view(items).len() == items.len());
    assert(calendar_date_items().len() == 5);
    assert forall|k: int| 0 <= k < 5 implies #[trigger] items[k]@ == calendar_date_items()[k] by {
        assert(items_view(items)[k] == items[k]@);
    }
    assert(items[0]@ == calendar_date_items()[0]);
    assert(items[1]@ == calendar_date_items()[1]);
    assert(items[2]@ == calendar_date_items()[2]);
    assert(items[3]@ == calendar_date_items()[3]);
    assert(items[4]@ == calendar_date_items()[4]);
    assert(items.take(1).drop_last() =~= items.take(0));
    assert(items.take(2).drop_last() =~= items.take(1));
    assert(items.take(3).drop_last() =~= items.take(2));
    assert(items.take(4).drop_last() =~= items.take(3));
    assert(items.take(5).drop_last() =~= items.take(4));
    assert(items.take(5) =~= items);
}

/// The text of a date, piece by piece: its sign, the four digits of its year,
/// and the two digits of its month and of its day.
proof fn lemma_date_text_pieces(y: int, o: int)
    requires
        MIN_YEAR <= y <= MAX_YEAR,
        valid_ordinal(y, o),
    ensures
        ({
            let sign: Seq<char> = if y < 0 { seq!['-'] } else { Seq::empty() };
            let year_digits = padded(abs(y), 4, Padding::Zero);
            let month_digits = padded(month_of(y, o) as nat, 2, Padding::Zero);
            let day_digits = padded(day_of(y, o) as nat, 2, Padding::Zero);
            &&& year_text(y, o, default_year()) == sign + year_digits
            &&& date_text(y, o) == sign + year_digits + seq!['-'] + month_digits + seq!['-']
                + day_digits
            &&& year_digits.len() == 4 && month_digits.len() == 2 && day_digits.len() == 2
            &&& decimal(abs(y)).len() <= 4
            &&& decimal(month_of(y, o) as nat).len() <= 2
            &&& decimal(day_of(y, o) as nat).len() <= 2
            &&& valid_calendar_date(y, month_of(y, o), day_of(y, o))
            &&& days_before_month(y, month_of(y, o)) + day_of(y, o) == o
        }),
{
    lemma_calendar_date_of_ordinal(y, o);
    assert(pow10(4) == 10000 && pow10(2) == 100) by {
        reveal_with_fuel(pow10, 5);
    }
    lemma_decimal_len(abs(y), 4);
    lemma_decimal_len(month_of(y, o) as nat, 2);
    lemma_decimal_len(day_of(y, o) as nat, 2);
}

/// Writing a date with `[year]-[month]-[day]` gives the text of `to_string`.
proof fn lemma_calendar_text_written(y: int, o: int, items: Seq<FormatItem>)
    requires
        MIN_YEAR <= y <= MAX_YEAR,
        valid_ordinal(y, o),
        items_view(items) == calendar_date_items(),
    ensures
        items_text(y, o, items) == (date_text(y, o), true),
{
    lemma_calendar_items(items);
    lemma_date_text_pieces(y, o);
    let sign: Seq<char> = if y < 0 { seq!['-'] } else { Seq::empty() };
    let year_digits = padded(abs(y), 4, Padding::Zero);
    let month_digits = padded(month_of(y, o) as nat, 2, Padding::Zero);
    let day_digits = padded(day_of(y, o) as nat, 2, Padding::Zero);
    assert(items_text(y, o, items.take(0)) == (Seq::<char>::empty(), true));
    assert(Seq::<char>::empty() + (sign + year_digits) =~= sign + year_digits);
    assert(items_text(y, o, items.take(1)) == (sign + year_digits, true));
    assert(items_text(y, o, items.take(2)) == (sign + year_digits + seq!['-'], true));
    assert(items_text(y, o, items.take(3)) == (sign + year_digits + seq!['-'] + month_digits, true));
    assert(items_text(y, o, items.take(4)) == (
        sign + year_digits + seq!['-'] + month_digits + seq!['-'],
        true,
    ));
    assert(items_text(y, o, items.take(5)) == (date_text(y, o), true));
}

/// Reading the text of a date with `[year]-[month]-[day]` gives back its
/// year, month and day, and so the date.
proof fn lemma_calendar_text_read(y: int, o: int, items: Seq<FormatItem>)
    requires
        MIN_YEAR <= y <= MAX_YEAR,
        valid_ordinal(y, o),
        items_view(items) == calendar_date_items(),
    ensures
        ({
            let text = date_text(y, o);
            read_items(text, items) matches Ok((p, pos)) && pos == text.len() && parsed_date(p)
                == Ok::<int, TryFromParsed>(julian_day(y, o))
        }),
{
    lemma_calendar_items(items);
    lemma_date_text_pieces(y, o);
    let m = month_of(y, o);
    let day = day_of(y, o);
    let sign: Seq<char> = if y < 0 { seq!['-'] } else { Seq::empty() };
    let year_digits = padded(abs(y), 4, Padding::Zero);
    let month_digits = padded(m as nat, 2, Padding::Zero);
    let day_digits = padded(day as nat, 2, Padding::Zero);
    let text = date_text(y, o);
    let sl = sign.len() as int;
    assert(text.len() == sl + 10);
    assert(text.subrange(sl, sl + 4) =~= year_digits);
    assert(text.subrange(sl + 4, sl + 5) =~= seq!['-']);
    assert(text.subrange(sl + 5, sl + 7) =~= month_digits);
    assert(text.subrange(sl + 7, sl + 8) =~= seq!['-']);
    assert(text.subrange(sl + 8, sl + 10) =~= day_digits);
    lemma_read_zero_padded(text, sl, abs(y), 4);
    lemma_read_zero_padded(text, sl + 5, m as nat, 2);
    lemma_read_zero_padded(text, sl + 8, day as nat, 2);
    if y < 0 {
        assert(text[0] == '-');
    } else {
        assert(text[0] == text.subrange(sl, sl + 4)[0]);
    }
    assert(read_sign(text, 0) == (y < 0, y < 0, sl));
    lemma_calendar_items_read(text, items, y, m, day, sl);
    lemma_parsed_calendar_date(y, o);
}

/// Reading `[year]-[month]-[day]` from a text that holds a year, `-`, a month,
/// `-` and a day, each where it is expected.
proof fn lemma_calendar_items_read(
    text: Seq<char>,
    items: Seq<FormatItem>,
    y: int,
    m: int,
    day: int,
    sl: int,
)
    requires
        items_view(items) == calendar_date_items(),
        MIN_YEAR <= y <= MAX_YEAR,
        1 <= m <= 12,
        1 <= day <= 31,
        sl == if y < 0 { 1int } else { 0 },
        text.len() == sl + 10,
        read_sign(text, 0) == (y < 0, y < 0, sl),
        read_padded(text, sl, 4, Padding::Zero) == Some((abs(y) as int, sl + 4)),
        text.subrange(sl + 4, sl + 5) == seq!['-'],
        read_padded(text, sl + 5, 2, Padding::Zero) == Some((m, sl + 7)),
        text.subrange(sl + 7, sl + 8) == seq!['-'],
        read_padded(text, sl + 8, 2, Padding::Zero) == Some((day, sl + 10)),
    ensures
        read_items(text, items) == Ok::<(Parsed, int), ParseFromDescription>(
            (
                Parsed {
                    year: Some(y as i32),
                    month: Some(m as u8),
                    day: Some(day as u8),
                    ..Parsed::empty()
                },
                sl + 10,
            ),
        ),
{
    lemma_calendar_items(items);
    assert(read_items(text, items.take(0)) == Ok::<(Parsed, int), ParseFromDescription>(
        (Parsed::empty(), 0),
    ));
    let p1 = Parsed { year: Some(y as i32), ..Parsed::empty() };
    assert(read_items(text, items.take(1)) == Ok::<(Parsed, int), ParseFromDescription>(
        (p1, sl + 4),
    ));
    assert(read_items(text, items.take(2)) == Ok::<(Parsed, int), ParseFromDescription>(
        (p1, sl + 5),
    ));
    let p2 = Parsed { month: Some(m as u8), ..p1 };
    assert(read_items(text, items.take(3)) == Ok::<(Parsed, int), ParseFromDescription>(
        (p2, sl + 7),
    ));
    assert(read_items(text, items.take(4)) == Ok::<(Parsed, int), ParseFromDescription>(
        (p2, sl + 8),
    ));
    let p3 = Parsed { day: Some(day as u8), ..p2 };
    assert(read_items(text, items.take(5)) == Ok::<(Parsed, int), ParseFromDescription>(
        (p3, sl + 10),
    ));
}

/// The year, month and day of a date, read, make up the date.
proof fn lemma_parsed_calendar_date(y: int, o: int)
    requires
        MIN_YEAR <= y <= MAX_YEAR,
        valid_ordinal(y, o),
    ensures
        parsed_date(
            Parsed {
                year: Some(y as i32),
                month: Some(month_of(y, o) as u8),
                day: Some(day_of(y, o) as u8),
                ..Parsed::empty()
            },
        ) == Ok::<int, TryFromParsed>(julian_day(y, o)),
{
    lemma_calendar_date_of_ordinal(y, o);
}

/// Whether `s` is a date written as `YYYY-MM-DD`: four digits, `-`, two
/// digits, `-` and two digits.
pub open spec fn canonical_date_text(s: Seq<char>) -> bool {
    &&& s.len() == 10
    &&& forall|i: int| (0 <= i < 4 || 5 <= i < 7 || 8 <= i < 10) ==> is_digit(#[trigger] s[i])
    &&& s[4] == '-'
    &&& s[7] == '-'
}

/// Formatting the date that `Date::parse` reads from a text `YYYY-MM-DD`
/// with `[year]-[month]-[day]` gives that text back, both with `Date::format`
/// and that description and with `Date::to_string`.
pub proof fn law_parsed_text_round_trip(s: Seq<char>, items: Seq<FormatItem>, d: Date)
    requires
        items_view(items) == calendar_date_items(),
        canonical_date_text(s),
        d.wf(),
        read_items(s, items) matches Ok((p, pos)) && pos == s.len() && parsed_date(p) == Ok::<
            int,
            TryFromParsed,
        >(d.julian()),
    ensures
        date_text(d@.0, d@.1) == s,
        items_text(d@.0, d@.1, items) == (s, true),
{
    lemma_canonical_text_read(s, items);
    let y = digits_value(s, 0, 4);
    let m = digits_value(s, 5, 2);
    let day = digits_value(s, 8, 2);
    let p = Parsed {
        year: Some(y as i32),
        month: Some(m as u8),
        day: Some(day as u8),
        ..Parsed::empty()
    };
    assert(parsed_date(p) == Ok::<int, TryFromParsed>(d.julian()));
    assert(MIN_YEAR <= y <= MAX_YEAR && 1 <= day <= month_len(y, m));
    let o = days_before_month(y, m) + day;
    lemma_ordinal_of_calendar_date(y, m, day);
    assert(d.julian() == julian_day(y, o));
    lemma_julian_day_injective(d@.0, d@.1, y, o);
    lemma_date_text_pieces(y, o);
    assert(date_text(y, o) =~= s);
    lemma_calendar_text_written(y, o, items);
}

/// Reading `[year]-[month]-[day]` from a text `YYYY-MM-DD`, where it
/// succeeds, gives the year, month and day that its digits spell.
proof fn lemma_canonical_text_read(s: Seq<char>, items: Seq<FormatItem>)
    requires
        items_view(items) == calendar_date_items(),
        canonical_date_text(s),
        read_items(s, items) is Ok,
    ensures
        ({
            let y = digits_value(s, 0, 4);
            let m = digits_value(s, 5, 2);
            let day = digits_value(s, 8, 2);
            &&& 0 <= y <= 9999
            &&& 1 <= m <= 12
            &&& 1 <= day <= 31
            &&& padded(y as nat, 4, Padding::Zero) == s.subrange(0, 4)
            &&& padded(m as nat, 2, Padding::Zero) == s.subrange(5, 7)
            &&& padded(day as nat, 2, Padding::Zero) == s.subrange(8, 10)
            &&& read_items(s, items) == Ok::<(Parsed, int), ParseFromDescription>(
                (
                    Parsed {
                        year: Some(y as i32),
                        month: Some(m as u8),
                        day: Some(day as u8),
                        ..Parsed::empty()
                    },
                    10,
                ),
            )
        }),
{
    lemma_calendar_items(items);
    assert(pow10(4) == 10000 && pow10(2) == 100) by {
        reveal_with_fuel(pow10, 5);
    }
    lemma_digits_padded(s, 0, 4);
    lemma_digits_padded(s, 5, 2);
    lemma_digits_padded(s, 8, 2);
    lemma_digit_run_all(s, 0, 4);
    lemma_digit_run_all(s, 5, 2);
    lemma_digit_run_all(s, 8, 2);
    let y = digits_value(s, 0, 4);
    let m = digits_value(s, 5, 2);
    let day = digits_value(s, 8, 2);
    assert(is_digit(s[0]));
    assert(read_sign(s, 0) == (false, false, 0int));
    assert(s.subrange(4, 5) =~= seq!['-']);
    assert(s.subrange(7, 8) =~= seq!['-']);
    assert(read_items(s, items.take(0)) == Ok::<(Parsed, int), ParseFromDescription>(
        (Parsed::empty(), 0),
    ));
    let p1 = Parsed { year: Some(y as i32), ..Parsed::empty() };
    assert(read_items(s, items.take(1)) == Ok::<(Parsed, int), ParseFromDescription>((p1, 4)));
    assert(read_items(s, items.take(2)) == Ok::<(Parsed, int), ParseFromDescription>((p1, 5)));
    if !(1 <= m <= 12) {
        assert(read_items(s, items.take(3)) is Err);
        assert(read_items(s, items.take(4)) is Err);
        assert(read_items(s, items.take(5)) is Err);
    }
    let p2 = Parsed { month: Some(m as u8), ..p1 };
    assert(read_items(s, items.take(3)) == Ok::<(Parsed, int), ParseFromDescription>((p2, 7)));
    assert(read_items(s, items.take(4)) == Ok::<(Parsed, int), ParseFromDescription>((p2, 8)));
    if !(1 <= day <= 31) {
        assert(read_items(s, items.take(5)) is Err);
    }
    let p3 = Parsed { day: Some(day as u8), ..p2 };
    assert(read_items(s, items.take(5)) == Ok::<(Parsed, int), ParseFromDescription>((p3, 10)));
}

/// A number written with leading zeros to `width` characters reads back as
/// that number, and its first character is a digit.
pub(crate) proof fn lemma_read_zero_padded(s: Seq<char>, pos: int, n: nat, width: int)
    requires
        0 <= pos,
        1 <= width,
        pos + width <= s.len(),
        decimal(n).len() <= width,
        s.subrange(pos, pos + width) == padded(n, width, Padding::Zero),
    ensures
        read_padded(s, pos, width, Padding::Zero) == Some((n as int, pos + width)),
        is_digit(s[pos]),
{
    lemma_padded_value(s, pos, n, width);
    lemma_digit_run_all(s, pos, width);
}

/// A run of `count` digits reads as a number below `10^count`, which,
/// written with leading zeros to `count` characters, is the run again.
proof fn lemma_digits_padded(s: Seq<char>, pos: int, count: int)
    requires
        0 <= pos,
        1 <= count,
        pos + count <= s.len(),
        forall|i: int| pos <= i < pos + count ==> is_digit(#[trigger] s[i]),
    ensures
        0 <= digits_value(s, pos, count) < pow10(count as nat),
        padded(digits_value(s, pos, count) as nat, count, Padding::Zero) == s.subrange(
            pos,
            pos + count,
        ),
    decreases count,
{
    let last = s[pos + count - 1];
    assert(is_digit(last));
    let b = digit_value(last);
    lemma_digit_of_char(last);
    if count == 1 {
        assert(digits_value(s, pos, 0) == 0);
        assert(pow10(1) == 10) by {
            reveal_with_fuel(pow10, 2);
        }
        assert(decimal(b as nat) == seq![digit_char(b)]);
        assert(padded(b as nat, 1, Padding::Zero) =~= s.subrange(pos, pos + 1));
    } else {
        lemma_digits_padded(s, pos, count - 1);
        let a = digits_value(s, pos, count - 1);
        let k = (count - 1) as nat;
        let v = a * 10 + b;
        assert(digits_value(s, pos, count) == v);
        assert(pow10(count as nat) == 10 * pow10(k));
        assert(v < pow10(count as nat));
        let prefix = s.subrange(pos, pos + count - 1);
        assert(s.subrange(pos, pos + count) =~= prefix.push(last));
        if a == 0 {
            assert(decimal(v as nat) == seq![digit_char(b)]);
            assert(decimal(0) == seq![digit_char(0)]);
            assert(prefix =~= repeat('0', count - 1)) by {
                assert forall|i: int| 0 <= i < count - 1 implies prefix[i] == '0' by {
                    assert(prefix == repeat('0', count - 2) + seq!['0']);
                    if i < count - 2 {
                        assert(prefix[i] == repeat('0', count - 2)[i]);
                    }
                }
            }
            assert(padded(v as nat, count, Padding::Zero) =~= prefix.push(last));
        } else {
            assert(v / 10 == a && v % 10 == b);
            assert(decimal(v as nat) == decimal(a as nat).push(digit_char(b)));
            assert(padded(v as nat, count, Padding::Zero) =~= padded(a as nat, count - 1, Padding::Zero).push(
                digit_char(b),
            ));
        }
    }
}

/// A digit's value names the digit again.
proof fn lemma_digit_of_char(c: char)
    requires
        is_digit(c),
    ensures
        0 <= digit_value(c) <= 9,
        digit_char(digit_value(c)) == c,
{
}

/// A decimal digit's character reads back as that digit.
pub(crate) proof fn lemma_digit_char(d: int)
    requires
        0 <= d <= 9,
    ensures
        is_digit(digit_char(d)),
        digit_value(digit_char(d)) == d,
{
}

/// A number below `10^k` has at most `k` digits, and every number has one.
pub(crate) proof fn lemma_decimal_len(n: nat, k: nat)
    requires
        1 <= k,
        n < pow10(k),
    ensures
        1 <= decimal(n).len() <= k,
    decreases n,
{
    if n >= 10 {
        if k == 1 {
            assert(pow10(1) == 10) by {
                reveal_with_fuel(pow10, 2);
            }
        }
        let k1 = (k - 1) as nat;
        assert(pow10(k) == 10 * pow10(k1));
        assert(n / 10 < pow10(k1)) by (nonlinear_arith)
            requires
                n < 10 * pow10(k1),
        ;
        lemma_decimal_len(n / 10, k1);
    }
}

/// A run of `count` digits is read whole.
pub(crate) proof fn lemma_digit_run_all(s: Seq<char>, pos: int, count: int)
    requires
        0 <= pos,
        0 <= count,
        pos + count <= s.len(),
        forall|i: int| pos <= i < pos + count ==> is_digit(#[trigger] s[i]),
    ensures
        digit_run(s, pos, count) == count,
    decreases count,
{
    if count > 0 {
        assert(is_digit(s[pos]));
        lemma_digit_run_all(s, pos + 1, count - 1);
    }
}

/// Zeros read as zero.
proof fn lemma_zeros_value(s: Seq<char>, pos: int, count: int)
    requires
        0 <= pos,
        0 <= count,
        pos + count <= s.len(),
        forall|i: int| pos <= i < pos + count ==> #[trigger] s[i] == '0',
    ensures
        digits_value(s, pos, count) == 0,
    decreases count,
{
    if count > 0 {
        lemma_zeros_value(s, pos, count - 1);
        assert(s[pos + count - 1] == '0');
    }
}

/// The digits of `n`, led by zeros to `count` characters, are digits, and
/// read back as `n`.
pub(crate) proof fn lemma_padded_value(s: Seq<char>, pos: int, n: nat, count: int)
    requires
        0 <= pos,
        pos + count <= s.len(),
        decimal(n).len() <= count,
        s.subrange(pos, pos + count) == repeat('0', count - decimal(n).len()) + decimal(n),
    ensures
        digits_value(s, pos, count) == n,
        forall|i: int| pos <= i < pos + count ==> is_digit(#[trigger] s[i]),
    decreases n,
{
    let t = s.subrange(pos, pos + count);
    let zeros = count - decimal(n).len();
    assert forall|i: int| pos <= i < pos + count implies is_digit(#[trigger] s[i]) by {
        assert(s[i] == t[i - pos]);
        if i - pos < zeros {
            assert(t[i - pos] == '0');
        } else {
            lemma_decimal_digits(n, i - pos - zeros);
        }
    }
    assert(t[count - 1] == s[pos + count - 1]);
    if n < 10 {
        assert(decimal(n) == seq![digit_char(n as int)]);
        lemma_digit_char(n as int);
        assert forall|i: int| pos <= i < pos + count - 1 implies #[trigger] s[i] == '0' by {
            assert(s[i] == t[i - pos]);
        }
        lemma_zeros_value(s, pos, count - 1);
    } else {
        let m = (n / 10) as nat;
        assert(decimal(n) == decimal(m).push(digit_char((n % 10) as int)));
        lemma_digit_char((n % 10) as int);
        assert(s.subrange(pos, pos + count - 1) =~= repeat('0', count - 1 - decimal(m).len()) + decimal(m)) by {
            assert forall|i: int| 0 <= i < count - 1 implies #[trigger] s.subrange(pos, pos + count - 1)[i] == (repeat('0', count - 1 - decimal(m).len()) + decimal(m))[i] by {
                assert(s.subrange(pos, pos + count - 1)[i] == t[i]);
            }
        }
        lemma_padded_value(s, pos, m, count - 1);
    }
}

/// Every character of the digits of a number is a digit.
pub(crate) proof fn lemma_decimal_digits(n: nat, i: int)
    requires
        0 <= i < decimal(n).len(),
    ensures
        is_digit(decimal(n)[i]),
    decreases n,
{
    if n < 10 {
        lemma_digit_char(n as int);
    } else {
        let m = (n / 10) as nat;
        if i < decimal(m).len() {
            lemma_decimal_digits(m, i);
        } else {
            lemma_digit_char((n % 10) as int);
        }
    }
}

} // verus!
