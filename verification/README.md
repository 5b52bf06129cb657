# time

Dates of the proleptic Gregorian calendar, for the years -9999 to 9999, with
their behaviour stated in contracts and proved by Verus.

- `src/calendar.rs`: the mathematical model that the contracts speak of (a
  date as a year and a day of that year, Julian day numbers, ISO weeks) and
  the facts about it that the proofs rest on.
- `src/date.rs`: the `Date` type, its constructors from calendar, ordinal,
  ISO week and Julian day forms, its getters, moving by days, and adding a
  time of day.
- `src/format_description.rs`, `src/formatting.rs`, `src/parsing.rs`: format
  descriptions such as `[year]-[month]-[day]`, writing dates with them and
  reading dates back.
- `src/order.rs`: the chronological order of dates.
- `src/operators.rs`: `date + duration`, `date - duration` and
  `date - date`.
- `src/laws.rs`: properties that tie the operations together, such as that
  reading back what was written gives the same date.
- `src/clock.rs`, `src/duration.rs`, `src/primitive_date_time.rs`,
  `src/weekday.rs`, `src/modifier.rs`, `src/error.rs`, `src/util.rs`: the
  supporting types and helpers.
- `app/`: `Display` and `Debug` for a copy of `Date`.
- `tests/`: tests on concrete values.
