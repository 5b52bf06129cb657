use std::cmp::Ordering;
use time::date::{Date, MAX_YEAR, MIN_YEAR};
use time::error::ComponentRange;
use time::weekday::Weekday::{
    self, Friday, Monday, Saturday, Sunday, Thursday, Tuesday, Wednesday,
};

fn date(year: i32, month: u8, day: u8) -> Date {
    Date::from_calendar_date(year, month, day).unwrap()
}

#[test]
fn from_calendar_date_accepts_calendar_days() {
    assert!(Date::from_calendar_date(2019, 1, 1).is_ok());
    assert!(Date::from_calendar_date(2019, 12, 31).is_ok());
    assert!(Date::from_calendar_date(2019, 2, 29).is_err());
    assert!(Date::from_calendar_date(2020, 2, 29).is_ok());
}

#[test]
fn from_calendar_date_reports_the_first_bad_component() {
    let e = Date::from_calendar_date(10_000, 13, 40).unwrap_err();
    assert_eq!(e.name(), "year");
    assert_eq!((e.minimum, e.maximum, e.value), (-9999, 9999, 10_000));
    assert!(!e.is_conditional());
    let e = Date::from_calendar_date(2019, 0, 1).unwrap_err();
    assert_eq!(e.name(), "month");
    assert_eq!((e.minimum, e.maximum, e.value), (1, 12, 0));
    let e = Date::from_calendar_date(2019, 2, 29).unwrap_err();
    assert_eq!(
        e,
        ComponentRange { name: "day", minimum: 1, maximum: 28, value: 29, conditional_range: true }
    );
    assert!(e.is_conditional());
}

#[test]
fn from_ordinal_date_checks_the_year_length() {
    assert!(Date::from_ordinal_date(2019, 1).is_ok());
    assert!(Date::from_ordinal_date(2019, 365).is_ok());
    assert!(Date::from_ordinal_date(2019, 366).is_err());
    assert!(Date::from_ordinal_date(2020, 366).is_ok());
    assert_eq!(Date::from_ordinal_date(2019, 0).unwrap_err().name(), "ordinal");
    assert_eq!(Date::from_ordinal_date(-10_000, 1).unwrap_err().name(), "year");
    assert_eq!(Date::from_ordinal_date(2019, 60), Ok(date(2019, 3, 1)));
    assert_eq!(Date::from_ordinal_date(2020, 60), Ok(date(2020, 2, 29)));
}

#[test]
fn from_iso_week_date_examples() {
    assert!(Date::from_iso_week_date(2019, 1, Monday).is_ok());
    assert!(Date::from_iso_week_date(2019, 1, Tuesday).is_ok());
    assert!(Date::from_iso_week_date(2020, 53, Friday).is_ok());
    assert!(Date::from_iso_week_date(2019, 53, Monday).is_err());
    assert_eq!(Date::from_iso_week_date(2019, 1, Monday), Ok(date(2018, 12, 31)));
    assert_eq!(Date::from_iso_week_date(2020, 53, Friday), Ok(date(2021, 1, 1)));
    assert_eq!(Date::from_iso_week_date(2019, 40, Friday), Ok(date(2019, 10, 4)));
    assert_eq!(Date::from_iso_week_date(2019, 0, Monday).unwrap_err().name(), "week");
    assert_eq!(Date::from_iso_week_date(10_000, 1, Monday).unwrap_err().name(), "year");
}

#[test]
fn from_iso_week_date_before_year_one() {
    // ISO week 1 of -9998 starts on Monday, -9999-12-31.
    assert_eq!(Date::from_iso_week_date(-9998, 1, Monday), Ok(date(-9999, 12, 31)));
    assert_eq!(Date::from_iso_week_date(-9998, 1, Tuesday), Ok(date(-9998, 1, 1)));
    assert_eq!(Date::from_iso_week_date(-9999, 1, Monday), Ok(date(-9999, 1, 1)));
    assert_eq!(Date::from_iso_week_date(0, 1, Monday), Ok(date(0, 1, 3)));
}

#[test]
fn from_iso_week_date_at_the_end_of_the_range() {
    assert_eq!(Date::from_iso_week_date(9999, 52, Friday), Ok(Date::maximum()));
    let e = Date::from_iso_week_date(9999, 52, Saturday).unwrap_err();
    assert_eq!(e.name(), "year");
    assert_eq!((e.minimum, e.maximum, e.value), (-9999, 9999, 10_000));
    assert!(Date::from_iso_week_date(9999, 52, Sunday).is_err());
    assert!(Date::from_iso_week_date(9999, 53, Monday).is_err());
}

#[test]
fn components_of_a_date() {
    assert_eq!(date(2019, 1, 1).year(), 2019);
    assert_eq!(date(2019, 12, 31).year(), 2019);
    assert_eq!(date(2020, 1, 1).year(), 2020);
    assert_eq!(date(2019, 1, 1).month(), 1);
    assert_eq!(date(2019, 12, 31).month(), 12);
    assert_eq!(date(2019, 1, 1).day(), 1);
    assert_eq!(date(2019, 12, 31).day(), 31);
    assert_eq!(date(2019, 1, 1).ordinal(), 1);
    assert_eq!(date(2019, 12, 31).ordinal(), 365);
    assert_eq!(date(-1, 12, 31).ordinal(), 365);
    assert_eq!(date(-4, 12, 31).ordinal(), 366);
    assert_eq!(date(-9999, 3, 15).year(), -9999);
}

#[test]
fn week_numbers() {
    assert_eq!(date(2019, 1, 1).iso_week(), 1);
    assert_eq!(date(2019, 10, 4).iso_week(), 40);
    assert_eq!(date(2020, 1, 1).iso_week(), 1);
    assert_eq!(date(2020, 12, 31).iso_week(), 53);
    assert_eq!(date(2021, 1, 1).iso_week(), 53);

    assert_eq!(date(2019, 1, 1).sunday_based_week(), 0);
    assert_eq!(date(2020, 1, 1).sunday_based_week(), 0);
    assert_eq!(date(2020, 12, 31).sunday_based_week(), 52);
    assert_eq!(date(2021, 1, 1).sunday_based_week(), 0);

    assert_eq!(date(2019, 1, 1).monday_based_week(), 0);
    assert_eq!(date(2020, 1, 1).monday_based_week(), 0);
    assert_eq!(date(2020, 12, 31).monday_based_week(), 52);
    assert_eq!(date(2021, 1, 1).monday_based_week(), 0);
    // 2019-01-06 is the first Sunday of 2019, 2019-01-07 its first Monday.
    assert_eq!(date(2019, 1, 6).sunday_based_week(), 1);
    assert_eq!(date(2019, 1, 6).monday_based_week(), 0);
    assert_eq!(date(2019, 1, 7).monday_based_week(), 1);
}

#[test]
fn conversions_to_tuples() {
    assert_eq!(date(2019, 1, 1).to_calendar_date(), (2019, 1, 1));
    assert_eq!(date(2019, 1, 1).to_ordinal_date(), (2019, 1));
    assert_eq!(date(2019, 1, 1).to_iso_week_date(), (2019, 1, Tuesday));
    assert_eq!(date(2019, 10, 4).to_iso_week_date(), (2019, 40, Friday));
    assert_eq!(date(2020, 1, 1).to_iso_week_date(), (2020, 1, Wednesday));
    assert_eq!(date(2020, 12, 31).to_iso_week_date(), (2020, 53, Thursday));
    assert_eq!(date(2021, 1, 1).to_iso_week_date(), (2020, 53, Friday));
    assert_eq!(date(2018, 12, 31).to_iso_week_date(), (2019, 1, Monday));
}

#[test]
fn weekdays() {
    assert_eq!(date(2019, 1, 1).weekday(), Tuesday);
    assert_eq!(date(2019, 2, 1).weekday(), Friday);
    assert_eq!(date(2019, 3, 1).weekday(), Friday);
    assert_eq!(date(2019, 4, 1).weekday(), Monday);
    assert_eq!(date(2019, 5, 1).weekday(), Wednesday);
    assert_eq!(date(2019, 6, 1).weekday(), Saturday);
    assert_eq!(date(2019, 7, 1).weekday(), Monday);
    assert_eq!(date(2019, 8, 1).weekday(), Thursday);
    assert_eq!(date(2019, 9, 1).weekday(), Sunday);
    assert_eq!(date(2019, 10, 1).weekday(), Tuesday);
    assert_eq!(date(2019, 11, 1).weekday(), Friday);
    assert_eq!(date(2019, 12, 1).weekday(), Sunday);
    // Before the Julian day epoch the remainder is negative.
    assert_eq!(date(-4713, 11, 24).weekday(), Monday);
    assert_eq!(date(-4713, 11, 23).weekday(), Sunday);
    assert_eq!(date(-9999, 1, 1).weekday(), Monday);
}

#[test]
fn next_and_previous_days() {
    assert_eq!(date(2019, 1, 1).next_day(), Some(date(2019, 1, 2)));
    assert_eq!(date(2019, 1, 31).next_day(), Some(date(2019, 2, 1)));
    assert_eq!(date(2019, 12, 31).next_day(), Some(date(2020, 1, 1)));
    assert_eq!(date(2020, 12, 30).next_day(), Some(date(2020, 12, 31)));
    assert_eq!(Date::maximum().next_day(), None);

    assert_eq!(date(2019, 1, 2).previous_day(), Some(date(2019, 1, 1)));
    assert_eq!(date(2019, 2, 1).previous_day(), Some(date(2019, 1, 31)));
    assert_eq!(date(2020, 1, 1).previous_day(), Some(date(2019, 12, 31)));
    assert_eq!(date(2021, 1, 1).previous_day(), Some(date(2020, 12, 31)));
    assert_eq!(Date::minimum().previous_day(), None);
}

#[test]
fn bounds_of_the_supported_range() {
    assert_eq!(Date::minimum(), date(MIN_YEAR, 1, 1));
    assert_eq!(Date::maximum(), date(MAX_YEAR, 12, 31));
    assert!(Date::minimum() < Date::maximum());
}

#[test]
fn julian_days() {
    assert_eq!(date(-4713, 11, 24).to_julian_day(), 0);
    assert_eq!(date(2000, 1, 1).to_julian_day(), 2_451_545);
    assert_eq!(date(2019, 1, 1).to_julian_day(), 2_458_485);
    assert_eq!(date(2019, 12, 31).to_julian_day(), 2_458_849);
    assert_eq!(Date::from_julian_day(0), Ok(date(-4713, 11, 24)));
    assert_eq!(Date::from_julian_day(2_451_545), Ok(date(2000, 1, 1)));
    assert_eq!(Date::from_julian_day(2_458_485), Ok(date(2019, 1, 1)));
    assert_eq!(Date::from_julian_day(2_458_849), Ok(date(2019, 12, 31)));
}

#[test]
fn from_julian_day_rejects_days_out_of_range() {
    let min = Date::minimum().to_julian_day();
    let max = Date::maximum().to_julian_day();
    assert_eq!(min, -1_930_999);
    assert_eq!(max, 5_373_484);
    assert_eq!(Date::from_julian_day(min), Ok(Date::minimum()));
    assert_eq!(Date::from_julian_day(max), Ok(Date::maximum()));
    assert_eq!(
        Date::from_julian_day(max + 1),
        Err(ComponentRange {
            name: "julian_day",
            minimum: -1_930_999,
            maximum: 5_373_484,
            value: 5_373_485,
            conditional_range: false,
        })
    );
    assert!(Date::from_julian_day(min - 1).is_err());
}

/// Days spread over the whole supported range, with the first and last.
fn sample_days() -> Vec<Date> {
    let mut days = Vec::new();
    let mut jd = Date::minimum().to_julian_day();
    let max = Date::maximum().to_julian_day();
    while jd <= max {
        days.push(Date::from_julian_day(jd).unwrap());
        jd += 97;
    }
    days.push(Date::maximum());
    days
}

#[test]
fn julian_day_round_trip() {
    for d in sample_days() {
        assert_eq!(Date::from_julian_day(d.to_julian_day()), Ok(d));
    }
}

#[test]
fn calendar_and_ordinal_date_round_trip() {
    for d in sample_days() {
        let (y, m, dd) = d.to_calendar_date();
        assert_eq!(Date::from_calendar_date(y, m, dd), Ok(d));
        let (y, o) = d.to_ordinal_date();
        assert_eq!(Date::from_ordinal_date(y, o), Ok(d));
    }
}

#[test]
fn iso_week_date_round_trip() {
    for d in sample_days() {
        let (y, w, wd) = d.to_iso_week_date();
        assert!(w >= 1 && w <= time::util::weeks_in_year(y));
        assert_eq!(Date::from_iso_week_date(y, w, wd), Ok(d));
    }
}

#[test]
fn next_day_is_one_julian_day_later() {
    for d in sample_days() {
        if let Some(n) = d.next_day() {
            assert_eq!(n.to_julian_day(), d.to_julian_day() + 1);
            assert_eq!(n.weekday(), d.weekday().next());
            assert_eq!(n.previous_day(), Some(d));
            assert!(d < n);
        }
    }
}

#[test]
fn dates_order_by_julian_day() {
    let a = date(-1, 12, 31);
    let b = date(0, 1, 1);
    let c = date(2019, 6, 1);
    assert!(a < b && b < c);
    assert!(a.to_julian_day() < b.to_julian_day());
    assert!(b.to_julian_day() < c.to_julian_day());
}

#[test]
fn time_components() {
    let d = date(1970, 1, 1);
    let midnight = d.midnight();
    assert_eq!(midnight.date(), d);
    assert_eq!(midnight.time().hour(), 0);
    assert!(d.with_hms(0, 0, 0).is_ok());
    assert!(d.with_hms(24, 0, 0).is_err());
    assert!(d.with_hms_milli(0, 0, 0, 0).is_ok());
    assert!(d.with_hms_milli(24, 0, 0, 0).is_err());
    assert!(d.with_hms_micro(0, 0, 0, 0).is_ok());
    assert!(d.with_hms_micro(24, 0, 0, 0).is_err());
    assert!(d.with_hms_nano(0, 0, 0, 0).is_ok());
    assert!(d.with_hms_nano(24, 0, 0, 0).is_err());
    assert_eq!(d.with_hms(0, 0, 0), Ok(midnight));
    assert_eq!(d.with_time(midnight.time()), midnight);
}

#[test]
fn time_component_errors() {
    let d = date(1970, 1, 1);
    assert_eq!(d.with_hms(12, 60, 0).unwrap_err().name(), "minute");
    assert_eq!(d.with_hms(12, 0, 60).unwrap_err().name(), "second");
    assert_eq!(d.with_hms_milli(12, 0, 0, 1000).unwrap_err().name(), "millisecond");
    assert_eq!(d.with_hms_micro(12, 0, 0, 1_000_000).unwrap_err().name(), "microsecond");
    assert_eq!(d.with_hms_nano(12, 0, 0, 1_000_000_000).unwrap_err().name(), "nanosecond");
    let t = d.with_hms_milli(23, 59, 59, 999).unwrap().time();
    assert_eq!((t.hour(), t.minute(), t.second(), t.nanosecond()), (23, 59, 59, 999_000_000));
    let t = d.with_hms_micro(1, 2, 3, 4).unwrap().time();
    assert_eq!(t.nanosecond(), 4_000);
    let t = d.with_hms_nano(1, 2, 3, 4).unwrap().time();
    assert_eq!(t.nanosecond(), 4);
}

#[test]
fn weekday_numbers() {
    let all: [Weekday; 7] = [Monday, Tuesday, Wednesday, Thursday, Friday, Saturday, Sunday];
    for (i, w) in all.iter().enumerate() {
        assert_eq!(w.number_days_from_monday() as usize, i);
        assert_eq!(w.number_from_monday() as usize, i + 1);
        assert_eq!(w.number_days_from_sunday() as usize, (i + 1) % 7);
        assert_eq!(w.number_from_sunday() as usize, (i + 1) % 7 + 1);
        assert_eq!(w.next().previous(), *w);
        assert_eq!(w.previous().next(), *w);
    }
    assert_eq!(Sunday.next(), Monday);
    assert_eq!(Monday.previous(), Sunday);
}

#[test]
fn comparing_dates() {
    assert_eq!(date(2019, 12, 31).partial_cmp(&date(2020, 1, 1)), Some(Ordering::Less));
    assert_eq!(date(-1, 3, 1).partial_cmp(&date(-1, 2, 28)), Some(Ordering::Greater));
    assert_eq!(date(0, 2, 29).partial_cmp(&date(0, 2, 29)), Some(Ordering::Equal));
    assert_eq!(date(-2, 12, 31).cmp(&date(-1, 1, 1)), Ordering::Less);
    let mut dates = vec![date(2020, 1, 1), date(-5, 6, 7), date(2019, 12, 31), date(0, 1, 1)];
    dates.sort();
    assert_eq!(dates, vec![date(-5, 6, 7), date(0, 1, 1), date(2019, 12, 31), date(2020, 1, 1)]);
    assert_eq!(Date::minimum().max(Date::maximum()), Date::maximum());
}
