use time::date::Date;
use time::duration::Duration;

fn date(year: i32, month: u8, day: u8) -> Date {
    Date::from_calendar_date(year, month, day).unwrap()
}

#[test]
fn adding_durations_moves_by_whole_days() {
    assert_eq!(date(2019, 12, 31).add_duration(Duration::days(1)), date(2020, 1, 1));
    assert_eq!(date(2020, 2, 28).add_duration(Duration::days(2)), date(2020, 3, 1));
    assert_eq!(date(2020, 1, 1).add_duration(Duration::days(-1)), date(2019, 12, 31));
    // Part days are dropped, toward zero.
    assert_eq!(date(2019, 1, 1).add_duration(Duration::seconds(86_399)), date(2019, 1, 1));
    assert_eq!(date(2019, 1, 1).add_duration(Duration::seconds(-86_399)), date(2019, 1, 1));
    assert_eq!(date(2019, 1, 1).add_duration(Duration::seconds(-86_400)), date(2018, 12, 31));
}

#[test]
fn subtracting_durations_moves_back() {
    assert_eq!(date(2020, 1, 1).sub_duration(Duration::days(1)), date(2019, 12, 31));
    assert_eq!(date(2020, 3, 1).sub_duration(Duration::days(1)), date(2020, 2, 29));
    assert_eq!(date(2019, 1, 1).sub_duration(Duration::days(-365)), date(2020, 1, 1));
}

#[test]
fn std_durations_count_whole_days() {
    assert_eq!(date(2019, 1, 1).add_std_duration(2 * 86_400 + 5), date(2019, 1, 3));
    assert_eq!(date(2019, 1, 3).sub_std_duration(2 * 86_400 + 5), date(2019, 1, 1));
    let mut d = date(2019, 1, 1);
    d.add_assign_std_duration(86_400);
    assert_eq!(d, date(2019, 1, 2));
    d.sub_assign_std_duration(86_400);
    assert_eq!(d, date(2019, 1, 1));
}

#[test]
fn assigning_forms() {
    let mut d = date(2019, 1, 1);
    d.add_assign_duration(Duration::days(31));
    assert_eq!(d, date(2019, 2, 1));
    d.sub_assign_duration(Duration::days(32));
    assert_eq!(d, date(2018, 12, 31));
}

#[test]
fn difference_of_dates() {
    assert_eq!(date(2020, 1, 1).sub_date(date(2019, 1, 1)), Duration::days(365));
    assert_eq!(date(2019, 1, 1).sub_date(date(2020, 1, 1)), Duration::days(-365));
    assert_eq!(date(2021, 1, 1).sub_date(date(2020, 1, 1)).whole_days(), 366);
    let (a, b) = (date(-9999, 1, 1), date(9999, 12, 31));
    assert_eq!(a.add_duration(b.sub_date(a)), b);
    assert_eq!(b.add_duration(a.sub_date(b)), a);
}

#[test]
fn durations_normalize() {
    let d = Duration::new(1, -1);
    assert_eq!((d.whole_seconds(), d.subsec_nanoseconds()), (0, 999_999_999));
    let d = Duration::new(-1, 1);
    assert_eq!((d.whole_seconds(), d.subsec_nanoseconds()), (0, -999_999_999));
    let d = Duration::new(0, 2_000_000_001);
    assert_eq!((d.whole_seconds(), d.subsec_nanoseconds()), (2, 1));
    let d = Duration::new(5, -2_000_000_000);
    assert_eq!((d.whole_seconds(), d.subsec_nanoseconds()), (3, 0));
    assert_eq!(Duration::days(2).whole_seconds(), 172_800);
    assert_eq!(Duration::days(-2).neg(), Duration::days(2));
    assert_eq!(Duration::seconds(-90_000).whole_days(), -1);
}

#[test]
fn durations_at_the_ends_of_the_seconds() {
    let d = Duration::new(i64::MAX, 0);
    assert_eq!((d.whole_seconds(), d.subsec_nanoseconds()), (i64::MAX, 0));
    let d = Duration::new(i64::MAX, -1);
    assert_eq!((d.whole_seconds(), d.subsec_nanoseconds()), (i64::MAX - 1, 999_999_999));
    let d = Duration::new(i64::MIN, -5);
    assert_eq!((d.whole_seconds(), d.subsec_nanoseconds()), (i64::MIN, -5));
    let d = Duration::new(i64::MAX - 2, 2_000_000_000);
    assert_eq!((d.whole_seconds(), d.subsec_nanoseconds()), (i64::MAX, 0));
}

#[test]
fn date_operators() {
    assert_eq!(date(2019, 12, 31) + Duration::days(1), date(2020, 1, 1));
    assert_eq!(date(2020, 3, 1) - Duration::days(1), date(2020, 2, 29));
    assert_eq!(date(2020, 1, 1) + Duration::seconds(-86_401), date(2019, 12, 31));
    assert_eq!(date(2020, 1, 1) - Duration::seconds(86_399), date(2020, 1, 1));
    assert_eq!(date(2021, 1, 1) - date(2020, 1, 1), Duration::days(366));
    assert_eq!(date(2020, 1, 1) - date(2021, 1, 1), Duration::days(-366));
    let (a, b) = (Date::minimum(), Date::maximum());
    assert_eq!(a + (b - a), b);
    assert_eq!(b - (b - a), a);
}
