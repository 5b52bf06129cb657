use time::util::{days_in_year, days_in_year_month, is_leap_year, weeks_in_year};

#[test]
fn test_days_in_year_month() {
    // Common year
    assert_eq!(days_in_year_month(2019, 1), 31);
    assert_eq!(days_in_year_month(2019, 2), 28);
    assert_eq!(days_in_year_month(2019, 3), 31);
    assert_eq!(days_in_year_month(2019, 4), 30);
    assert_eq!(days_in_year_month(2019, 5), 31);
    assert_eq!(days_in_year_month(2019, 6), 30);
    assert_eq!(days_in_year_month(2019, 7), 31);
    assert_eq!(days_in_year_month(2019, 8), 31);
    assert_eq!(days_in_year_month(2019, 9), 30);
    assert_eq!(days_in_year_month(2019, 10), 31);
    assert_eq!(days_in_year_month(2019, 11), 30);
    assert_eq!(days_in_year_month(2019, 12), 31);

    // Leap year
    assert_eq!(days_in_year_month(2020, 1), 31);
    assert_eq!(days_in_year_month(2020, 2), 29);
    assert_eq!(days_in_year_month(2020, 3), 31);
    assert_eq!(days_in_year_month(2020, 4), 30);
    assert_eq!(days_in_year_month(2020, 5), 31);
    assert_eq!(days_in_year_month(2020, 6), 30);
    assert_eq!(days_in_year_month(2020, 7), 31);
    assert_eq!(days_in_year_month(2020, 8), 31);
    assert_eq!(days_in_year_month(2020, 9), 30);
    assert_eq!(days_in_year_month(2020, 10), 31);
    assert_eq!(days_in_year_month(2020, 11), 30);
    assert_eq!(days_in_year_month(2020, 12), 31);
}

#[test]
fn leap_years_follow_the_gregorian_rule() {
    assert!(is_leap_year(2020));
    assert!(!is_leap_year(2019));
    assert!(!is_leap_year(1900));
    assert!(is_leap_year(2000));
    assert!(is_leap_year(0));
    assert!(is_leap_year(-4));
    assert!(!is_leap_year(-1));
    assert!(!is_leap_year(-100));
    assert!(is_leap_year(-400));
    assert_eq!(days_in_year(2019), 365);
    assert_eq!(days_in_year(2020), 366);
    assert_eq!(days_in_year(1900), 365);
}

#[test]
fn weeks_in_year_counts_iso_weeks() {
    // 2015 begins on a Thursday; 2020 is a leap year that begins on a Wednesday.
    assert_eq!(weeks_in_year(2015), 53);
    assert_eq!(weeks_in_year(2020), 53);
    assert_eq!(weeks_in_year(2019), 52);
    assert_eq!(weeks_in_year(2021), 52);
    // 2008 is a leap year that begins on a Tuesday.
    assert_eq!(weeks_in_year(2008), 52);
    assert_eq!(weeks_in_year(2004), 53);
    assert_eq!(weeks_in_year(-10000), weeks_in_year(-10000 + 400));
    assert_eq!(weeks_in_year(i32::MIN), weeks_in_year(i32::MIN + 400));
}
