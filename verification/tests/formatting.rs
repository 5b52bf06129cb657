use time::date::Date;
use time::error::{
    ComponentRange, Format, InvalidFormatDescription, Parse, ParseFromDescription, TryFromParsed,
};
use time::format_description::{Component, FormatDescription, FormatItem};
use time::modifier::{Day, Padding};

fn date(year: i32, month: u8, day: u8) -> Date {
    Date::from_calendar_date(year, month, day).unwrap()
}

fn description(text: &str) -> FormatDescription {
    FormatDescription::parse(text).unwrap()
}

fn formatted(d: Date, text: &str) -> String {
    d.format(&description(text)).unwrap()
}

#[test]
fn format_with_a_description() {
    let format = description("[year]-[month repr:numerical]-[day]");
    assert_eq!(date(2020, 1, 2).format(&format).unwrap(), "2020-01-02");
    assert_eq!(formatted(date(2020, 1, 2), "[month repr:long] [day padding:none], [year]"), "January 2, 2020");
    assert_eq!(formatted(date(2019, 9, 7), "[month repr:short] [day padding:space]"), "Sep  7");
    assert_eq!(formatted(date(2019, 12, 31), "[ordinal]"), "365");
    assert_eq!(formatted(date(2019, 1, 5), "[ordinal padding:space]|[ordinal padding:none]"), "  5|5");
    assert_eq!(formatted(date(2019, 1, 1), "[weekday] [weekday repr:short]"), "Tuesday Tue");
    assert_eq!(formatted(date(2019, 1, 6), "[weekday repr:sunday] [weekday repr:sunday one_indexed:false]"), "1 0");
    assert_eq!(formatted(date(2019, 1, 6), "[weekday repr:monday] [weekday repr:monday one_indexed:false]"), "7 6");
    assert_eq!(formatted(date(2020, 12, 31), "[week_number]/[week_number repr:sunday]/[week_number repr:monday]"), "53/52/52");
    assert_eq!(formatted(date(2021, 1, 1), "[year base:iso_week]-W[week_number]"), "2020-W53");
}

#[test]
fn format_years() {
    assert_eq!(formatted(date(2020, 1, 1), "[year sign:mandatory]"), "+2020");
    assert_eq!(formatted(date(-1, 1, 1), "[year]"), "-0001");
    assert_eq!(formatted(date(-1, 1, 1), "[year repr:last_two]"), "01");
    assert_eq!(formatted(date(1999, 1, 1), "[year repr:last_two]"), "99");
    assert_eq!(formatted(date(5, 1, 1), "[year padding:none]"), "5");
    assert_eq!(formatted(date(5, 1, 1), "[year padding:space]"), "   5");
}

#[test]
fn display_text() {
    assert_eq!(date(2019, 1, 1).to_string(), "2019-01-01");
    assert_eq!(date(-1, 12, 31).to_string(), "-0001-12-31");
    assert_eq!(Date::maximum().to_string(), "9999-12-31");
    assert_eq!(Date::minimum().to_string(), "-9999-01-01");
}

#[test]
fn formatting_a_time_component_fails() {
    let d = date(2020, 1, 2);
    assert_eq!(d.format(&description("[hour]")), Err(Format::InsufficientTypeInformation));
    let mut out = String::new();
    assert_eq!(
        d.format_into(&mut out, &description("[day] at [hour]:[minute]")),
        Err(Format::InsufficientTypeInformation)
    );
    assert_eq!(out, "02 at ");
    let mut out = String::from(">");
    assert_eq!(d.format_into(&mut out, &description("[day]")), Ok(()));
    assert_eq!(out, ">02");
}

#[test]
fn descriptions_built_from_items() {
    let format = FormatDescription {
        items: vec![
            FormatItem::Literal(String::from("day ")),
            FormatItem::Component(Component::Day(Day { padding: Padding::NoPadding })),
        ],
    };
    assert_eq!(date(2020, 1, 2).format(&format).unwrap(), "day 2");
    assert_eq!(description("[day padding:none]").items, vec![FormatItem::Component(Component::Day(Day { padding: Padding::NoPadding }))]);
    assert_eq!(description("a[[b").items, vec![
        FormatItem::Literal(String::from("a")),
        FormatItem::Literal(String::from("[")),
        FormatItem::Literal(String::from("b")),
    ]);
}

#[test]
fn malformed_descriptions() {
    assert_eq!(
        FormatDescription::parse("ab["),
        Err(InvalidFormatDescription::UnclosedOpeningBracket { index: 2 })
    );
    assert_eq!(
        FormatDescription::parse("[ ]"),
        Err(InvalidFormatDescription::MissingComponentName { index: 0 })
    );
    assert_eq!(
        FormatDescription::parse("[ foo]"),
        Err(InvalidFormatDescription::InvalidComponentName { index: 2 })
    );
    assert_eq!(
        FormatDescription::parse("[day repr:long]"),
        Err(InvalidFormatDescription::InvalidModifier { index: 5 })
    );
    assert_eq!(
        FormatDescription::parse("[day padding]"),
        Err(InvalidFormatDescription::InvalidModifier { index: 5 })
    );
    assert_eq!(
        FormatDescription::parse("[day padding:tabs]"),
        Err(InvalidFormatDescription::InvalidModifier { index: 5 })
    );
}

#[test]
fn parse_with_a_description() {
    let format = description("[year]-[month repr:numerical]-[day]");
    assert_eq!(Date::parse("2020-01-02", &format), Ok(date(2020, 1, 2)));
    assert_eq!(Date::parse("-0001-12-31", &description("[year]-[month]-[day]")), Ok(date(-1, 12, 31)));
    assert_eq!(Date::parse("+2020-001", &description("[year]-[ordinal]")), Ok(date(2020, 1, 1)));
    assert_eq!(Date::parse("2020-366", &description("[year]-[ordinal]")), Ok(date(2020, 12, 31)));
    assert_eq!(
        Date::parse("January 2, 2020", &description("[month repr:long] [day padding:none], [year]")),
        Ok(date(2020, 1, 2))
    );
    assert_eq!(Date::parse("Sep  7 2019", &description("[month repr:short] [day padding:space] [year]")), Ok(date(2019, 9, 7)));
    assert_eq!(
        Date::parse("2020-01-02 13:45", &description("[year]-[month]-[day] [hour]:[minute]")),
        Ok(date(2020, 1, 2))
    );
}

#[test]
fn parse_week_dates() {
    let iso = description("[year base:iso_week]-W[week_number]-[weekday repr:monday]");
    assert_eq!(Date::parse("2020-W53-5", &iso), Ok(date(2021, 1, 1)));
    assert_eq!(Date::parse("2019-W01-1", &iso), Ok(date(2018, 12, 31)));
    let sunday = description("[year] [week_number repr:sunday] [weekday repr:sunday one_indexed:false]");
    assert_eq!(Date::parse("2019 01 0", &sunday), Ok(date(2019, 1, 6)));
    assert_eq!(Date::parse("2019 00 2", &sunday), Ok(date(2019, 1, 1)));
    let monday = description("[year] [week_number repr:monday] [weekday repr:monday one_indexed:false]");
    assert_eq!(Date::parse("2019 01 0", &monday), Ok(date(2019, 1, 7)));
    assert_eq!(Date::parse("2018 01 0", &monday), Ok(date(2018, 1, 1)));
    let long = description("[weekday], [year base:iso_week] week [week_number]");
    assert_eq!(Date::parse("Friday, 2020 week 53", &long), Ok(date(2021, 1, 1)));
}

#[test]
fn parse_errors() {
    let format = description("[year]-[month]-[day]");
    assert_eq!(
        Date::parse("2020-1-02", &format),
        Err(Parse::ParseFromDescription(ParseFromDescription::InvalidComponent("month")))
    );
    assert_eq!(
        Date::parse("2020/01/02", &format),
        Err(Parse::ParseFromDescription(ParseFromDescription::InvalidLiteral))
    );
    assert_eq!(
        Date::parse("2020-01-02x", &format),
        Err(Parse::ParseFromDescription(ParseFromDescription::UnexpectedTrailingCharacters))
    );
    assert_eq!(
        Date::parse("2020-13-02", &format),
        Err(Parse::ParseFromDescription(ParseFromDescription::InvalidComponent("month")))
    );
    assert_eq!(
        Date::parse("2019-02-29", &format),
        Err(Parse::TryFromParsed(TryFromParsed::ComponentRange(ComponentRange {
            name: "day",
            minimum: 1,
            maximum: 28,
            value: 29,
            conditional_range: true,
        })))
    );
    assert_eq!(
        Date::parse("2019", &description("[year]")),
        Err(Parse::TryFromParsed(TryFromParsed::InsufficientInformation))
    );
    assert_eq!(
        Date::parse("2019", &description("[year sign:mandatory]")),
        Err(Parse::ParseFromDescription(ParseFromDescription::InvalidComponent("year")))
    );
    assert_eq!(
        Date::parse("9999-W52-6", &description("[year base:iso_week]-W[week_number]-[weekday repr:monday]")),
        Err(Parse::TryFromParsed(TryFromParsed::ComponentRange(ComponentRange {
            name: "year",
            minimum: -9999,
            maximum: 9999,
            value: 10_000,
            conditional_range: false,
        })))
    );
}

#[test]
fn text_round_trip() {
    let format = description("[year]-[month]-[day]");
    let mut d = Date::minimum();
    for _ in 0..2000 {
        assert_eq!(Date::parse(&d.to_string(), &format), Ok(d));
        assert_eq!(Date::parse(&d.format(&format).unwrap(), &format), Ok(d));
        for _ in 0..3650 {
            match d.next_day() {
                Some(n) => d = n,
                None => return,
            }
        }
    }
}

#[test]
fn week_number_round_trip() {
    let sunday = description("[year] [week_number repr:sunday] [weekday]");
    let monday = description("[year] [week_number repr:monday] [weekday repr:short]");
    let iso = description("[year base:iso_week]-W[week_number]-[weekday repr:monday]");
    let mut d = date(-2, 12, 20);
    for _ in 0..1200 {
        assert_eq!(Date::parse(&d.format(&sunday).unwrap(), &sunday), Ok(d));
        assert_eq!(Date::parse(&d.format(&monday).unwrap(), &monday), Ok(d));
        assert_eq!(Date::parse(&d.format(&iso).unwrap(), &iso), Ok(d));
        d = d.next_day().unwrap();
    }
    assert_eq!(formatted(date(2021, 1, 2), "[year] [week_number repr:sunday] [weekday]"), "2021 00 Saturday");
    assert_eq!(Date::parse("2021 00 Saturday", &sunday), Ok(date(2021, 1, 2)));
}

#[test]
fn parsed_text_round_trip() {
    let format = description("[year]-[month]-[day]");
    let numerical = description("[year]-[month repr:numerical]-[day]");
    for text in ["2020-01-02", "0000-02-29", "9999-12-31", "0001-01-01", "1900-03-01", "2024-02-29"] {
        let d = Date::parse(text, &format).unwrap();
        assert_eq!(d.format(&format).unwrap(), text);
        assert_eq!(d.to_string(), text);
        assert_eq!(Date::parse(text, &numerical), Ok(d));
        assert_eq!(d.format(&numerical).unwrap(), text);
    }
    assert!(Date::parse("1900-02-29", &format).is_err());
}
