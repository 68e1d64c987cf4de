use stdt::date::date::Date;
use stdt::date::rcf3339::Rfc3339;

#[test]
fn test_parse_valid_rfc3339() {
    let raw = "2023-11-23T14:30:05Z";
    let rfc = Rfc3339::parse(raw).expect("Should parse valid date");

    assert_eq!(rfc.date.year, 2023);
    assert_eq!(rfc.date.month, 11);
    assert_eq!(rfc.date.day, 23);
    assert_eq!(rfc.date.hour, 14);
    assert_eq!(rfc.date.minute, 30);
    assert_eq!(rfc.date.second, 5);
}

#[test]
fn test_parse_invalid_string_length() {
    let raw = "2023-01-01";
    let res = Rfc3339::parse(raw);
    assert!(res.is_err());
    assert_eq!(res.unwrap_err(), "String too short");
}

#[test]
fn test_parse_invalid_numbers() {
    let raw = "2023-XX-01T10:00:00Z";
    let res = Rfc3339::parse(raw);
    assert!(res.is_err());
    assert!(res.unwrap_err().contains("Error parsing number"));
}

#[test]
fn test_calendar_validation_basic() {
    let raw = "2023-02-30T10:00:00Z";
    let res = Rfc3339::parse(raw);
    assert!(res.is_err());
    assert_eq!(res.unwrap_err(), "Semantically invalid date");
}

#[test]
fn test_calendar_validation_time() {
    let raw = "2023-10-10T25:00:00Z";
    let res = Rfc3339::parse(raw);
    assert!(res.is_err());
}

#[test]
fn test_leap_year_logic() {
    let valid_leap = "2024-02-29T12:00:00Z";
    assert!(Rfc3339::parse(valid_leap).is_ok());

    let invalid_leap = "2023-02-29T12:00:00Z";
    assert!(Rfc3339::parse(invalid_leap).is_err());
}

#[test]
fn test_to_human_string() {
    let date_struct = Date {
        year: 2023, month: 5, day: 7,
        hour: 9, minute: 5, second: 0,
    };
    let rfc = Rfc3339 {
        date: date_struct,
        offset_str: None
    };
    assert_eq!(rfc.to_human_string(), "07/05/2023 - 09:05");
}

#[test]
fn rcf3339_test_custom_format() {
    let date_struct = Date {
        year: 2023, month: 12, day: 25,
        hour: 18, minute: 30, second: 45,
    };
    let rfc = Rfc3339 {
        date: date_struct,
        offset_str: None
    };

    let pattern = "Date: YYYY/mm/dd Time: HH:MM:SS";
    assert_eq!(rfc.format(pattern), "Date: 2023/12/25 Time: 18:30:45");

    let pattern_short = "yy-mm-dd";
    assert_eq!(rfc.format(pattern_short), "23-12-25");
}

#[test]
fn rcf3339_test_display_trait() {
    let rfc = Rfc3339::parse("2023-11-23T14:30:00Z").unwrap();
    assert_eq!(rfc.to_rfc3339(), "2023-11-23T14:30:00Z");
}

#[test]
fn rfc3339_exact_field_messages() {
    assert_eq!(
        Rfc3339::parse("20x3-11-23T14:30:05Z").unwrap_err(),
        "Error parsing number between indices 0 and 4"
    );
    assert_eq!(
        Rfc3339::parse("2023-XX-01T10:00:00Z").unwrap_err(),
        "Error parsing number between indices 5 and 7"
    );
    assert_eq!(
        Rfc3339::parse("2023-11-2xT14:30:05Z").unwrap_err(),
        "Error parsing number between indices 8 and 10"
    );
    assert_eq!(
        Rfc3339::parse("2023-11-23T1x:30:05Z").unwrap_err(),
        "Error parsing number between indices 11 and 13"
    );
    assert_eq!(
        Rfc3339::parse("2023-11-23T14:3x:05Z").unwrap_err(),
        "Error parsing number between indices 14 and 16"
    );
    assert_eq!(
        Rfc3339::parse("2023-11-23T14:30:x5Z").unwrap_err(),
        "Error parsing number between indices 17 and 19"
    );
    assert_eq!(
        Rfc3339::parse("2023-11-23T14:30:0\u{e9}").unwrap_err(),
        "Error parsing number between indices 17 and 19"
    );
    assert_eq!(
        Rfc3339::parse("2023\u{e9}11-23T14:30:05").unwrap_err(),
        "Error parsing number between indices 5 and 7"
    );
}

#[test]
fn rfc3339_separators_are_not_looked_at() {
    let rfc = Rfc3339::parse("2023x11y23z14a30b05 and more").unwrap();
    assert_eq!(rfc.to_rfc3339(), "2023-11-23T14:30:05Z");
    assert_eq!(rfc.offset_str, None);
    let leap_second = Rfc3339::parse("2016-12-31T23:59:60Z").unwrap();
    assert_eq!(leap_second.date.second, 60);
    assert!(Rfc3339::parse("2016-12-31T23:59:61Z").is_err());
    assert!(Rfc3339::parse("2023-00-10T10:00:00Z").is_err());
    assert!(Rfc3339::parse("2023-13-10T10:00:00Z").is_err());
    assert!(Rfc3339::parse("2023-04-31T10:00:00Z").is_err());
    assert!(Rfc3339::parse("2023-04-00T10:00:00Z").is_err());
    assert!(Rfc3339::parse("1900-02-29T10:00:00Z").is_err());
    assert!(Rfc3339::parse("2000-02-29T10:00:00Z").is_ok());
    let plus = Rfc3339::parse("+023-11-23T14:30:05Z").unwrap();
    assert_eq!(plus.date.year, 23);
    assert_eq!(plus.to_rfc3339(), "0023-11-23T14:30:05Z");
}

#[test]
fn rfc3339_format_replaces_in_order() {
    let rfc = Rfc3339 {
        date: Date { year: 5, month: 1, day: 2, hour: 3, minute: 4, second: 5 },
        offset_str: None,
    };
    assert_eq!(rfc.format("YYYYyy"), "000505");
    assert_eq!(rfc.format("yyyy"), "0505");
    assert_eq!(rfc.format("Today is dd/mm/yy at HH:MM"), "Today is 02/01/05 at 03:04");
    assert_eq!(rfc.format("no tokens"), "no tokens");
    assert_eq!(rfc.format(""), "");
    let past = Rfc3339 {
        date: Date { year: -5, month: 1, day: 2, hour: 3, minute: 4, second: 5 },
        offset_str: None,
    };
    assert_eq!(past.format("YYYY yy"), "-005 -5");
    let far = Rfc3339 {
        date: Date { year: 12345, month: 123, day: 2, hour: 3, minute: 4, second: 5 },
        offset_str: None,
    };
    assert_eq!(far.to_rfc3339(), "12345-123-02T03:04:05Z");
    assert!(Rfc3339::is_valid_calendar(2024, 2, 29, 0, 0, 0));
    assert!(!Rfc3339::is_valid_calendar(2023, 2, 29, 0, 0, 0));
}
