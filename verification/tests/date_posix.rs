use stdt::date::date::Date;
use stdt::date::posix::Posix;

#[test]
fn test_parse_epoch() {
    let raw = "0";
    let posix = Posix::parse(raw).expect("Should parse epoch");

    assert_eq!(posix.date.year, 1970);
    assert_eq!(posix.date.month, 1);
    assert_eq!(posix.date.day, 1);
    assert_eq!(posix.date.hour, 0);
    assert_eq!(posix.date.minute, 0);
    assert_eq!(posix.date.second, 0);
}

#[test]
fn test_parse_specific_date() {
    let raw = "1699963200";
    let posix = Posix::parse(raw).expect("Should parse specific date");

    assert_eq!(posix.date.year, 2023);
    assert_eq!(posix.date.month, 11);
    assert_eq!(posix.date.day, 14);
    assert_eq!(posix.date.hour, 12);
    assert_eq!(posix.date.minute, 0);
    assert_eq!(posix.date.second, 0);
}

#[test]
fn test_parse_leap_year() {
    let raw = "1709208000";
    let posix = Posix::parse(raw).expect("Should parse leap day");

    assert_eq!(posix.date.year, 2024);
    assert_eq!(posix.date.month, 2);
    assert_eq!(posix.date.day, 29);
}

#[test]
fn test_parse_invalid_string() {
    let raw = "not_a_number";
    let res = Posix::parse(raw);
    assert!(res.is_err());
    assert!(res.unwrap_err().contains("Invalid timestamp format"));
}

#[test]
fn test_parse_negative_timestamp() {
    let raw = "-100";
    let res = Posix::parse(raw);
    assert!(res.is_err());
    assert!(res.unwrap_err().contains("Negative timestamps"));
}

#[test]
fn posix_test_custom_format() {
    let posix = Posix::from_timestamp(1234567890).unwrap();

    let pattern = "TS -> YYYY/mm/dd";
    assert_eq!(posix.format(pattern), "1234567890 -> 2009/02/13");
}

#[test]
fn posix_test_display_trait() {
    let posix = Posix::from_timestamp(1000).unwrap();
    assert_eq!(posix.to_string_timestamp(), "1000");
}

#[test]
fn posix_human_string_and_round_trip() {
    let posix = Posix::parse("0").unwrap();
    assert_eq!(posix.to_human_string(), "1970-01-01 00:00:00 UTC");
    let posix = Posix::parse("1700749800").unwrap();
    assert_eq!(posix.date.year, 2023);
    assert_eq!(posix.to_string_timestamp(), "1700749800");
    assert_eq!(posix.timestamp(), 1700749800);
    let formatted = Posix::parse("1700000000")
        .unwrap()
        .format("At TS, date was dd/mm/yy");
    assert_eq!(formatted, "At 1700000000, date was 14/11/23");
    for ts in [0i64, 59, 86399, 86400, 951782400, 951868799, 4102444800, 253402300799] {
        assert_eq!(Posix::from_timestamp(ts).unwrap().timestamp(), ts);
    }
}

#[test]
fn posix_exact_message_and_signs() {
    assert_eq!(
        Posix::parse("12x").unwrap_err(),
        "Invalid timestamp format: 12x"
    );
    assert_eq!(Posix::parse("").unwrap_err(), "Invalid timestamp format: ");
    assert_eq!(
        Posix::parse("-1").unwrap_err(),
        "Negative timestamps (pre-1970) are not supported"
    );
    assert_eq!(
        Posix::from_timestamp(-1).unwrap().date,
        Date { year: 1970, month: 1, day: 1, hour: 0, minute: 0, second: 255 }
    );
    assert_eq!(
        Posix::from_timestamp(-3600).unwrap().date,
        Date { year: 1970, month: 1, day: 1, hour: 255, minute: 0, second: 0 }
    );
    assert_eq!(
        Posix::from_timestamp(-86461).unwrap().date,
        Date { year: 1970, month: 1, day: 0, hour: 0, minute: 255, second: 255 }
    );
    assert_eq!(
        Posix::from_timestamp(i64::MIN).unwrap().date,
        Date { year: 1970, month: 1, day: 189, hour: 241, minute: 226, second: 248 }
    );
    assert_eq!(
        Posix::from_timestamp(i64::MAX).unwrap_err(),
        "Timestamp out of range"
    );
    assert_eq!(
        Posix::parse("9223372036854775808").unwrap_err(),
        "Invalid timestamp format: 9223372036854775808"
    );
    let plus = Posix::parse("+86400").unwrap();
    assert_eq!(plus.date.day, 2);
    assert_eq!(Posix::parse("-0").unwrap().date.year, 1970);
}

#[test]
fn posix_timestamp_of_given_fields() {
    let early = Posix {
        date: Date { year: 1960, month: 1, day: 1, hour: 0, minute: 0, second: 7 },
    };
    assert_eq!(early.to_string_timestamp(), "7");
    let leap = Posix {
        date: Date { year: 2000, month: 3, day: 1, hour: 0, minute: 0, second: 0 },
    };
    assert_eq!(leap.timestamp(), 951868800);
    assert!(Posix::is_leap_year(2000));
    assert!(!Posix::is_leap_year(1900));
    assert!(Posix::is_leap_year(2024));
    assert!(!Posix::is_leap_year(2023));
}
