use stdt::date::iso8601::{Iso8601, IsoDuration};

#[test]
fn test_parse_extended_iso8601() {
    let iso = Iso8601::parse("2023-11-23T14:30:05").unwrap();
    assert_eq!(iso.date.year, 2023);
    assert_eq!(iso.date.month, 11);
    assert_eq!(iso.date.second, 5);
}

#[test]
fn test_parse_basic_iso8601() {
    let iso = Iso8601::parse("20231123T143005").unwrap();
    assert_eq!(iso.date.year, 2023);
    assert_eq!(iso.date.month, 11);
    assert_eq!(iso.date.day, 23);
    assert_eq!(iso.date.minute, 30);
}

#[test]
fn test_iso_output_formats() {
    let iso = Iso8601::parse("2023-11-23T14:30:00").unwrap();
    assert_eq!(iso.to_iso8601(), "2023-11-23T14:30:00");
    assert_eq!(iso.to_iso8601_basic(), "20231123T143000");
}

#[test]
fn test_duration_parsing_full() {
    let raw = "P3Y6M4DT12H30M5S";
    let dur = IsoDuration::parse(raw).expect("Valid duration");
    assert_eq!(dur.years, 3);
    assert_eq!(dur.months, 6);
    assert_eq!(dur.days, 4);
    assert_eq!(dur.hours, 12);
    assert_eq!(dur.minutes, 30);
    assert_eq!(dur.seconds, 5);
}

#[test]
fn test_duration_parsing_partial() {
    let raw = "P1YT5S";
    let dur = IsoDuration::parse(raw).unwrap();
    assert_eq!(dur.years, 1);
    assert_eq!(dur.seconds, 5);
    assert_eq!(dur.months, 0);
}

#[test]
fn test_duration_ambiguous_m() {
    let dur = IsoDuration::parse("P1MT1M").unwrap();
    assert_eq!(dur.months, 1);
    assert_eq!(dur.minutes, 1);
}

#[test]
fn test_duration_formatting() {
    let mut dur = IsoDuration::default();
    dur.years = 1;
    dur.hours = 2;
    assert_eq!(dur.to_string(), "P1YT2H");
}

#[test]
fn iso_basic_and_extended_agree() {
    let extended = Iso8601::parse("2023-11-23T14:30:00").unwrap();
    let basic = Iso8601::parse("20231123T143000").unwrap();
    assert_eq!(extended, basic);
    let zulu = Iso8601::parse("2023-11-23T14:30:00ZZ").unwrap();
    assert_eq!(extended, zulu);
    let short = Iso8601::parse("2023-11-23T14:30").unwrap();
    assert_eq!(short.date.second, 0);
    let basic_short = Iso8601::parse("20231123T1430").unwrap();
    assert_eq!(basic_short, short);
}

#[test]
fn iso_parse_errors() {
    assert_eq!(Iso8601::parse("").unwrap_err(), "String is empty");
    assert_eq!(
        Iso8601::parse("2023-11-23").unwrap_err(),
        "Missing 'T' separator or invalid format"
    );
    assert_eq!(
        Iso8601::parse("2023-11-23T1T2").unwrap_err(),
        "Missing 'T' separator or invalid format"
    );
    assert_eq!(
        Iso8601::parse("2023-11T14:30:00").unwrap_err(),
        "Invalid extended date format"
    );
    assert_eq!(
        Iso8601::parse("2023-xx-23T14:30:00").unwrap_err(),
        "Invalid number: xx"
    );
    assert_eq!(
        Iso8601::parse("202311T143000").unwrap_err(),
        "Invalid basic date length"
    );
    assert_eq!(
        Iso8601::parse("2023112xT143000").unwrap_err(),
        "Invalid number: 2x"
    );
    assert_eq!(
        Iso8601::parse("20231123T14300").unwrap_err(),
        "Invalid basic time length"
    );
    assert_eq!(
        Iso8601::parse("2023-11-23T14:300:00").unwrap_err(),
        "Invalid number: 300"
    );
    assert_eq!(
        Iso8601::parse("2023-02-30T10:00:00").unwrap_err(),
        "Semantically invalid date"
    );
    assert_eq!(
        Iso8601::parse("20\u{e9}1123T143000").unwrap_err(),
        "Invalid number: 20\u{e9}"
    );
    assert_eq!(
        Iso8601::parse("202\u{e9}123T143000").unwrap_err(),
        "Invalid number: 202\u{e9}123"
    );
}

#[test]
fn iso_plus_sign_and_wrapping_fields() {
    let iso = Iso8601::parse("+2023-+1-+2T+3:+4:+5").unwrap();
    assert_eq!(iso.date.year, 2023);
    assert_eq!(iso.date.month, 1);
    assert_eq!(iso.date.day, 2);
    assert_eq!(iso.date.hour, 3);
    assert_eq!(iso.date.minute, 4);
    assert_eq!(iso.date.second, 5);
    let wrapped = Iso8601::parse("2023-257-01T10:00:00").unwrap();
    assert_eq!(wrapped.date.month, 1);
    assert_eq!(iso.to_iso8601(), "2023-01-02T03:04:05");
}

#[test]
fn duration_errors() {
    assert_eq!(
        IsoDuration::parse("3Y").unwrap_err(),
        "Duration string must start with 'P'"
    );
    assert_eq!(
        IsoDuration::parse("").unwrap_err(),
        "Duration string must start with 'P'"
    );
    assert_eq!(
        IsoDuration::parse("P3T").unwrap_err(),
        "Unexpected number before 'T'"
    );
    assert_eq!(
        IsoDuration::parse("PT1Y").unwrap_err(),
        "Years not allowed in time part"
    );
    assert_eq!(IsoDuration::parse("PY").unwrap_err(), "Invalid year");
    assert_eq!(
        IsoDuration::parse("P99999999999Y").unwrap_err(),
        "Invalid year"
    );
    assert_eq!(
        IsoDuration::parse("PM").unwrap_err(),
        "Invalid number for M"
    );
    assert_eq!(
        IsoDuration::parse("PT1D").unwrap_err(),
        "Days not allowed in time part"
    );
    assert_eq!(IsoDuration::parse("PD").unwrap_err(), "Invalid day");
    assert_eq!(
        IsoDuration::parse("P1H").unwrap_err(),
        "Hours must be after 'T'"
    );
    assert_eq!(IsoDuration::parse("PTH").unwrap_err(), "Invalid hour");
    assert_eq!(
        IsoDuration::parse("P1S").unwrap_err(),
        "Seconds must be after 'T'"
    );
    assert_eq!(IsoDuration::parse("PTS").unwrap_err(), "Invalid second");
    assert_eq!(
        IsoDuration::parse("P1X").unwrap_err(),
        "Invalid character in duration: X"
    );
}

#[test]
fn duration_edge_cases() {
    assert_eq!(IsoDuration::default().to_string(), "P0D");
    assert_eq!(IsoDuration::parse("P").unwrap(), IsoDuration::default());
    assert_eq!(IsoDuration::parse("P12").unwrap(), IsoDuration::default());
    let time_only = IsoDuration::parse("PT5M").unwrap();
    assert_eq!(time_only.minutes, 5);
    assert_eq!(time_only.to_string(), "PT5M");
    let full = IsoDuration::parse("P3Y6M4DT12H30M5S").unwrap();
    assert_eq!(full.to_string(), "P3Y6M4DT12H30M5S");
    let max = IsoDuration::parse("P4294967295Y").unwrap();
    assert_eq!(max.years, u32::MAX);
}
