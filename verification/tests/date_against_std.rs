use stdt::date::date::Date;
use stdt::date::iso8601::{Iso8601, IsoDuration};
use stdt::date::posix::Posix;
use stdt::date::rcf3339::Rfc3339;

fn calendar_ok(y: i32, m: u8, d: u8, h: u8, min: u8, s: u8) -> bool {
    if m < 1 || m > 12 || h > 23 || min > 59 || s > 60 {
        return false;
    }
    let days_in_month = match m {
        4 | 6 | 9 | 11 => 30,
        2 => {
            if (y % 4 == 0 && y % 100 != 0) || (y % 400 == 0) {
                29
            } else {
                28
            }
        }
        _ => 31,
    };
    d >= 1 && d <= days_in_month
}

fn is_leap(y: i32) -> bool {
    (y % 4 == 0 && y % 100 != 0) || (y % 400 == 0)
}

fn expected_rfc3339(s: &str) -> Result<Date, String> {
    if s.len() < 19 {
        return Err("String too short".into());
    }
    let parse_part = |start: usize, end: usize| {
        s.get(start..end)
            .and_then(|part| part.parse::<u32>().ok())
            .ok_or(format!("Error parsing number between indices {} and {}", start, end))
    };
    let year = parse_part(0, 4)? as i32;
    let month = parse_part(5, 7)? as u8;
    let day = parse_part(8, 10)? as u8;
    let hour = parse_part(11, 13)? as u8;
    let minute = parse_part(14, 16)? as u8;
    let second = parse_part(17, 19)? as u8;
    if !calendar_ok(year, month, day, hour, minute, second) {
        return Err("Semantically invalid date".into());
    }
    Ok(Date { year, month, day, hour, minute, second })
}

fn number_u32(part: &str) -> Result<u32, String> {
    part.parse::<u32>().map_err(|_| format!("Invalid number: {}", part))
}

fn number_u8(part: &str) -> Result<u8, String> {
    part.parse::<u8>().map_err(|_| format!("Invalid number: {}", part))
}

fn cut<'a>(s: &'a str, from: usize, to: usize) -> Result<&'a str, String> {
    s.get(from..to).ok_or(format!("Invalid number: {}", s))
}

fn expected_date_part(s: &str) -> Result<(i32, u8, u8), String> {
    if s.contains('-') {
        let parts: Vec<&str> = s.split('-').collect();
        if parts.len() != 3 {
            return Err("Invalid extended date format".into());
        }
        Ok((number_u32(parts[0])? as i32, number_u32(parts[1])? as u8, number_u32(parts[2])? as u8))
    } else {
        if s.len() != 8 {
            return Err("Invalid basic date length".into());
        }
        Ok((
            number_u32(cut(s, 0, 4)?)? as i32,
            number_u32(cut(s, 4, 6)?)? as u8,
            number_u32(cut(s, 6, 8)?)? as u8,
        ))
    }
}

fn expected_time_part(s: &str) -> Result<(u8, u8, u8), String> {
    if s.contains(':') {
        let parts: Vec<&str> = s.split(':').collect();
        if parts.len() < 2 {
            return Err("Invalid extended time format".into());
        }
        let h = number_u8(parts[0])?;
        let m = number_u8(parts[1])?;
        let s = if parts.len() > 2 { number_u8(parts[2])? } else { 0 };
        Ok((h, m, s))
    } else {
        match s.len() {
            6 => Ok((
                number_u8(cut(s, 0, 2)?)?,
                number_u8(cut(s, 2, 4)?)?,
                number_u8(cut(s, 4, 6)?)?,
            )),
            4 => Ok((number_u8(cut(s, 0, 2)?)?, number_u8(cut(s, 2, 4)?)?, 0)),
            _ => Err("Invalid basic time length".into()),
        }
    }
}

fn expected_iso8601(s: &str) -> Result<Date, String> {
    if s.is_empty() {
        return Err("String is empty".into());
    }
    let parts: Vec<&str> = s.split('T').collect();
    if parts.len() != 2 {
        return Err("Missing 'T' separator or invalid format".into());
    }
    let date_part = parts[0];
    let time_part = parts[1].trim_end_matches('Z');
    let (year, month, day) = expected_date_part(date_part)?;
    let (hour, minute, second) = expected_time_part(time_part)?;
    if !calendar_ok(year, month, day, hour, minute, second) {
        return Err("Semantically invalid date".into());
    }
    Ok(Date { year, month, day, hour, minute, second })
}

fn expected_duration(s: &str) -> Result<IsoDuration, String> {
    if !s.starts_with('P') {
        return Err("Duration string must start with 'P'".into());
    }
    let mut dur = IsoDuration::default();
    let mut num_buf = String::new();
    let mut is_time_part = false;
    for c in s.chars().skip(1) {
        match c {
            '0'..='9' => num_buf.push(c),
            'T' => {
                is_time_part = true;
                if !num_buf.is_empty() {
                    return Err("Unexpected number before 'T'".into());
                }
            }
            'Y' => {
                if is_time_part {
                    return Err("Years not allowed in time part".into());
                }
                dur.years = num_buf.parse().map_err(|_| "Invalid year")?;
                num_buf.clear();
            }
            'M' => {
                let val = num_buf.parse().map_err(|_| "Invalid number for M")?;
                if is_time_part {
                    dur.minutes = val;
                } else {
                    dur.months = val;
                }
                num_buf.clear();
            }
            'D' => {
                if is_time_part {
                    return Err("Days not allowed in time part".into());
                }
                dur.days = num_buf.parse().map_err(|_| "Invalid day")?;
                num_buf.clear();
            }
            'H' => {
                if !is_time_part {
                    return Err("Hours must be after 'T'".into());
                }
                dur.hours = num_buf.parse().map_err(|_| "Invalid hour")?;
                num_buf.clear();
            }
            'S' => {
                if !is_time_part {
                    return Err("Seconds must be after 'T'".into());
                }
                dur.seconds = num_buf.parse().map_err(|_| "Invalid second")?;
                num_buf.clear();
            }
            _ => return Err(format!("Invalid character in duration: {}", c)),
        }
    }
    Ok(dur)
}

fn expected_duration_text(d: &IsoDuration) -> String {
    let mut s = String::from("P");
    if d.years > 0 {
        s.push_str(&format!("{}Y", d.years));
    }
    if d.months > 0 {
        s.push_str(&format!("{}M", d.months));
    }
    if d.days > 0 {
        s.push_str(&format!("{}D", d.days));
    }
    if d.hours > 0 || d.minutes > 0 || d.seconds > 0 {
        s.push('T');
        if d.hours > 0 {
            s.push_str(&format!("{}H", d.hours));
        }
        if d.minutes > 0 {
            s.push_str(&format!("{}M", d.minutes));
        }
        if d.seconds > 0 {
            s.push_str(&format!("{}S", d.seconds));
        }
    }
    if s == "P" {
        return "P0D".to_string();
    }
    s
}

fn expected_moment(ts: i64) -> Date {
    let mut remaining = ts;
    let days_since_epoch = remaining / 86400;
    remaining %= 86400;
    let hour = (remaining / 3600) as u8;
    remaining %= 3600;
    let minute = (remaining / 60) as u8;
    let second = (remaining % 60) as u8;
    let mut year = 1970;
    let mut days = days_since_epoch;
    loop {
        let days_in_year = if is_leap(year) { 366 } else { 365 };
        if days < days_in_year {
            break;
        }
        days -= days_in_year;
        year += 1;
    }
    let mut month = 1;
    let days_in_months = if is_leap(year) {
        [31, 29, 31, 30, 31, 30, 31, 31, 30, 31, 30, 31]
    } else {
        [31, 28, 31, 30, 31, 30, 31, 31, 30, 31, 30, 31]
    };
    for &dim in days_in_months.iter() {
        if days < dim {
            break;
        }
        days -= dim;
        month += 1;
    }
    let day = (days + 1) as u8;
    Date { year, month, day, hour, minute, second }
}

fn expected_timestamp(date: &Date) -> i64 {
    let mut total_days: i64 = 0;
    for y in 1970..date.year {
        total_days += if is_leap(y) { 366 } else { 365 };
    }
    let days_in_months: [i64; 12] = if is_leap(date.year) {
        [31, 29, 31, 30, 31, 30, 31, 31, 30, 31, 30, 31]
    } else {
        [31, 28, 31, 30, 31, 30, 31, 31, 30, 31, 30, 31]
    };
    for i in 0..(date.month - 1) as usize {
        total_days += days_in_months[i];
    }
    total_days += (date.day - 1) as i64;
    total_days * 86400 + (date.hour as i64) * 3600 + (date.minute as i64) * 60 + (date.second as i64)
}

fn expected_pattern(date: &Date, pattern: &str, with_stamp: bool) -> String {
    let text = pattern
        .replace("YYYY", &format!("{:04}", date.year))
        .replace("yy", &format!("{:02}", date.year % 100))
        .replace("mm", &format!("{:02}", date.month))
        .replace("dd", &format!("{:02}", date.day))
        .replace("HH", &format!("{:02}", date.hour))
        .replace("MM", &format!("{:02}", date.minute))
        .replace("SS", &format!("{:02}", date.second));
    if with_stamp {
        text.replace("TS", &expected_timestamp(date).to_string())
    } else {
        text
    }
}

fn all_texts(alphabet: &[&str], up_to: usize) -> Vec<String> {
    let mut texts: Vec<String> = vec![String::new()];
    let mut level: Vec<String> = vec![String::new()];
    for _ in 0..up_to {
        let mut next = Vec::new();
        for t in &level {
            for c in alphabet {
                let mut longer = t.clone();
                longer.push_str(c);
                next.push(longer);
            }
        }
        texts.extend(next.iter().cloned());
        level = next;
    }
    texts
}

struct Picks(u64);

impl Picks {
    fn next(&mut self) -> u64 {
        self.0 ^= self.0 >> 12;
        self.0 ^= self.0 << 25;
        self.0 ^= self.0 >> 27;
        self.0.wrapping_mul(0x2545_F491_4F6C_DD1D)
    }
}

#[test]
fn rfc3339_texts() {
    let mut picks = Picks(0x9E37_79B9_7F4A_7C15);
    let pieces = ["0", "1", "2", "3", "9", "-", ":", "T", "Z", "+", " ", "x", "\u{e9}", "\u{20ac}"];
    for _ in 0..200_000 {
        let mut text: Vec<char> = "2024-02-29T23:59:60Z".chars().collect();
        let changes = picks.next() % 4;
        for _ in 0..changes {
            let at = (picks.next() % text.len() as u64) as usize;
            let piece = pieces[(picks.next() % pieces.len() as u64) as usize];
            text[at] = piece.chars().next().unwrap();
        }
        let keep = if picks.next() % 8 == 0 { (picks.next() % 21) as usize } else { text.len() };
        let text: String = text.into_iter().take(keep).collect();
        let got = Rfc3339::parse(&text).map(|r| {
            assert_eq!(r.offset_str, None);
            r.date
        });
        assert_eq!(got, expected_rfc3339(&text), "{:?}", text);
    }
}

#[test]
fn iso8601_texts_of_pieces() {
    let pieces = ["2023", "02", "29", "1", "-", ":", "T", "Z", "+", "x", "\u{e9}"];
    for text in all_texts(&pieces, 6) {
        let got = Iso8601::parse(&text).map(|r| {
            assert_eq!(r.offset_str, None);
            r.date
        });
        assert_eq!(got, expected_iso8601(&text), "{:?}", text);
    }
}

#[test]
fn iso8601_texts_changed() {
    let mut picks = Picks(0x1234_5678_9ABC_DEF1);
    let pieces = ["0", "1", "2", "3", "9", "-", ":", "T", "Z", "+", "x", "\u{e9}", "\u{20ac}"];
    for start in ["2024-02-29T23:59:60Z", "20240229T235960", "2024-02-29T23:59", "20240229T2359ZZ", "300-400-500T600:7:8"] {
        for _ in 0..50_000 {
            let mut text: Vec<char> = start.chars().collect();
            let changes = picks.next() % 4;
            for _ in 0..changes {
                let at = (picks.next() % text.len() as u64) as usize;
                let piece = pieces[(picks.next() % pieces.len() as u64) as usize];
                text[at] = piece.chars().next().unwrap();
            }
            let text: String = text.into_iter().collect();
            let got = Iso8601::parse(&text).map(|r| r.date);
            assert_eq!(got, expected_iso8601(&text), "{:?}", text);
        }
    }
}

#[test]
fn durations_of_pieces() {
    let pieces = ["P", "T", "Y", "M", "D", "H", "S", "0", "12", "4294967295", "4294967296", "x"];
    for text in all_texts(&pieces, 5) {
        let got = IsoDuration::parse(&text);
        assert_eq!(got, expected_duration(&text), "{:?}", text);
        if let Ok(d) = got {
            assert_eq!(d.to_string(), expected_duration_text(&d), "{:?}", text);
        }
    }
}

#[test]
fn moments() {
    let mut picks = Picks(0xDEAD_BEEF_0BAD_F00D);
    let mut stamps: Vec<i64> = vec![0, 1, 59, 60, 3599, 3600, 86399, 86400, 951782399, 951782400, 4102444800];
    for _ in 0..20_000 {
        stamps.push((picks.next() % 400_000_000_000) as i64);
        stamps.push(-((picks.next() % 400_000_000_000) as i64));
        stamps.push(picks.next() as i64 % 100_000);
    }
    for ts in stamps {
        let date = Posix::from_timestamp(ts).unwrap().date;
        assert_eq!(date, expected_moment(ts), "{}", ts);
        if ts >= 0 {
            let posix = Posix { date };
            assert_eq!(posix.timestamp(), ts);
            assert_eq!(posix.to_string_timestamp(), ts.to_string());
            assert_eq!(Posix::parse(&ts.to_string()).unwrap().date, date);
        }
    }
}

#[test]
fn timestamps_and_patterns_of_any_fields() {
    let mut picks = Picks(0x0123_4567_89AB_CDEF);
    let patterns = all_texts(&["YYYY", "yy", "y", "mm", "dd", "HH", "MM", "SS", "TS", "T", "-"], 3);
    for round in 0..3_000 {
        let date = Date {
            year: (picks.next() % 6000) as i32 - 1000,
            month: (picks.next() % 13) as u8 + 1,
            day: (picks.next() % 255) as u8 + 1,
            hour: picks.next() as u8,
            minute: picks.next() as u8,
            second: picks.next() as u8,
        };
        let posix = Posix { date };
        let rfc = Rfc3339 { date, offset_str: None };
        let iso = Iso8601 { date, offset_str: None };
        assert_eq!(posix.timestamp(), expected_timestamp(&date), "{:?}", date);
        assert_eq!(posix.to_string_timestamp(), expected_timestamp(&date).to_string());
        assert_eq!(
            posix.to_human_string(),
            format!(
                "{:04}-{:02}-{:02} {:02}:{:02}:{:02} UTC",
                date.year, date.month, date.day, date.hour, date.minute, date.second
            )
        );
        assert_eq!(
            rfc.to_human_string(),
            format!(
                "{:02}/{:02}/{:04} - {:02}:{:02}",
                date.day, date.month, date.year, date.hour, date.minute
            )
        );
        assert_eq!(
            rfc.to_rfc3339(),
            format!(
                "{:04}-{:02}-{:02}T{:02}:{:02}:{:02}Z",
                date.year, date.month, date.day, date.hour, date.minute, date.second
            )
        );
        assert_eq!(
            iso.to_iso8601(),
            format!(
                "{:04}-{:02}-{:02}T{:02}:{:02}:{:02}",
                date.year, date.month, date.day, date.hour, date.minute, date.second
            )
        );
        assert_eq!(
            iso.to_iso8601_basic(),
            format!(
                "{:04}{:02}{:02}T{:02}{:02}{:02}",
                date.year, date.month, date.day, date.hour, date.minute, date.second
            )
        );
        let pattern = &patterns[round % patterns.len()];
        assert_eq!(posix.format(pattern), expected_pattern(&date, pattern, true), "{:?}", pattern);
        assert_eq!(rfc.format(pattern), expected_pattern(&date, pattern, false), "{:?}", pattern);
        assert_eq!(
            Rfc3339::is_valid_calendar(date.year, date.month, date.day, date.hour, date.minute, date.second),
            calendar_ok(date.year, date.month, date.day, date.hour, date.minute, date.second)
        );
        assert_eq!(Posix::is_leap_year(date.year), is_leap(date.year));
    }
}
