//! Dates and durations as ISO 8601 writes them.

use vstd::prelude::*;
use vstd::slice::slice_subrange;
use crate::date::calendar::{calendar_valid, valid_calendar};
use crate::date::date::Date;
use crate::text::{chars_of, push_str, string_of};
use crate::text::bytes::{byte_len, byte_length, byte_slice, slice_bytes};
use crate::text::decimal::{
    all_digits,
    digits_value,
    is_decimal_digit,
    lemma_nat_text_len,
    nat_text,
    padded,
    parse_unsigned,
    push_nat,
    push_padded,
    read_digits,
    read_unsigned,
};
use crate::text::edit::{contains_char, has_char, split, split_chars, trim_end, trim_end_len};

verus! {

/// A date read from or written as ISO 8601 text, in the extended form
/// `YYYY-MM-DDTHH:MM:SS` or the basic form `YYYYMMDDTHHMMSS`.
#[derive(Debug, Clone, Copy, PartialEq, Eq)]
pub struct Iso8601 {
    pub date: Date,
    pub offset_str: Option<&'static str>,
}

/// A span of time as ISO 8601 writes it, such as `P3Y6M4DT12H30M5S`.
#[derive(Debug, Clone, Copy, PartialEq, Eq, Structural)]
pub struct IsoDuration {
    pub years: u32,
    pub months: u32,
    pub days: u32,
    pub hours: u32,
    pub minutes: u32,
    pub seconds: u32,
}

/// What is said of a part that holds no number.
pub open spec fn number_error(part: Seq<char>) -> Seq<char> {
    "Invalid number: "@ + part
}

/// The number that `part` writes, up to `max`.
pub open spec fn number(part: Seq<char>, max: nat) -> Result<nat, Seq<char>> {
    match parse_unsigned(part, max) {
        Some(v) => Ok(v),
        None => Err(number_error(part)),
    }
}

/// The number in the bytes `from` to `to` of `s`. Where those bytes would cut
/// a character in two, all of `s` is named as what holds no number.
pub open spec fn number_at(s: Seq<char>, from: nat, to: nat, max: nat) -> Result<
    nat,
    Seq<char>,
> {
    match byte_slice(s, from, to) {
        Some(part) => number(part, max),
        None => Err(number_error(s)),
    }
}

/// Three numbers, or the failure of the first that fails.
pub open spec fn three(
    a: Result<nat, Seq<char>>,
    b: Result<nat, Seq<char>>,
    c: Result<nat, Seq<char>>,
) -> Result<(nat, nat, nat), Seq<char>> {
    match a {
        Err(e) => Err(e),
        Ok(x) => match b {
            Err(e) => Err(e),
            Ok(y) => match c {
                Err(e) => Err(e),
                Ok(z) => Ok((x, y, z)),
            },
        },
    }
}

/// Year, month and day of a date part: `YYYY-MM-DD` where it holds a hyphen,
/// else the eight bytes `YYYYMMDD`.
pub open spec fn date_part(s: Seq<char>) -> Result<(nat, nat, nat), Seq<char>> {
    if has_char(s, '-') {
        let parts = split(s, '-');
        if parts.len() != 3 {
            Err("Invalid extended date format"@)
        } else {
            three(
                number(parts[0], 0xFFFF_FFFF),
                number(parts[1], 0xFFFF_FFFF),
                number(parts[2], 0xFFFF_FFFF),
            )
        }
    } else if byte_len(s) != 8 {
        Err("Invalid basic date length"@)
    } else {
        three(
            number_at(s, 0, 4, 0xFFFF_FFFF),
            number_at(s, 4, 6, 0xFFFF_FFFF),
            number_at(s, 6, 8, 0xFFFF_FFFF),
        )
    }
}

/// Hour, minute and second of a time part: `HH:MM` or `HH:MM:SS` where it
/// holds a colon, else the bytes `HHMMSS` or `HHMM`. A second that is not
/// written is 0.
pub open spec fn time_part(s: Seq<char>) -> Result<(nat, nat, nat), Seq<char>> {
    if has_char(s, ':') {
        let parts = split(s, ':');
        if parts.len() < 2 {
            Err("Invalid extended time format"@)
        } else {
            three(
                number(parts[0], 255),
                number(parts[1], 255),
                if parts.len() > 2 {
                    number(parts[2], 255)
                } else {
                    Ok(0)
                },
            )
        }
    } else if byte_len(s) == 6 {
        three(number_at(s, 0, 2, 255), number_at(s, 2, 4, 255), number_at(s, 4, 6, 255))
    } else if byte_len(s) == 4 {
        three(number_at(s, 0, 2, 255), number_at(s, 2, 4, 255), Ok(0))
    } else {
        Err("Invalid basic time length"@)
    }
}

/// What `s` is read as: a date part and a time part with one `T` between
/// them, the time part without any `Z` at its end.
pub open spec fn parsed(s: Seq<char>) -> Result<Date, Seq<char>> {
    if s.len() == 0 {
        Err("String is empty"@)
    } else if split(s, 'T').len() != 2 {
        Err("Missing 'T' separator or invalid format"@)
    } else {
        match date_part(split(s, 'T')[0]) {
            Err(e) => Err(e),
            Ok((y, m, d)) => match time_part(trim_end(split(s, 'T')[1], 'Z')) {
                Err(e) => Err(e),
                Ok((h, min, sec)) => {
                    let date = Date {
                        year: y as i32,
                        month: m as u8,
                        day: d as u8,
                        hour: h as u8,
                        minute: min as u8,
                        second: sec as u8,
                    };
                    if date.valid() {
                        Ok(date)
                    } else {
                        Err("Semantically invalid date"@)
                    }
                },
            },
        }
    }
}

/// `YYYY-MM-DDTHH:MM:SS`.
pub open spec fn extended_text(d: Date) -> Seq<char> {
    padded(d.year as int, 4) + seq!['-'] + padded(d.month as int, 2) + seq!['-'] + padded(
        d.day as int,
        2,
    ) + seq!['T'] + padded(d.hour as int, 2) + seq![':'] + padded(d.minute as int, 2) + seq![':']
        + padded(d.second as int, 2)
}

/// `YYYYMMDDTHHMMSS`.
pub open spec fn basic_text(d: Date) -> Seq<char> {
    padded(d.year as int, 4) + padded(d.month as int, 2) + padded(d.day as int, 2) + seq!['T']
        + padded(d.hour as int, 2) + padded(d.minute as int, 2) + padded(d.second as int, 2)
}

/// Says that `part` holds no number.
fn number_message(part: &[char]) -> (m: String)
    ensures
        m@ == number_error(part@),
{
    let mut out: Vec<char> = Vec::new();
    push_str(&mut out, "Invalid number: ");
    let mut i: usize = 0;
    let ghost head = out@;
    while i < part.len()
        invariant
            i <= part.len(),
            out@ == head + part@.take(i as int),
        decreases part.len() - i,
    {
        out.push(part[i]);
        assert(part@.take(i + 1) =~= part@.take(i as int).push(part@[i as int]));
        assert(out@ =~= head + part@.take(i + 1));
        i += 1;
    }
    assert(part@.take(part@.len() as int) =~= part@);
    string_of(out.as_slice())
}

/// Reads the number that `part` writes, up to `max`.
fn read_number(part: &[char], max: u64) -> (r: Result<u64, String>)
    ensures
        match number(part@, max as nat) {
            Ok(v) => r matches Ok(x) && x == v,
            Err(e) => r matches Err(m) && m@ == e,
        },
{
    match read_unsigned(part, max) {
        Some(v) => Ok(v),
        None => Err(number_message(part)),
    }
}

/// Reads the number in the bytes `from` to `to` of `s`, up to `max`.
fn read_number_at(s: &[char], from: usize, to: usize, max: u64) -> (r: Result<u64, String>)
    ensures
        match number_at(s@, from as nat, to as nat, max as nat) {
            Ok(v) => r matches Ok(x) && x == v,
            Err(e) => r matches Err(m) && m@ == e,
        },
{
    match slice_bytes(s, from, to) {
        Some(part) => read_number(part, max),
        None => Err(number_message(s)),
    }
}

/// Whether `r` is `expected`, number for number or failure for failure.
pub open spec fn same_three(
    r: Result<(u64, u64, u64), String>,
    expected: Result<(nat, nat, nat), Seq<char>>,
) -> bool {
    match expected {
        Ok((x, y, z)) => r matches Ok(t) && t.0 == x && t.1 == y && t.2 == z,
        Err(e) => r matches Err(m) && m@ == e,
    }
}

impl Iso8601 {
    /// Reads ISO 8601 text in the extended or the basic form.
    pub fn parse(s: &str) -> (r: Result<Iso8601, String>)
        ensures
            match parsed(s@) {
                Ok(d) => r matches Ok(x) && x.date == d && x.offset_str is None,
                Err(m) => r matches Err(e) && e@ == m,
            },
    {
        let v = chars_of(s);
        if v.len() == 0 {
            return Err("String is empty".to_owned());
        }
        let parts = split_chars(v.as_slice(), 'T');
        if parts.len() != 2 {
            return Err("Missing 'T' separator or invalid format".to_owned());
        }
        let date_chars = parts[0].as_slice();
        let time_all = parts[1].as_slice();
        let time_chars = slice_subrange(time_all, 0, trim_end_len(time_all, 'Z'));
        assert(time_chars@ =~= trim_end(split(s@, 'T')[1], 'Z'));
        let (y, m, d) = match Iso8601::parse_date_part(date_chars) {
            Ok(t) => t,
            Err(e) => {
                return Err(e);
            },
        };
        let (h, min, sec) = match Iso8601::parse_time_part(time_chars) {
            Ok(t) => t,
            Err(e) => {
                return Err(e);
            },
        };
        let year = #[verifier::truncate] (y as i32);
        let month = #[verifier::truncate] (m as u8);
        let day = #[verifier::truncate] (d as u8);
        let hour = #[verifier::truncate] (h as u8);
        let minute = #[verifier::truncate] (min as u8);
        let second = #[verifier::truncate] (sec as u8);
        if !Iso8601::is_valid_calendar(year, month, day, hour, minute, second) {
            return Err("Semantically invalid date".to_owned());
        }
        let date = Date { year, month, day, hour, minute, second };
        Ok(Iso8601 { date, offset_str: None })
    }

    /// Year, month and day of a date part.
    pub fn parse_date_part(s: &[char]) -> (r: Result<(u64, u64, u64), String>)
        ensures
            same_three(r, date_part(s@)),
    {
        if contains_char(s, '-') {
            let parts = split_chars(s, '-');
            if parts.len() != 3 {
                return Err("Invalid extended date format".to_owned());
            }
            let y = match read_number(parts[0].as_slice(), 0xFFFF_FFFF) {
                Ok(v) => v,
                Err(e) => {
                    return Err(e);
                },
            };
            let m = match read_number(parts[1].as_slice(), 0xFFFF_FFFF) {
                Ok(v) => v,
                Err(e) => {
                    return Err(e);
                },
            };
            let d = match read_number(parts[2].as_slice(), 0xFFFF_FFFF) {
                Ok(v) => v,
                Err(e) => {
                    return Err(e);
                },
            };
            Ok((y, m, d))
        } else {
            if byte_length(s) != 8 {
                return Err("Invalid basic date length".to_owned());
            }
            let y = match read_number_at(s, 0, 4, 0xFFFF_FFFF) {
                Ok(v) => v,
                Err(e) => {
                    return Err(e);
                },
            };
            let m = match read_number_at(s, 4, 6, 0xFFFF_FFFF) {
                Ok(v) => v,
                Err(e) => {
                    return Err(e);
                },
            };
            let d = match read_number_at(s, 6, 8, 0xFFFF_FFFF) {
                Ok(v) => v,
                Err(e) => {
                    return Err(e);
                },
            };
            Ok((y, m, d))
        }
    }

    /// Hour, minute and second of a time part.
    pub fn parse_time_part(s: &[char]) -> (r: Result<(u64, u64, u64), String>)
        ensures
            same_three(r, time_part(s@)),
    {
        if contains_char(s, ':') {
            let parts = split_chars(s, ':');
            if parts.len() < 2 {
                return Err("Invalid extended time format".to_owned());
            }
            let h = match read_number(parts[0].as_slice(), 255) {
                Ok(v) => v,
                Err(e) => {
                    return Err(e);
                },
            };
            let m = match read_number(parts[1].as_slice(), 255) {
                Ok(v) => v,
                Err(e) => {
                    return Err(e);
                },
            };
            let sec = if parts.len() > 2 {
                match read_number(parts[2].as_slice(), 255) {
                    Ok(v) => v,
                    Err(e) => {
                        return Err(e);
                    },
                }
            } else {
                0
            };
            Ok((h, m, sec))
        } else {
            let n = byte_length(s);
            if n != 6 && n != 4 {
                return Err("Invalid basic time length".to_owned());
            }
            let h = match read_number_at(s, 0, 2, 255) {
                Ok(v) => v,
                Err(e) => {
                    return Err(e);
                },
            };
            let m = match read_number_at(s, 2, 4, 255) {
                Ok(v) => v,
                Err(e) => {
                    return Err(e);
                },
            };
            let sec = if n == 6 {
                match read_number_at(s, 4, 6, 255) {
                    Ok(v) => v,
                    Err(e) => {
                        return Err(e);
                    },
                }
            } else {
                0
            };
            Ok((h, m, sec))
        }
    }

    /// The date in the extended form, `YYYY-MM-DDTHH:MM:SS`.
    pub fn to_iso8601(&self) -> (s: String)
        ensures
            s@ == extended_text(self.date),
    {
        let mut out: Vec<char> = Vec::new();
        push_padded(&mut out, self.date.year as i64, 4);
        out.push('-');
        push_padded(&mut out, self.date.month as i64, 2);
        out.push('-');
        push_padded(&mut out, self.date.day as i64, 2);
        out.push('T');
        push_padded(&mut out, self.date.hour as i64, 2);
        out.push(':');
        push_padded(&mut out, self.date.minute as i64, 2);
        out.push(':');
        push_padded(&mut out, self.date.second as i64, 2);
        assert(out@ =~= extended_text(self.date));
        string_of(out.as_slice())
    }

    /// The date in the basic form, `YYYYMMDDTHHMMSS`.
    pub fn to_iso8601_basic(&self) -> (s: String)
        ensures
            s@ == basic_text(self.date),
    {
        let mut out: Vec<char> = Vec::new();
        push_padded(&mut out, self.date.year as i64, 4);
        push_padded(&mut out, self.date.month as i64, 2);
        push_padded(&mut out, self.date.day as i64, 2);
        out.push('T');
        push_padded(&mut out, self.date.hour as i64, 2);
        push_padded(&mut out, self.date.minute as i64, 2);
        push_padded(&mut out, self.date.second as i64, 2);
        assert(out@ =~= basic_text(self.date));
        string_of(out.as_slice())
    }

    /// Whether the fields name a day of the calendar and a time of that day.
    pub fn is_valid_calendar(y: i32, m: u8, d: u8, h: u8, min: u8, s: u8) -> (r: bool)
        ensures
            r == valid_calendar(y as int, m as int, d as int, h as int, min as int, s as int),
    {
        calendar_valid(y, m, d, h, min, s)
    }
}

/// Where the reading of a duration stands: the fields read so far, the
/// digits read since the last letter, and whether `T` has been met.
pub struct Reading {
    pub duration: IsoDuration,
    pub digits: Seq<char>,
    pub in_time: bool,
}

/// The number that the digits before a letter write, or `error` where there
/// are none or they write more than 32 bits hold.
pub open spec fn amount(digits: Seq<char>, error: Seq<char>) -> Result<u32, Seq<char>> {
    if digits.len() > 0 && digits_value(digits) <= 0xFFFF_FFFF {
        Ok(digits_value(digits) as u32)
    } else {
        Err(error)
    }
}

/// What is said of a character that a duration cannot hold.
pub open spec fn character_error(c: char) -> Seq<char> {
    "Invalid character in duration: "@ + seq![c]
}

/// The reading after one more character.
pub open spec fn step(r: Reading, c: char) -> Result<Reading, Seq<char>> {
    let d = r.duration;
    if is_decimal_digit(c) {
        Ok(Reading { digits: r.digits.push(c), ..r })
    } else if c == 'T' {
        if r.digits.len() > 0 {
            Err("Unexpected number before 'T'"@)
        } else {
            Ok(Reading { in_time: true, ..r })
        }
    } else if c == 'Y' {
        if r.in_time {
            Err("Years not allowed in time part"@)
        } else {
            match amount(r.digits, "Invalid year"@) {
                Err(e) => Err(e),
                Ok(n) => Ok(
                    Reading {
                        duration: IsoDuration { years: n, ..d },
                        digits: Seq::empty(),
                        ..r
                    },
                ),
            }
        }
    } else if c == 'M' {
        match amount(r.digits, "Invalid number for M"@) {
            Err(e) => Err(e),
            Ok(n) => Ok(
                Reading {
                    duration: if r.in_time {
                        IsoDuration { minutes: n, ..d }
                    } else {
                        IsoDuration { months: n, ..d }
                    },
                    digits: Seq::empty(),
                    ..r
                },
            ),
        }
    } else if c == 'D' {
        if r.in_time {
            Err("Days not allowed in time part"@)
        } else {
            match amount(r.digits, "Invalid day"@) {
                Err(e) => Err(e),
                Ok(n) => Ok(
                    Reading { duration: IsoDuration { days: n, ..d }, digits: Seq::empty(), ..r },
                ),
            }
        }
    } else if c == 'H' {
        if !r.in_time {
            Err("Hours must be after 'T'"@)
        } else {
            match amount(r.digits, "Invalid hour"@) {
                Err(e) => Err(e),
                Ok(n) => Ok(
                    Reading {
                        duration: IsoDuration { hours: n, ..d },
                        digits: Seq::empty(),
                        ..r
                    },
                ),
            }
        }
    } else if c == 'S' {
        if !r.in_time {
            Err("Seconds must be after 'T'"@)
        } else {
            match amount(r.digits, "Invalid second"@) {
                Err(e) => Err(e),
                Ok(n) => Ok(
                    Reading {
                        duration: IsoDuration { seconds: n, ..d },
                        digits: Seq::empty(),
                        ..r
                    },
                ),
            }
        }
    } else {
        Err(character_error(c))
    }
}

/// The duration after all of `s` has been read from the reading `r` on.
/// Digits that no letter follows are dropped.
pub open spec fn read_all(r: Reading, s: Seq<char>) -> Result<IsoDuration, Seq<char>>
    decreases s.len(),
{
    if s.len() == 0 {
        Ok(r.duration)
    } else {
        match step(r, s[0]) {
            Err(e) => Err(e),
            Ok(next) => read_all(next, s.skip(1)),
        }
    }
}

/// The duration without any time.
pub open spec fn zero_duration() -> IsoDuration {
    IsoDuration { years: 0, months: 0, days: 0, hours: 0, minutes: 0, seconds: 0 }
}

/// What `s` is read as: `P`, then amounts with their letters, those of the
/// time of day after a `T`.
pub open spec fn duration_parsed(s: Seq<char>) -> Result<IsoDuration, Seq<char>> {
    if s.len() == 0 || s[0] != 'P' {
        Err("Duration string must start with 'P'"@)
    } else {
        read_all(
            Reading { duration: zero_duration(), digits: Seq::empty(), in_time: false },
            s.skip(1),
        )
    }
}

/// An amount with its letter, or nothing for an amount of zero.
pub open spec fn amount_text(n: u32, letter: char) -> Seq<char> {
    if n > 0 {
        nat_text(n as nat).push(letter)
    } else {
        Seq::empty()
    }
}

/// A duration as text: `P`, the amounts that are not zero with their
/// letters, a `T` before those of the time of day; `P0D` where all are zero.
pub open spec fn duration_text(d: IsoDuration) -> Seq<char> {
    let date = amount_text(d.years, 'Y') + amount_text(d.months, 'M') + amount_text(d.days, 'D');
    let time = amount_text(d.hours, 'H') + amount_text(d.minutes, 'M') + amount_text(
        d.seconds,
        'S',
    );
    if date.len() == 0 && time.len() == 0 {
        seq!['P', '0', 'D']
    } else if time.len() == 0 {
        seq!['P'] + date
    } else {
        seq!['P'] + date + seq!['T'] + time
    }
}

/// Reads the digits before a letter.
fn read_amount(digits: &Vec<char>, error: &str) -> (r: Result<u32, String>)
    requires
        all_digits(digits@),
    ensures
        match amount(digits@, error@) {
            Ok(n) => r == Ok::<u32, String>(n),
            Err(e) => r matches Err(m) && m@ == e,
        },
{
    match read_digits(digits.as_slice(), 0xFFFF_FFFF) {
        Some(v) => Ok(v as u32),
        None => Err(error.to_owned()),
    }
}

/// Appends an amount with its letter, unless the amount is zero.
fn push_amount(out: &mut Vec<char>, n: u32, letter: char)
    ensures
        final(out)@ == old(out)@ + amount_text(n, letter),
{
    if n > 0 {
        push_nat(out, n as u64);
        out.push(letter);
    }
    assert(final(out)@ =~= old(out)@ + amount_text(n, letter));
}

impl Default for IsoDuration {
    /// The duration without any time.
    fn default() -> (d: IsoDuration)
        ensures
            d == zero_duration(),
    {
        IsoDuration { years: 0, months: 0, days: 0, hours: 0, minutes: 0, seconds: 0 }
    }
}

impl IsoDuration {
    /// Reads an ISO 8601 duration such as `P3Y6M4DT12H30M5S`.
    pub fn parse(s: &str) -> (r: Result<IsoDuration, String>)
        ensures
            match duration_parsed(s@) {
                Ok(d) => r == Ok::<IsoDuration, String>(d),
                Err(m) => r matches Err(e) && e@ == m,
            },
    {
        let chars = chars_of(s);
        if chars.len() == 0 || chars[0] != 'P' {
            return Err("Duration string must start with 'P'".to_owned());
        }
        let mut dur = IsoDuration::default();
        let mut num_buf: Vec<char> = Vec::new();
        let mut is_time_part = false;
        let mut i: usize = 1;
        while i < chars.len()
            invariant
                1 <= i <= chars.len(),
                chars@ == s@,
                s@.len() > 0 && s@[0] == 'P',
                all_digits(num_buf@),
                duration_parsed(s@) == read_all(
                    Reading { duration: dur, digits: num_buf@, in_time: is_time_part },
                    chars@.skip(i as int),
                ),
            decreases chars.len() - i,
        {
            let c = chars[i];
            assert(chars@.skip(i as int).skip(1) =~= chars@.skip(i + 1));
            assert(chars@.skip(i as int)[0] == c);
            if '0' <= c && c <= '9' {
                num_buf.push(c);
            } else if c == 'T' {
                is_time_part = true;
                if num_buf.len() > 0 {
                    return Err("Unexpected number before 'T'".to_owned());
                }
            } else if c == 'Y' {
                if is_time_part {
                    return Err("Years not allowed in time part".to_owned());
                }
                match read_amount(&num_buf, "Invalid year") {
                    Ok(n) => {
                        dur.years = n;
                    },
                    Err(e) => {
                        return Err(e);
                    },
                }
                num_buf = Vec::new();
            } else if c == 'M' {
                match read_amount(&num_buf, "Invalid number for M") {
                    Ok(n) => {
                        if is_time_part {
                            dur.minutes = n;
                        } else {
                            dur.months = n;
                        }
                    },
                    Err(e) => {
                        return Err(e);
                    },
                }
                num_buf = Vec::new();
            } else if c == 'D' {
                if is_time_part {
                    return Err("Days not allowed in time part".to_owned());
                }
                match read_amount(&num_buf, "Invalid day") {
                    Ok(n) => {
                        dur.days = n;
                    },
                    Err(e) => {
                        return Err(e);
                    },
                }
                num_buf = Vec::new();
            } else if c == 'H' {
                if !is_time_part {
                    return Err("Hours must be after 'T'".to_owned());
                }
                match read_amount(&num_buf, "Invalid hour") {
                    Ok(n) => {
                        dur.hours = n;
                    },
                    Err(e) => {
                        return Err(e);
                    },
                }
                num_buf = Vec::new();
            } else if c == 'S' {
                if !is_time_part {
                    return Err("Seconds must be after 'T'".to_owned());
                }
                match read_amount(&num_buf, "Invalid second") {
                    Ok(n) => {
                        dur.seconds = n;
                    },
                    Err(e) => {
                        return Err(e);
                    },
                }
                num_buf = Vec::new();
            } else {
                let mut out: Vec<char> = Vec::new();
                push_str(&mut out, "Invalid character in duration: ");
                out.push(c);
                assert(out@ =~= character_error(c));
                return Err(string_of(out.as_slice()));
            }
            i += 1;
        }
        Ok(dur)
    }

    /// The duration as ISO 8601 text.
    pub fn to_string(&self) -> (s: String)
        ensures
            s@ == duration_text(*self),
    {
        let ghost date = amount_text(self.years, 'Y') + amount_text(self.months, 'M')
            + amount_text(self.days, 'D');
        let ghost time = amount_text(self.hours, 'H') + amount_text(self.minutes, 'M')
            + amount_text(self.seconds, 'S');
        proof {
            lemma_nat_text_len(self.years as nat);
            lemma_nat_text_len(self.months as nat);
            lemma_nat_text_len(self.days as nat);
            lemma_nat_text_len(self.hours as nat);
            lemma_nat_text_len(self.minutes as nat);
            lemma_nat_text_len(self.seconds as nat);
        }
        let mut out: Vec<char> = Vec::new();
        out.push('P');
        push_amount(&mut out, self.years, 'Y');
        push_amount(&mut out, self.months, 'M');
        push_amount(&mut out, self.days, 'D');
        assert(out@ =~= seq!['P'] + date);
        if self.hours > 0 || self.minutes > 0 || self.seconds > 0 {
            out.push('T');
            let ghost head = out@;
            push_amount(&mut out, self.hours, 'H');
            push_amount(&mut out, self.minutes, 'M');
            push_amount(&mut out, self.seconds, 'S');
            assert(out@ =~= head + time);
            assert(time.len() > 0);
            assert(out@ =~= seq!['P'] + date + seq!['T'] + time);
        } else {
            assert(time.len() == 0);
            if out.len() == 1 {
                assert(date.len() == 0);
                out.push('0');
                out.push('D');
                assert(out@ =~= seq!['P', '0', 'D']);
            } else {
                assert(date.len() > 0);
            }
        }
        string_of(out.as_slice())
    }
}

} // verus!
