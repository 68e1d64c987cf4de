//! Dates as RFC 3339 writes them, such as `2023-11-23T14:30:00Z`.

use vstd::prelude::*;
use crate::date::calendar::{calendar_valid, rem_toward_zero, short_year, valid_calendar};
use crate::date::date::Date;
use crate::text::{chars_of, push_str, string_of};
use crate::text::bytes::{byte_len, byte_length, byte_slice, slice_bytes};
use crate::text::decimal::{nat_text, padded, parse_unsigned, push_nat, push_padded, read_unsigned};
use crate::text::edit::{replace_all, replaced};

verus! {

/// A date read from or written as RFC 3339 text.
#[derive(Debug, Clone, Copy, PartialEq, Eq)]
pub struct Rfc3339 {
    pub date: Date,
    pub offset_str: Option<&'static str>,
}

/// The number in the bytes `from` to `to` of `s`, if they hold an unsigned
/// number of 32 bits.
pub open spec fn field(s: Seq<char>, from: nat, to: nat) -> Option<nat> {
    match byte_slice(s, from, to) {
        Some(part) => parse_unsigned(part, 0xFFFF_FFFF),
        None => None,
    }
}

/// What is said of a field that holds no number.
pub open spec fn field_error(from: nat, to: nat) -> Seq<char> {
    "Error parsing number between indices "@ + nat_text(from) + " and "@ + nat_text(to)
}

/// The date that the six fields of `s` give, before the calendar is asked.
pub open spec fn fields_date(s: Seq<char>) -> Date {
    Date {
        year: field(s, 0, 4).unwrap() as i32,
        month: field(s, 5, 7).unwrap() as u8,
        day: field(s, 8, 10).unwrap() as u8,
        hour: field(s, 11, 13).unwrap() as u8,
        minute: field(s, 14, 16).unwrap() as u8,
        second: field(s, 17, 19).unwrap() as u8,
    }
}

/// What `s` is read as: the fields stand at fixed bytes, the characters
/// between them are not looked at, and what follows byte 19 is not either.
pub open spec fn parsed(s: Seq<char>) -> Result<Date, Seq<char>> {
    if byte_len(s) < 19 {
        Err("String too short"@)
    } else if field(s, 0, 4) is None {
        Err(field_error(0, 4))
    } else if field(s, 5, 7) is None {
        Err(field_error(5, 7))
    } else if field(s, 8, 10) is None {
        Err(field_error(8, 10))
    } else if field(s, 11, 13) is None {
        Err(field_error(11, 13))
    } else if field(s, 14, 16) is None {
        Err(field_error(14, 16))
    } else if field(s, 17, 19) is None {
        Err(field_error(17, 19))
    } else if !fields_date(s).valid() {
        Err("Semantically invalid date"@)
    } else {
        Ok(fields_date(s))
    }
}

/// `DD/MM/YYYY - HH:MM`.
pub open spec fn human_text(d: Date) -> Seq<char> {
    padded(d.day as int, 2) + seq!['/'] + padded(d.month as int, 2) + seq!['/'] + padded(
        d.year as int,
        4,
    ) + seq![' ', '-', ' '] + padded(d.hour as int, 2) + seq![':'] + padded(d.minute as int, 2)
}

/// `YYYY-MM-DDTHH:MM:SSZ`.
pub open spec fn rfc3339_text(d: Date) -> Seq<char> {
    padded(d.year as int, 4) + seq!['-'] + padded(d.month as int, 2) + seq!['-'] + padded(
        d.day as int,
        2,
    ) + seq!['T'] + padded(d.hour as int, 2) + seq![':'] + padded(d.minute as int, 2) + seq![':']
        + padded(d.second as int, 2) + seq!['Z']
}

/// `pattern` with the tokens `YYYY`, `yy`, `mm`, `dd`, `HH`, `MM`, `SS`
/// replaced, one token after the other in this order, by the fields of `d`.
pub open spec fn pattern_text(d: Date, pattern: Seq<char>) -> Seq<char> {
    let a = replaced(pattern, "YYYY"@, padded(d.year as int, 4));
    let b = replaced(a, "yy"@, padded(rem_toward_zero(d.year as int, 100), 2));
    let c = replaced(b, "mm"@, padded(d.month as int, 2));
    let e = replaced(c, "dd"@, padded(d.day as int, 2));
    let f = replaced(e, "HH"@, padded(d.hour as int, 2));
    let g = replaced(f, "MM"@, padded(d.minute as int, 2));
    replaced(g, "SS"@, padded(d.second as int, 2))
}

/// Reads the field in the bytes `from` to `to`.
fn read_field(chars: &[char], from: usize, to: usize) -> (r: Option<u32>)
    ensures
        r is Some <==> field(chars@, from as nat, to as nat) is Some,
        r matches Some(v) ==> field(chars@, from as nat, to as nat) == Some(v as nat),
{
    match slice_bytes(chars, from, to) {
        Some(part) => match read_unsigned(part, 0xFFFF_FFFF) {
            Some(v) => Some(v as u32),
            None => None,
        },
        None => None,
    }
}

/// Says that the field in the bytes `from` to `to` holds no number.
fn field_message(from: usize, to: usize) -> (m: String)
    ensures
        m@ == field_error(from as nat, to as nat),
{
    let mut out: Vec<char> = Vec::new();
    push_str(&mut out, "Error parsing number between indices ");
    push_nat(&mut out, from as u64);
    push_str(&mut out, " and ");
    push_nat(&mut out, to as u64);
    assert(out@ =~= field_error(from as nat, to as nat));
    string_of(out.as_slice())
}

/// `text` with one token replaced by a field, filled up to `width`.
pub fn replace_token(text: Vec<char>, token: &str, value: i64, width: usize) -> (out: Vec<char>)
    ensures
        out@ == replaced(text@, token@, padded(value as int, width as nat)),
{
    let pat = chars_of(token);
    let mut with: Vec<char> = Vec::new();
    push_padded(&mut with, value, width);
    assert(with@ =~= padded(value as int, width as nat));
    replace_all(text.as_slice(), pat.as_slice(), with.as_slice())
}

impl Rfc3339 {
    /// Reads RFC 3339 text.
    ///
    /// The text must have at least 19 bytes, the six fields must hold
    /// numbers, and the date must be one of the calendar.
    pub fn parse(s: &str) -> (r: Result<Rfc3339, String>)
        ensures
            match parsed(s@) {
                Ok(d) => r matches Ok(x) && x.date == d && x.offset_str is None,
                Err(m) => r matches Err(e) && e@ == m,
            },
    {
        let v = chars_of(s);
        let chars = v.as_slice();
        if byte_length(chars) < 19 {
            return Err("String too short".to_owned());
        }
        let year = match read_field(chars, 0, 4) {
            Some(n) => #[verifier::truncate] (n as i32),
            None => {
                return Err(field_message(0, 4));
            },
        };
        let month = match read_field(chars, 5, 7) {
            Some(n) => #[verifier::truncate] (n as u8),
            None => {
                return Err(field_message(5, 7));
            },
        };
        let day = match read_field(chars, 8, 10) {
            Some(n) => #[verifier::truncate] (n as u8),
            None => {
                return Err(field_message(8, 10));
            },
        };
        let hour = match read_field(chars, 11, 13) {
            Some(n) => #[verifier::truncate] (n as u8),
            None => {
                return Err(field_message(11, 13));
            },
        };
        let minute = match read_field(chars, 14, 16) {
            Some(n) => #[verifier::truncate] (n as u8),
            None => {
                return Err(field_message(14, 16));
            },
        };
        let second = match read_field(chars, 17, 19) {
            Some(n) => #[verifier::truncate] (n as u8),
            None => {
                return Err(field_message(17, 19));
            },
        };
        if !Rfc3339::is_valid_calendar(year, month, day, hour, minute, second) {
            return Err("Semantically invalid date".to_owned());
        }
        let date = Date { year, month, day, hour, minute, second };
        Ok(Rfc3339 { date, offset_str: None })
    }

    /// The date as `DD/MM/YYYY - HH:MM`.
    pub fn to_human_string(&self) -> (s: String)
        ensures
            s@ == human_text(self.date),
    {
        let mut out: Vec<char> = Vec::new();
        push_padded(&mut out, self.date.day as i64, 2);
        out.push('/');
        push_padded(&mut out, self.date.month as i64, 2);
        out.push('/');
        push_padded(&mut out, self.date.year as i64, 4);
        out.push(' ');
        out.push('-');
        out.push(' ');
        push_padded(&mut out, self.date.hour as i64, 2);
        out.push(':');
        push_padded(&mut out, self.date.minute as i64, 2);
        assert(out@ =~= human_text(self.date));
        string_of(out.as_slice())
    }

    /// The date as RFC 3339 text, in UTC.
    pub fn to_rfc3339(&self) -> (s: String)
        ensures
            s@ == rfc3339_text(self.date),
    {
        let mut out: Vec<char> = Vec::new();
        push_padded(&mut out, self.date.year as i64, 4);
        out.push('-');
        push_padded(&mut out, self.date.month as i64, 2);
        out.push('-');
        push_padded(&mut out, self.date.day as i64, 2);
        out.push('T');
        push_padded(&mut out, self.date.hour as i64, 2);
        out.push(':');
        push_padded(&mut out, self.date.minute as i64, 2);
        out.push(':');
        push_padded(&mut out, self.date.second as i64, 2);
        out.push('Z');
        assert(out@ =~= rfc3339_text(self.date));
        string_of(out.as_slice())
    }

    /// `pattern` with the tokens `YYYY`, `yy`, `mm`, `dd`, `HH`, `MM` and
    /// `SS` replaced by the fields of the date.
    pub fn format(&self, pattern: &str) -> (s: String)
        ensures
            s@ == pattern_text(self.date, pattern@),
    {
        let text = chars_of(pattern);
        let text = replace_token(text, "YYYY", self.date.year as i64, 4);
        let text = replace_token(text, "yy", short_year(self.date.year) as i64, 2);
        let text = replace_token(text, "mm", self.date.month as i64, 2);
        let text = replace_token(text, "dd", self.date.day as i64, 2);
        let text = replace_token(text, "HH", self.date.hour as i64, 2);
        let text = replace_token(text, "MM", self.date.minute as i64, 2);
        let text = replace_token(text, "SS", self.date.second as i64, 2);
        string_of(text.as_slice())
    }

    /// Whether the fields name a day of the calendar and a time of that day.
    pub fn is_valid_calendar(y: i32, m: u8, d: u8, h: u8, min: u8, s: u8) -> (r: bool)
        ensures
            r == valid_calendar(y as int, m as int, d as int, h as int, min as int, s as int),
    {
        calendar_valid(y, m, d, h, min, s)
    }
}

} // verus!
