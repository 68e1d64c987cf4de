//! Dates as seconds since the first of January 1970, UTC.

use vstd::prelude::*;
use crate::date::calendar::{
    days_in_month,
    is_leap,
    leap_year,
    month_len,
    rem_toward_zero,
    short_year,
    year_len,
};
use crate::date::date::Date;
use crate::date::rcf3339::replace_token;
use crate::text::{chars_of, push_str, string_of};
use crate::text::decimal::{int_text, padded, parse_signed, push_int, push_padded, read_i64};
use crate::text::edit::{replace_all, replaced};

verus! {

/// A date read from or written as a POSIX timestamp.
#[derive(Debug, Clone, Copy, PartialEq, Eq)]
pub struct Posix {
    pub date: Date,
}

/// The first year whose number no longer fits the year of a `Date`.
pub open spec fn year_limit() -> int {
    0x8000_0000
}

/// How many days lie between the first of January 1970 and the first of
/// January of year `y`; nothing for a year before 1971.
pub open spec fn days_before_year(y: int) -> int
    decreases y - 1970,
{
    if y <= 1970 {
        0
    } else {
        days_before_year(y - 1) + year_len(y - 1)
    }
}

/// How many days of year `y` lie before the first of month `m`.
pub open spec fn days_before_month(y: int, m: int) -> int
    decreases m,
{
    if m <= 1 {
        0
    } else {
        days_before_month(y, m - 1) + days_in_month(y, m - 1)
    }
}

/// How many days lie between the first of January 1970 and the day of `d`.
pub open spec fn epoch_days(d: Date) -> int {
    days_before_year(d.year as int) + days_before_month(d.year as int, d.month as int) + d.day - 1
}

/// How many seconds lie between the start of 1970 and the moment `d`.
pub open spec fn epoch_seconds(d: Date) -> int {
    epoch_days(d) * 86400 + d.hour * 3600 + d.minute * 60 + d.second
}

/// What is said of a text that holds no timestamp.
pub open spec fn format_error(s: Seq<char>) -> Seq<char> {
    "Invalid timestamp format: "@ + s
}

/// What is said of a moment before 1970.
pub open spec fn negative_error() -> Seq<char> {
    "Negative timestamps (pre-1970) are not supported"@
}

/// The quotient of `a` by `b` rounded toward zero, as the machine divides.
pub open spec fn quot_toward_zero(a: int, b: int) -> int {
    if a >= 0 {
        a / b
    } else {
        -((-a) / b)
    }
}

/// What a timestamp before 1970 is taken for. Such a moment is not
/// supported: the year and the month stay those of the epoch, and the other
/// fields hold the low eight bits of quotients and remainders that are
/// negative or zero.
pub open spec fn before_epoch(ts: int) -> Date {
    let days = quot_toward_zero(ts, 86400);
    let in_day = rem_toward_zero(ts, 86400);
    let in_hour = rem_toward_zero(in_day, 3600);
    Date {
        year: 1970,
        month: 1,
        day: (days + 1) as u8,
        hour: quot_toward_zero(in_day, 3600) as u8,
        minute: quot_toward_zero(in_hour, 60) as u8,
        second: rem_toward_zero(in_hour, 60) as u8,
    }
}

/// What is said of a moment whose year a `Date` cannot hold.
pub open spec fn range_error() -> Seq<char> {
    "Timestamp out of range"@
}

/// Whether `r` is what the timestamp `ts` gives: the date and time of that
/// moment; a failure for a moment too far ahead for the year of a `Date`;
/// for a moment before 1970 what `before_epoch` says.
pub open spec fn is_moment(r: Result<Posix, String>, ts: int) -> bool {
    if ts < 0 {
        r matches Ok(p) && p.date == before_epoch(ts)
    } else if ts / 86400 >= days_before_year(year_limit()) {
        r matches Err(e) && e@ == range_error()
    } else {
        &&& r matches Ok(p)
        &&& p.date.valid()
        &&& p.date.year >= 1970
        &&& p.date.second <= 59
        &&& epoch_seconds(p.date) == ts
    }
}

/// `YYYY-MM-DD HH:MM:SS UTC`.
pub open spec fn human_text(d: Date) -> Seq<char> {
    padded(d.year as int, 4) + seq!['-'] + padded(d.month as int, 2) + seq!['-'] + padded(
        d.day as int,
        2,
    ) + seq![' '] + padded(d.hour as int, 2) + seq![':'] + padded(d.minute as int, 2) + seq![':']
        + padded(d.second as int, 2) + " UTC"@
}

/// `pattern` with the tokens `YYYY`, `yy`, `mm`, `dd`, `HH`, `MM`, `SS` and
/// `TS` replaced, one token after the other in this order, by the fields of
/// `d` and by its timestamp.
pub open spec fn pattern_text(d: Date, pattern: Seq<char>) -> Seq<char> {
    let a = replaced(pattern, "YYYY"@, padded(d.year as int, 4));
    let b = replaced(a, "yy"@, padded(rem_toward_zero(d.year as int, 100), 2));
    let c = replaced(b, "mm"@, padded(d.month as int, 2));
    let e = replaced(c, "dd"@, padded(d.day as int, 2));
    let f = replaced(e, "HH"@, padded(d.hour as int, 2));
    let g = replaced(f, "MM"@, padded(d.minute as int, 2));
    let h = replaced(g, "SS"@, padded(d.second as int, 2));
    replaced(h, "TS"@, int_text(epoch_seconds(d)))
}

/// The years pile up: a later year has no fewer days before it.
pub proof fn lemma_days_before_year_grows(a: int, b: int)
    requires
        a <= b,
    ensures
        days_before_year(a) <= days_before_year(b),
        1970 <= a ==> days_before_year(b) - days_before_year(a) <= 366 * (b - a),
        1970 <= a ==> days_before_year(b) - days_before_year(a) >= 365 * (b - a),
    decreases b - a,
{
    if a < b {
        lemma_days_before_year_grows(a, b - 1);
    }
}

/// The twelve months make up the year.
pub proof fn lemma_months_fill_year(y: int)
    ensures
        days_before_month(y, 13) == year_len(y),
{
    reveal_with_fuel(days_before_month, 14);
}

/// The months pile up: a later month has no fewer days before it, and the
/// days of a month lie before the next.
pub proof fn lemma_days_before_month_grows(y: int, a: int, b: int)
    requires
        1 <= a <= b,
    ensures
        days_before_month(y, a) <= days_before_month(y, b),
        a < b ==> days_before_month(y, a) + days_in_month(y, a) <= days_before_month(y, b),
    decreases b - a,
{
    if a < b {
        lemma_days_before_month_grows(y, a, b - 1);
    }
}

/// A date of the calendar lies within its year.
pub proof fn lemma_day_within_year(d: Date)
    requires
        d.valid(),
    ensures
        0 <= days_before_month(d.year as int, d.month as int) + d.day - 1 < year_len(
            d.year as int,
        ),
{
    lemma_months_fill_year(d.year as int);
    lemma_days_before_month_grows(d.year as int, 1, d.month as int);
    lemma_days_before_month_grows(d.year as int, d.month as int, 13);
}

/// A moment has one date: two dates of the calendar from 1970 on, with
/// seconds below 60, that lie equally far from the start of 1970 are the
/// same date.
pub proof fn law_moment_has_one_date(a: Date, b: Date)
    requires
        a.valid(),
        b.valid(),
        a.year >= 1970,
        b.year >= 1970,
        a.second <= 59,
        b.second <= 59,
        epoch_seconds(a) == epoch_seconds(b),
    ensures
        a == b,
{
    lemma_day_within_year(a);
    lemma_day_within_year(b);
    lemma_days_before_year_grows(1970, a.year as int);
    lemma_days_before_year_grows(1970, b.year as int);
    let time_a = a.hour * 3600 + a.minute * 60 + a.second;
    let time_b = b.hour * 3600 + b.minute * 60 + b.second;
    assert(0 <= time_a < 86400 && 0 <= time_b < 86400);
    assert(epoch_days(a) == epoch_days(b) && time_a == time_b);
    assert(a.hour == b.hour && a.minute == b.minute && a.second == b.second);
    if a.year < b.year {
        lemma_days_before_year_grows(a.year as int + 1, b.year as int);
        assert(days_before_year(a.year as int + 1) == days_before_year(a.year as int) + year_len(
            a.year as int,
        ));
        assert(false);
    }
    if b.year < a.year {
        lemma_days_before_year_grows(b.year as int + 1, a.year as int);
        assert(days_before_year(b.year as int + 1) == days_before_year(b.year as int) + year_len(
            b.year as int,
        ));
        assert(false);
    }
    if a.month < b.month {
        lemma_days_before_month_grows(a.year as int, a.month as int, b.month as int);
        assert(false);
    }
    if b.month < a.month {
        lemma_days_before_month_grows(a.year as int, b.month as int, a.month as int);
        assert(false);
    }
}

impl Posix {
    /// Reads a timestamp: a whole number of seconds, not negative.
    pub fn parse(s: &str) -> (r: Result<Posix, String>)
        ensures
            match parse_signed(s@, i64::MIN as int, i64::MAX as int) {
                None => r matches Err(e) && e@ == format_error(s@),
                Some(ts) => if ts < 0 {
                    r matches Err(e) && e@ == negative_error()
                } else {
                    is_moment(r, ts)
                },
            },
    {
        let chars = chars_of(s);
        match read_i64(chars.as_slice()) {
            None => {
                let mut out: Vec<char> = Vec::new();
                push_str(&mut out, "Invalid timestamp format: ");
                push_str(&mut out, s);
                assert(out@ =~= format_error(s@));
                Err(string_of(out.as_slice()))
            },
            Some(ts) => {
                if ts < 0 {
                    return Err("Negative timestamps (pre-1970) are not supported".to_owned());
                }
                Posix::from_timestamp(ts)
            },
        }
    }

    /// The date and time of the moment `ts` seconds after the start of 1970.
    pub fn from_timestamp(ts: i64) -> (r: Result<Posix, String>)
        ensures
            is_moment(r, ts as int),
    {
        let total_days: i64 = ts / 86400;
        let mut remaining: i64 = ts % 86400;
        let hour: u8 = #[verifier::truncate] ((remaining / 3600) as u8);
        remaining = remaining % 3600;
        let minute: u8 = #[verifier::truncate] ((remaining / 60) as u8);
        let second: u8 = #[verifier::truncate] ((remaining % 60) as u8);
        if ts < 0 {
            let day: u8 = #[verifier::truncate] ((total_days + 1) as u8);
            return Ok(Posix { date: Date { year: 1970, month: 1, day, hour, minute, second } });
        }

        let mut year: i32 = 1970;
        let mut days: i64 = total_days;
        loop
            invariant
                1970 <= year,
                0 <= days <= total_days,
                days_before_year(year as int) + days == total_days,
                ts >= 0,
                total_days == ts / 86400,
            ensures
                days < year_len(year as int),
            decreases days,
        {
            let days_in_year: i64 = if leap_year(year) {
                366
            } else {
                365
            };
            if days < days_in_year {
                break ;
            }
            if year == i32::MAX {
                assert(days_before_year(year_limit()) == days_before_year(year as int) + year_len(
                    year as int,
                ));
                return Err("Timestamp out of range".to_owned());
            }
            days = days - days_in_year;
            year = year + 1;
        }
        proof {
            lemma_days_before_year_grows(year as int + 1, year_limit());
            lemma_months_fill_year(year as int);
            assert(days_before_year(year as int + 1) == days_before_year(year as int) + year_len(
                year as int,
            ));
        }
        let ghost day_of_year = days;
        let mut month: u8 = 1;
        loop
            invariant
                1 <= month <= 12,
                0 <= days,
                days_before_month(year as int, month as int) + days == day_of_year,
                day_of_year < days_before_month(year as int, 13),
            ensures
                days < days_in_month(year as int, month as int),
            decreases 12 - month,
        {
            let dim: i64 = month_len(year, month) as i64;
            if days < dim {
                break ;
            }
            proof {
                reveal_with_fuel(days_before_month, 14);
            }
            days = days - dim;
            month = month + 1;
        }
        let day: u8 = (days + 1) as u8;
        let date = Date { year, month, day, hour, minute, second };
        Ok(Posix { date })
    }

    /// The date as `YYYY-MM-DD HH:MM:SS UTC`.
    pub fn to_human_string(&self) -> (s: String)
        ensures
            s@ == human_text(self.date),
    {
        let mut out: Vec<char> = Vec::new();
        push_padded(&mut out, self.date.year as i64, 4);
        out.push('-');
        push_padded(&mut out, self.date.month as i64, 2);
        out.push('-');
        push_padded(&mut out, self.date.day as i64, 2);
        out.push(' ');
        push_padded(&mut out, self.date.hour as i64, 2);
        out.push(':');
        push_padded(&mut out, self.date.minute as i64, 2);
        out.push(':');
        push_padded(&mut out, self.date.second as i64, 2);
        push_str(&mut out, " UTC");
        assert(out@ =~= human_text(self.date));
        string_of(out.as_slice())
    }

    /// The seconds from the start of 1970 to the date; a year before 1970
    /// counts as 1970.
    pub fn timestamp(&self) -> (ts: i64)
        requires
            1 <= self.date.month <= 13,
            1 <= self.date.day,
        ensures
            ts == epoch_seconds(self.date),
    {
        let mut total_days: i64 = 0;
        let mut y: i32 = 1970;
        while y < self.date.year
            invariant
                1970 <= y,
                y <= self.date.year || (self.date.year < 1970 && y == 1970),
                total_days == days_before_year(y as int),
                0 <= total_days <= 366 * (y - 1970),
            decreases self.date.year - y,
        {
            total_days = total_days + if leap_year(y) {
                366
            } else {
                365
            };
            y = y + 1;
        }
        assert(total_days == days_before_year(self.date.year as int));
        let mut m: u8 = 1;
        let mut month_days: i64 = 0;
        while m < self.date.month
            invariant
                1 <= m <= self.date.month,
                self.date.month <= 13,
                month_days == days_before_month(self.date.year as int, m as int),
                0 <= month_days <= 31 * (m - 1),
            decreases self.date.month - m,
        {
            month_days = month_days + month_len(self.date.year, m) as i64;
            m = m + 1;
        }
        total_days = total_days + month_days + (self.date.day - 1) as i64;
        total_days * 86400 + (self.date.hour as i64) * 3600 + (self.date.minute as i64) * 60 + (
        self.date.second as i64)
    }

    /// The timestamp of the date as decimal text.
    pub fn to_string_timestamp(&self) -> (s: String)
        requires
            1 <= self.date.month <= 13,
            1 <= self.date.day,
        ensures
            s@ == int_text(epoch_seconds(self.date)),
    {
        let mut out: Vec<char> = Vec::new();
        push_int(&mut out, self.timestamp());
        assert(out@ =~= int_text(epoch_seconds(self.date)));
        string_of(out.as_slice())
    }

    /// `pattern` with the tokens `YYYY`, `yy`, `mm`, `dd`, `HH`, `MM`, `SS`
    /// replaced by the fields of the date and `TS` by its timestamp.
    pub fn format(&self, pattern: &str) -> (s: String)
        requires
            1 <= self.date.month <= 13,
            1 <= self.date.day,
        ensures
            s@ == pattern_text(self.date, pattern@),
    {
        let text = chars_of(pattern);
        let text = replace_token(text, "YYYY", self.date.year as i64, 4);
        let text = replace_token(text, "yy", short_year(self.date.year) as i64, 2);
        let text = replace_token(text, "mm", self.date.month as i64, 2);
        let text = replace_token(text, "dd", self.date.day as i64, 2);
        let text = replace_token(text, "HH", self.date.hour as i64, 2);
        let text = replace_token(text, "MM", self.date.minute as i64, 2);
        let text = replace_token(text, "SS", self.date.second as i64, 2);
        let token = chars_of("TS");
        let mut stamp: Vec<char> = Vec::new();
        push_int(&mut stamp, self.timestamp());
        assert(stamp@ =~= int_text(epoch_seconds(self.date)));
        let text = replace_all(text.as_slice(), token.as_slice(), stamp.as_slice());
        string_of(text.as_slice())
    }

    /// Whether `y` is a leap year.
    pub fn is_leap_year(y: i32) -> (r: bool)
        ensures
            r == is_leap(y as int),
    {
        leap_year(y)
    }
}

} // verus!
