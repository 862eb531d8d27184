//! Dates and times of day as the tables hold them, and the day count that a
//! date-time field stores.

use vstd::prelude::*;
use vstd::string::StringSliceAdditionalSpecFns;

use crate::byte_order::{
    i32_le_bytes, le_bytes_u32, le_u32, read_i32_le, signed32, unsigned32,
};
use crate::digits::{parse_u32, parsed_u32, push_zero_padded, zero_padded};
use crate::error::ErrorKind;

verus! {

/// Milliseconds in an hour.
pub const HOURS_FACTOR: i32 = 3_600_000;

/// Milliseconds in a minute.
pub const MINUTES_FACTOR: i32 = 60_000;

/// Milliseconds in a second.
pub const SECONDS_FACTOR: i32 = 1_000;

/// The quotient of `a` by a positive `b`, rounded towards zero.
pub open spec fn tdiv(a: int, b: int) -> int {
    if a >= 0 {
        a / b
    } else {
        -((-a) / b)
    }
}

/// What is left of `a` after the division by `b` that rounds towards zero.
pub open spec fn trem(a: int, b: int) -> int {
    a - b * tdiv(a, b)
}

/// `v` reduced to the range of an unsigned 32-bit number.
pub open spec fn wrap_u32(v: int) -> u32 {
    (v % 0x1_0000_0000) as u32
}

/// The day count of `jdn`, moved to the start of the cycle of four years in
/// which the calendar is regular.
pub open spec fn gregorian_f(jdn: int) -> int {
    jdn + 1401 + tdiv(tdiv(4 * jdn + 274_277, 146_097) * 3, 4) - 38
}

/// Four times `gregorian_f`, plus three: its quotient by 1461 counts years.
pub open spec fn gregorian_e(jdn: int) -> int {
    4 * gregorian_f(jdn) + 3
}

/// Five times the day within the year that starts in March, plus two: its
/// quotient by 153 counts months.
pub open spec fn gregorian_h(jdn: int) -> int {
    5 * tdiv(trem(gregorian_e(jdn), 1461), 4) + 2
}

/// The day of the month on which the Julian day number `jdn` falls in the
/// proleptic Gregorian calendar.
pub open spec fn gregorian_day(jdn: int) -> int {
    tdiv(trem(gregorian_h(jdn), 153), 5) + 1
}

/// The month in which the Julian day number `jdn` falls.
pub open spec fn gregorian_month(jdn: int) -> int {
    trem(tdiv(gregorian_h(jdn), 153) + 2, 12) + 1
}

/// The year in which the Julian day number `jdn` falls.
pub open spec fn gregorian_year(jdn: int) -> int {
    tdiv(gregorian_e(jdn), 1461) - 4716 + tdiv(12 + 2 - gregorian_month(jdn), 12)
}

/// The Julian day number of the day `day` of the month `month` of the year
/// `year` in the proleptic Gregorian calendar. The year is counted from
/// March, so that the leap day is its last day.
pub open spec fn julian_day_number(year: int, month: int, day: int) -> int {
    let m = if month > 2 {
        month - 3
    } else {
        month + 9
    };
    let y = if month > 2 {
        year
    } else {
        year - 1
    };
    let century = y / 100;
    let decade = y - 100 * century;
    (146_097 * century) / 4 + (1461 * decade) / 4 + (153 * m + 2) / 5 + day + 1_721_119
}

/// The hours of the time of day that the time word `word` holds.
pub open spec fn word_hours(word: int) -> int {
    tdiv(word, HOURS_FACTOR as int)
}

/// The minutes of the time of day that the time word `word` holds.
pub open spec fn word_minutes(word: int) -> int {
    tdiv(trem(word, HOURS_FACTOR as int), MINUTES_FACTOR as int)
}

/// The seconds of the time of day that the time word `word` holds.
pub open spec fn word_seconds(word: int) -> int {
    tdiv(trem(trem(word, HOURS_FACTOR as int), MINUTES_FACTOR as int), SECONDS_FACTOR as int)
}

/// The milliseconds since midnight of a time of day.
pub open spec fn time_word(hours: int, minutes: int, seconds: int) -> int {
    hours * HOURS_FACTOR + minutes * MINUTES_FACTOR + seconds * SECONDS_FACTOR
}

/// The date on which the Julian day number `jdn` falls, each of its parts
/// reduced to the range of its field.
pub open spec fn gregorian_date(jdn: int) -> Date {
    Date {
        year: wrap_u32(gregorian_year(jdn)),
        month: wrap_u32(gregorian_month(jdn)),
        day: wrap_u32(gregorian_day(jdn)),
    }
}

/// The time of day that the time word `word` holds, each of its parts
/// reduced to the range of its field.
pub open spec fn time_of_word(word: int) -> Time {
    Time {
        hours: wrap_u32(word_hours(word)),
        minutes: wrap_u32(word_minutes(word)),
        seconds: wrap_u32(word_seconds(word)),
    }
}

/// The date that the text `s` writes: four bytes of the year, two of the
/// month and two of the day, each read as a number on its own. Such a
/// number is digits, or a plus sign and then digits: `+201` is the year
/// 201. What follows the eighth byte is not read.
pub open spec fn parsed_date(s: Seq<u8>) -> Option<Date> {
    if s.len() < 8 {
        None
    } else {
        match (
            parsed_u32(s.subrange(0, 4)),
            parsed_u32(s.subrange(4, 6)),
            parsed_u32(s.subrange(6, 8)),
        ) {
            (Some(year), Some(month), Some(day)) => Some(Date { year, month, day }),
            _ => None,
        }
    }
}

/// The date-time that the first eight bytes of `s` hold: the Julian day
/// number and the time word, each as a signed number of four bytes, least
/// significant byte first.
pub open spec fn datetime_of_bytes(s: Seq<u8>) -> DateTime {
    DateTime {
        date: gregorian_date(signed32(le_u32(s))),
        time: time_of_word(signed32(le_u32(s.skip(4)))),
    }
}

/// Whether the year `year` of the Gregorian calendar has a leap day.
pub open spec fn is_leap_year(year: int) -> bool {
    year % 4 == 0 && (year % 100 != 0 || year % 400 == 0)
}

/// The number of days of the month `month` of the year `year`.
pub open spec fn days_in_month(year: int, month: int) -> int {
    if month == 2 {
        if is_leap_year(year) {
            29
        } else {
            28
        }
    } else if month == 4 || month == 6 || month == 9 || month == 11 {
        30
    } else {
        31
    }
}

/// Whether `date` is a day that the Gregorian calendar has.
pub open spec fn is_calendar_date(date: Date) -> bool {
    &&& 1 <= date.month <= 12
    &&& 1 <= date.day <= days_in_month(date.year as int, date.month as int)
}

/// The characters that the ASCII bytes `bytes` stand for.
pub open spec fn ascii_chars(bytes: Seq<u8>) -> Seq<char> {
    Seq::new(bytes.len(), |i: int| bytes[i] as char)
}

/// `String::from_utf8_lossy`, with the result made an owned string: bytes
/// that are text in UTF-8 become that text.
#[verifier::external_body]
fn string_from_utf8(bytes: &[u8]) -> (text: String)
    ensures
        vstd::utf8::valid_utf8(bytes@) ==> text@ == vstd::utf8::decode_utf8(bytes@),
{
    String::from_utf8_lossy(bytes).into_owned()
}

/// Digits are text in UTF-8, one character for each byte.
pub proof fn lemma_digits_are_text(bytes: Seq<u8>)
    requires
        crate::digits::all_digits(bytes),
    ensures
        vstd::utf8::valid_utf8(bytes),
        vstd::utf8::decode_utf8(bytes) == ascii_chars(bytes),
{
    let chars = ascii_chars(bytes);
    assert(vstd::utf8::is_ascii_chars(chars)) by {
        assert forall|i: int| 0 <= i < chars.len() implies '\0' <= #[trigger] chars[i]
            <= '\u{7f}' by {
            assert(crate::digits::is_digit(bytes[i]));
        }
    }
    vstd::utf8::is_ascii_chars_encode_utf8(chars);
    assert(vstd::utf8::encode_utf8(chars) =~= bytes) by {
        assert forall|i: int| 0 <= i < bytes.len() implies vstd::utf8::encode_utf8(chars)[i]
            == bytes[i] by {
            assert(crate::digits::is_digit(bytes[i]));
            assert(chars[i] as u8 == bytes[i]);
        }
    }
    vstd::utf8::encode_utf8_valid_utf8(chars);
    vstd::utf8::encode_utf8_decode_utf8(chars);
}

/// The quotient of `a` by `b`, rounded towards zero.
fn div_towards_zero(a: i64, b: i64) -> (q: i64)
    requires
        b > 0,
        a > i64::MIN,
    ensures
        q == tdiv(a as int, b as int),
        a >= 0 ==> 0 <= q <= a,
        a <= 0 ==> a <= q <= 0,
{
    a / b
}

/// What is left of `a` after the division by `b` that rounds towards zero.
fn rem_towards_zero(a: i64, b: i64) -> (r: i64)
    requires
        b > 0,
        a > i64::MIN,
    ensures
        r == trem(a as int, b as int),
        -b < r < b,
{
    proof {
        let n = if a >= 0 {
            a as int
        } else {
            -(a as int)
        };
        vstd::arithmetic::div_mod::lemma_fundamental_div_mod(n, b as int);
        assert((b as int) * (-(n / (b as int))) == -((b as int) * (n / (b as int))))
            by (nonlinear_arith);
    }
    a % b
}

/// `v` as an unsigned 32-bit number, reduced to its range.
fn wrap_to_u32(v: i64) -> (r: u32)
    ensures
        r == wrap_u32(v as int),
{
    let m: i64 = v % 0x1_0000_0000;
    if m < 0 {
        (m + 0x1_0000_0000) as u32
    } else {
        m as u32
    }
}

/// A date of the calendar: a year, a month and a day, with no time zone.
/// The date is naive: whether the day exists in the month is not checked.
#[derive(Debug, Copy, Clone, PartialEq, Eq, Structural)]
pub struct Date {
    pub year: u32,
    pub month: u32,
    pub day: u32,
}

impl Date {
    /// The date of the given day, month and year.
    ///
    /// The year has at most four digits, the day is at most 31 and the month
    /// at most 12.
    pub fn new(day: u32, month: u32, year: u32) -> (date: Date)
        requires
            year <= 9999,
            day <= 31,
            month <= 12,
        ensures
            date == (Date { year, month, day }),
    {
        Date { year, month, day }
    }

    /// The year.
    pub fn year(&self) -> (y: u32)
        ensures
            y == self.year,
    {
        self.year
    }

    /// The month.
    pub fn month(&self) -> (m: u32)
        ensures
            m == self.month,
    {
        self.month
    }

    /// The day of the month.
    pub fn day(&self) -> (d: u32)
        ensures
            d == self.day,
    {
        self.day
    }

    /// The Julian day number of this date as a date-time field stores it:
    /// the day count, reduced to the range of a signed 32-bit number.
    pub open spec fn julian_day(self) -> int {
        signed32(
            julian_day_number(self.year as int, self.month as int, self.day as int)
                % 0x1_0000_0000,
        )
    }

    /// The text of this date: the year in four digits, the month and the day
    /// in two each, with zeros in front. A part with more digits is written
    /// in full.
    pub open spec fn text(self) -> Seq<u8> {
        zero_padded(self.year as nat, 4) + zero_padded(self.month as nat, 2) + zero_padded(
            self.day as nat,
            2,
        )
    }

    /// The date on which the Julian day number `jdn` falls in the proleptic
    /// Gregorian calendar, by the closed-form conversion. A year, month or
    /// day that comes out negative is reduced to the range of its field.
    pub fn julian_day_number_to_gregorian_date(jdn: i32) -> (date: Date)
        ensures
            date == gregorian_date(jdn as int),
    {
        let j: i64 = jdn as i64;
        let cycles: i64 = div_towards_zero(4 * j + 274_277, 146_097);
        let f: i64 = j + 1401 + div_towards_zero(cycles * 3, 4) - 38;
        let e: i64 = 4 * f + 3;
        let g: i64 = div_towards_zero(rem_towards_zero(e, 1461), 4);
        let h: i64 = 5 * g + 2;
        let day: i64 = div_towards_zero(rem_towards_zero(h, 153), 5) + 1;
        let month: i64 = rem_towards_zero(div_towards_zero(h, 153) + 2, 12) + 1;
        let year: i64 = div_towards_zero(e, 1461) - 4716 + div_towards_zero(12 + 2 - month, 12);
        Date { year: wrap_to_u32(year), month: wrap_to_u32(month), day: wrap_to_u32(day) }
    }

    /// The Julian day number of this date in the proleptic Gregorian
    /// calendar, reduced to the range of a signed 32-bit number.
    pub fn to_julian_day_number(self) -> (jdn: i32)
        ensures
            jdn == self.julian_day(),
    {
        // The calendar repeats after 400 years, which are 146097 days: the
        // count is made 400 years later, where no year is negative.
        let month: u64 = if self.month > 2 {
            self.month as u64 - 3
        } else {
            self.month as u64 + 9
        };
        let year: u64 = if self.month > 2 {
            self.year as u64 + 400
        } else {
            self.year as u64 + 399
        };
        let century: u64 = year / 100;
        let decade: u64 = year - 100 * century;
        let shifted: u64 = (146_097 * century) / 4 + (1461 * decade) / 4 + (153 * month + 2) / 5
            + self.day as u64 + 1_721_119;
        let days: u64 = shifted - 146_097;
        assert(days == julian_day_number(self.year as int, self.month as int, self.day as int));
        let low: u64 = days % 0x1_0000_0000;
        if low >= 0x8000_0000 {
            (low as i64 - 0x1_0000_0000) as i32
        } else {
            low as i32
        }
    }
}

impl Date {
    /// Reads a date from its text of eight ASCII bytes, `YYYYMMDD`. Each of
    /// the three parts is read as an unsigned number, which may start with a
    /// plus sign; whether the date exists in the calendar is not checked. A
    /// text of fewer than eight bytes, or with a part that is no number, is
    /// refused.
    pub fn from_ascii(bytes: &[u8]) -> (r: Result<Date, ErrorKind>)
        ensures
            r == match parsed_date(bytes@) {
                Some(date) => Ok::<Date, ErrorKind>(date),
                None => Err(ErrorKind::ParseIntError),
            },
    {
        if bytes.len() < 8 {
            return Err(ErrorKind::ParseIntError);
        }
        let year = match parse_u32(vstd::slice::slice_subrange(bytes, 0, 4)) {
            Some(v) => v,
            None => {
                return Err(ErrorKind::ParseIntError);
            },
        };
        let month = match parse_u32(vstd::slice::slice_subrange(bytes, 4, 6)) {
            Some(v) => v,
            None => {
                return Err(ErrorKind::ParseIntError);
            },
        };
        let day = match parse_u32(vstd::slice::slice_subrange(bytes, 6, 8)) {
            Some(v) => v,
            None => {
                return Err(ErrorKind::ParseIntError);
            },
        };
        Ok(Date { year, month, day })
    }

    /// Reads a date from a string of the form `YYYYMMDD`, as `from_ascii`
    /// does from its bytes.
    pub fn from_str(s: &str) -> (r: Result<Date, ErrorKind>)
        ensures
            r == match parsed_date(s.spec_bytes()) {
                Some(date) => Ok::<Date, ErrorKind>(date),
                None => Err(ErrorKind::ParseIntError),
            },
    {
        Date::from_ascii(s.as_bytes())
    }

    /// Whether this date is a day that the Gregorian calendar has.
    pub fn is_calendar_date(&self) -> (b: bool)
        ensures
            b == is_calendar_date(*self),
    {
        if self.month < 1 || self.month > 12 || self.day < 1 {
            return false;
        }
        let leap = self.year % 4 == 0 && (self.year % 100 != 0 || self.year % 400 == 0);
        let days: u32 = if self.month == 2 {
            if leap {
                29
            } else {
                28
            }
        } else if self.month == 4 || self.month == 6 || self.month == 9 || self.month == 11 {
            30
        } else {
            31
        };
        self.day <= days
    }

    /// The text of this date as a string: `YYYYMMDD`.
    pub fn to_string(&self) -> (text: String)
        ensures
            text@ == ascii_chars(self.text()),
    {
        let mut bytes: Vec<u8> = Vec::new();
        self.write_text(&mut bytes);
        proof {
            crate::digits::lemma_zero_padded(self.year as nat, 4);
            crate::digits::lemma_zero_padded(self.month as nat, 2);
            crate::digits::lemma_zero_padded(self.day as nat, 2);
            let y = zero_padded(self.year as nat, 4);
            let m = zero_padded(self.month as nat, 2);
            let d = zero_padded(self.day as nat, 2);
            assert(bytes@ =~= self.text());
            assert forall|i: int| 0 <= i < bytes@.len() implies crate::digits::is_digit(
                #[trigger] bytes@[i],
            ) by {
                if i < y.len() {
                    assert(bytes@[i] == y[i]);
                } else if i < y.len() + m.len() {
                    assert(bytes@[i] == m[i - y.len()]);
                } else {
                    assert(bytes@[i] == d[i - y.len() - m.len()]);
                }
            }
            lemma_digits_are_text(bytes@);
        }
        string_from_utf8(bytes.as_slice())
    }

    /// Appends the text of this date to `dst`.
    pub fn write_text(&self, dst: &mut Vec<u8>)
        ensures
            final(dst)@ == old(dst)@ + self.text(),
    {
        push_zero_padded(dst, self.year, 4);
        push_zero_padded(dst, self.month, 2);
        push_zero_padded(dst, self.day, 2);
        proof {
            assert(dst@ =~= old(dst)@ + self.text());
        }
    }
}

/// A time of day: hours, minutes and seconds. The time is naive: nothing
/// keeps a part within its usual range.
#[derive(Debug, Copy, Clone, PartialEq, Eq, Structural)]
pub struct Time {
    pub hours: u32,
    pub minutes: u32,
    pub seconds: u32,
}

impl Time {
    /// The time word of this time of day as a date-time field stores it: the
    /// milliseconds since midnight, reduced to the range of a signed 32-bit
    /// number.
    pub open spec fn word(self) -> int {
        signed32(
            time_word(self.hours as int, self.minutes as int, self.seconds as int)
                % 0x1_0000_0000,
        )
    }

    /// The time of day of the given hours, minutes and seconds.
    ///
    /// The hours are at most 24, the minutes and the seconds at most 60.
    pub fn new(hours: u32, minutes: u32, seconds: u32) -> (time: Time)
        requires
            hours <= 24,
            minutes <= 60,
            seconds <= 60,
        ensures
            time == (Time { hours, minutes, seconds }),
    {
        Time { hours, minutes, seconds }
    }

    /// The hours.
    pub fn hours(&self) -> (h: u32)
        ensures
            h == self.hours,
    {
        self.hours
    }

    /// The minutes.
    pub fn minutes(&self) -> (m: u32)
        ensures
            m == self.minutes,
    {
        self.minutes
    }

    /// The seconds.
    pub fn seconds(&self) -> (s: u32)
        ensures
            s == self.seconds,
    {
        self.seconds
    }

    /// The time of day that a time word holds: the word is divided by the
    /// milliseconds of an hour, what is left by those of a minute, and what
    /// is left of that by those of a second. Milliseconds are dropped.
    pub fn from_word(time_word: i32) -> (time: Time)
        ensures
            time == time_of_word(time_word as int),
    {
        let word: i64 = time_word as i64;
        let hours: i64 = div_towards_zero(word, 3_600_000);
        let after_hours: i64 = rem_towards_zero(word, 3_600_000);
        let minutes: i64 = div_towards_zero(after_hours, 60_000);
        let after_minutes: i64 = rem_towards_zero(after_hours, 60_000);
        let seconds: i64 = div_towards_zero(after_minutes, 1_000);
        Time {
            hours: wrap_to_u32(hours),
            minutes: wrap_to_u32(minutes),
            seconds: wrap_to_u32(seconds),
        }
    }

    /// The time word of this time of day.
    pub fn to_time_word(self) -> (word: i32)
        ensures
            word == self.word(),
    {
        let total: u64 = self.hours as u64 * 3_600_000 + self.minutes as u64 * 60_000
            + self.seconds as u64 * 1_000;
        let low: u64 = total % 0x1_0000_0000;
        if low >= 0x8000_0000 {
            (low as i64 - 0x1_0000_0000) as i32
        } else {
            low as i32
        }
    }
}

/// A date and a time of day, as a date-time field holds them.
#[derive(Debug, Copy, Clone, PartialEq, Eq, Structural)]
pub struct DateTime {
    pub date: Date,
    pub time: Time,
}

impl DateTime {
    /// The eight bytes of this date-time in a record: the Julian day number
    /// of the date and the time word of the time, each as a signed number of
    /// four bytes, least significant byte first.
    pub open spec fn bytes(self) -> Seq<u8> {
        le_bytes_u32(unsigned32(self.date.julian_day())) + le_bytes_u32(
            unsigned32(self.time.word()),
        )
    }

    /// The date-time of a date and a time of day.
    pub fn new(date: Date, time: Time) -> (dt: DateTime)
        ensures
            dt == (DateTime { date, time }),
    {
        DateTime { date, time }
    }

    /// The date.
    pub fn date(&self) -> (d: Date)
        ensures
            d == self.date,
    {
        self.date
    }

    /// The time of day.
    pub fn time(&self) -> (t: Time)
        ensures
            t == self.time,
    {
        self.time
    }

    /// Reads a date-time from the first eight bytes of `src`. Fewer bytes
    /// are an early end of the source.
    pub fn read_from(src: &[u8]) -> (r: Result<DateTime, ErrorKind>)
        ensures
            r == if src@.len() >= 8 {
                Ok::<DateTime, ErrorKind>(datetime_of_bytes(src@))
            } else {
                Err(ErrorKind::UnexpectedEof)
            },
    {
        if src.len() < 8 {
            return Err(ErrorKind::UnexpectedEof);
        }
        let julian_day_number = read_i32_le(src);
        let rest = vstd::slice::slice_subrange(src, 4, src.len());
        assert(rest@ =~= src@.skip(4));
        let time_word = read_i32_le(rest);
        let time = Time::from_word(time_word);
        let date = Date::julian_day_number_to_gregorian_date(julian_day_number);
        Ok(DateTime { date, time })
    }

    /// Appends the eight bytes of this date-time to `dest`.
    pub fn write_to(&self, dest: &mut Vec<u8>)
        ensures
            final(dest)@ == old(dest)@ + self.bytes(),
    {
        let day = i32_le_bytes(self.date.to_julian_day_number());
        let word = i32_le_bytes(self.time.to_time_word());
        crate::byte_order::append_bytes(dest, day.as_slice());
        crate::byte_order::append_bytes(dest, word.as_slice());
        proof {
            assert(dest@ =~= old(dest)@ + self.bytes());
        }
    }
}

} // verus!
