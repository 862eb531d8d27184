//! What holds of the day count of the calendar.

use vstd::prelude::*;

use crate::calendar::{
    days_in_month, is_calendar_date, is_leap_year, gregorian_date, gregorian_day, gregorian_e, gregorian_f, gregorian_h, gregorian_month, gregorian_year, julian_day_number, tdiv, time_of_word, time_word, trem, word_hours, word_minutes, word_seconds, Date, Time,
};

verus! {

/// The day within the year that starts in March, counted from zero, of the
/// day `day` of the month `month`.
pub open spec fn day_of_march_year(month: int, day: int) -> int {
    let m = if month > 2 {
        month - 3
    } else {
        month + 9
    };
    (153 * m + 2) / 5 + day - 1
}

/// The day count of a date splits into whole centuries, whole years and the
/// day within the year that starts in March.
proof fn lemma_day_count_parts(year: int, month: int, day: int)
    requires
        0 <= year <= 9999,
        1 <= month <= 12,
        1 <= day <= days_in_month(year, month),
        year >= 1 || month > 2,
    ensures
        ({
            let y = if month > 2 {
                year
            } else {
                year - 1
            };
            let c = y / 100;
            let x = y % 100;
            let doy = day_of_march_year(month, day);
            &&& julian_day_number(year, month, day) == 1_721_120 + 36524 * c + c / 4 + 365 * x + x
                / 4 + doy
            &&& 0 <= doy <= 365
            &&& doy == 365 ==> x % 4 == 3 && (x != 99 || c % 4 == 3)
        }),
{
    let y = if month > 2 {
        year
    } else {
        year - 1
    };
    let c = y / 100;
    let x = y % 100;
    assert((146_097 * c) / 4 == 36524 * c + c / 4);
    assert((1461 * x) / 4 == 365 * x + x / 4);
    assert(y - 100 * c == x);
    if month <= 2 {
        // The leap day is the last day of the year that starts in March of
        // the year before.
        assert(year == y + 1);
        if month == 2 && day == 29 {
            assert(is_leap_year(year));
            assert(year % 4 == 0);
            assert(x % 4 == 3);
            if x == 99 {
                assert(year % 100 == 0);
                assert(year % 400 == 0);
                assert(c % 4 == 3);
            }
        }
    }
}

/// The conversion finds the century, the year and the day within the year
/// of a day count that is made of them.
proof fn lemma_find_year_and_day(c: int, x: int, doy: int)
    requires
        0 <= c <= 99,
        0 <= x <= 99,
        0 <= doy <= 365,
        doy == 365 ==> x % 4 == 3 && (x != 99 || c % 4 == 3),
    ensures
        ({
            let jdn = 1_721_120 + 36524 * c + c / 4 + 365 * x + x / 4 + doy;
            &&& gregorian_e(jdn) / 1461 == 4716 + 100 * c + x
            &&& gregorian_h(jdn) == 5 * doy + 2
            &&& 0 <= jdn < 0x8000_0000
        }),
{
    let d = 36524 * c + c / 4 + 365 * x + x / 4 + doy;
    let jdn = 1_721_120 + d;
    // The days of the centuries before: 4 * d + 3 stays within century c.
    let before = 36524 * c + c / 4;
    let within = 365 * x + x / 4 + doy;
    assert(0 <= within <= 36524);
    assert(within == 36524 ==> c % 4 == 3) by {
        if within == 36524 {
            assert(x == 99 && doy == 365);
        }
    }
    assert(4 * jdn + 274_277 == 146_097 * (c + 49) + (4 * (c / 4) - c) + 4 * within + 4);
    let r = (4 * (c / 4) - c) + 4 * within + 4;
    assert(-3 <= 4 * (c / 4) - c <= 0);
    // On the leap day that ends four centuries the quotient is one more,
    // which three quarters of it do not show.
    let a = if within == 36524 {
        c + 50
    } else {
        c + 49
    };
    let left = if within == 36524 {
        0int
    } else {
        r
    };
    assert(0 <= left < 146_097 && 4 * jdn + 274_277 == 146_097 * a + left) by {
        if within == 36524 {
            assert(4 * (c / 4) - c == -3);
        }
    }
    vstd::arithmetic::div_mod::lemma_fundamental_div_mod_converse(
        4 * jdn + 274_277,
        146_097,
        a,
        left,
    );
    assert(tdiv(4 * jdn + 274_277, 146_097) == a);
    assert((a * 3) / 4 == 36 + c - c / 4);
    assert(tdiv(a * 3, 4) == 36 + c - c / 4);
    let f = gregorian_f(jdn);
    assert(f == jdn + 1401 + (36 + c - c / 4) - 38);
    let q = x / 4;
    let b = x % 4;
    assert(f == 1461 * (1179 + 25 * c + q) + 365 * b + doy);
    let e = gregorian_e(jdn);
    let rest = 4 * doy + 3 - b;
    assert(e == 1461 * (4716 + 100 * c + x) + rest);
    assert(0 <= rest < 1461);
    vstd::arithmetic::div_mod::lemma_fundamental_div_mod_converse(
        e,
        1461,
        4716 + 100 * c + x,
        rest,
    );
    assert(e / 1461 == 4716 + 100 * c + x);
    assert(e % 1461 == rest);
    assert(trem(e, 1461) == rest);
    assert(rest / 4 == doy);
    assert(tdiv(rest, 4) == doy);
}

/// The conversion finds the month and the day of a day within the year that
/// starts in March.
proof fn lemma_find_month_and_day(year: int, month: int, day: int)
    requires
        1 <= month <= 12,
        1 <= day <= days_in_month(year, month),
    ensures
        ({
            let h = 5 * day_of_march_year(month, day) + 2;
            let m = if month > 2 {
                month - 3
            } else {
                month + 9
            };
            &&& h / 153 == m
            &&& (h % 153) / 5 == day - 1
        }),
{
    let m = if month > 2 {
        month - 3
    } else {
        month + 9
    };
    let start = (153 * m + 2) / 5;
    let h = 5 * (start + day - 1) + 2;
    let r = h - 153 * m;
    assert(0 <= r < 153 && r / 5 == day - 1) by {
        if m == 0 {
            assert(start == 0);
        } else if m == 1 {
            assert(start == 31);
        } else if m == 2 {
            assert(start == 61);
        } else if m == 3 {
            assert(start == 92);
        } else if m == 4 {
            assert(start == 122);
        } else if m == 5 {
            assert(start == 153);
        } else if m == 6 {
            assert(start == 184);
        } else if m == 7 {
            assert(start == 214);
        } else if m == 8 {
            assert(start == 245);
        } else if m == 9 {
            assert(start == 275);
        } else if m == 10 {
            assert(start == 306);
        } else {
            assert(start == 337);
        }
    }
    vstd::arithmetic::div_mod::lemma_fundamental_div_mod_converse(h, 153, m, r);
}

/// A day of the calendar in the years 1 to 9999 is found again from its
/// Julian day number.
pub proof fn lemma_julian_day_round_trip(date: Date)
    requires
        is_calendar_date(date),
        1 <= date.year <= 9999,
    ensures
        0 <= julian_day_number(date.year as int, date.month as int, date.day as int)
            < 0x8000_0000,
        date.julian_day() == julian_day_number(
            date.year as int,
            date.month as int,
            date.day as int,
        ),
        gregorian_date(date.julian_day()) == date,
{
    let year = date.year as int;
    let month = date.month as int;
    let day = date.day as int;
    let y = if month > 2 {
        year
    } else {
        year - 1
    };
    let m = if month > 2 {
        month - 3
    } else {
        month + 9
    };
    let c = y / 100;
    let x = y % 100;
    let doy = day_of_march_year(month, day);
    lemma_day_count_parts(year, month, day);
    lemma_find_year_and_day(c, x, doy);
    lemma_find_month_and_day(year, month, day);
    let jdn = julian_day_number(year, month, day);
    assert(date.julian_day() == jdn);
    let e = gregorian_e(jdn);
    let h = gregorian_h(jdn);
    assert(h == 5 * doy + 2);
    assert(tdiv(h, 153) == m);
    assert(trem(h, 153) == h % 153);
    assert(gregorian_day(jdn) == day);
    assert(trem(m + 2, 12) == (m + 2) % 12);
    assert(gregorian_month(jdn) == month);
    assert(tdiv(e, 1461) == 4716 + y);
    assert(tdiv(12 + 2 - month, 12) == if month <= 2 {
        1int
    } else {
        0int
    });
    assert(gregorian_year(jdn) == year);
}

/// A time of day whose minutes and seconds are below sixty, and whose
/// milliseconds fit in a time word, is found again from its time word.
pub proof fn lemma_time_word_round_trip(time: Time)
    requires
        time.minutes < 60,
        time.seconds < 60,
        time.hours <= 596,
        time.hours < 596 || time.minutes < 31,
    ensures
        time.word() == time_word(time.hours as int, time.minutes as int, time.seconds as int),
        time_of_word(time.word()) == time,
{
    let w = time_word(time.hours as int, time.minutes as int, time.seconds as int);
    assert(0 <= w < 0x8000_0000);
    assert(time.word() == w);
    let rest = time.minutes * 60_000 + time.seconds * 1_000;
    vstd::arithmetic::div_mod::lemma_fundamental_div_mod_converse(
        w,
        3_600_000,
        time.hours as int,
        rest,
    );
    assert(word_hours(w) == time.hours);
    assert(trem(w, 3_600_000) == rest);
    vstd::arithmetic::div_mod::lemma_fundamental_div_mod_converse(
        rest,
        60_000,
        time.minutes as int,
        time.seconds * 1_000,
    );
    assert(word_minutes(w) == time.minutes);
    assert(trem(rest, 60_000) == time.seconds * 1_000);
    assert(word_seconds(w) == time.seconds);
}

/// The time of day of a time word that is not negative has its minutes and
/// seconds below sixty, and the plain quotients of the word as its parts.
pub proof fn lemma_time_of_word(word: int)
    requires
        0 <= word < 0x8000_0000,
    ensures
        time_of_word(word).hours == word / 3_600_000,
        time_of_word(word).minutes == (word % 3_600_000) / 60_000,
        time_of_word(word).seconds == (word % 60_000) / 1_000,
        time_of_word(word).minutes < 60,
        time_of_word(word).seconds < 60,
{
    let rest = word % 3_600_000;
    assert(trem(word, 3_600_000) == rest);
    assert(rest % 60_000 == word % 60_000) by {
        let q = word / 3_600_000;
        vstd::arithmetic::div_mod::lemma_fundamental_div_mod(word, 3_600_000);
        vstd::arithmetic::div_mod::lemma_fundamental_div_mod(rest, 60_000);
        vstd::arithmetic::div_mod::lemma_fundamental_div_mod_converse(
            word,
            60_000,
            60 * q + rest / 60_000,
            rest % 60_000,
        );
    }
    assert(trem(rest, 60_000) == rest % 60_000);
}

/// The day after `date`.
pub open spec fn next_day(date: Date) -> Date {
    if date.day < days_in_month(date.year as int, date.month as int) {
        Date { day: (date.day + 1) as u32, ..date }
    } else if date.month < 12 {
        Date { month: (date.month + 1) as u32, day: 1, ..date }
    } else {
        Date { year: (date.year + 1) as u32, month: 1, day: 1 }
    }
}

/// The Julian day number counts days: the day after a day of the calendar
/// is a day of the calendar, and its number is one more.
pub proof fn lemma_next_day(date: Date)
    requires
        is_calendar_date(date),
        1 <= date.year <= 9999,
    ensures
        is_calendar_date(next_day(date)),
        julian_day_number(
            next_day(date).year as int,
            next_day(date).month as int,
            next_day(date).day as int,
        ) == julian_day_number(date.year as int, date.month as int, date.day as int) + 1,
{
    let year = date.year as int;
    let month = date.month as int;
    let day = date.day as int;
    if day < days_in_month(year, month) {
    } else if month == 2 {
        // The leap day, or the day before it, ends the year that starts in
        // March.
        let y = year - 1;
        let c = y / 100;
        let x = y - 100 * c;
        assert((146_097 * c) / 4 == 36524 * c + c / 4);
        assert((1461 * x) / 4 == 365 * x + x / 4);
        let c2 = year / 100;
        let x2 = year - 100 * c2;
        assert((146_097 * c2) / 4 == 36524 * c2 + c2 / 4);
        assert((1461 * x2) / 4 == 365 * x2 + x2 / 4);
        if x == 99 {
            assert(c2 == c + 1 && x2 == 0);
        } else {
            assert(c2 == c && x2 == x + 1);
        }
    } else {
    }
}

/// The first and the last day of the years 1 to 9999 have the Julian day
/// numbers 1721426 and 5373484.
pub proof fn lemma_first_and_last_day()
    ensures
        julian_day_number(1, 1, 1) == 1_721_426,
        julian_day_number(9999, 12, 31) == 5_373_484,
        julian_day_number(10_000, 1, 1) == 5_373_485,
{
}

/// Every Julian day number of the years 1 to 9999 is that of a day of the
/// calendar, which the conversion finds: the date of the number is a day
/// that the calendar has, and its number is the number.
pub proof fn lemma_gregorian_date_round_trip(jdn: int)
    requires
        1_721_426 <= jdn <= 5_373_484,
    ensures
        is_calendar_date(gregorian_date(jdn)),
        1 <= gregorian_date(jdn).year <= 9999,
        gregorian_date(jdn).julian_day() == jdn,
    decreases jdn,
{
    lemma_first_and_last_day();
    if jdn == 1_721_426 {
        let first = Date { year: 1, month: 1, day: 1 };
        lemma_julian_day_round_trip(first);
    } else {
        lemma_gregorian_date_round_trip(jdn - 1);
        let before = gregorian_date(jdn - 1);
        lemma_julian_day_round_trip(before);
        lemma_next_day(before);
        let date = next_day(before);
        assert(date.year <= 9999) by {
            if date.year > 9999 {
                assert(date.year == 10_000 && date.month == 1 && date.day == 1);
            }
        }
        lemma_julian_day_round_trip(date);
    }
}

} // verus!
