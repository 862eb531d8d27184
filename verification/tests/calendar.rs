use dbase::{Date, DateTime, ErrorKind, Time};

#[test]
fn test_from_julian_day_number() {
    let date = Date::julian_day_number_to_gregorian_date(2458685);
    assert_eq!(date.year, 2019);
    assert_eq!(date.month, 07);
    assert_eq!(date.day, 20);
}

#[test]
fn test_to_julian_day_number() {
    let date = Date {
        year: 2019,
        month: 07,
        day: 20,
    };
    assert_eq!(date.to_julian_day_number(), 2458685);
}

fn days_in_month(year: u32, month: u32) -> u32 {
    let leap = year % 4 == 0 && (year % 100 != 0 || year % 400 == 0);
    match month {
        2 => {
            if leap {
                29
            } else {
                28
            }
        }
        4 | 6 | 9 | 11 => 30,
        _ => 31,
    }
}

#[test]
fn julian_day_round_trip_over_the_years() {
    let mut expected = Date::new(1, 1, 1).to_julian_day_number();
    assert_eq!(expected, 1721426);
    for year in 1..=9999u32 {
        for month in 1..=12u32 {
            for day in 1..=days_in_month(year, month) {
                let date = Date::new(day, month, year);
                let jdn = date.to_julian_day_number();
                assert_eq!(jdn, expected);
                assert_eq!(Date::julian_day_number_to_gregorian_date(jdn), date);
                expected += 1;
            }
        }
    }
    assert_eq!(Date::new(31, 12, 9999).to_julian_day_number(), 5373484);
}

#[test]
fn julian_day_of_known_dates() {
    assert_eq!(Date::new(1, 1, 2000).to_julian_day_number(), 2451545);
    assert_eq!(Date::new(29, 2, 2000).to_julian_day_number(), 2451604);
    assert_eq!(Date::new(1, 3, 2000).to_julian_day_number(), 2451605);
    assert_eq!(Date::new(17, 11, 1858).to_julian_day_number(), 2400001);
    assert_eq!(Date::new(1, 1, 0).to_julian_day_number(), 1721060);
    assert_eq!(
        Date::julian_day_number_to_gregorian_date(2451604),
        Date { year: 2000, month: 2, day: 29 }
    );
    assert_eq!(
        Date::julian_day_number_to_gregorian_date(1721060),
        Date { year: 0, month: 1, day: 1 }
    );
}

#[test]
fn julian_day_before_year_zero_wraps_the_year() {
    let date = Date::julian_day_number_to_gregorian_date(1721059);
    assert_eq!(date.year, (-1i32) as u32);
    assert_eq!(date.month, 12);
    assert_eq!(date.day, 31);
}

#[test]
fn date_accessors() {
    let date = Date::new(20, 7, 2019);
    assert_eq!(date.year(), 2019);
    assert_eq!(date.month(), 7);
    assert_eq!(date.day(), 20);
}

#[test]
fn date_from_text() {
    assert_eq!(Date::from_str("20190720"), Ok(Date { year: 2019, month: 7, day: 20 }));
    assert_eq!(Date::from_str("00010101"), Ok(Date { year: 1, month: 1, day: 1 }));
    assert_eq!(Date::from_str("+201+1+2"), Ok(Date { year: 201, month: 1, day: 2 }));
    assert_eq!(Date::from_str("2019072099"), Ok(Date { year: 2019, month: 7, day: 20 }));
    assert_eq!(Date::from_str("2019072"), Err(ErrorKind::ParseIntError));
    assert_eq!(Date::from_str("2019-7-2"), Err(ErrorKind::ParseIntError));
    assert_eq!(Date::from_str(""), Err(ErrorKind::ParseIntError));
    assert_eq!(Date::from_ascii(b"19991231"), Ok(Date { year: 1999, month: 12, day: 31 }));
}

#[test]
fn date_text() {
    let mut out = Vec::new();
    Date::new(1, 1, 2019).write_text(&mut out);
    assert_eq!(out, b"20190101".to_vec());
    let mut out = b"x".to_vec();
    Date { year: 5, month: 123, day: 7 }.write_text(&mut out);
    assert_eq!(out, b"x000512307".to_vec());
}

#[test]
fn time_accessors_and_word() {
    let time = Time::new(13, 37, 42);
    assert_eq!(time.hours(), 13);
    assert_eq!(time.minutes(), 37);
    assert_eq!(time.seconds(), 42);
    assert_eq!(time.to_time_word(), 13 * 3_600_000 + 37 * 60_000 + 42 * 1_000);
    assert_eq!(Time::from_word(49_062_999), time);
    assert_eq!(Time::from_word(0), Time::new(0, 0, 0));
    assert_eq!(Time::from_word(86_399_999), Time::new(23, 59, 59));
    assert_eq!(Time::new(24, 60, 60).to_time_word(), 90_060_000);
}

#[test]
fn negative_time_word() {
    assert_eq!(Time::from_word(-1), Time { hours: 0, minutes: 0, seconds: 0 });
    assert_eq!(
        Time::from_word(-3_600_000),
        Time { hours: u32::MAX, minutes: 0, seconds: 0 }
    );
    assert_eq!(
        Time::from_word(-3_661_000),
        Time { hours: u32::MAX, minutes: u32::MAX, seconds: u32::MAX }
    );
}

#[test]
fn datetime_bytes() {
    let moment = DateTime::new(Date::new(20, 7, 2019), Time::new(1, 2, 3));
    assert_eq!(moment.date(), Date::new(20, 7, 2019));
    assert_eq!(moment.time(), Time::new(1, 2, 3));
    let mut out = Vec::new();
    moment.write_to(&mut out);
    let mut expected = 2458685i32.to_le_bytes().to_vec();
    expected.extend_from_slice(&3_723_000i32.to_le_bytes());
    assert_eq!(out, expected);
    assert_eq!(DateTime::read_from(&out), Ok(moment));
    assert_eq!(DateTime::read_from(&out[..7]), Err(ErrorKind::UnexpectedEof));
}

#[test]
fn date_as_a_string() {
    assert_eq!(Date::new(1, 1, 2019).to_string(), "20190101");
    assert_eq!(Date::new(0, 0, 0).to_string(), "00000000");
    assert_eq!(Date { year: 12345, month: 6, day: 789 }.to_string(), "1234506789");
    assert_eq!(Date::from_str(&Date::new(31, 12, 9999).to_string()), Ok(Date::new(31, 12, 9999)));
}

#[test]
fn days_that_the_calendar_has() {
    assert!(Date::new(29, 2, 2000).is_calendar_date());
    assert!(Date::new(29, 2, 2024).is_calendar_date());
    assert!(!Date::new(29, 2, 1900).is_calendar_date());
    assert!(!Date::new(29, 2, 2023).is_calendar_date());
    assert!(Date::new(31, 12, 9999).is_calendar_date());
    assert!(Date::new(30, 4, 1).is_calendar_date());
    assert!(!Date::new(31, 4, 1).is_calendar_date());
    assert!(!Date::new(0, 1, 2000).is_calendar_date());
    assert!(!Date::new(1, 0, 2000).is_calendar_date());
    assert!(!Date { year: 2000, month: 13, day: 1 }.is_calendar_date());
    for year in [1u32, 1999, 2000, 2100, 9999] {
        for month in 1..=12 {
            let days = days_in_month(year, month);
            assert!(Date::new(days, month, year).is_calendar_date());
            assert!(!Date { year, month, day: days + 1 }.is_calendar_date());
        }
    }
}

#[test]
fn julian_day_agrees_with_the_time_crate() {
    let mut day = time::Date::from_calendar_date(1, time::Month::January, 1).unwrap();
    loop {
        let date = Date {
            year: day.year() as u32,
            month: u8::from(day.month()) as u32,
            day: day.day() as u32,
        };
        assert!(date.is_calendar_date());
        assert_eq!(date.to_julian_day_number(), day.to_julian_day());
        assert_eq!(Date::julian_day_number_to_gregorian_date(day.to_julian_day()), date);
        match day.next_day() {
            Some(next) => day = next,
            None => break,
        }
    }
    assert_eq!(day.year(), 9999);
}
