use chrono::{Datelike, TimeZone, Timelike};
use meet_scheduler::time::{
    parse_time_to_utc, utc8_now, utc_to_local8, Date, ReferenceInstant, TimeOfDay, TimeParseError,
    UtcInstant,
};

fn ref_from_rfc3339(s: &str) -> ReferenceInstant {
    let dt = chrono::DateTime::parse_from_rfc3339(s)
        .unwrap()
        .with_timezone(&chrono::FixedOffset::east_opt(8 * 3600).unwrap());
    ReferenceInstant {
        date: Date {
            year: dt.year() as u16,
            month: dt.month() as u8,
            day: dt.day() as u8,
        },
        time: TimeOfDay {
            hour: dt.hour() as u8,
            minute: dt.minute() as u8,
            second: dt.second() as u8,
            nanosecond: dt.nanosecond(),
        },
    }
}

fn utc_from_rfc3339(s: &str) -> UtcInstant {
    let dt = chrono::DateTime::parse_from_rfc3339(s)
        .unwrap()
        .with_timezone(&chrono::Utc);
    UtcInstant {
        date: Date {
            year: dt.year() as u16,
            month: dt.month() as u8,
            day: dt.day() as u8,
        },
        time: TimeOfDay {
            hour: dt.hour() as u8,
            minute: dt.minute() as u8,
            second: dt.second() as u8,
            nanosecond: dt.nanosecond(),
        },
    }
}

/// The reference instant expressed in UTC, computed through chrono as an
/// independent oracle for the library's own offset arithmetic.
fn utc_via_chrono(r: ReferenceInstant) -> UtcInstant {
    let nd = chrono::NaiveDate::from_ymd_opt(
        r.date.year as i32,
        r.date.month as u32,
        r.date.day as u32,
    )
    .unwrap();
    let nt = chrono::NaiveTime::from_hms_nano_opt(
        r.time.hour as u32,
        r.time.minute as u32,
        r.time.second as u32,
        r.time.nanosecond,
    )
    .unwrap();
    let dt = chrono::FixedOffset::east_opt(8 * 3600)
        .unwrap()
        .from_local_datetime(&nd.and_time(nt))
        .unwrap();
    let u = dt.with_timezone(&chrono::Utc);
    UtcInstant {
        date: Date {
            year: u.year() as u16,
            month: u.month() as u8,
            day: u.day() as u8,
        },
        time: TimeOfDay {
            hour: u.hour() as u8,
            minute: u.minute() as u8,
            second: u.second() as u8,
            nanosecond: u.nanosecond(),
        },
    }
}

#[test]
fn succ_day_on_previous_time() {
    assert_eq!(
        parse_time_to_utc("12:00", ref_from_rfc3339("2023-04-01T10:00:00+08:00")),
        Ok(utc_from_rfc3339("2023-04-01T12:00:00+08:00"))
    );
    assert_eq!(
        parse_time_to_utc("8:00", ref_from_rfc3339("2023-04-01T10:00:00+08:00")),
        Ok(utc_from_rfc3339("2023-04-02T08:00:00+08:00"))
    );
}

#[test]
fn return_now_on_empty_time() {
    let now = utc8_now();
    assert_eq!(parse_time_to_utc("", now), Ok(utc_via_chrono(now)));
}

#[test]
fn test_parse_date() {
    let now = utc8_now();
    assert_eq!(
        parse_time_to_utc("08:00 01/06/2023", now),
        Ok(utc_from_rfc3339("2023-06-01T08:00:00+08:00"))
    );
}

#[test]
fn test_ill_formed_time() {
    let now = utc8_now();
    assert_eq!(
        parse_time_to_utc("05:12 1/20/1111", now),
        Err(TimeParseError::DateRange)
    );
}

#[test]
fn equal_time_stays_today() {
    assert_eq!(
        parse_time_to_utc("10:00", ref_from_rfc3339("2023-04-01T10:00:00+08:00")),
        Ok(utc_from_rfc3339("2023-04-01T10:00:00+08:00"))
    );
}

#[test]
fn sub_minute_precision_rolls_forward() {
    // now has seconds; 10:00 sharp lies strictly before 10:00:30.
    assert_eq!(
        parse_time_to_utc("10:00", ref_from_rfc3339("2023-04-01T10:00:30+08:00")),
        Ok(utc_from_rfc3339("2023-04-02T10:00:00+08:00"))
    );
}

#[test]
fn roll_forward_crosses_month() {
    assert_eq!(
        parse_time_to_utc("10:00", ref_from_rfc3339("2023-04-30T23:59:59+08:00")),
        Ok(utc_from_rfc3339("2023-05-01T10:00:00+08:00"))
    );
}

#[test]
fn roll_forward_crosses_year() {
    assert_eq!(
        parse_time_to_utc("10:00", ref_from_rfc3339("2023-12-31T23:00:00+08:00")),
        Ok(utc_from_rfc3339("2024-01-01T10:00:00+08:00"))
    );
}

#[test]
fn whitespace_only_input_is_now() {
    let now = ref_from_rfc3339("2023-04-01T10:20:30.5+08:00");
    assert_eq!(parse_time_to_utc("  \t ", now), Ok(utc_via_chrono(now)));
}

#[test]
fn explicit_past_date_is_kept() {
    assert_eq!(
        parse_time_to_utc("08:00 01/01/2020", ref_from_rfc3339("2023-04-01T10:00:00+08:00")),
        Ok(utc_from_rfc3339("2020-01-01T08:00:00+08:00"))
    );
}

#[test]
fn early_hour_borrows_a_day_in_utc() {
    assert_eq!(
        parse_time_to_utc("07:00 01/06/2023", utc8_now()),
        Ok(utc_from_rfc3339("2023-06-01T07:00:00+08:00"))
    );
}

#[test]
fn leap_day_is_accepted_in_leap_years_only() {
    let now = ref_from_rfc3339("2023-04-01T10:00:00+08:00");
    assert_eq!(
        parse_time_to_utc("09:30 29/02/2024", now),
        Ok(utc_from_rfc3339("2024-02-29T09:30:00+08:00"))
    );
    assert_eq!(
        parse_time_to_utc("09:30 29/02/2023", now),
        Err(TimeParseError::DateRange)
    );
}

#[test]
fn day_out_of_month_range_fails() {
    assert_eq!(
        parse_time_to_utc("08:00 31/04/2023", utc8_now()),
        Err(TimeParseError::DateRange)
    );
    assert_eq!(
        parse_time_to_utc("08:00 0/06/2023", utc8_now()),
        Err(TimeParseError::DateRange)
    );
}

#[test]
fn malformed_time_token_fails() {
    let now = utc8_now();
    assert_eq!(parse_time_to_utc("25:00", now), Err(TimeParseError::TimeFormat));
    assert_eq!(parse_time_to_utc("10:60", now), Err(TimeParseError::TimeFormat));
    assert_eq!(parse_time_to_utc("8:5", now), Err(TimeParseError::TimeFormat));
    assert_eq!(parse_time_to_utc("aa:bb", now), Err(TimeParseError::TimeFormat));
    assert_eq!(parse_time_to_utc("01/06/2023", now), Err(TimeParseError::TimeFormat));
}

#[test]
fn malformed_date_token_fails() {
    let now = utc8_now();
    assert_eq!(
        parse_time_to_utc("08:00 1-06-2023", now),
        Err(TimeParseError::DateFormat)
    );
    assert_eq!(
        parse_time_to_utc("08:00 01/06/23", now),
        Err(TimeParseError::DateFormat)
    );
}

#[test]
fn extra_tokens_are_ignored() {
    assert_eq!(
        parse_time_to_utc("08:00 01/06/2023 unrelated", utc8_now()),
        Ok(utc_from_rfc3339("2023-06-01T08:00:00+08:00"))
    );
}

#[test]
fn underflow_below_representable_range() {
    assert_eq!(
        parse_time_to_utc("07:00 01/01/0000", utc8_now()),
        Err(TimeParseError::Unrepresentable)
    );
}

#[test]
fn round_trip_restores_local_time() {
    let resolved = parse_time_to_utc("13:45 15/07/2023", utc8_now()).unwrap();
    let back = utc_to_local8(resolved);
    assert_eq!(
        back,
        ReferenceInstant {
            date: Date { year: 2023, month: 7, day: 15 },
            time: TimeOfDay { hour: 13, minute: 45, second: 0, nanosecond: 0 },
        }
    );
}

#[test]
fn clock_reads_valid_fields() {
    let now = utc8_now();
    assert!(1 <= now.date.month && now.date.month <= 12);
    assert!(1 <= now.date.day && now.date.day <= 31);
    assert!(now.time.hour < 24 && now.time.minute < 60 && now.time.second < 60);
    assert!(now.time.nanosecond < 1_000_000_000);
    // chrono accepts the very same civil fields.
    let _ = utc_via_chrono(now);
}
