use chrono::{DateTime, FixedOffset};
use jj_core::date_text::parse_supported;
use jj_core::time_expression::{TimeExpression, UtcInstant, ZonedDateTime};

fn zoned(now: DateTime<FixedOffset>) -> ZonedDateTime {
    ZonedDateTime {
        timestamp: now.timestamp(),
        nanos: now.timestamp_subsec_nanos(),
        utc_offset: now.offset().local_minus_utc(),
    }
}

fn instant(rfc3339: &str) -> UtcInstant {
    let t = DateTime::parse_from_rfc3339(rfc3339).unwrap().to_utc();
    UtcInstant {
        timestamp: t.timestamp(),
        nanos: t.timestamp_subsec_nanos(),
    }
}

fn test_equal(now: DateTime<FixedOffset>, expression: &str, should_equal_time: &str) {
    let now = zoned(now);
    assert!(parse_supported(expression, now));
    let expression = TimeExpression::parse(expression, now).unwrap();
    assert_eq!(
        expression,
        TimeExpression::AtOrAfter(instant(should_equal_time))
    );
}

#[test]
fn test_timeexpression_parses_dates_without_times_as_the_date_at_local_midnight() {
    let now = DateTime::parse_from_rfc3339("2024-01-01T00:00:00-08:00").unwrap();
    test_equal(now, "2023-03-25", "2023-03-25T08:00:00Z");
    test_equal(now, "3/25/2023", "2023-03-25T08:00:00Z");
    test_equal(now, "3/25/23", "2023-03-25T08:00:00Z");
}

#[test]
fn test_timeexpression_parses_dates_with_times_without_specifying_an_offset() {
    let now = DateTime::parse_from_rfc3339("2024-01-01T00:00:00-08:00").unwrap();
    test_equal(now, "2023-03-25T00:00:00", "2023-03-25T08:00:00Z");
    test_equal(now, "2023-03-25 00:00:00", "2023-03-25T08:00:00Z");
}

#[test]
fn test_timeexpression_parses_dates_with_a_specified_offset() {
    let now = DateTime::parse_from_rfc3339("2024-01-01T00:00:00-08:00").unwrap();
    test_equal(
        now,
        "2023-03-25T00:00:00-05:00",
        "2023-03-25T00:00:00-05:00",
    );
}

#[test]
fn test_timeexpression_parses_dates_with_the_z_offset() {
    let now = DateTime::parse_from_rfc3339("2024-01-01T00:00:00-08:00").unwrap();
    test_equal(now, "2023-03-25T00:00:00Z", "2023-03-25T00:00:00Z");
}

#[test]
fn test_timeexpression_parses_relative_durations() {
    let now = DateTime::parse_from_rfc3339("2024-01-01T00:00:00-08:00").unwrap();
    test_equal(now, "2 hours ago", "2024-01-01T06:00:00Z");
    test_equal(now, "5 minutes", "2024-01-01T08:05:00Z");
    test_equal(now, "1 week ago", "2023-12-25T08:00:00Z");
    test_equal(now, "yesterday", "2023-12-31T08:00:00Z");
    test_equal(now, "tomorrow", "2024-01-02T08:00:00Z");
}

#[test]
fn test_timeexpression_parses_relative_dates_with_times() {
    let now = DateTime::parse_from_rfc3339("2024-01-01T08:00:00-08:00").unwrap();
    test_equal(now, "yesterday 5pm", "2024-01-01T01:00:00Z");
    test_equal(now, "yesterday 10am", "2023-12-31T18:00:00Z");
    test_equal(now, "yesterday 10:30", "2023-12-31T18:30:00Z");
}

#[test]
fn time_expression_reports_the_parser_error() {
    let now = zoned(DateTime::parse_from_rfc3339("2024-01-01T00:00:00-08:00").unwrap());
    let err = TimeExpression::parse("bananas", now).unwrap_err();
    assert_eq!(err.details, "expected week day or month name");
}

#[test]
fn time_expression_keeps_fractions_of_a_second() {
    let now = zoned(DateTime::parse_from_rfc3339("2024-01-01T00:00:00-08:00").unwrap());
    let expression = TimeExpression::parse("2023-03-25T00:00:00.25Z", now).unwrap();
    assert_eq!(
        expression,
        TimeExpression::AtOrAfter(UtcInstant {
            timestamp: 1_679_702_400,
            nanos: 250_000_000,
        })
    );
}

#[test]
fn time_expression_from_parsed_result() {
    let t = UtcInstant {
        timestamp: 42,
        nanos: 7,
    };
    assert_eq!(
        TimeExpression::from_parsed(Ok(t)).unwrap(),
        TimeExpression::AtOrAfter(t)
    );
    let err = TimeExpression::from_parsed(Err("bad date".to_string())).unwrap_err();
    assert_eq!(err.details, "bad date");
}

#[test]
fn parse_supported_admits_what_the_parser_handles() {
    let now = zoned(DateTime::parse_from_rfc3339("2024-01-01T00:00:00-08:00").unwrap());
    assert!(parse_supported("", now));
    assert!(parse_supported("99999 weeks ago", now));
    assert!(parse_supported("1173488 weeks ago", now));
    assert!(parse_supported("1173489 weeks ago", now));
    assert!(parse_supported("100000000 seconds ago", now));
    assert!(parse_supported("2147483647 sec", now));
    assert!(parse_supported("10:00:00+1173488:1173488", now));
    assert!(parse_supported("2023-03-25T00:00:00.1234567890123456789Z", now));
    assert!(parse_supported("2 hours\u{a0}ago", now));
    assert!(parse_supported("10000-01-01", now));
    assert!(parse_supported("8.30pm", now));
    assert!(parse_supported("yesterday 5pm. ", now));
    assert!(parse_supported("-2000000 seconds", now));
    assert!(parse_supported("2023-03-25T00:00:00.", now));
}

#[test]
fn parse_supported_refuses_what_can_panic() {
    let now = zoned(DateTime::parse_from_rfc3339("2024-01-01T00:00:00-08:00").unwrap());
    // A first word sliced at byte 3 inside a character, and the word after a
    // count sliced at byte 1 inside one.
    assert!(!parse_supported("éé", now));
    assert!(!parse_supported("2 é", now));
    // Offsets whose `60 * (minute + 60 * hour)` overflows a u32.
    assert!(!parse_supported("10:00:00+1193047:0", now));
    assert!(!parse_supported("10:00:00+0:71582789", now));
    assert!(!parse_supported("2023-03-25T00:00:00-119304700", now));
    // A count negated from i32::MIN, and weeks beyond the range.
    assert!(!parse_supported("2147483648 seconds ago", now));
    assert!(!parse_supported("14000000 weeks ago", now));
    // An hour that overflows when 12 is added for "pm".
    assert!(!parse_supported("4294967295pm", now));
    assert!(!parse_supported("2d.4294967295pm", now));
    // A fraction of a second that does not parse as a float.
    assert!(!parse_supported("10:30:00.x", now));
    assert!(!parse_supported("10:30:00 .x", now));
    assert!(!parse_supported("10:30:00.e", now));
    assert!(!parse_supported("10:30:00.5\u{663}", now));
    let far = ZonedDateTime {
        timestamp: 8_210_266_876_799 - 86_399,
        nanos: 0,
        utc_offset: 0,
    };
    assert!(parse_supported("today", far));
    assert!(!parse_supported("tomorrow", far));
    let bad_offset = ZonedDateTime {
        timestamp: 0,
        nanos: 0,
        utc_offset: 86_400,
    };
    assert!(!parse_supported("today", bad_offset));
}

#[test]
fn parse_supported_admits_what_does_not_panic() {
    let now = zoned(DateTime::parse_from_rfc3339("2024-01-01T00:00:00-08:00").unwrap());
    assert!(parse_supported("100000000\tseconds ago", now));
    assert!(parse_supported("20000000", now));
    assert!(parse_supported("99999999999", now));
    assert!(parse_supported("été", now));
    assert!(parse_supported("2 sé", now));
    assert!(parse_supported("10:00:00+1193046:0", now));
    assert!(parse_supported("10:00:00+0:71582788", now));
    assert!(parse_supported("2023-03-25T00:00:00-119304600", now));
    assert!(parse_supported("2147483648 seconds", now));
    assert!(parse_supported("4294967283pm", now));
    assert!(parse_supported("4294967295 compare", now));
    assert!(!parse_supported("4294967295 PM", now));
    assert!(parse_supported("10:30:00.e5", now));
    assert!(parse_supported("10:30:00.", now));
}

#[test]
fn time_expression_parses_what_the_old_bounds_refused() {
    let now = zoned(DateTime::parse_from_rfc3339("2024-01-01T00:00:00-08:00").unwrap());
    assert_eq!(
        TimeExpression::parse("100000000\tseconds ago", now).unwrap(),
        TimeExpression::AtOrAfter(UtcInstant {
            timestamp: 1_704_096_000 - 100_000_000,
            nanos: 0,
        })
    );
    assert_eq!(
        TimeExpression::parse("20000000", now).unwrap_err().details,
        "bad date"
    );
    assert_eq!(
        TimeExpression::parse("été", now).unwrap_err().details,
        "expected week day or month name"
    );
    assert!(TimeExpression::parse("10:00:00+1193046:0", now).is_ok());
    assert!(TimeExpression::parse("2023-03-25T00:00:00-119304600", now).is_ok());
    assert!(TimeExpression::parse("4294967283pm", now).is_err());
    assert_eq!(
        TimeExpression::parse("2147483648 seconds", now).unwrap(),
        TimeExpression::AtOrAfter(UtcInstant {
            timestamp: 1_704_096_000 - 2_147_483_648,
            nanos: 0,
        })
    );
    let TimeExpression::AtOrAfter(t) = TimeExpression::parse("2023-03-25T00:00:00.e5Z", now).unwrap();
    assert_eq!(t.timestamp, 1_679_702_400);
}

#[test]
fn counts_are_bounded_by_the_room_left_in_range() {
    let now = ZonedDateTime {
        timestamp: 8_210_266_876_799 - 86_400 - 3 * 604_800,
        nanos: 0,
        utc_offset: 0,
    };
    assert!(parse_supported("3 weeks", now));
    assert!(!parse_supported("4 weeks", now));
    assert!(parse_supported("22 days", now));
    assert!(!parse_supported("23 days", now));
    assert!(parse_supported("1900800 seconds", now));
    assert!(!parse_supported("1900801 seconds", now));
    assert_eq!(
        TimeExpression::parse("1900800 seconds", now).unwrap(),
        TimeExpression::AtOrAfter(UtcInstant {
            timestamp: 8_210_266_876_799,
            nanos: 0,
        })
    );
    let expression = TimeExpression::parse("3 weeks", now).unwrap();
    assert_eq!(
        expression,
        TimeExpression::AtOrAfter(UtcInstant {
            timestamp: 8_210_266_876_799 - 86_400,
            nanos: 0,
        })
    );
}

#[test]
fn time_expression_parses_large_numbers_fractions_and_unicode_spaces() {
    let now = zoned(DateTime::parse_from_rfc3339("2024-01-01T00:00:00-08:00").unwrap());
    assert_eq!(
        TimeExpression::parse("100000 seconds ago", now).unwrap(),
        TimeExpression::AtOrAfter(UtcInstant {
            timestamp: 1_704_096_000 - 100_000,
            nanos: 0,
        })
    );
    assert_eq!(
        TimeExpression::parse("2 hours\u{a0}ago", now).unwrap(),
        TimeExpression::AtOrAfter(instant("2024-01-01T06:00:00Z"))
    );
    assert_eq!(
        TimeExpression::parse("10000-01-01", now).unwrap(),
        TimeExpression::AtOrAfter(UtcInstant {
            timestamp: 253_402_329_600,
            nanos: 0,
        })
    );
    let TimeExpression::AtOrAfter(t) =
        TimeExpression::parse("2023-03-25T00:00:00.123456Z", now).unwrap();
    assert_eq!(t.timestamp, 1_679_702_400);
    assert!(t.nanos.abs_diff(123_456_000) <= 1_000);
}

#[test]
fn time_expression_parses_counts_of_small_units_and_wide_offsets() {
    let now = zoned(DateTime::parse_from_rfc3339("2024-01-01T00:00:00-08:00").unwrap());
    assert_eq!(
        TimeExpression::parse("100000000 seconds ago", now).unwrap(),
        TimeExpression::AtOrAfter(UtcInstant {
            timestamp: 1_704_096_000 - 100_000_000,
            nanos: 0,
        })
    );
    assert_eq!(
        TimeExpression::parse("2000000 MIN", now).unwrap(),
        TimeExpression::AtOrAfter(UtcInstant {
            timestamp: 1_704_096_000 + 120_000_000,
            nanos: 0,
        })
    );
    assert!(TimeExpression::parse("10:00:00+1173488:1173488", now).is_ok());
    assert_eq!(
        TimeExpression::parse("-2000000 seconds", now).unwrap(),
        TimeExpression::AtOrAfter(UtcInstant {
            timestamp: 1_704_096_000 - 2_000_000,
            nanos: 0,
        })
    );
}

#[test]
fn time_expression_ignores_a_point_after_a_word() {
    let now = zoned(DateTime::parse_from_rfc3339("2024-01-01T08:00:00-08:00").unwrap());
    assert_eq!(
        TimeExpression::parse("yesterday 5pm. ", now).unwrap(),
        TimeExpression::AtOrAfter(instant("2024-01-01T01:00:00Z"))
    );
}

#[test]
fn time_expression_parse_checked_refuses_what_can_panic() {
    let now = zoned(DateTime::parse_from_rfc3339("2024-01-01T00:00:00-08:00").unwrap());
    assert_eq!(
        TimeExpression::parse_checked("2 hours ago", now)
            .unwrap()
            .unwrap(),
        TimeExpression::AtOrAfter(instant("2024-01-01T06:00:00Z"))
    );
    assert!(TimeExpression::parse_checked("éé", now).is_none());
    assert!(TimeExpression::parse_checked("10:30:00.x", now).is_none());
    let err = TimeExpression::parse_checked("bananas", now)
        .unwrap()
        .unwrap_err();
    assert_eq!(err.details, "expected week day or month name");
}

#[test]
fn counts_of_years_are_bounded_by_i32_month_arithmetic() {
    // Seen at -08:00 the reference time is in January: month 0.
    let now = zoned(DateTime::parse_from_rfc3339("2024-01-01T00:00:00-08:00").unwrap());
    assert!(parse_supported("178956970 years", now));
    assert!(!parse_supported("178956971 years", now));
    assert!(parse_supported("178956969 years ago", now));
    assert!(!parse_supported("178956970 years ago", now));
    assert!(TimeExpression::parse("178956970 years", now).is_err());
    assert!(TimeExpression::parse("178956969 years ago", now).is_err());
}
