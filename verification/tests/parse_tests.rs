use paw_bot::config::env_value_or_note;
use paw_bot::types::{parse_postgres_interval, IntervalParseError, MyDuration};

#[test]
fn parses_day_hour_pairs() {
    assert_eq!(
        parse_postgres_interval(b"2 days 3 hours"),
        Ok(MyDuration(2 * 86400 + 3 * 3600))
    );
    assert_eq!(parse_postgres_interval(b"1 day"), Ok(MyDuration(86400)));
    assert_eq!(parse_postgres_interval(b"1 hour"), Ok(MyDuration(3600)));
    assert_eq!(
        parse_postgres_interval(b"10 minutes 30 seconds"),
        Ok(MyDuration(630))
    );
    assert_eq!(parse_postgres_interval(b"1 minute"), Ok(MyDuration(60)));
    assert_eq!(parse_postgres_interval(b"1 second"), Ok(MyDuration(1)));
}

#[test]
fn parses_empty_and_whitespace() {
    assert_eq!(parse_postgres_interval(b""), Ok(MyDuration(0)));
    assert_eq!(parse_postgres_interval(b"   \t \n "), Ok(MyDuration(0)));
    assert_eq!(
        parse_postgres_interval(b"  2   days \t 5  seconds "),
        Ok(MyDuration(2 * 86400 + 5))
    );
}

#[test]
fn parses_signed_values() {
    assert_eq!(parse_postgres_interval(b"-2 hours"), Ok(MyDuration(-7200)));
    assert_eq!(parse_postgres_interval(b"+45 seconds"), Ok(MyDuration(45)));
    assert_eq!(
        parse_postgres_interval(b"1 days -1 hours"),
        Ok(MyDuration(86400 - 3600))
    );
}

#[test]
fn refuses_malformed_values() {
    assert_eq!(
        parse_postgres_interval(b"x days"),
        Err(IntervalParseError::BadNumber)
    );
    assert_eq!(
        parse_postgres_interval(b"1.5 days"),
        Err(IntervalParseError::BadNumber)
    );
    assert_eq!(
        parse_postgres_interval(b"- days"),
        Err(IntervalParseError::BadNumber)
    );
    // Far beyond 64-bit range.
    assert_eq!(
        parse_postgres_interval(b"99999999999999999999 days"),
        Err(IntervalParseError::BadNumber)
    );
}

#[test]
fn refuses_unknown_units_and_dangling_values() {
    assert_eq!(
        parse_postgres_interval(b"5 parsecs"),
        Err(IntervalParseError::BadUnit)
    );
    assert_eq!(
        parse_postgres_interval(b"5"),
        Err(IntervalParseError::DanglingValue)
    );
    assert_eq!(
        parse_postgres_interval(b"1 day 5"),
        Err(IntervalParseError::DanglingValue)
    );
    // The first fault wins: the bad value comes before the dangling token.
    assert_eq!(
        parse_postgres_interval(b"z days 5"),
        Err(IntervalParseError::BadNumber)
    );
}

#[test]
fn refuses_totals_out_of_range() {
    assert_eq!(
        parse_postgres_interval(b"9223372036854775807 seconds 1 seconds"),
        Err(IntervalParseError::OutOfRange)
    );
    assert_eq!(
        parse_postgres_interval(b"9223372036854775807 seconds"),
        Ok(MyDuration(i64::MAX))
    );
    assert_eq!(
        parse_postgres_interval(b"200000000000000 days"),
        Err(IntervalParseError::OutOfRange)
    );
}

#[test]
fn duration_returns_seconds() {
    assert_eq!(MyDuration(90).duration(), 90);
    assert_eq!(MyDuration(-5).duration(), -5);
}

#[test]
fn env_note_fills_missing_values() {
    assert_eq!(env_value_or_note(Some("postgres://db".to_string())), "postgres://db");
    assert_eq!(env_value_or_note(None), "{} is not set");
}
