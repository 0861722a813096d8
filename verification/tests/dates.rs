use chrono::{DateTime, Datelike, Timelike, Utc};

use delta::models::Timestamp;
use delta::utils::date::{parse_date, resolve_date};

fn utc(t: Timestamp) -> DateTime<Utc> {
    DateTime::from_timestamp(t.seconds, t.nanos).unwrap()
}

#[test]
fn parses_iso_date_as_utc_midnight() {
    let dt = utc(parse_date("2024-01-15").unwrap());
    assert_eq!(dt.year(), 2024);
    assert_eq!(dt.month(), 1);
    assert_eq!(dt.day(), 15);
    assert_eq!(dt.hour(), 0);
    assert_eq!(dt.minute(), 0);
    assert_eq!(dt.offset(), &Utc);
}

#[test]
fn parses_rfc3339() {
    let dt = utc(parse_date("2024-01-15T12:30:00Z").unwrap());
    assert_eq!(dt.hour(), 12);
    assert_eq!(dt.minute(), 30);
}

#[test]
fn rejects_garbage() {
    assert!(parse_date("not-a-date").is_err());
}

#[test]
fn parse_date_gives_exact_instants_and_messages() {
    assert_eq!(parse_date("2024-01-15").unwrap(), Timestamp { seconds: 1_705_276_800, nanos: 0 });
    assert_eq!(
        parse_date("2024-01-15T12:30:00.5+02:00").unwrap(),
        Timestamp { seconds: 1_705_314_600, nanos: 500_000_000 }
    );
    assert_eq!(
        parse_date("15/01/2024").unwrap_err(),
        "could not parse date '15/01/2024': expected YYYY-MM-DD or an RFC 3339 timestamp"
    );
}

#[test]
fn resolve_date_prefers_the_instant() {
    let t = Timestamp { seconds: 7, nanos: 9 };
    assert_eq!(resolve_date("x", Some(t), Some(100)).unwrap(), t);
    assert_eq!(resolve_date("x", None, Some(100)).unwrap(), Timestamp { seconds: 100, nanos: 0 });
    assert_eq!(
        resolve_date("x", None, None).unwrap_err(),
        "could not parse date 'x': expected YYYY-MM-DD or an RFC 3339 timestamp"
    );
}
