//! Dates and times: the calendar facts the analyses need from chrono, and
//! the parsing of user-supplied dates.
use vstd::prelude::*;

use chrono::Datelike;

use crate::models::Timestamp;
use crate::text::push_str;

verus! {

/// chrono's rendering of the UTC instant `seconds`/`nanos` with the format
/// string `fmt`, or `None` when chrono cannot represent the instant.
pub uninterp spec fn utc_format(seconds: i64, nanos: u32, fmt: Seq<char>) -> Option<Seq<char>>;

/// The ISO week-numbering year and week of the UTC instant, or `None` when
/// chrono cannot represent it.
pub uninterp spec fn utc_iso_week(seconds: i64, nanos: u32) -> Option<(i32, u32)>;

/// The calendar year of the UTC instant, or `None` when chrono cannot
/// represent it.
pub uninterp spec fn utc_year(seconds: i64, nanos: u32) -> Option<i32>;

/// The instant that an RFC 3339 timestamp denotes (seconds and nanoseconds
/// since the Unix epoch), or `None` when chrono rejects the text.
pub uninterp spec fn rfc3339_instant(s: Seq<char>) -> Option<(i64, u32)>;

/// The Unix time of midnight (UTC) of the date that `s` spells in the
/// format `fmt`, or `None` when chrono rejects the text.
pub uninterp spec fn date_midnight(s: Seq<char>, fmt: Seq<char>) -> Option<i64>;

/// The whole number of days from the UTC instant `s1`/`n1` to `s2`/`n2`
/// (`(to - from).num_days()`, negative when `to` is earlier), or `None`
/// when chrono cannot represent either instant.
pub uninterp spec fn utc_days_between(s1: i64, n1: u32, s2: i64, n2: u32) -> Option<i64>;

/// Whether chrono can represent the UTC instant `seconds`/`nanos`.
pub uninterp spec fn utc_representable(seconds: i64, nanos: u32) -> bool;

/// The date format `%Y-%m-%d`.
pub open spec fn day_format() -> Seq<char> {
    seq!['%', 'Y', '-', '%', 'm', '-', '%', 'd']
}

/// The month format `%Y-%m`.
pub open spec fn month_format() -> Seq<char> {
    seq!['%', 'Y', '-', '%', 'm']
}

/// Renders a UTC instant with `DateTime::from_timestamp` and `format`; the
/// result is chrono's, named `utc_format`. Only the two formats the
/// timeline uses are accepted: chrono panics on a malformed format string.
/// There is a result exactly when chrono can represent the instant.
#[verifier::external_body]
pub(crate) fn format_utc(seconds: i64, nanos: u32, fmt: &str) -> (r: Option<String>)
    requires
        fmt@ == day_format() || fmt@ == month_format(),
    ensures
        r is Some <==> utc_representable(seconds, nanos),
        match r {
            Some(s) => utc_format(seconds, nanos, fmt@) == Some(s@),
            None => utc_format(seconds, nanos, fmt@) is None,
        },
{
    match chrono::DateTime::from_timestamp(seconds, nanos) {
        Some(dt) => Some(dt.format(fmt).to_string()),
        None => None,
    }
}

/// The ISO year and week (`iso_week().year()`, `.week()`) of a UTC instant;
/// chrono documents the week as ranging from 1 to 53. There is a result
/// exactly when chrono can represent the instant.
#[verifier::external_body]
pub(crate) fn iso_week_utc(seconds: i64, nanos: u32) -> (r: Option<(i32, u32)>)
    ensures
        r == utc_iso_week(seconds, nanos),
        r is Some <==> utc_representable(seconds, nanos),
        r matches Some(p) ==> 1 <= p.1 <= 53,
{
    match chrono::DateTime::from_timestamp(seconds, nanos) {
        Some(dt) => Some((dt.iso_week().year(), dt.iso_week().week())),
        None => None,
    }
}

/// The calendar year (`Datelike::year`) of a UTC instant; there is one
/// exactly when chrono can represent the instant.
#[verifier::external_body]
pub(crate) fn year_utc(seconds: i64, nanos: u32) -> (r: Option<i32>)
    ensures
        r == utc_year(seconds, nanos),
        r is Some <==> utc_representable(seconds, nanos),
{
    match chrono::DateTime::from_timestamp(seconds, nanos) {
        Some(dt) => Some(dt.year()),
        None => None,
    }
}

/// The whole days from `from` to `to` (`(to - from).num_days()` on chrono
/// instants); the result is chrono's, named `utc_days_between`. There is one
/// exactly when chrono can represent both instants.
#[verifier::external_body]
pub(crate) fn days_between_utc(from: Timestamp, to: Timestamp) -> (r: Option<i64>)
    ensures
        r == utc_days_between(from.seconds, from.nanos, to.seconds, to.nanos),
        r is Some <==> (utc_representable(from.seconds, from.nanos) && utc_representable(to.seconds, to.nanos)),
{
    match (chrono::DateTime::from_timestamp(from.seconds, from.nanos), chrono::DateTime::from_timestamp(to.seconds, to.nanos)) {
        (Some(a), Some(b)) => Some((b - a).num_days()),
        _ => None,
    }
}

/// Whether `DateTime::from_timestamp` accepts the instant; named
/// `utc_representable`. It accepts the Unix epoch (chrono's
/// `DateTime::UNIX_EPOCH`).
#[verifier::external_body]
pub(crate) fn representable_utc(seconds: i64, nanos: u32) -> (r: bool)
    ensures
        r == utc_representable(seconds, nanos),
        seconds == 0 && nanos == 0 ==> r,
{
    chrono::DateTime::from_timestamp(seconds, nanos).is_some()
}

/// The current time (`Utc::now`). Nothing is claimed of it: it is whatever
/// the clock says.
#[verifier::external_body]
pub fn now_utc() -> (t: Timestamp) {
    let now = chrono::Utc::now();
    Timestamp { seconds: now.timestamp(), nanos: now.timestamp_subsec_nanos() }
}

/// Parses an RFC 3339 timestamp (`DateTime::parse_from_rfc3339`) and gives
/// its instant; the result is chrono's, named `rfc3339_instant`.
#[verifier::external_body]
fn parse_rfc3339(s: &str) -> (r: Option<Timestamp>)
    ensures
        match r {
            Some(t) => rfc3339_instant(s@) == Some((t.seconds, t.nanos)),
            None => rfc3339_instant(s@) is None,
        },
{
    match chrono::DateTime::parse_from_rfc3339(s) {
        Ok(dt) => Some(Timestamp { seconds: dt.timestamp(), nanos: dt.timestamp_subsec_nanos() }),
        Err(_) => None,
    }
}

/// Parses a date (`NaiveDate::parse_from_str`) and gives the Unix time of
/// its midnight (`and_hms_opt(0, 0, 0)`, UTC); named `date_midnight`.
#[verifier::external_body]
fn parse_date_midnight(s: &str, fmt: &str) -> (r: Option<i64>)
    ensures
        r == date_midnight(s@, fmt@),
{
    match chrono::NaiveDate::parse_from_str(s, fmt) {
        Ok(d) => match d.and_hms_opt(0, 0, 0) {
            Some(m) => Some(m.and_utc().timestamp()),
            None => None,
        },
        Err(_) => None,
    }
}

/// The message for a date that is neither form.
pub open spec fn bad_date_message(s: Seq<char>) -> Seq<char> {
    seq!['c', 'o', 'u', 'l', 'd', ' ', 'n', 'o', 't', ' ', 'p', 'a', 'r', 's', 'e', ' ', 'd', 'a', 't', 'e', ' ', '\'']
        + s
        + seq!['\'', ':', ' ', 'e', 'x', 'p', 'e', 'c', 't', 'e', 'd', ' ', 'Y', 'Y', 'Y', 'Y', '-', 'M', 'M', '-', 'D', 'D', ' ', 'o', 'r', ' ', 'a', 'n', ' ', 'R', 'F', 'C', ' ', '3', '3', '3', '9', ' ', 't', 'i', 'm', 'e', 's', 't', 'a', 'm', 'p']
}

/// The date that `input` denotes, given how chrono read it: the RFC 3339
/// instant when there is one, else midnight UTC of the `YYYY-MM-DD` date,
/// else an error naming the input.
pub fn resolve_date(input: &str, instant: Option<Timestamp>, midnight: Option<i64>) -> (r: Result<Timestamp, String>)
    ensures
        match instant {
            Some(t) => r == Ok::<Timestamp, String>(t),
            None => match midnight {
                Some(secs) => r == Ok::<Timestamp, String>(Timestamp { seconds: secs, nanos: 0 }),
                None => r matches Err(e) && e@ == bad_date_message(input@),
            },
        },
{
    match instant {
        Some(t) => Ok(t),
        None => match midnight {
            Some(secs) => Ok(Timestamp { seconds: secs, nanos: 0 }),
            None => {
                let mut msg = String::new();
                push_str(&mut msg, "could not parse date '");
                push_str(&mut msg, input);
                push_str(&mut msg, "': expected YYYY-MM-DD or an RFC 3339 timestamp");
                proof {
                    reveal_strlit("could not parse date '");
                    reveal_strlit("': expected YYYY-MM-DD or an RFC 3339 timestamp");
                }
                assert(msg@ =~= bad_date_message(input@));
                Err(msg)
            },
        },
    }
}

/// The date `s` denotes: its RFC 3339 instant, else midnight UTC of its
/// `YYYY-MM-DD` date, else an error naming it.
pub open spec fn date_result(s: Seq<char>) -> Result<Timestamp, Seq<char>> {
    match rfc3339_instant(s) {
        Some(p) => Ok(Timestamp { seconds: p.0, nanos: p.1 }),
        None => match date_midnight(s, day_format()) {
            Some(secs) => Ok(Timestamp { seconds: secs, nanos: 0 }),
            None => Err(bad_date_message(s)),
        },
    }
}

/// Parses a user-supplied date: either `YYYY-MM-DD` (midnight UTC) or a
/// full RFC 3339 timestamp such as `2024-01-15T00:00:00Z`.
pub fn parse_date(s: &str) -> (r: Result<Timestamp, String>)
    ensures
        match r {
            Ok(t) => date_result(s@) == Ok::<Timestamp, Seq<char>>(t),
            Err(e) => date_result(s@) == Err::<Timestamp, Seq<char>>(e@),
        },
{
    let instant = parse_rfc3339(s);
    let fmt = "%Y-%m-%d";
    proof { reveal_strlit("%Y-%m-%d"); }
    assert(fmt@ =~= day_format());
    let midnight = parse_date_midnight(s, fmt);
    resolve_date(s, instant, midnight)
}

} // verus!
