//! Calls into chrono: reading wall-clock timestamps, placing them in the
//! machine's time zone, and the current local time.

use vstd::prelude::*;

verus! {

/// Milliseconds since 1970-01-01T00:00:00 of the wall-clock time that `s`
/// spells in the format `fmt`, read as UTC; `None` when `s` does not match.
pub uninterp spec fn naive_ms_of(s: Seq<char>, fmt: Seq<char>) -> Option<i64>;

/// Midnight of a day number (day 1 is January 1 of year 1) as
/// `%Y-%m-%dT00:00:00`, or `None` outside the calendar's range.
pub uninterp spec fn midnight_text_of(day: i32) -> Option<Seq<char>>;

/// Relies on chrono's `NaiveDateTime::parse_from_str` and on
/// `DateTime::timestamp_millis` of its UTC reading: the result depends on the
/// text and the format alone.
#[verifier::external_body]
pub(crate) fn parse_naive_ms(s: &str, fmt: &str) -> (r: Option<i64>)
    ensures
        r == naive_ms_of(s@, fmt@),
{
    match chrono::NaiveDateTime::parse_from_str(s, fmt) {
        Ok(d) => Some(d.and_utc().timestamp_millis()),
        Err(_) => None,
    }
}

/// Relies on chrono's `DateTime::from_timestamp_millis` and
/// `TimeZone::from_local_datetime` on `Local`: the instant, in milliseconds
/// since the epoch, of a wall-clock time (given as milliseconds read as UTC)
/// in the machine's time zone; `None` when it names no single local instant.
/// It depends on the machine's time zone, so nothing is known of its value.
#[verifier::external_body]
pub(crate) fn local_epoch_ms(wall_ms: i64) -> (r: Option<i64>) {
    match chrono::DateTime::from_timestamp_millis(wall_ms) {
        Some(d) => match chrono::TimeZone::from_local_datetime(&chrono::Local, &d.naive_utc()).single() {
            Some(t) => Some(t.timestamp_millis()),
            None => None,
        },
        None => None,
    }
}

/// Relies on chrono's `DateTime::from_timestamp_millis`, `with_timezone` on
/// `Local` and `format`: the local wall-clock rendering
/// (`%Y-%m-%dT%H:%M:%S%.3f`) of an instant (out-of-range instants render as
/// the default date). It depends on the machine's time zone, so nothing is
/// known of its value.
#[verifier::external_body]
pub(crate) fn local_text_of_millis(ms: i64) -> (r: String) {
    let d = match chrono::DateTime::from_timestamp_millis(ms) {
        Some(u) => u.with_timezone(&chrono::Local).naive_local(),
        None => chrono::NaiveDateTime::default(),
    };
    d.format("%Y-%m-%dT%H:%M:%S%.3f").to_string()
}

/// Relies on chrono's `Local::now` and `timestamp_millis`: the current time in
/// milliseconds; nothing is known of its value.
#[verifier::external_body]
pub(crate) fn now_millis() -> (r: i64) {
    chrono::Local::now().timestamp_millis()
}

/// Relies on chrono's `Local::now` and `format`: the current local time as
/// `%Y-%m-%dT%H:%M:%S`; nothing is known of its value.
#[verifier::external_body]
pub(crate) fn now_local_text() -> (r: String) {
    chrono::Local::now().format("%Y-%m-%dT%H:%M:%S").to_string()
}

/// Relies on chrono's `Local::now`, `date_naive` and
/// `Datelike::num_days_from_ce`: today's local date as a day number (day 1 is
/// January 1 of year 1); nothing is known of its value.
#[verifier::external_body]
pub(crate) fn local_today_day() -> (r: i32) {
    chrono::Datelike::num_days_from_ce(&chrono::Local::now().date_naive())
}

/// Relies on chrono's `NaiveDate::from_num_days_from_ce_opt` and `format`:
/// midnight of a day number as `%Y-%m-%dT00:00:00`, or `None` when the day
/// lies outside chrono's date range (years -262143 to 262142), which day
/// numbers 0 to 3,000,000 do not.
#[verifier::external_body]
pub(crate) fn midnight_text(day: i32) -> (r: Option<String>)
    ensures
        match r {
            Some(t) => midnight_text_of(day) == Some(t@),
            None => midnight_text_of(day).is_none(),
        },
        0 <= day <= 3_000_000 ==> r.is_some(),
{
    match chrono::NaiveDate::from_num_days_from_ce_opt(day) {
        Some(d) => Some(d.format("%Y-%m-%dT00:00:00").to_string()),
        None => None,
    }
}

} // verus!
