//! The wall clock, read through `chrono`.

use vstd::prelude::*;

verus! {

/// Calls `chrono::Utc::now` and `DateTime::timestamp_micros`: the current time
/// in microseconds since the Unix epoch. Nothing is claimed of the value.
#[verifier::external_body]
pub(crate) fn now_micros() -> i64 {
    chrono::Utc::now().timestamp_micros()
}

/// Calls `chrono::Local::now` and formats it with `%Y%m%d_%H%M%S`: the local
/// time to the second, as used for the name of a run that was given none. Of
/// the text only its least length is claimed: the year takes four characters
/// or more, each other field two, and the underscore one.
#[verifier::external_body]
pub(crate) fn local_run_stamp() -> (r: String)
    ensures
        r@.len() >= 15,
{
    chrono::Local::now().format("%Y%m%d_%H%M%S").to_string()
}

/// The RFC 3339 text, in UTC, of the instant that lies `micros` microseconds
/// after the Unix epoch; `None` where the instant is out of the calendar's
/// range.
pub uninterp spec fn timestamp_text(micros: i64) -> Option<Seq<char>>;

/// Calls `chrono::DateTime::from_timestamp_micros` and formats the instant
/// with `to_rfc3339`; nothing where the first gives `None`.
#[verifier::external_body]
pub(crate) fn timestamp_to_text(micros: i64) -> (r: Option<String>)
    ensures
        match r {
            Some(text) => timestamp_text(micros) == Some(text@),
            None => timestamp_text(micros) is None,
        },
{
    let instant = chrono::DateTime::<chrono::Utc>::from_timestamp_micros(micros)?;
    Some(instant.to_rfc3339())
}

/// The text of the instant that lies `micros` microseconds after the Unix
/// epoch as a log line bears it: date and time in UTC to the millisecond, with
/// `T` between them and `Z` at the end; `None` where the instant is out of the
/// calendar's range.
pub uninterp spec fn log_time_text(micros: i64) -> Option<Seq<char>>;

/// Calls `chrono::DateTime::from_timestamp_micros` and formats the instant
/// with `%Y-%m-%dT%H:%M:%S%.3fZ`; nothing where the first gives `None`.
#[verifier::external_body]
pub(crate) fn log_time_to_text(micros: i64) -> (r: Option<String>)
    ensures
        match r {
            Some(text) => log_time_text(micros) == Some(text@),
            None => log_time_text(micros) is None,
        },
{
    let instant = chrono::DateTime::<chrono::Utc>::from_timestamp_micros(micros)?;
    Some(instant.format("%Y-%m-%dT%H:%M:%S%.3fZ").to_string())
}

} // verus!
