//! The issuance timestamp: the current UTC time, written in RFC 3339.
use std::time::{Duration, SystemTime, SystemTimeError};
use vstd::prelude::*;

verus! {

/// A point in time with a UTC offset, as the `time` crate keeps it; this
/// crate only carries it to the formatter.
#[verifier::external_type_specification]
#[verifier::external_body]
pub struct ExOffsetDateTime(time::OffsetDateTime);

/// The error the `time` crate reports when a point in time cannot be
/// written in a format.
#[verifier::external_type_specification]
#[verifier::external_body]
pub struct ExFormatError(time::error::Format);

/// The error the `time` crate reports when a value is out of the range it
/// can represent.
#[verifier::external_type_specification]
#[verifier::external_body]
pub struct ExComponentRange(time::error::ComponentRange);

/// A reading of the system clock; this crate only carries it.
#[verifier::external_type_specification]
#[verifier::external_body]
pub struct ExSystemTime(SystemTime);

/// How far a clock reading lies before the Unix epoch; this crate only
/// carries it.
#[verifier::external_type_specification]
#[verifier::external_body]
pub struct ExSystemTimeError(SystemTimeError);

/// `c` is a decimal digit.
pub open spec fn is_digit(c: char) -> bool {
    '0' <= c <= '9'
}

/// `s` begins like an RFC 3339 timestamp as the `time` crate writes one:
/// digits in the form `YYYY-MM-DDTHH:MM:SS` in its first nineteen
/// characters, and at least one more character after them (a fraction
/// and an offset, `Z` or `±hh:mm`, follow; their form is not checked).
pub open spec fn rfc3339_shaped(s: Seq<char>) -> bool {
    &&& s.len() >= 20
    &&& is_digit(s[0]) && is_digit(s[1]) && is_digit(s[2]) && is_digit(s[3])
    &&& s[4] == '-'
    &&& is_digit(s[5]) && is_digit(s[6])
    &&& s[7] == '-'
    &&& is_digit(s[8]) && is_digit(s[9])
    &&& s[10] == 'T'
    &&& is_digit(s[11]) && is_digit(s[12])
    &&& s[13] == ':'
    &&& is_digit(s[14]) && is_digit(s[15])
    &&& s[16] == ':'
    &&& is_digit(s[17]) && is_digit(s[18])
}

/// `std::time::SystemTime::now`: a reading of the system clock. Nothing is
/// stated of it, as it depends on the clock.
#[verifier::external_body]
fn system_now() -> SystemTime {
    SystemTime::now()
}

/// `std::time::SystemTime::duration_since` with `SystemTime::UNIX_EPOCH`:
/// how far `t` lies after the epoch, or an error telling how far before.
/// Nothing is stated of the result, which depends on the reading.
#[verifier::external_body]
fn since_unix_epoch(t: SystemTime) -> Result<Duration, SystemTimeError> {
    t.duration_since(SystemTime::UNIX_EPOCH)
}

/// `std::time::SystemTimeError::duration`: how far the reading lay before
/// the epoch. Nothing is stated of it.
#[verifier::external_body]
fn before_unix_epoch(e: &SystemTimeError) -> Duration {
    e.duration()
}

/// `std::time::Duration::as_nanos`: the whole nanoseconds of `d`. Nothing
/// is stated of it beyond its type, as `d` is opaque here.
#[verifier::external_body]
fn duration_nanos(d: &Duration) -> u128 {
    d.as_nanos()
}

/// `time::OffsetDateTime::from_unix_timestamp_nanos`: the UTC instant
/// `nanos` nanoseconds after the Unix epoch, or an error when it lies outside
/// the range the crate represents; it does not panic. Which instants it
/// refuses is not stated.
#[verifier::external_body]
fn from_unix_nanos(nanos: i128) -> Result<time::OffsetDateTime, time::error::ComponentRange> {
    time::OffsetDateTime::from_unix_timestamp_nanos(nanos)
}

/// `time::OffsetDateTime::format` with the well-known `Rfc3339` format.
/// Claimed, from the crate's source: a string it returns is a zero-padded
/// four-digit year, `-`, two-digit month, `-`, two-digit day, `T`, two-digit
/// hour, `:`, minute, `:`, second, an optional fraction, then `Z` or
/// `±hh:mm`; it does not panic. Which instants it refuses (years outside
/// 0..=9999, offsets with seconds) is not stated.
#[verifier::external_body]
fn format_rfc3339(t: time::OffsetDateTime) -> (r: Result<String, time::error::Format>)
    ensures
        r matches Ok(s) ==> rfc3339_shaped(s@),
{
    t.format(&time::format_description::well_known::Rfc3339)
}

/// The signed count of nanoseconds since the Unix epoch of a clock reading
/// that lies `Ok(after)` nanoseconds after it or `Err(before)` nanoseconds
/// before it, when the count fits an `i128`.
pub fn signed_unix_nanos(since: Result<u128, u128>) -> (n: Option<i128>)
    ensures
        match since {
            Ok(after) => if after <= i128::MAX {
                n == Some(after as i128)
            } else {
                n is None
            },
            Err(before) => if before <= i128::MAX {
                n == Some((-before) as i128)
            } else {
                n is None
            },
        },
{
    match since {
        Ok(after) => if after <= i128::MAX as u128 {
            Some(after as i128)
        } else {
            None
        },
        Err(before) => if before <= i128::MAX as u128 {
            Some(-(before as i128))
        } else {
            None
        },
    }
}

/// The current UTC time in RFC 3339, or the empty string when the clock's
/// reading cannot be represented or written so.
pub fn issuance_timestamp() -> (s: String)
    ensures
        s@.len() == 0 || rfc3339_shaped(s@),
{
    let since = match since_unix_epoch(system_now()) {
        Ok(after) => Ok(duration_nanos(&after)),
        Err(e) => Err(duration_nanos(&before_unix_epoch(&e))),
    };
    let formatted = match signed_unix_nanos(since) {
        Some(nanos) => match from_unix_nanos(nanos) {
            Ok(t) => Some(format_rfc3339(t)),
            Err(_) => None,
        },
        None => None,
    };
    timestamp_text(formatted)
}

/// The timestamp text for what formatting the instant gave: the formatted
/// text, or the empty string when there was no instant or formatting failed.
pub fn timestamp_text(formatted: Option<Result<String, time::error::Format>>) -> (s: String)
    ensures
        match formatted {
            Some(Ok(x)) => s == x,
            _ => s@.len() == 0,
        },
{
    match formatted {
        Some(Ok(s)) => s,
        _ => String::new(),
    }
}

} // verus!
