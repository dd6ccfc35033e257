//! Conversions between the clocks of a dump and calendar time.

use crate::text::{dec_text, pad_left, push_dec_padded, push_signed_dec, push_str, signed_dec_text, string_of};
use vstd::prelude::*;

verus! {

broadcast use vstd::string::group_string_axioms;

/// Seconds from 1601-01-01, where Windows file times start, to 1970-01-01.
pub const WINDOWS_TO_UNIX_EPOCH_SECS: u64 = 11_644_473_600;

/// A Windows file time counts in steps of 100 ns.
pub const FILETIME_TICKS_PER_SEC: u64 = 10_000_000;

/// The last second of the year 9999, in seconds since the Unix epoch.
pub const LAST_SECOND_OF_YEAR_9999: i64 = 253_402_300_799;

/// A moment in calendar time, in UTC.
#[derive(Clone, Copy, Debug, PartialEq, Eq, Structural)]
pub struct UtcFields {
    pub year: i32,
    pub month: u8,
    pub day: u8,
    pub hour: u8,
    pub minute: u8,
    pub second: u8,
}

/// The calendar fields that the `time` crate gives for a Unix timestamp, or
/// nothing when the moment lies outside the years that it supports.
pub uninterp spec fn utc_fields_at(timestamp: i64) -> Option<UtcFields>;

/// `time::OffsetDateTime::from_unix_timestamp`, with the date and the time of
/// day read from the result.  The call fails for a moment outside the years
/// that the crate supports; it succeeds at least for every moment from the
/// epoch to the end of the year 9999.
#[verifier::external_body]
fn utc_fields(timestamp: i64) -> (r: Option<UtcFields>)
    ensures
        r == utc_fields_at(timestamp),
        0 <= timestamp <= LAST_SECOND_OF_YEAR_9999 ==> r is Some,
{
    match time::OffsetDateTime::from_unix_timestamp(timestamp) {
        Ok(dt) => Some(
            UtcFields {
                year: dt.year(),
                month: u8::from(dt.month()),
                day: dt.day(),
                hour: dt.hour(),
                minute: dt.minute(),
                second: dt.second(),
            },
        ),
        Err(_) => None,
    }
}

/// A number of two digits, with a leading zero where it takes one.
pub open spec fn two_digits(n: u8) -> Seq<char> {
    pad_left(dec_text(n as nat), 2, '0')
}

/// The moment as `YYYY:MM:DD HH:MM:SS UTC`.
pub open spec fn utc_text(f: UtcFields) -> Seq<char> {
    signed_dec_text(f.year as int, 4) + ":"@ + two_digits(f.month) + ":"@ + two_digits(f.day)
        + " "@ + two_digits(f.hour) + ":"@ + two_digits(f.minute) + ":"@ + two_digits(f.second)
        + " UTC"@
}

/// The text of a moment in calendar time.
pub fn format_utc(f: &UtcFields) -> (r: String)
    ensures
        r@ == utc_text(*f),
{
    let mut out: Vec<char> = Vec::new();
    push_signed_dec(&mut out, f.year as i64, 4);
    push_str(&mut out, ":");
    push_dec_padded(&mut out, f.month as u64, 2, '0');
    push_str(&mut out, ":");
    push_dec_padded(&mut out, f.day as u64, 2, '0');
    push_str(&mut out, " ");
    push_dec_padded(&mut out, f.hour as u64, 2, '0');
    push_str(&mut out, ":");
    push_dec_padded(&mut out, f.minute as u64, 2, '0');
    push_str(&mut out, ":");
    push_dec_padded(&mut out, f.second as u64, 2, '0');
    push_str(&mut out, " UTC");
    assert(out@ =~= utc_text(*f));
    string_of(out.as_slice())
}

/// The text of the moment `unix` seconds after the Unix epoch, where the
/// calendar reaches it.  The count is read as a signed number of 64 bits.
pub open spec fn utc_string_of(unix: u64) -> Option<Seq<char>> {
    match utc_fields_at(unix as i64) {
        Some(f) => Some(utc_text(f)),
        None => None,
    }
}

/// Calendar time, as `YYYY:MM:DD HH:MM:SS UTC`, of the moment `unix` seconds
/// after the Unix epoch; nothing where the calendar does not reach it.
pub fn unix_seconds_to_utc_string(unix: u64) -> (r: Option<String>)
    ensures
        r.deep_view() == utc_string_of(unix),
        unix <= LAST_SECOND_OF_YEAR_9999 ==> r is Some,
{
    assert(unix <= LAST_SECOND_OF_YEAR_9999 ==> unix as i64 == unix);
    match utc_fields(unix as i64) {
        Some(f) => Some(format_utc(&f)),
        None => None,
    }
}

/// Seconds since the Unix epoch of a Windows file time; nothing for a file
/// time of zero and for one before the epoch.
pub open spec fn unix_seconds_of(filetime: u64) -> Option<u64> {
    if filetime == 0 || filetime / FILETIME_TICKS_PER_SEC < WINDOWS_TO_UNIX_EPOCH_SECS {
        None
    } else {
        Some((filetime / FILETIME_TICKS_PER_SEC - WINDOWS_TO_UNIX_EPOCH_SECS) as u64)
    }
}

/// Converts a Windows file time, which counts 100 ns ticks since 1601-01-01
/// UTC, to seconds since the Unix epoch.
pub fn filetime_to_unix_seconds(filetime: u64) -> (r: Option<u64>)
    ensures
        r == unix_seconds_of(filetime),
{
    if filetime == 0 {
        return None;
    }
    let secs = filetime / FILETIME_TICKS_PER_SEC;
    secs.checked_sub(WINDOWS_TO_UNIX_EPOCH_SECS)
}

} // verus!
