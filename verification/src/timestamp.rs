//! Timestamps of a trace: local date and time as text, at a fixed offset
//! from UTC, read as nanoseconds since the epoch.

use vstd::prelude::*;
use vstd::string::StringSliceAdditionalSpecFns;
use vstd::utf8::{decode_utf8, encode_utf8_decode_utf8, valid_utf8};

verus! {

/// The pattern of a timestamp: a date, a blank, a time of day and six
/// digits of a fraction of a second.
pub const TIME_FORMAT: &'static str = "%Y-%m-%d %H:%M:%S%.6f";

/// The offset of the traces' local time from UTC, in seconds to the east:
/// eight hours.
pub const UTC_OFFSET_SECONDS: i32 = 28800;

/// The nanoseconds from the epoch to the instant that `text` writes, read
/// by the pattern `format` as local time `offset_seconds` east of UTC.
/// There is none where the text does not follow the pattern, the offset is
/// not within a day, or the instant is out of the range of 64 bits.
pub uninterp spec fn zoned_epoch_nanos(
    text: Seq<char>,
    format: Seq<char>,
    offset_seconds: int,
) -> Option<i64>;

/// `core::str::from_utf8`: the text that the bytes encode. There is one
/// exactly if the bytes are well-formed UTF-8, and it has the same bytes.
#[verifier::external_body]
fn utf8_text(bytes: &[u8]) -> (r: Option<&str>)
    ensures
        r is Some <==> valid_utf8(bytes@),
        r matches Some(text) ==> text.spec_bytes() == bytes@,
{
    core::str::from_utf8(bytes).ok()
}

/// `chrono::NaiveDateTime::parse_from_str`, taken as local time of
/// `chrono::FixedOffset::east_opt` by `and_local_timezone` and turned into
/// nanoseconds by `DateTime::timestamp_nanos_opt`. The result depends on
/// the three arguments alone; the contract gives it its name and claims
/// nothing else of it.
#[verifier::external_body]
fn zoned_nanos(text: &str, format: &str, offset_seconds: i32) -> (r: Option<i64>)
    ensures
        r == zoned_epoch_nanos(text@, format@, offset_seconds as int),
{
    let zone = chrono::FixedOffset::east_opt(offset_seconds)?;
    let local = chrono::NaiveDateTime::parse_from_str(text, format).ok()?;
    local.and_local_timezone(zone).single()?.timestamp_nanos_opt()
}

/// A signed count of nanoseconds as the unsigned 64 bits that hold it: a
/// count below zero wraps around.
pub open spec fn unsigned(nanos: i64) -> u64 {
    if nanos >= 0 {
        nanos as u64
    } else {
        (nanos + 0x1_0000_0000_0000_0000) as u64
    }
}

/// The timestamp that a count of nanoseconds, if there is one, gives.
pub open spec fn stamped(nanos: Option<i64>) -> Option<u64> {
    match nanos {
        Some(n) => Some(unsigned(n)),
        None => None,
    }
}

/// The timestamp that `t` writes: local time eight hours east of UTC, in
/// nanoseconds since the epoch.
pub open spec fn timestamp_of(t: Seq<u8>) -> Option<u64> {
    if valid_utf8(t) {
        stamped(zoned_epoch_nanos(decode_utf8(t), TIME_FORMAT@, UTC_OFFSET_SECONDS as int))
    } else {
        None
    }
}

/// Stores a signed count of nanoseconds in unsigned 64 bits.
pub fn unsigned_nanos(nanos: i64) -> (r: u64)
    ensures
        r == unsigned(nanos),
{
    if nanos >= 0 {
        nanos as u64
    } else {
        let below: u64 = (-(nanos + 1)) as u64;
        u64::MAX - below
    }
}

/// Turns the count of nanoseconds that reading a timestamp gave into the
/// timestamp of an event.
pub fn epoch_timestamp(nanos: Option<i64>) -> (r: Option<u64>)
    ensures
        r == stamped(nanos),
{
    match nanos {
        Some(n) => Some(unsigned_nanos(n)),
        None => None,
    }
}

/// Reads a timestamp.
pub fn decode_timestamp(t: &[u8]) -> (r: Option<u64>)
    ensures
        r == timestamp_of(t@),
{
    match utf8_text(t) {
        None => None,
        Some(text) => {
            proof {
                encode_utf8_decode_utf8(text@);
            }
            epoch_timestamp(zoned_nanos(text, TIME_FORMAT, UTC_OFFSET_SECONDS))
        },
    }
}

} // verus!
