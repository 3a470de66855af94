//! Points in time, as nanoseconds or seconds since the Unix epoch, and their RFC 3339 texts.

use vstd::prelude::*;

verus! {

/// What `time::OffsetDateTime::parse` makes of an RFC 3339 text: nanoseconds since the epoch,
/// or the text of the error.
pub uninterp spec fn parsed_time(raw: Seq<char>) -> Result<i128, Seq<char>>;

/// The RFC 3339 text that `time::OffsetDateTime::format` gives a point in time, in nanoseconds
/// since the epoch: nothing where the time has none.
pub uninterp spec fn time_text(nanos: i128) -> Seq<char>;

/// The view of a time that was read.
pub open spec fn time_view(r: Result<i128, String>) -> Result<i128, Seq<char>> {
    match r {
        Ok(nanos) => Ok(nanos),
        Err(message) => Err(message@),
    }
}

/// Calls `time::OffsetDateTime::parse` with the RFC 3339 format. Claimed: the result is a
/// function of the text. Two times compare as their nanoseconds since the epoch do.
#[verifier::external_body]
pub(crate) fn parse_time(raw: &str) -> (r: Result<i128, String>)
    ensures
        time_view(r) == parsed_time(raw@),
{
    match time::OffsetDateTime::parse(raw, &time::format_description::well_known::Rfc3339) {
        Ok(point) => Ok(point.unix_timestamp_nanos()),
        Err(error) => Err(error.to_string()),
    }
}

/// Whether a point in time, in seconds since the epoch, lies in the years from 0 to 9999,
/// which RFC 3339 can write.
pub open spec fn writable(second: int) -> bool {
    -62_167_219_200 <= second <= 253_402_300_799
}

/// Whether a text reads as a point in time, in nanoseconds since the epoch.
pub open spec fn reads_as(s: Seq<char>, nanos: int) -> bool {
    parsed_time(s) matches Ok(at) && at == nanos
}

/// Calls `time::OffsetDateTime::from_unix_timestamp_nanos` and `time::OffsetDateTime::format` with
/// the RFC 3339 format. Claimed: the result is a function of the time, and a time in the years that
/// RFC 3339 can write reads back as itself.
#[verifier::external_body]
pub(crate) fn format_time(nanos: i128) -> (r: String)
    ensures
        r@ == time_text(nanos),
        writable(nanos as int / 1_000_000_000) ==> reads_as(r@, nanos as int),
{
    match time::OffsetDateTime::from_unix_timestamp_nanos(nanos) {
        Ok(point) => point
            .format(&time::format_description::well_known::Rfc3339)
            .unwrap_or_default(),
        Err(_) => String::new(),
    }
}

/// The last nanosecond that RFC 3339 can write, at the end of the year 9999.
pub const LATEST: i128 = 253_402_300_799_999_999_999;

/// A second since the epoch, in nanoseconds.
pub open spec fn at_second(second: i64) -> i128 {
    (second * 1_000_000_000) as i128
}

/// A second since the epoch, in nanoseconds.
pub(crate) fn of_second(second: i64) -> (r: i128)
    ensures
        r == at_second(second),
        r as int == second * 1_000_000_000,
{
    second as i128 * 1_000_000_000
}

/// A point in time after a second, in nanoseconds: what lies after the last time that can be
/// written is that time, but for a second that lies after it itself.
pub open spec fn time_after(second: i64, secs: u64, nanos: u32) -> i128 {
    let end = (second + secs) * 1_000_000_000 + nanos;
    if second * 1_000_000_000 > LATEST {
        at_second(second)
    } else if end > LATEST {
        LATEST
    } else {
        end as i128
    }
}

/// A point in time after a second.
pub(crate) fn after_second(second: i64, secs: u64, nanos: u32) -> (r: i128)
    ensures
        r == time_after(second, secs, nanos),
{
    let start: i128 = of_second(second);
    let end: i128 = (second as i128 + secs as i128) * 1_000_000_000 + nanos as i128;
    if start > LATEST {
        start
    } else if end > LATEST {
        LATEST
    } else {
        end
    }
}

/// Calls `time::OffsetDateTime::now_utc`. Nothing is claimed of what the clock shows.
#[verifier::external_body]
pub(crate) fn now_nanos() -> (r: i128) {
    time::OffsetDateTime::now_utc().unix_timestamp_nanos()
}

/// The whole second that a point in time lies in.
pub open spec fn second_of(nanos: i128) -> int {
    let second = nanos as int / 1_000_000_000;
    if second < i64::MIN as int {
        i64::MIN as int
    } else if second > i64::MAX as int {
        i64::MAX as int
    } else {
        second
    }
}

/// The whole second that a point in time lies in.
pub fn to_second(nanos: i128) -> (r: i64)
    ensures
        r as int == second_of(nanos),
{
    let second: i128 = match nanos.checked_div_euclid(1_000_000_000) {
        Some(second) => second,
        None => 0,
    };
    if second < i64::MIN as i128 {
        i64::MIN
    } else if second > i64::MAX as i128 {
        i64::MAX
    } else {
        second as i64
    }
}

/// The current second.
pub(crate) fn now_second() -> (r: i64)
    ensures
        exists|nanos: i128| r as int == #[trigger] second_of(nanos),
{
    let nanos: i128 = now_nanos();
    to_second(nanos)
}

} // verus!
