//! Times as dates: what `chrono` writes for a number of milliseconds since the
//! Unix epoch.

use chrono::TimeZone;
use vstd::prelude::*;

verus! {

/// The start of the year 10000 (UTC) in milliseconds since the Unix epoch. Every
/// time before it has a year of four digits, as RFC 3339 asks.
pub const YEAR_10000: u64 = 253_402_300_800_000;

/// The date and time in UTC at `secs` seconds and `nanos` nanoseconds after the
/// Unix epoch, as `chrono` writes it in the format of RFC 3339.
pub uninterp spec fn utc_text(secs: i64, nanos: u32) -> Seq<char>;

/// The date and time in UTC at `millis` milliseconds after the Unix epoch, in
/// the format of RFC 3339.
pub open spec fn utc_text_at(millis: u64) -> Seq<char> {
    utc_text((millis / 1000) as i64, ((millis % 1000) * 1_000_000) as u32)
}

/// The date and time in UTC at the given instant, in the format of RFC 3339.
///
/// This is `TimeZone::timestamp_opt` on `Utc`, followed by
/// `DateTime::to_rfc3339`. The first gives a single date for every instant
/// within the years that `chrono` can hold, as those before the year 10000 are,
/// with a count of nanoseconds below a second; the text depends on the instant
/// alone.
#[verifier::external_body]
fn utc_rfc3339(secs: i64, nanos: u32) -> (s: String)
    requires
        0 <= secs < YEAR_10000 / 1000,
        nanos < 1_000_000_000,
    ensures
        s@ == utc_text(secs, nanos),
{
    chrono::Utc.timestamp_opt(secs, nanos).unwrap().to_rfc3339()
}

/// The date and time in UTC at `millis` milliseconds after the Unix epoch, in
/// the format of RFC 3339; nothing for a time in the year 10000 or later.
pub fn format_utc(millis: u64) -> (r: Option<String>)
    ensures
        match r {
            Some(s) => millis < YEAR_10000 && s@ == utc_text_at(millis),
            None => millis >= YEAR_10000,
        },
{
    if millis >= YEAR_10000 {
        return None;
    }
    let secs: i64 = (millis / 1000) as i64;
    let nanos: u32 = ((millis % 1000) * 1_000_000) as u32;
    Some(utc_rfc3339(secs, nanos))
}

} // verus!
