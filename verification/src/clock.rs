//! Wall-clock access through chrono: the only place where the library asks
//! the machine for the time or the local time zone.

use vstd::prelude::*;

use chrono::{TimeZone, Timelike};

verus! {

/// Relies on chrono::Utc::now / DateTime::timestamp_millis: the current
/// time in milliseconds since the Unix epoch. Nothing is assumed of the
/// value; callers clamp it into the representable window themselves.
/// chrono aborts if the system clock is set before the epoch; that is
/// environmental, no input can rule it out.
#[verifier::external_body]
pub fn now_millis() -> i64 {
    chrono::Utc::now().timestamp_millis()
}

/// Relies on chrono's TimeZone::timestamp_millis_opt on Local and on
/// Timelike::hour and Timelike::minute, whose documentation bounds them at
/// 0..=23 and 0..=59: the local wall-clock hour and minute of a timestamp,
/// or None when the timestamp has no single local representation.
#[verifier::external_body]
pub fn local_hour_minute(ts_ms: i64) -> (r: Option<(u32, u32)>)
    ensures
        (r matches Some(hm) ==> hm.0 < 24 && hm.1 < 60),
{
    match chrono::Local.timestamp_millis_opt(ts_ms).single() {
        Some(dt) => Some((dt.hour(), dt.minute())),
        None => None,
    }
}

} // verus!
