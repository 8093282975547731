//! The capture clock: the one place the library reads the outside
//! world directly.

use vstd::prelude::*;

use crate::timestamp::{parse_timestamp, Timestamp};

verus! {

/// Relies on `chrono::Utc::now` and `chrono::DateTime::format`: the
/// current Coordinated Universal Time, rendered with the pattern
/// `%Y-%m-%d %H:%M:%S%.9f`.  Nothing is assumed of the value — the
/// reading depends on the clock — so the caller validates it.
#[verifier::external_body]
fn utc_now_text() -> (r: Vec<u8>) {
    chrono::Utc::now().format("%Y-%m-%d %H:%M:%S%.9f").to_string().into_bytes()
}

/// Reads the clock and validates its text form.  A reading that fails
/// validation falls back to the epoch, so the result is always a valid
/// timestamp, whatever the clock returned.
pub fn current_timestamp() -> (t: Timestamp)
    ensures
        t.valid(),
{
    let raw = utc_now_text();
    match parse_timestamp(&raw) {
        Some(t) => t,
        None => Timestamp::epoch(),
    }
}

} // verus!
