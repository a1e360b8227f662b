//! The wall clock, read as a count since the Unix epoch.

use vstd::prelude::*;

verus! {

/// Reads the system clock through std: `UNIX_EPOCH.elapsed()`, the time from the
/// Unix epoch to now, taken as whole milliseconds (`Duration::as_millis`), or
/// `None` where the clock stands before the epoch. Nothing is claimed of the
/// value, which is the time, beyond what `Duration` holds: its whole seconds
/// fit in a `u64`.
#[verifier::external_body]
fn read_epoch_millis() -> (r: Option<u128>)
    ensures
        r matches Some(ms) ==> ms / 1000 <= u64::MAX,
{
    std::time::UNIX_EPOCH.elapsed().ok().map(|d| d.as_millis())
}

/// Whole seconds of a clock reading in milliseconds; 0 for a clock before the epoch.
pub open spec fn reading_secs(reading: Option<u128>) -> int {
    match reading {
        Some(ms) => ms as int / 1000,
        None => 0,
    }
}

/// Milliseconds of a clock reading, cut to 64 bits; 0 for a clock before the epoch.
pub open spec fn reading_millis(reading: Option<u128>) -> u64 {
    match reading {
        Some(ms) => ms as u64,
        None => 0,
    }
}

/// Seconds since the epoch of a clock reading in milliseconds.
pub fn secs_of_reading(reading: Option<u128>) -> (s: u64)
    requires
        reading matches Some(ms) ==> ms / 1000 <= u64::MAX,
    ensures
        s == reading_secs(reading),
{
    match reading {
        Some(ms) => (ms / 1000) as u64,
        None => 0,
    }
}

/// Milliseconds since the epoch of a clock reading, cut to 64 bits as `as u64` does.
pub fn millis_of_reading(reading: Option<u128>) -> (m: u64)
    ensures
        m == reading_millis(reading),
{
    match reading {
        Some(ms) => ms as u64,
        None => 0,
    }
}

/// The current time in whole seconds since the Unix epoch (0 before it).
pub fn now() -> (s: u64)
    ensures
        exists|reading: Option<u128>| s == reading_secs(reading),
{
    let reading = read_epoch_millis();
    secs_of_reading(reading)
}

/// The current time in milliseconds since the Unix epoch (0 before it).
pub fn now_ms() -> (m: u64)
    ensures
        exists|reading: Option<u128>| m == reading_millis(reading),
{
    let reading = read_epoch_millis();
    millis_of_reading(reading)
}

} // verus!
