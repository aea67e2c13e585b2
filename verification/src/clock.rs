//! The server clock, in unix milliseconds.
use std::time::{Duration, SystemTime, SystemTimeError};
use vstd::prelude::*;

verus! {

/// A reading of the system clock.
#[verifier::external_type_specification]
#[verifier::external_body]
pub struct ExSystemTime(SystemTime);

/// How far a clock reading lies before the moment it was compared with.
#[verifier::external_type_specification]
#[verifier::external_body]
pub struct ExSystemTimeError(SystemTimeError);

/// `SystemTime::now` reads the system clock; nothing is claimed of what it shows.
pub assume_specification[ SystemTime::now ]() -> (t: SystemTime)
;

/// `Duration::as_millis` gives the whole milliseconds of a duration, which is
/// opaque here: nothing is claimed of their number.
pub assume_specification[ Duration::as_millis ](d: &Duration) -> (ms: u128)
;

/// `SystemTime::duration_since` with the unix epoch: the time from the epoch
/// to the reading, or an error where the reading lies before it. Both are
/// opaque here: nothing is claimed of them.
#[verifier::external_body]
fn since_epoch(t: &SystemTime) -> (r: Result<Duration, SystemTimeError>) {
    t.duration_since(std::time::UNIX_EPOCH)
}

/// Milliseconds since the epoch as the server counts them: the low 64 bits as
/// a signed number, which for some 292 million years is the same number.
pub fn epoch_ms(millis: u128) -> (r: i64)
    ensures
        r == millis as i64,
        millis <= i64::MAX ==> r == millis,
{
    #[verifier::truncate]
    (millis as i64)
}

/// What the server clock shows for each reading: the milliseconds since the
/// epoch, or nothing for a reading from before it.
pub fn reading_ms(since_epoch_ms: Option<u128>) -> (r: Option<i64>)
    ensures
        match since_epoch_ms {
            Some(millis) => {
                &&& r == Some(millis as i64)
                &&& millis <= i64::MAX ==> r->0 == millis
            },
            None => r is None,
        },
{
    match since_epoch_ms {
        Some(millis) => Some(epoch_ms(millis)),
        None => None,
    }
}

/// The server clock in unix milliseconds, or nothing where it stands before
/// the epoch. Which time that is depends on the machine, so nothing is claimed
/// of it; `reading_ms` says what becomes of each reading.
pub fn now_ms() -> (r: Option<i64>) {
    let since_epoch_ms = match since_epoch(&SystemTime::now()) {
        Ok(d) => Some(d.as_millis()),
        Err(_) => None,
    };
    reading_ms(since_epoch_ms)
}

} // verus!
