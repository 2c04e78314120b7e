//! The wall-clock time as a Unix timestamp in milliseconds.

use vstd::prelude::*;

verus! {

#[verifier::external_type_specification]
#[verifier::external_body]
pub struct ExSystemTime(std::time::SystemTime);

#[verifier::external_type_specification]
#[verifier::external_body]
pub struct ExSystemTimeError(std::time::SystemTimeError);

/// Calls `std::time::SystemTime::now`. The result is the machine's clock;
/// nothing is stated of it.
#[verifier::external_body]
fn system_time_now() -> std::time::SystemTime {
    std::time::SystemTime::now()
}

/// Calls `SystemTime::duration_since(UNIX_EPOCH)`: an error when the time is
/// before the epoch. Nothing is stated of which comes back, as it depends
/// on the clock.
#[verifier::external_body]
fn since_unix_epoch(t: &std::time::SystemTime) -> Result<core::time::Duration, std::time::SystemTimeError> {
    t.duration_since(std::time::UNIX_EPOCH)
}

/// Calls `Duration::as_millis`. The duration is opaque here; nothing is
/// stated of the number.
#[verifier::external_body]
fn duration_millis(d: &core::time::Duration) -> u128 {
    d.as_millis()
}

/// The timestamp for a number of milliseconds since the Unix epoch (cut to
/// 64 bits as `as u64` does), or the error when the clock is before the
/// epoch (`None`).
pub fn timestamp_ms_from(millis_since_epoch: Option<u128>) -> (r: Result<u64, &'static str>)
    ensures
        millis_since_epoch matches Some(ms) ==> r == Ok::<u64, &'static str>(ms as u64),
        millis_since_epoch is None ==> (r matches Err(e) && e@
            == "System time is before the UNIX epoch"@),
{
    match millis_since_epoch {
        Some(ms) => Ok(#[verifier::truncate] (ms as u64)),
        None => Err("System time is before the UNIX epoch"),
    }
}

/// The current Unix timestamp in milliseconds, or an error when the clock is
/// before the epoch. Which of the two comes back depends on the clock.
pub fn current_unix_timestamp_ms() -> (r: Result<u64, &'static str>)
    ensures
        r matches Err(e) ==> e@ == "System time is before the UNIX epoch"@,
{
    let now = system_time_now();
    match since_unix_epoch(&now) {
        Ok(d) => timestamp_ms_from(Some(duration_millis(&d))),
        Err(_) => timestamp_ms_from(None),
    }
}

} // verus!
