//! Clocks: a monotonic one for ages and the calendar time.

use std::time::Instant;
use vstd::prelude::*;

verus! {

/// A point on the monotonic clock.
#[verifier::external_type_specification]
#[verifier::external_body]
pub struct ExInstant(std::time::Instant);

/// `Instant::now` reads the monotonic clock. What it reads is left open.
#[verifier::external_body]
pub(crate) fn instant_now() -> Instant {
    Instant::now()
}

/// `Instant::elapsed` gives the time since an earlier reading, here in nanoseconds. How much has
/// passed is left open.
#[verifier::external_body]
pub(crate) fn nanos_since(anchor: &Instant) -> u128 {
    anchor.elapsed().as_nanos()
}

/// `SystemTime::duration_since` measures the calendar time against 1970, here in milliseconds; a
/// clock before 1970 counts as 1970. What the clock shows is left open.
#[verifier::external_body]
fn since_epoch() -> u128 {
    std::time::SystemTime::now()
        .duration_since(std::time::UNIX_EPOCH)
        .unwrap_or_default()
        .as_millis()
}

/// The whole seconds in a number of milliseconds.
pub open spec fn seconds_from(millis: u128) -> i64 {
    (millis / 1000) as i64
}

/// The whole seconds in a number of milliseconds.
pub fn seconds_of(millis: u128) -> (r: i64)
    ensures
        r == (millis / 1000) as i64,
{
    (millis / 1000) as i64
}

/// The seconds since 1970. What the clock shows is left open.
pub fn unix_now() -> (r: i64)
    ensures
        exists|millis: u128| r == #[trigger] seconds_from(millis),
{
    let millis: u128 = since_epoch();
    let r: i64 = seconds_of(millis);
    assert(r == seconds_from(millis));
    r
}

/// A number of milliseconds in a machine word.
pub open spec fn millis_from(millis: u128) -> i64 {
    millis as i64
}

/// The milliseconds since 1970. What the clock shows is left open.
pub fn now_ms() -> (r: i64)
    ensures
        exists|millis: u128| r == #[trigger] millis_from(millis),
{
    let millis: u128 = since_epoch();
    assert(millis as i64 == millis_from(millis));
    millis as i64
}

} // verus!
