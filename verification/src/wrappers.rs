//! The two calls whose outcomes depend on the world: the clock and the
//! random identifier source.  Callers state what holds of every outcome.

use vstd::prelude::*;

verus! {

/// Relies on chrono's Utc::now and timestamp_millis: the wall clock in
/// milliseconds since the epoch.  A system clock set before the epoch stops
/// the process inside chrono itself; the conversion guard below only covers
/// the cast.  Nothing is promised of the value: two calls may return
/// anything.
#[verifier::external_body]
pub fn now_millis() -> (r: u64) {
    u64::try_from(chrono::Utc::now().timestamp_millis()).unwrap_or(0)
}

/// Relies on uuid's Uuid::new_v4: a fresh random 128-bit identifier.  A
/// failing OS randomness source stops the process inside uuid itself.
/// Nothing is promised of the value: callers check collisions themselves.
#[verifier::external_body]
pub fn fresh_id() -> (r: u128) {
    uuid::Uuid::new_v4().as_u128()
}

} // verus!
