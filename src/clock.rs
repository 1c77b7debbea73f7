//! The system clocks, as std provides them.
use std::time::{Instant, SystemTime};
use vstd::prelude::*;

verus! {

/// `std::time::SystemTime`, a reading of the system clock, held opaque.
#[verifier::external_type_specification]
#[verifier::external_body]
pub struct ExSystemTime(SystemTime);

/// `std::time::Instant`, a reading of the monotonic clock, held opaque.
#[verifier::external_type_specification]
#[verifier::external_body]
pub struct ExInstant(Instant);

/// Relies on `SystemTime::now`: reads the system clock, which may stand at
/// any time; nothing is promised of it.
pub assume_specification[ SystemTime::now ]() -> SystemTime;

/// Relies on `Instant::now`: reads the monotonic clock.
pub assume_specification[ Instant::now ]() -> Instant;

/// Relies on `SystemTime::duration_since(UNIX_EPOCH)`: the whole seconds and
/// the nanoseconds within the second (below one billion, as
/// `Duration::subsec_nanos` documents) from 1970-01-01T00:00:00 UTC to `t`;
/// both zero for a `t` before it.
#[verifier::external_body]
pub(crate) fn since_unix_epoch(t: &SystemTime) -> (r: (u64, u32))
    ensures
        r.1 < 1_000_000_000,
{
    match t.duration_since(std::time::UNIX_EPOCH) {
        Ok(d) => (d.as_secs(), d.subsec_nanos()),
        Err(_) => (0, 0),
    }
}

/// Relies on `Instant::elapsed` and `Duration::as_nanos`: the nanoseconds
/// that the monotonic clock has advanced since `start`.
#[verifier::external_body]
pub(crate) fn nanos_since(start: &Instant) -> u128 {
    start.elapsed().as_nanos()
}

} // verus!
