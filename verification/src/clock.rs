//! The clock that bounds how long a reply is waited for.
use vstd::prelude::*;

verus! {

/// A point in time of the standard library.
#[verifier::external_type_specification]
#[verifier::external_body]
pub struct ExInstant(std::time::Instant);

/// `std::time::Instant::now`. Nothing is claimed of the point in time that comes back.
pub assume_specification[ std::time::Instant::now ]() -> std::time::Instant;

/// `std::time::Instant::elapsed`. Nothing is claimed of how much time has passed.
pub assume_specification[ std::time::Instant::elapsed ](
    start: &std::time::Instant,
) -> core::time::Duration;

/// `core::time::Duration::as_nanos`. Nothing is claimed of the number: it is only ever asked of
/// how much time has passed.
pub assume_specification[ core::time::Duration::as_nanos ](d: &core::time::Duration) -> u128;

/// The low 64 bits of a number of nanoseconds.
pub fn low_nanos(nanos: u128) -> (low: u64)
    ensures
        low as int == nanos as int % 0x1_0000_0000_0000_0000,
{
    proof {
        assert(nanos as u64 as u128 == nanos % 0x1_0000_0000_0000_0000) by (bit_vector);
    }
    #[verifier::truncate]
    (nanos as u64)
}

/// Whether the clock has said that this many nanoseconds have passed since a point in time, in 64
/// bits: the low bits of what the standard library gave as the time elapsed.
pub open spec fn has_passed(start: std::time::Instant, low: u64) -> bool {
    exists|passed: core::time::Duration, nanos: u128|
        #[trigger] call_ensures(std::time::Instant::elapsed, (&start,), passed)
            && #[trigger] call_ensures(core::time::Duration::as_nanos, (&passed,), nanos)
            && low as int == nanos as int % 0x1_0000_0000_0000_0000
}

/// Whether the clock has said that a point in time is the present one.
pub open spec fn was_now(start: std::time::Instant) -> bool {
    call_ensures(std::time::Instant::now, (), start)
}

/// Nanoseconds since a point in time, in 64 bits.
pub(crate) fn nanos_since(start: &std::time::Instant) -> (low: u64)
    ensures
        has_passed(*start, low),
{
    let passed = start.elapsed();
    let nanos: u128 = passed.as_nanos();
    low_nanos(nanos)
}

} // verus!
