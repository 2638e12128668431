//! Clock readings and durations. A clock reading depends on when it is taken,
//! so the functions that read one promise nothing of its value; the logic that
//! uses a reading takes it as an argument and is verified for every value.
use vstd::prelude::*;

verus! {

#[verifier::external_type_specification]
#[verifier::external_body]
pub struct ExInstant(std::time::Instant);

#[verifier::external_type_specification]
#[verifier::external_body]
pub struct ExSystemTime(std::time::SystemTime);

/// The total number of nanoseconds that `Duration::as_nanos` reports for `d`.
pub uninterp spec fn duration_nanos(d: std::time::Duration) -> u128;

/// Reads the monotonic clock (`Instant::now`). Nothing is promised of the reading.
#[verifier::external_body]
pub fn instant_now() -> std::time::Instant {
    std::time::Instant::now()
}

/// The time elapsed since `anchor` on the monotonic clock
/// (`Instant::elapsed`). It depends on when the call is made, so nothing is
/// promised of it.
#[verifier::external_body]
pub fn elapsed_since(anchor: &std::time::Instant) -> std::time::Duration {
    anchor.elapsed()
}

/// Nanoseconds elapsed since `anchor` on the monotonic clock.
pub fn nanos_since(anchor: &std::time::Instant) -> u128 {
    duration_as_nanos(elapsed_since(anchor))
}

/// Reads the wall clock (`SystemTime::now`). Nothing is promised of the reading.
#[verifier::external_body]
pub fn system_now() -> std::time::SystemTime {
    std::time::SystemTime::now()
}

/// `Duration::as_nanos`: the whole duration in nanoseconds.
#[verifier::external_body]
pub fn duration_as_nanos(d: std::time::Duration) -> (n: u128)
    ensures
        n == duration_nanos(d),
{
    d.as_nanos()
}

/// `Duration::as_millis`: the whole duration in milliseconds, which the
/// documentation defines as the total nanoseconds divided by one million.
#[verifier::external_body]
pub fn duration_as_millis(d: std::time::Duration) -> (ms: u128)
    ensures
        ms == duration_nanos(d) / 1_000_000,
{
    d.as_millis()
}

/// `Duration::from_nanos`: a duration of exactly `n` nanoseconds. A
/// `Duration` is whole seconds plus a nanosecond part below one second, so
/// its total nanoseconds determine it: the result is the one duration of `n`
/// nanoseconds.
#[verifier::external_body]
pub fn duration_from_nanos(n: u64) -> (d: std::time::Duration)
    ensures
        duration_nanos(d) == n,
        forall|other: std::time::Duration| #[trigger] duration_nanos(other) == n ==> other == d,
{
    std::time::Duration::from_nanos(n)
}

/// Saturating conversion of a nanosecond count to 64 bits.
pub fn saturate_u64(n: u128) -> (r: u64)
    ensures
        r == (if n > u64::MAX { u64::MAX as int } else { n as int }),
{
    if n > u64::MAX as u128 {
        u64::MAX
    } else {
        n as u64
    }
}

} // verus!
