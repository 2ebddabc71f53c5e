//! Wall-clock measurement of a computation, in whole milliseconds.
use vstd::prelude::*;

verus! {

#[verifier::external_type_specification]
#[verifier::external_body]
pub struct ExInstant(std::time::Instant);

/// Relies on `std::time::Instant::now`: a reading of the monotonic clock,
/// of which nothing is known beforehand.
pub assume_specification[ std::time::Instant::now ]() -> std::time::Instant;

/// Relies on `std::time::Instant::elapsed`: the time passed since `self`.
pub assume_specification[ std::time::Instant::elapsed ](self_: &std::time::Instant) -> core::time::Duration;

/// Relies on `core::time::Duration::as_secs`: the whole seconds of a duration.
pub assume_specification[ core::time::Duration::as_secs ](self_: &core::time::Duration) -> u64;

/// Relies on `core::time::Duration::subsec_nanos`: the fractional part of a
/// duration in nanoseconds, which the documentation says is always below
/// one billion.
pub assume_specification[ core::time::Duration::subsec_nanos ](self_: &core::time::Duration) -> (r: u32)
    ensures
        r < 1_000_000_000,
;

/// Whole milliseconds in `secs` seconds and `subsec_nanos` nanoseconds.
pub open spec fn millis_of(secs: u64, subsec_nanos: u32) -> int {
    secs * 1000 + subsec_nanos / 1_000_000
}

/// What `duration_millis` returns for `secs` and `subsec_nanos`.
pub open spec fn duration_result(secs: u64, subsec_nanos: u32) -> int {
    if millis_of(secs, subsec_nanos) <= u64::MAX {
        millis_of(secs, subsec_nanos)
    } else {
        u64::MAX as int
    }
}

/// `millis_of(secs, subsec_nanos)`, or `u64::MAX` where that does not fit.
pub fn duration_millis(secs: u64, subsec_nanos: u32) -> (r: u64)
    ensures
        r == duration_result(secs, subsec_nanos),
{
    let frac: u64 = (subsec_nanos / 1_000_000) as u64;
    match secs.checked_mul(1000) {
        None => u64::MAX,
        Some(whole) => match whole.checked_add(frac) {
            None => u64::MAX,
            Some(total) => total,
        },
    }
}

/// Runs `f` once and returns the wall-clock time it took, in whole
/// milliseconds, saturating at `u64::MAX`. Whatever `f` guarantees holds
/// afterwards; only the returned time depends on the clock.
pub fn measure_time_millis<F: FnOnce()>(f: F) -> (r: u64)
    requires
        f.requires(()),
    ensures
        f.ensures((), ()),
{
    let start = std::time::Instant::now();
    f();
    let elapsed = start.elapsed();
    let secs = elapsed.as_secs();
    let nanos = elapsed.subsec_nanos();
    duration_millis(secs, nanos)
}

} // verus!
