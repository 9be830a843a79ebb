//! Spans of time, as the standard library counts them.

use core::time::Duration;

use vstd::prelude::*;

verus! {

/// The length of a span in nanoseconds, as `Duration::as_nanos` returns it.
pub uninterp spec fn duration_nanos(duration: Duration) -> nat;

/// `Duration::as_nanos`: the whole span in nanoseconds.
pub assume_specification[ Duration::as_nanos ](duration: &Duration) -> (nanos: u128)
    ensures
        nanos as nat == duration_nanos(*duration),
;

/// `Duration::from_millis`: a span of that many milliseconds.
pub assume_specification[ Duration::from_millis ](millis: u64) -> (duration: Duration)
    ensures
        duration_nanos(duration) == millis as nat * 1_000_000,
;

/// `Duration::from_secs`: a span of that many seconds.
pub assume_specification[ Duration::from_secs ](secs: u64) -> (duration: Duration)
    ensures
        duration_nanos(duration) == secs as nat * 1_000_000_000,
;

/// `Duration::from_nanos`: a span of that many nanoseconds.
pub assume_specification[ Duration::from_nanos ](nanos: u64) -> (duration: Duration)
    ensures
        duration_nanos(duration) == nanos as nat,
;

/// A span in whole milliseconds, held at the largest signed count.
pub open spec fn bounded_millis(duration: Duration) -> i64 {
    if duration_nanos(duration) / 1_000_000 > i64::MAX {
        i64::MAX
    } else {
        (duration_nanos(duration) / 1_000_000) as i64
    }
}

/// The whole milliseconds of a span, held at the largest signed count.
pub fn whole_millis(duration: Duration) -> (millis: i64)
    ensures
        millis == bounded_millis(duration),
{
    let millis: u128 = duration.as_nanos() / 1_000_000;
    if millis > 0x7fff_ffff_ffff_ffff {
        0x7fff_ffff_ffff_ffff
    } else {
        millis as i64
    }
}

} // verus!
