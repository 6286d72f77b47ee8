//! Wall-clock time for the frame loop, in whole milliseconds.

use vstd::prelude::*;
use std::time::{Duration, Instant};

verus! {

/// `std::time::Instant`, a point in time of which nothing is known here.
#[verifier::external_type_specification]
#[verifier::external_body]
pub struct ExInstant(std::time::Instant);

/// Calls `Instant::now`. Nothing is claimed of the instant returned.
#[verifier::external_body]
fn now() -> Instant {
    Instant::now()
}

/// Calls `Instant::elapsed`. Nothing is claimed of the duration returned.
#[verifier::external_body]
fn elapsed_since(start: &Instant) -> Duration {
    start.elapsed()
}

/// Calls `Duration::as_secs`. Nothing is claimed of the number returned.
#[verifier::external_body]
fn whole_seconds(span: &Duration) -> u64 {
    span.as_secs()
}

/// Calls `Duration::subsec_nanos`, which returns the part of the duration
/// below one second in nanoseconds: a number below one billion.
#[verifier::external_body]
fn subsecond_nanos(span: &Duration) -> (nanos: u32)
    ensures
        nanos < 1_000_000_000,
{
    span.subsec_nanos()
}

/// The whole milliseconds in `secs` seconds and `nanos` nanoseconds.
pub open spec fn millis_in(secs: int, nanos: int) -> int {
    secs * 1_000 + nanos / 1_000_000
}

/// The whole milliseconds in `secs` seconds and `nanos` nanoseconds, or
/// `u64::MAX` when they are more than that.
pub fn milliseconds(secs: u64, nanos: u32) -> (ms: u64)
    ensures
        ms == if millis_in(secs as int, nanos as int) > u64::MAX {
            u64::MAX as int
        } else {
            millis_in(secs as int, nanos as int)
        },
{
    let whole: u128 = secs as u128 * 1_000 + (nanos / 1_000_000) as u128;
    if whole > u64::MAX as u128 {
        u64::MAX
    } else {
        whole as u64
    }
}

/// A stopwatch started when it is made.
pub struct Timer {
    time: Instant,
}

impl Timer {
    /// A timer started now.
    pub fn new() -> Timer {
        Timer { time: now() }
    }

    /// The whole milliseconds that have passed since the timer was made.
    pub fn current_time(&self) -> u64 {
        let span = elapsed_since(&self.time);
        milliseconds(whole_seconds(&span), subsecond_nanos(&span))
    }
}

} // verus!
