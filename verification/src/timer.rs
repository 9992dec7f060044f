//! Timer for measuring the elapsed time between two points.

use vstd::prelude::*;

verus! {

#[verifier::external_type_specification]
#[verifier::external_body]
pub struct ExInstant(std::time::Instant);

/// Relies on std::time::Instant::now: the clock's reading depends on the
/// machine and the moment, so nothing is promised of the value.
#[verifier::external_body]
fn instant_now() -> std::time::Instant {
    std::time::Instant::now()
}

/// Relies on std::time::Instant::duration_since: the elapsed time from
/// `earlier` to `later`, or zero when `earlier` is the later of the two.
#[verifier::external_body]
fn duration_between(later: &std::time::Instant, earlier: &std::time::Instant) -> std::time::Duration {
    later.duration_since(*earlier)
}

/// Relies on std::time::Duration::as_secs: the whole seconds of the
/// duration.
#[verifier::external_body]
fn duration_secs(duration: &std::time::Duration) -> u64 {
    duration.as_secs()
}

/// Relies on std::time::Duration::subsec_nanos: the fractional part in
/// nanoseconds, documented to be less than one billion.
#[verifier::external_body]
fn duration_subsec_nanos(duration: &std::time::Duration) -> (r: u32)
    ensures
        r < 1000000000,
{
    duration.subsec_nanos()
}

/// Measures the elapsed time between a start and a stop point.
#[derive(Debug)]
pub struct Timer {
    pub start: Option<std::time::Instant>,
    pub stop: Option<std::time::Instant>,
}

impl Timer {
    pub fn new() -> (r: Timer)
        ensures
            r.start is None,
            r.stop is None,
    {
        Timer { start: None, stop: None }
    }

    /// Returns the duration in nanoseconds, and zero before both points are
    /// set.
    ///
    /// Since this method returns the time as a u64, care should be taken to
    /// ensure the duration is not long enough for the value to overflow; an
    /// overlong duration wraps.
    pub fn duration_nanosec(&self) -> (r: u64)
        ensures
            !(self.start is Some && self.stop is Some) ==> r == 0,
    {
        if self.finished() {
            match (&self.start, &self.stop) {
                (Some(start), Some(stop)) => {
                    let duration = duration_between(stop, start);
                    let secs = duration_secs(&duration);
                    let nanos = duration_subsec_nanos(&duration);
                    let total: u128 = (secs as u128) * 1000000000u128 + (nanos as u128);
                    let wrapped: u128 = total % 18446744073709551616u128;
                    wrapped as u64
                },
                _ => 0,
            }
        } else {
            0
        }
    }

    /// Sets the start point to the clock's reading now.
    pub fn start(&mut self)
        ensures
            final(self).start is Some,
            final(self).stop == old(self).stop,
    {
        self.start = Some(instant_now());
    }

    /// Sets the stop point to the clock's reading now.
    pub fn stop(&mut self)
        ensures
            final(self).stop is Some,
            final(self).start == old(self).start,
    {
        self.stop = Some(instant_now());
    }

    /// Whether both the start and the stop point are set.
    pub fn finished(&self) -> (r: bool)
        ensures
            r == (self.start is Some && self.stop is Some),
    {
        self.start.is_some() && self.stop.is_some()
    }
}

} // verus!
