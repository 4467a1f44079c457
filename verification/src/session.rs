//! The session clock: a process-wide monotonic start instant plus the
//! wall-clock time at which the session began.
//!
//! The clock is created once, at the first initialization, and never
//! reset. The wall-clock start is fixed thereafter; elapsed readings come
//! from the monotonic instant, so they never go backwards across
//! wall-clock jumps. What only the platform can compute - the instant and
//! the wall time now - sits behind trusted wrappers; everything read from
//! them is plain seconds and nanoseconds.

use vstd::prelude::*;

verus! {

/// The standard library's opaque monotonic instant.
#[verifier::external_type_specification]
#[verifier::external_body]
pub struct ExInstant(std::time::Instant);

/// Relies on `std::time::Instant::now`: an opaque reading of the
/// monotonic clock. Nothing is promised of its value.
#[verifier::external_body]
fn monotonic_now() -> (r: std::time::Instant)
    ensures
        true,
{
    std::time::Instant::now()
}

/// Relies on `std::time::Instant::elapsed` and `Duration::subsec_nanos`:
/// the sub-second part is below one second. Of the reading itself nothing
/// more is promised; the facade makes the stamps it hands out monotonic
/// whatever comes back.
#[verifier::external_body]
fn elapsed_parts(start: &std::time::Instant) -> (r: (u64, u32))
    ensures
        r.1 < 1_000_000_000,
{
    let d = start.elapsed();
    (d.as_secs(), d.subsec_nanos())
}

/// Relies on `chrono::Utc::now`, `DateTime::timestamp` and
/// `DateTime::timestamp_subsec_nanos`: the sub-second part is below two
/// seconds (it may reach into the second billion during a leap second).
/// `Utc::now` aborts on a system clock set before the Unix epoch; that is
/// an environment fault, not dependent on any input of this library.
#[verifier::external_body]
fn wall_now_parts() -> (r: (i64, u32))
    ensures
        r.1 < 2_000_000_000,
{
    let t = chrono::Utc::now();
    (t.timestamp(), t.timestamp_subsec_nanos())
}

/// The session clock: the instant the session started, and the wall-clock
/// timestamp of that moment.
pub struct SessionClock {
    pub start: std::time::Instant,
    pub wall_secs: i64,
    pub wall_nanos: u32,
}

impl SessionClock {
    /// The wall-clock sub-second part is a nanosecond count.
    pub open spec fn wf(&self) -> bool {
        self.wall_nanos < 2_000_000_000
    }

    /// Captures the start of the session: the monotonic instant and the
    /// wall clock, read once.
    pub fn session_init() -> (r: SessionClock)
        ensures
            r.wf(),
    {
        let start = monotonic_now();
        let (wall_secs, wall_nanos) = wall_now_parts();
        SessionClock { start, wall_secs, wall_nanos }
    }

    /// The wall-clock timestamp of the session start, as seconds since
    /// the epoch and sub-second nanoseconds: exactly the value captured
    /// at initialization, the same on every call.
    pub fn start_at(&self) -> (r: (i64, u32))
        requires
            self.wf(),
        ensures
            r == (self.wall_secs, self.wall_nanos),
            r.1 < 2_000_000_000,
    {
        (self.wall_secs, self.wall_nanos)
    }

    /// A reading of the monotonic clock: seconds and sub-second
    /// nanoseconds elapsed since the session start.
    pub fn elapsed(&self) -> (r: (u64, u32))
        ensures
            r.1 < 1_000_000_000,
    {
        elapsed_parts(&self.start)
    }
}

} // verus!
