use std::time::Duration;
use std::time::Instant;
use vstd::prelude::*;

verus! {

/// `std::time::Instant`, a reading of the monotonic clock. Nothing inside it
/// is visible to the verifier.
#[verifier::external_type_specification]
#[verifier::external_body]
pub struct ExInstant(Instant);

/// `Instant::now` reads the clock; nothing is promised of the reading.
pub assume_specification[ Instant::now ]() -> (now: Instant);

/// `Instant::saturating_duration_since` gives the time from `earlier` to
/// `instant`, or zero where `earlier` is the later one; it never panics.
pub assume_specification[ Instant::saturating_duration_since ](
    instant: &Instant,
    earlier: Instant,
) -> (elapsed: Duration);

/// Remembers when the server started.
pub struct ServerTimer {
    start_time: Instant,
}

impl ServerTimer {
    /// Starts the timer at the current clock reading.
    pub fn new() -> (timer: ServerTimer) {
        ServerTimer { start_time: Instant::now() }
    }

    /// Time elapsed since the timer was started.
    pub fn get_uptime(&self) -> (uptime: Duration) {
        let now = Instant::now();
        now.saturating_duration_since(self.start_time)
    }
}

} // verus!
