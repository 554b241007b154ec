//! The activity clock and the inactivity-triggered sleep decision.

use vstd::prelude::*;

verus! {

/// The process-wide "last user interaction" timestamp, in 32-bit wrapped
/// milliseconds.
pub struct ActivityClock {
    pub last_activity_ms: i32,
}

impl ActivityClock {
    /// A clock whose last activity is `now_ms`.
    pub fn new(now_ms: i32) -> (r: ActivityClock)
        ensures
            r.last_activity_ms == now_ms,
    {
        ActivityClock { last_activity_ms: now_ms }
    }

    /// Records that user interaction was observed at `now_ms`.
    pub fn touch(&mut self, now_ms: i32)
        ensures
            final(self).last_activity_ms == now_ms,
    {
        self.last_activity_ms = now_ms;
    }

    /// Milliseconds of idle time at `now_ms`: the wraparound-safe difference
    /// from the last recorded activity, correct across a signed 32-bit wrap.
    pub fn idle_ms(&self, now_ms: i32) -> (r: i32)
        ensures
            r == now_ms.wrapping_sub(self.last_activity_ms),
    {
        now_ms.wrapping_sub(self.last_activity_ms)
    }
}

/// The power manager's per-tick decision: enter deep sleep exactly when the
/// wraparound-safe idle time strictly exceeds the inactivity timeout.
pub fn should_sleep(clock: &ActivityClock, now_ms: i32, inactivity_timeout_ms: i32) -> (r: bool)
    ensures
        r == (now_ms.wrapping_sub(clock.last_activity_ms) > inactivity_timeout_ms),
{
    clock.idle_ms(now_ms) > inactivity_timeout_ms
}

} // verus!
