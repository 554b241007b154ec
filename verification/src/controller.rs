//! The main loop's per-tick decision: sleep on inactivity, consume a pending
//! button event, and advance the scene on release.
//!
//! The surrounding loop samples the clock and the GPIO line, calls
//! `poll_tick`, and performs the returned action: displaying the panel,
//! rasterizing text, or entering deep sleep are outside work.

use vstd::prelude::*;

use crate::button::{ButtonEvent, ButtonState, PinLevel};
use crate::power::{should_sleep, ActivityClock};
use crate::scene::SceneCycle;

verus! {

/// What one poll tick decides the surrounding loop must do next.
#[derive(Clone, Copy, Debug, PartialEq, Eq, Structural)]
pub enum TickAction {
    /// The idle timeout expired: put the panel into its low-power state,
    /// then the device into deep sleep. Terminal; nothing is consumed.
    Sleep,
    /// No pending button event; nothing to do.
    Idle,
    /// The button went down: activity is recorded, nothing is rendered.
    Pressed,
    /// The button came up after `duration_ms`: the catalog advanced to
    /// `new_index`, and that scene must be rendered and displayed.
    Advanced { new_index: usize, duration_ms: i32 },
}

/// The interaction state the poll loop owns: the shared button values, the
/// activity clock, the scene cursor, and the inactivity timeout.
pub struct Interaction {
    pub button: ButtonState,
    pub clock: ActivityClock,
    pub cycle: SceneCycle,
    pub inactivity_timeout_ms: i32,
}

impl Interaction {
    /// The scene cursor points inside the catalog.
    pub open spec fn wf(&self) -> bool {
        self.cycle.wf()
    }

    /// A fresh session: no pending event, last activity at `now_ms`, the
    /// cursor at the start of the catalog.
    pub fn new(scenes: Vec<crate::scene::Scene>, now_ms: i32, inactivity_timeout_ms: i32) -> (r:
        Interaction)
        requires
            scenes.len() >= 1,
        ensures
            r.wf(),
            !r.button.event_pending,
            r.clock.last_activity_ms == now_ms,
            r.cycle.scenes == scenes,
            r.cycle.current_index == 0,
            r.inactivity_timeout_ms == inactivity_timeout_ms,
    {
        Interaction {
            button: ButtonState::new(),
            clock: ActivityClock::new(now_ms),
            cycle: SceneCycle::new(scenes),
            inactivity_timeout_ms,
        }
    }

    /// One tick of the poll loop, given the current timestamp and the
    /// re-sampled button level. The idle timeout is checked first: once it
    /// has expired the decision is `Sleep` and nothing else is consumed.
    /// Otherwise a pending button event, if any, is consumed and refreshes
    /// the activity clock; a release also advances the scene cursor by one,
    /// wrapping at the end of the catalog.
    pub fn poll_tick(&mut self, now_ms: i32, level: PinLevel) -> (action: TickAction)
        requires
            old(self).wf(),
        ensures
            final(self).wf(),
            final(self).inactivity_timeout_ms == old(self).inactivity_timeout_ms,
            final(self).cycle.scenes == old(self).cycle.scenes,
            final(self).button.press_time_ms == old(self).button.press_time_ms,
            ({
                let idle = now_ms.wrapping_sub(old(self).clock.last_activity_ms);
                if idle > old(self).inactivity_timeout_ms {
                    action == TickAction::Sleep && *final(self) == *old(self)
                } else if !old(self).button.event_pending {
                    action == TickAction::Idle && *final(self) == *old(self)
                } else {
                    &&& !final(self).button.event_pending
                    &&& final(self).clock.last_activity_ms == now_ms
                    &&& if level is Low {
                        action == TickAction::Pressed && final(self).cycle == old(self).cycle
                    } else {
                        &&& action == (TickAction::Advanced {
                            new_index: final(self).cycle.current_index,
                            duration_ms: now_ms.wrapping_sub(old(self).button.press_time_ms),
                        })
                        &&& final(self).cycle.current_index == (old(self).cycle.current_index + 1)
                            % (old(self).cycle.scenes.len() as int)
                    }
                }
            }),
    {
        if should_sleep(&self.clock, now_ms, self.inactivity_timeout_ms) {
            return TickAction::Sleep;
        }
        match self.button.consume_if_pending(level, now_ms) {
            None => TickAction::Idle,
            Some(ButtonEvent::Press) => {
                self.clock.touch(now_ms);
                TickAction::Pressed
            },
            Some(ButtonEvent::Release { duration_ms }) => {
                self.clock.touch(now_ms);
                self.cycle.advance();
                TickAction::Advanced { new_index: self.cycle.current_index, duration_ms }
            },
        }
    }
}

} // verus!
