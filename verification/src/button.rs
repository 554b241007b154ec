//! Turning raw GPIO edge interrupts into discrete button events.
//!
//! The interrupt handler must be as short as possible, so it only records the
//! timestamp of a falling edge and raises a pending flag. The poll loop later
//! consumes the flag, re-samples the line, and derives the event: a press, or
//! a release with the elapsed press duration measured in wraparound-safe
//! 32-bit milliseconds.

use vstd::prelude::*;

verus! {

/// The electrical level of the button's GPIO line. The line is wired with a
/// pull-up resistor, so `Low` means pressed and `High` means released.
#[derive(Clone, Copy, Debug, PartialEq, Eq, Structural)]
pub enum PinLevel {
    Low,
    High,
}

/// A discrete button event derived from edge interrupts.
#[derive(Clone, Copy, Debug, PartialEq, Eq, Structural)]
pub enum ButtonEvent {
    /// The button went down. No duration: it only becomes known on release.
    Press,
    /// The button came up, `duration_ms` milliseconds after the recorded
    /// press (wraparound-safe difference of the two timestamps).
    Release { duration_ms: i32 },
}

/// The two scalar values shared between the interrupt context and the poll
/// loop: the pending-event flag and the timestamp of the most recent falling
/// edge.
pub struct ButtonState {
    pub event_pending: bool,
    pub press_time_ms: i32,
}

impl ButtonState {
    /// A state with no event pending and no press recorded.
    pub fn new() -> (r: ButtonState)
        ensures
            !r.event_pending,
            r.press_time_ms == 0,
    {
        ButtonState { event_pending: false, press_time_ms: 0 }
    }

    /// What the interrupt handler does on any edge: on a falling edge (the
    /// button pressed) it records the timestamp as the press start, and on
    /// every edge it raises the pending flag. A second edge before the first
    /// is consumed overwrites the timestamp; the flag stays raised, so the
    /// poll loop still sees exactly one event.
    pub fn on_edge(&mut self, level: PinLevel, now_ms: i32)
        ensures
            final(self).event_pending,
            final(self).press_time_ms == if level is Low {
                now_ms
            } else {
                old(self).press_time_ms
            },
    {
        if level == PinLevel::Low {
            self.press_time_ms = now_ms;
        }
        self.event_pending = true;
    }

    /// What the poll loop does each tick: nothing when no event is pending.
    /// Otherwise the flag is cleared and the re-sampled level decides the
    /// event: still pressed gives `Press`; released gives `Release` carrying
    /// the wraparound-safe time elapsed since the recorded press.
    pub fn consume_if_pending(&mut self, level_now: PinLevel, now_ms: i32) -> (e: Option<
        ButtonEvent,
    >)
        ensures
            !final(self).event_pending,
            final(self).press_time_ms == old(self).press_time_ms,
            e == if !old(self).event_pending {
                Option::<ButtonEvent>::None
            } else if level_now is Low {
                Option::<ButtonEvent>::Some(ButtonEvent::Press)
            } else {
                Option::<ButtonEvent>::Some(
                    ButtonEvent::Release {
                        duration_ms: now_ms.wrapping_sub(old(self).press_time_ms),
                    },
                )
            },
    {
        if !self.event_pending {
            return None;
        }
        self.event_pending = false;
        if level_now == PinLevel::Low {
            Some(ButtonEvent::Press)
        } else {
            let duration = now_ms.wrapping_sub(self.press_time_ms);
            Some(ButtonEvent::Release { duration_ms: duration })
        }
    }
}

/// Wraparound-safe press timing: whatever the press timestamp, a release
/// sampled a nonnegative `duration` of wrapped 32-bit milliseconds later
/// yields exactly that duration, even when the clock wraps between the two
/// samples.
pub proof fn lemma_press_duration_wraparound(press_ms: i32, duration: i32)
    requires
        duration >= 0,
    ensures
        ({
            let release_ms = vstd::wrapping::i32_specs::wrapping_add(press_ms, duration);
            vstd::wrapping::i32_specs::wrapping_sub(release_ms, press_ms) == duration
        }),
{
}

} // verus!
