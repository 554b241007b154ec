//! Verified core of a battery-powered e-paper information display.
//!
//! The library converts 1-bit raster images into a centered, polarity-corrected
//! region of a fixed-size framebuffer, turns raw button edges into discrete
//! press/release events, cycles through a catalog of scenes, and decides when
//! inactivity should put the device to sleep.

use vstd::prelude::*;

pub mod button;
pub mod controller;
pub mod dimensions;
pub mod framebuffer;
pub mod png;
pub mod power;
pub mod scene;

verus! {

/// Greeting used by the text scene.
pub fn hello_world() -> (r: String)
    ensures
        r@ == "Hello from TRMRS core!"@,
{
    String::from_str("Hello from TRMRS core!")
}

/// The message the text scene shows: the greeting, a line break, and the
/// connectivity status the surrounding application supplies.
pub fn compose_status_text(status: &str) -> (r: String)
    ensures
        r@ == "Hello from TRMRS core!"@ + "\n"@ + status@,
{
    let mut s = hello_world();
    s.append("\n");
    s.append(status);
    s
}

} // verus!
