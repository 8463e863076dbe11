//! Verified core logic of a small ESP32 embedded computer: LED modes,
//! button debouncing, input event queueing, framebuffer graphics and text,
//! Bluetooth advertisement parsing and device bookkeeping.
use vstd::prelude::*;

pub mod bluetooth;
pub mod io;
pub mod leds;
pub mod net;
pub mod screen;
pub mod sd;
pub mod timer;
mod utf8;

verus! {

} // verus!
