//! Inputs and outputs of the board: buttons with debouncing and an event queue,
//! pin configurations, and the display's instruction set.
use vstd::prelude::*;

pub mod input_pins;
pub mod interrupt;
pub mod pins_config;
pub mod screen;

pub use input_pins::{
    next_input_event, primary_button_is_pressed, ButtonId, InputEvent, PRIMARY_BUTTON_DEBOUNCE_MS,
};
pub use pins_config::PinConfig;

verus! {

} // verus!
