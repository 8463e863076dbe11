//! The interrupt side of the inputs: the button debouncer and the queue of
//! debounced events.
use vstd::prelude::*;

pub mod debounce;
pub mod states;

pub use states::debounce_result;

use crate::io::input_pins::ButtonId;
use states::InputState;

verus! {

/// Settles the debouncer at `now_us`, then says whether the button `button_id` is
/// held down.
pub fn button_is_pressed(state: &mut InputState, button_id: ButtonId, now_us: u64) -> (r: bool)
    requires
        now_us >= old(state).spec_debounce().spec_last_edge(),
    ensures
        debounce_result(*old(state), now_us, *final(state)),
        r == final(state).spec_pressed(),
        r == final(state).spec_debounce().spec_stable(),
{
    match button_id {
        ButtonId::Primary => state.primary_button_is_pressed(now_us),
    }
}

} // verus!
