use vstd::prelude::*;

use crate::io::interrupt::states::InputState;
use crate::io::interrupt::debounce_result;

verus! {


/// How long, in milliseconds, a button level must stay unchanged before it counts.
pub const PRIMARY_BUTTON_DEBOUNCE_MS: u64 = 25;

/// The debounce time in microseconds, the unit of the timestamps handed to the debouncer.
pub const PRIMARY_BUTTON_DEBOUNCE_US: u64 = 25_000;

/// The buttons of the board.
#[derive(Clone, Copy, Debug, PartialEq, Eq, Structural)]
pub enum ButtonId {
    Primary,
}

/// A debounced button transition.
#[derive(Clone, Copy, Debug, PartialEq, Eq, Structural)]
pub enum InputEvent {
    ButtonPressed(ButtonId),
    ButtonReleased(ButtonId),
}

/// The event that reports a button reaching the level `pressed`.
pub open spec fn button_event(pressed: bool) -> InputEvent {
    if pressed {
        InputEvent::ButtonPressed(ButtonId::Primary)
    } else {
        InputEvent::ButtonReleased(ButtonId::Primary)
    }
}

/// Settles the debouncer at `now_us`, then takes the oldest queued input event, if any.
pub fn next_input_event(state: &mut InputState, now_us: u64) -> (r: Option<InputEvent>)
    requires
        now_us >= old(state).spec_debounce().spec_last_edge(),
    ensures
        exists|mid: InputState| #![auto] {
            &&& debounce_result(*old(state), now_us, mid)
            &&& final(state).spec_debounce() == mid.spec_debounce()
            &&& final(state).spec_pressed() == mid.spec_pressed()
            &&& mid.spec_events().len() == 0 ==> r is None && final(state).spec_events() == mid.spec_events()
            &&& mid.spec_events().len() > 0 ==> r == Some(mid.spec_events()[0])
                && final(state).spec_events() == mid.spec_events().drop_first()
        },
{
    state.next_event(now_us)
}

/// Settles the debouncer at `now_us`, then says whether the primary button is held down.
pub fn primary_button_is_pressed(state: &mut InputState, now_us: u64) -> (r: bool)
    requires
        now_us >= old(state).spec_debounce().spec_last_edge(),
    ensures
        debounce_result(*old(state), now_us, *final(state)),
        r == final(state).spec_pressed(),
        r == final(state).spec_debounce().spec_stable(),
{
    state.primary_button_is_pressed(now_us)
}

} // verus!
