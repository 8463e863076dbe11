use vstd::prelude::*;

verus! {

/// The pull resistor configuration of an input pin.
#[derive(Clone, Copy, Debug, PartialEq, Eq, Structural)]
pub enum PinConfig {
    PullUp,
    PullDown,
    Floating,
}

} // verus!
