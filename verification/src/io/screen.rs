use vstd::prelude::*;

verus! {

/// Instructions of the PCD8544 controller as the first screen driver used them.
#[derive(Clone, Copy, Debug, PartialEq, Eq, Structural)]
pub enum ScreenCommand {
    BasicCommands,
    ExtendedCommands,
    SetContrast,
    SetTempCoeff,
    SetBias,
    NormalDisplayMode,
    PixelTestMode,
}

impl ScreenCommand {
    /// The instruction byte.
    pub open spec fn spec_value(self) -> u8 {
        match self {
            ScreenCommand::BasicCommands => 0x20,
            ScreenCommand::ExtendedCommands => 0x21,
            ScreenCommand::SetContrast => 0x80,
            ScreenCommand::SetTempCoeff => 0x04,
            ScreenCommand::SetBias => 0x14,
            ScreenCommand::NormalDisplayMode => 0x0C,
            ScreenCommand::PixelTestMode => 0x09,
        }
    }

    /// The instruction byte.
    pub fn value(self) -> (r: u8)
        ensures
            r == self.spec_value(),
    {
        match self {
            ScreenCommand::BasicCommands => 0x20,
            ScreenCommand::ExtendedCommands => 0x21,
            ScreenCommand::SetContrast => 0x80,
            ScreenCommand::SetTempCoeff => 0x04,
            ScreenCommand::SetBias => 0x14,
            ScreenCommand::NormalDisplayMode => 0x0C,
            ScreenCommand::PixelTestMode => 0x09,
        }
    }
}

} // verus!
