use vstd::prelude::*;

verus! {

/// Instructions of the PCD8544 controller.
#[derive(Clone, Copy, Debug, PartialEq, Eq, Structural)]
pub enum ScreenCommand {
    FunctionSet,
    ExtendedFunctionSet,
    SetContrast,
    SetTempCoeff,
    SetBias,
    NormalDisplayMode,
    PixelTestMode,
}

impl ScreenCommand {
    /// The instruction byte.
    pub open spec fn spec_value(self) -> u8 {
        match self {
            ScreenCommand::FunctionSet => 0x20,
            ScreenCommand::ExtendedFunctionSet => 0x21,
            ScreenCommand::SetContrast => 0x80,
            ScreenCommand::SetTempCoeff => 0x04,
            ScreenCommand::SetBias => 0x10,
            ScreenCommand::NormalDisplayMode => 0x0C,
            ScreenCommand::PixelTestMode => 0x09,
        }
    }

    /// The instruction byte.
    pub fn value(self) -> (r: u8)
        ensures
            r == self.spec_value(),
    {
        match self {
            ScreenCommand::FunctionSet => 0x20,
            ScreenCommand::ExtendedFunctionSet => 0x21,
            ScreenCommand::SetContrast => 0x80,
            ScreenCommand::SetTempCoeff => 0x04,
            ScreenCommand::SetBias => 0x10,
            ScreenCommand::NormalDisplayMode => 0x0C,
            ScreenCommand::PixelTestMode => 0x09,
        }
    }
}

/// Memory addressing orientation (a function-set instruction with the V bit).
#[derive(Clone, Copy, Debug, PartialEq, Eq, Structural)]
pub enum AddressingCommand {
    Horizontal,
    Vertical,
}

impl AddressingCommand {
    pub open spec fn spec_value(self) -> u8 {
        match self {
            AddressingCommand::Horizontal => 0x20,
            AddressingCommand::Vertical => 0x22,
        }
    }

    /// The instruction byte.
    pub fn value(self) -> (r: u8)
        ensures
            r == self.spec_value(),
    {
        match self {
            AddressingCommand::Horizontal => 0x20,
            AddressingCommand::Vertical => 0x22,
        }
    }
}

/// Positioning of the display memory address.
#[derive(Clone, Copy, Debug, PartialEq, Eq, Structural)]
pub enum PositioningCommand {
    /// Sets the column (x) address.
    SetX,
    /// Selects the data bank (the row of 8 pixels) in display memory.
    SetBank,
}

impl PositioningCommand {
    pub open spec fn spec_value(self) -> u8 {
        match self {
            PositioningCommand::SetX => 0x80,
            PositioningCommand::SetBank => 0x40,
        }
    }

    /// The instruction byte.
    pub fn value(self) -> (r: u8)
        ensures
            r == self.spec_value(),
    {
        match self {
            PositioningCommand::SetX => 0x80,
            PositioningCommand::SetBank => 0x40,
        }
    }
}

/// Contrast used unless another is asked for.
pub const DEFAULT_CONTRAST: u8 = 0x36;

/// Bias system setting used at start-up.
pub const DEFAULT_BIAS: u8 = 0x03;

/// The contrast field is 7 bits wide.
pub const MAX_CONTRAST: u8 = 0x7F;

/// The start-up instruction sequence for a given contrast: extended instruction
/// set, temperature coefficient, bias, contrast (its low 7 bits), horizontal
/// addressing in the basic instruction set, normal display mode.
pub open spec fn init_sequence(contrast: u8) -> Seq<u8> {
    seq![0x21u8, 0x04u8, 0x13u8, (0x80u8 | (contrast & 0x7Fu8)), 0x20u8, 0x0Cu8]
}

/// The instruction bytes that start the display, as the display's start-up sends
/// them after a reset.
pub fn init_commands(contrast: u8) -> (r: [u8; 6])
    ensures
        r@ == init_sequence(contrast),
{
    let r = [
        ScreenCommand::ExtendedFunctionSet.value(),
        ScreenCommand::SetTempCoeff.value(),
        ScreenCommand::SetBias.value() | DEFAULT_BIAS,
        ScreenCommand::SetContrast.value() | (contrast & MAX_CONTRAST),
        AddressingCommand::Horizontal.value(),
        ScreenCommand::NormalDisplayMode.value(),
    ];
    proof {
        assert((0x10u8 | 0x03u8) == 0x13u8) by (bit_vector);
        assert(r@ =~= init_sequence(contrast));
    }
    r
}

/// The instruction bytes that set the display memory address to column `x`, bank `bank`.
pub fn address_commands(x: u8, bank: u8) -> (r: [u8; 2])
    ensures
        r@ == seq![(0x80u8 | x), (0x40u8 | bank)],
{
    let r = [PositioningCommand::SetX.value() | x, PositioningCommand::SetBank.value() | bank];
    proof {
        assert(r@ =~= seq![(0x80u8 | x), (0x40u8 | bank)]);
    }
    r
}

} // verus!
