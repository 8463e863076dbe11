use vstd::prelude::*;

use crate::screen::framebuffer::{byte_bit, on_screen, pixel_index, pixel_of, Framebuffer};

verus! {

/// One transaction with the LCD.
#[derive(Debug)]
pub enum LcdOp {
    /// Pulse the reset line.
    Reset,
    /// Send an instruction byte.
    Command(u8),
    /// Send display data bytes.
    Data(Vec<u8>),
}

/// Whether `op` is the instruction `c`.
pub open spec fn is_command(op: LcdOp, c: u8) -> bool {
    op matches LcdOp::Command(x) && x == c
}

/// Whether `op` sends exactly the data `d`.
pub open spec fn is_data(op: LcdOp, d: Seq<u8>) -> bool {
    op matches LcdOp::Data(v) && v@ == d
}

/// The first screen driver: it keeps its own copy of display memory and sends every
/// pixel change to the LCD at once. Each operation returns the transactions that the
/// caller performs on the LCD, in order.
pub struct Screen {
    framebuffer: Framebuffer,
    backlight_enabled: bool,
}

impl Screen {
    /// Pixel (x, y) is bit `y % 8` of byte `x + (y / 8) * 84` of the 504 bytes of
    /// display memory.
    pub proof fn lemma_pixel_layout(self)
        ensures
            self.spec_bytes().len() == 504,
            forall|x: int, y: int| on_screen(x, y) ==> #[trigger] self.pixel(x, y) == pixel_of(self.spec_bytes(), x, y),
    {
        self.framebuffer.lemma_view_len();
    }

    pub closed spec fn pixel(self, x: int, y: int) -> bool {
        self.framebuffer.pixel(x, y)
    }

    pub closed spec fn spec_bytes(self) -> Seq<u8> {
        self.framebuffer.view()
    }

    pub closed spec fn spec_backlight(self) -> bool {
        self.backlight_enabled
    }

    /// A blank screen with the backlight off.
    pub fn new() -> (r: Self)
        ensures
            !r.spec_backlight(),
            forall|x: int, y: int| on_screen(x, y) ==> !#[trigger] r.pixel(x, y),
    {
        Screen { framebuffer: Framebuffer::new(), backlight_enabled: false }
    }

    /// The start-up transactions: a reset, then the extended instruction set,
    /// temperature coefficient, bias 4, the contrast (its low 7 bits), vertical
    /// addressing in the basic instruction set, and normal display mode.
    pub fn init(&self, contrast: u8) -> (r: Vec<LcdOp>)
        ensures
            r@.len() == 7,
            r@[0] is Reset,
            is_command(r@[1], 0x21),
            is_command(r@[2], 0x04),
            is_command(r@[3], 0x14),
            is_command(r@[4], 0x80u8 | (contrast & 0x7Fu8)),
            is_command(r@[5], 0x22),
            is_command(r@[6], 0x0C),
    {
        let mut r: Vec<LcdOp> = Vec::new();
        r.push(LcdOp::Reset);
        r.push(LcdOp::Command(0x20 | 0x01));
        r.push(LcdOp::Command(0x04));
        r.push(LcdOp::Command(0x10 | 0x04));
        r.push(LcdOp::Command(0x80 | (contrast & 0x7F)));
        r.push(LcdOp::Command(0x20 | 0x02));
        r.push(LcdOp::Command(0x0C));
        proof {
            assert((0x20u8 | 0x01u8) == 0x21u8 && (0x10u8 | 0x04u8) == 0x14u8 && (0x20u8 | 0x02u8) == 0x22u8) by (bit_vector);
        }
        r
    }

    /// Switches the backlight over and returns its new state.
    pub fn toggle_backlight(&mut self) -> (r: bool)
        ensures
            r == final(self).spec_backlight(),
            final(self).spec_backlight() == !old(self).spec_backlight(),
            final(self).spec_bytes() == old(self).spec_bytes(),
    {
        self.backlight_enabled = !self.backlight_enabled;
        self.backlight_enabled
    }

    /// Moves the LCD's address to column `x`, bank `bank`; nothing for an address
    /// off the display.
    fn set_cursor(&self, ops: &mut Vec<LcdOp>, x: u8, bank: u8)
        ensures
            (x < 84 && bank < 6) ==> final(ops)@ =~= old(ops)@.push(LcdOp::Command(0x80u8 | x)).push(LcdOp::Command(0x40u8 | bank)),
            !(x < 84 && bank < 6) ==> final(ops)@ == old(ops)@,
    {
        if x >= 84 || bank >= 6 {
            return;
        }
        ops.push(LcdOp::Command(0x80 | x));
        ops.push(LcdOp::Command(0x40 | bank));
    }

    /// Blanks the display: address (0, 0), 504 zero bytes of data, address (0, 0) again.
    pub fn clear(&mut self) -> (r: Vec<LcdOp>)
        ensures
            forall|i: int| 0 <= i < 504 ==> #[trigger] final(self).spec_bytes()[i] == 0,
            final(self).spec_backlight() == old(self).spec_backlight(),
            r@.len() == 5,
            is_command(r@[0], 0x80),
            is_command(r@[1], 0x40),
            is_data(r@[2], final(self).spec_bytes()),
            is_command(r@[3], 0x80),
            is_command(r@[4], 0x40),
    {
        let mut ops: Vec<LcdOp> = Vec::new();
        self.set_cursor(&mut ops, 0, 0);
        self.framebuffer.clear();
        let bytes = self.framebuffer.as_bytes();
        let mut data: Vec<u8> = Vec::new();
        let mut i: usize = 0;
        while i < 504
            invariant
                i <= 504,
                bytes@.len() == 504,
                data@ =~= bytes@.subrange(0, i as int),
            decreases 504 - i,
        {
            data.push(bytes[i]);
            i = i + 1;
        }
        ops.push(LcdOp::Data(data));
        self.set_cursor(&mut ops, 0, 0);
        proof {
            assert((0x80u8 | 0u8) == 0x80u8 && (0x40u8 | 0u8) == 0x40u8) by (bit_vector);
            assert(bytes@.subrange(0, 504) =~= bytes@);
        }
        ops
    }

    /// Sets pixel (x, y) to `on` and sends its byte: address (x, y / 8), then the byte.
    /// A pixel off the display changes and sends nothing.
    pub fn set_pixel(&mut self, x: u8, y: u8, on: bool) -> (r: Vec<LcdOp>)
        ensures
            final(self).spec_backlight() == old(self).spec_backlight(),
            !on_screen(x as int, y as int) ==> r@.len() == 0 && final(self).spec_bytes() == old(self).spec_bytes(),
            on_screen(x as int, y as int) ==> {
                &&& final(self).spec_bytes().len() == 504
                &&& forall|i: int| 0 <= i < 504 && i != pixel_index(x as int, y as int) ==> #[trigger] final(self).spec_bytes()[i]
                    == old(self).spec_bytes()[i]
                &&& forall|j: u8| j < 8 ==> #[trigger] byte_bit(final(self).spec_bytes()[pixel_index(x as int, y as int)], j)
                    == (if j == (y % 8) as u8 { on } else { byte_bit(old(self).spec_bytes()[pixel_index(x as int, y as int)], j) })
                &&& final(self).pixel(x as int, y as int) == on
                &&& forall|px: int, py: int|
                    on_screen(px, py) && (px != x || py != y) ==> #[trigger] final(self).pixel(px, py)
                        == old(self).pixel(px, py)
                &&& r@.len() == 3
                &&& is_command(r@[0], 0x80u8 | x)
                &&& is_command(r@[1], 0x40u8 | (y / 8) as u8)
                &&& is_data(r@[2], seq![final(self).spec_bytes()[x + (y / 8) * 84]])
            },
    {
        let mut ops: Vec<LcdOp> = Vec::new();
        if x >= 84 || y >= 48 {
            return ops;
        }
        let bank = y / 8;
        self.framebuffer.set_pixel(x as usize, y as usize, on);
        self.set_cursor(&mut ops, x, bank);
        let index = x as usize + bank as usize * 84;
        let byte = self.framebuffer.as_bytes()[index];
        let mut data: Vec<u8> = Vec::new();
        data.push(byte);
        ops.push(LcdOp::Data(data));
        proof {
            assert(data@ =~= seq![self.spec_bytes()[x + (y / 8) * 84]]);
        }
        ops
    }
}

} // verus!
