use vstd::prelude::*;

verus! {

/// Rows of 8 pixels ("banks") of the 84 x 48 display.
pub const SCREEN_BANKS: usize = 6;

/// Bytes of display memory: one byte per column per bank.
pub const FRAMEBUFFER_LEN: usize = 504;

/// Whether bit `k` (0 = least significant) of `b` is set.
pub open spec fn byte_bit(b: u8, k: u8) -> bool {
    (b >> k) & 1u8 == 1u8
}

/// Whether (x, y) lies on the 84 x 48 display.
pub open spec fn on_screen(x: int, y: int) -> bool {
    0 <= x < 84 && 0 <= y < 48
}

/// The byte of display memory that holds pixel (x, y): banks of 8 rows, one byte per column.
pub open spec fn pixel_index(x: int, y: int) -> int {
    x + (y / 8) * 84
}

/// Whether pixel (x, y) is lit in the display memory `bytes`: bit `y % 8` of its byte.
pub open spec fn pixel_of(bytes: Seq<u8>, x: int, y: int) -> bool {
    byte_bit(bytes[pixel_index(x, y)], (y % 8) as u8)
}

proof fn lemma_bit_update(b: u8, k: u8, j: u8)
    requires
        k < 8,
        j < 8,
    ensures
        byte_bit(b | (1u8 << k), j) == (j == k || byte_bit(b, j)),
        byte_bit(b & !(1u8 << k), j) == (j != k && byte_bit(b, j)),
{
    assert(((b | (1u8 << k)) >> j) & 1u8 == (if j == k { 1u8 } else { (b >> j) & 1u8 })) by (bit_vector)
        requires
            k < 8,
            j < 8,
    ;
    assert(((b & !(1u8 << k)) >> j) & 1u8 == (if j == k { 0u8 } else { (b >> j) & 1u8 })) by (bit_vector)
        requires
            k < 8,
            j < 8,
    ;
    assert(((b >> j) & 1u8 == 1u8) || ((b >> j) & 1u8 == 0u8)) by (bit_vector);
}

/// A byte is determined by its eight bits.
pub proof fn lemma_byte_from_bits(a: u8, b: u8)
    requires
        forall|j: u8| j < 8 ==> #[trigger] byte_bit(a, j) == byte_bit(b, j),
    ensures
        a == b,
{
    assert(byte_bit(a, 0) == byte_bit(b, 0));
    assert(byte_bit(a, 1) == byte_bit(b, 1));
    assert(byte_bit(a, 2) == byte_bit(b, 2));
    assert(byte_bit(a, 3) == byte_bit(b, 3));
    assert(byte_bit(a, 4) == byte_bit(b, 4));
    assert(byte_bit(a, 5) == byte_bit(b, 5));
    assert(byte_bit(a, 6) == byte_bit(b, 6));
    assert(byte_bit(a, 7) == byte_bit(b, 7));
    assert(a == b) by (bit_vector)
        requires
            ((a >> 0u8) & 1u8 == 1u8) == ((b >> 0u8) & 1u8 == 1u8),
            ((a >> 1u8) & 1u8 == 1u8) == ((b >> 1u8) & 1u8 == 1u8),
            ((a >> 2u8) & 1u8 == 1u8) == ((b >> 2u8) & 1u8 == 1u8),
            ((a >> 3u8) & 1u8 == 1u8) == ((b >> 3u8) & 1u8 == 1u8),
            ((a >> 4u8) & 1u8 == 1u8) == ((b >> 4u8) & 1u8 == 1u8),
            ((a >> 5u8) & 1u8 == 1u8) == ((b >> 5u8) & 1u8 == 1u8),
            ((a >> 6u8) & 1u8 == 1u8) == ((b >> 6u8) & 1u8 == 1u8),
            ((a >> 7u8) & 1u8 == 1u8) == ((b >> 7u8) & 1u8 == 1u8),
    ;
}

/// Display memory is determined by its pixels: two 504-byte memories in which every
/// pixel of the display reads the same are equal, byte for byte.
pub proof fn lemma_pixels_determine_bytes(a: Seq<u8>, b: Seq<u8>)
    requires
        a.len() == 504,
        b.len() == 504,
        forall|x: int, y: int| on_screen(x, y) ==> #[trigger] pixel_of(a, x, y) == pixel_of(b, x, y),
    ensures
        a == b,
{
    assert forall|i: int| 0 <= i < 504 implies a[i] == b[i] by {
        let x = i % 84;
        let bank = i / 84;
        assert forall|j: u8| j < 8 implies #[trigger] byte_bit(a[i], j) == byte_bit(b[i], j) by {
            let y = bank * 8 + j;
            assert(y / 8 == bank && y % 8 == j) by (nonlinear_arith)
                requires
                    y == bank * 8 + j,
                    0 <= j < 8,
                    0 <= bank,
            ;
            assert(pixel_index(x, y) == i);
            assert(pixel_of(a, x, y) == pixel_of(b, x, y));
        }
        lemma_byte_from_bits(a[i], b[i]);
    }
    assert(a =~= b);
}

proof fn lemma_zero_byte(j: u8)
    ensures
        !byte_bit(0u8, j),
{
    assert((0u8 >> j) & 1u8 == 0u8) by (bit_vector);
}

/// The display memory of the 84 x 48 monochrome LCD.
pub struct Framebuffer {
    bytes: [u8; 504],
}

impl Framebuffer {
    /// The bytes of display memory, in the order the display expects them.
    pub closed spec fn view(self) -> Seq<u8> {
        self.bytes@
    }

    /// Whether pixel (x, y) is lit.
    pub open spec fn pixel(self, x: int, y: int) -> bool {
        pixel_of(self.view(), x, y)
    }

    /// Display memory is 504 bytes long.
    pub proof fn lemma_view_len(self)
        ensures
            self.view().len() == 504,
    {
    }

    /// A framebuffer with every pixel off.
    pub fn new() -> (r: Self)
        ensures
            r.view().len() == 504,
            forall|x: int, y: int| on_screen(x, y) ==> !#[trigger] r.pixel(x, y),
    {
        let r = Framebuffer { bytes: [0u8; 504] };
        proof {
            assert forall|x: int, y: int| on_screen(x, y) implies !#[trigger] r.pixel(x, y) by {
                lemma_zero_byte((y % 8) as u8);
            }
        }
        r
    }

    /// Switches every pixel off.
    pub fn clear(&mut self)
        ensures
            final(self).view().len() == 504,
            forall|i: int| 0 <= i < 504 ==> #[trigger] final(self).view()[i] == 0,
            forall|x: int, y: int| on_screen(x, y) ==> !#[trigger] final(self).pixel(x, y),
    {
        let mut i: usize = 0;
        while i < FRAMEBUFFER_LEN
            invariant
                0 <= i <= 504,
                self.bytes@.len() == 504,
                forall|k: int| 0 <= k < i ==> #[trigger] self.bytes@[k] == 0,
            decreases 504 - i,
        {
            self.bytes[i] = 0;
            i = i + 1;
        }
        proof {
            assert forall|x: int, y: int| on_screen(x, y) implies !#[trigger] self.pixel(x, y) by {
                lemma_zero_byte((y % 8) as u8);
            }
        }
    }

    /// Sets bit `y % 8` of byte `x + (y / 8) * 84` to `on`: for a point on the display,
    /// pixel (x, y), every other pixel staying as it was.
    pub fn set_pixel(&mut self, x: usize, y: usize, on: bool)
        requires
            pixel_index(x as int, y as int) < 504,
        ensures
            final(self).view().len() == 504,
            forall|i: int| 0 <= i < 504 && i != pixel_index(x as int, y as int) ==> #[trigger] final(self).view()[i]
                == old(self).view()[i],
            forall|j: u8| j < 8 ==> #[trigger] byte_bit(final(self).view()[pixel_index(x as int, y as int)], j)
                == (if j == (y % 8) as u8 { on } else { byte_bit(old(self).view()[pixel_index(x as int, y as int)], j) }),
            on_screen(x as int, y as int) ==> final(self).pixel(x as int, y as int) == on,
            on_screen(x as int, y as int) ==> forall|px: int, py: int|
                on_screen(px, py) && (px != x || py != y) ==> #[trigger] final(self).pixel(px, py)
                    == old(self).pixel(px, py),
    {
        let index = x + (y / 8) * 84;
        let shift = (y % 8) as u8;
        let mask: u8 = 1u8 << shift;
        let ghost before = self.bytes@;
        let b = self.bytes[index];
        if on {
            self.bytes[index] = b | mask;
        } else {
            self.bytes[index] = b & !mask;
        }
        proof {
            assert forall|j: u8| j < 8 implies #[trigger] byte_bit(self.bytes@[index as int], j)
                == (if j == shift { on } else { byte_bit(b, j) }) by {
                lemma_bit_update(b, shift, j);
            }
            if on_screen(x as int, y as int) {
                assert forall|px: int, py: int| on_screen(px, py) && (px != x || py != y) implies
                    #[trigger] self.pixel(px, py) == pixel_of(before, px, py) by {
                    if pixel_index(px, py) == index as int {
                        assert(px == x && py / 8 == y / 8);
                        assert(py % 8 != y % 8);
                        lemma_bit_update(b, shift, (py % 8) as u8);
                    }
                }
            }
        }
    }

    /// Whether pixel (x, y) is lit.
    pub fn get_pixel(&self, x: usize, y: usize) -> (r: bool)
        requires
            x < 84,
            y < 48,
        ensures
            r == self.pixel(x as int, y as int),
    {
        let b = self.bytes[x + (y / 8) * 84];
        let shift = (y % 8) as u8;
        (b >> shift) & 1u8 == 1u8
    }

    /// The display memory, in the order the display expects it.
    pub fn as_bytes(&self) -> (r: &[u8; 504])
        ensures
            r@ == self.view(),
    {
        &self.bytes
    }
}

} // verus!
