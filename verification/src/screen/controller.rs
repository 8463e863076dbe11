use vstd::prelude::*;

use crate::screen::commands::address_commands;
use crate::screen::font::Font;
use crate::screen::framebuffer::{lemma_pixels_determine_bytes, on_screen, pixel_of, Framebuffer};

verus! {

/// The display as the drawing code sees it: the in-memory framebuffer that is
/// flushed to the LCD as a whole, the backlight state and the text font.
pub struct ScreenController {
    framebuffer: Framebuffer,
    backlight_enabled: bool,
    font: Font,
}

/// `after` differs from `before` only in the pixels that `covers` selects, which are
/// now `on`; the backlight and the font are unchanged.
pub open spec fn painted(
    before: ScreenController,
    after: ScreenController,
    covers: spec_fn(int, int) -> bool,
    on: bool,
) -> bool {
    &&& after.spec_backlight() == before.spec_backlight()
    &&& after.spec_font() == before.spec_font()
    &&& forall|x: int, y: int|
        on_screen(x, y) ==> #[trigger] after.pixel(x, y) == (if covers(x, y) {
            on
        } else {
            before.pixel(x, y)
        })
}

/// Painting is transitive: two successive paints with the same value compose
/// into one over the union of what they cover.
pub proof fn lemma_painted_trans(
    a: ScreenController,
    b: ScreenController,
    c: ScreenController,
    f: spec_fn(int, int) -> bool,
    g: spec_fn(int, int) -> bool,
    h: spec_fn(int, int) -> bool,
    on: bool,
)
    requires
        painted(a, b, f, on),
        painted(b, c, g, on),
        forall|x: int, y: int| on_screen(x, y) ==> (#[trigger] h(x, y) == (f(x, y) || g(x, y))),
    ensures
        painted(a, c, h, on),
{
    assert forall|x: int, y: int| on_screen(x, y) implies #[trigger] c.pixel(x, y) == (if h(x, y) {
        on
    } else {
        a.pixel(x, y)
    }) by {
        assert(b.pixel(x, y) == (if f(x, y) { on } else { a.pixel(x, y) }));
    }
}

/// Painting is insensitive to how its cover is written.
pub proof fn lemma_painted_ext(
    a: ScreenController,
    b: ScreenController,
    f: spec_fn(int, int) -> bool,
    g: spec_fn(int, int) -> bool,
    on: bool,
)
    requires
        painted(a, b, f, on),
        forall|x: int, y: int| on_screen(x, y) ==> (#[trigger] g(x, y) == f(x, y)),
    ensures
        painted(a, b, g, on),
{
    assert forall|x: int, y: int| on_screen(x, y) implies #[trigger] b.pixel(x, y) == (if g(x, y) {
        on
    } else {
        a.pixel(x, y)
    }) by {
        assert(g(x, y) == f(x, y));
    }
}

/// Painting a set of pixels on and then off again leaves exactly those pixels off
/// and every other pixel as it was; and the other way round.
pub proof fn lemma_painted_overwrite(
    a: ScreenController,
    b: ScreenController,
    c: ScreenController,
    f: spec_fn(int, int) -> bool,
    first: bool,
    second: bool,
)
    requires
        painted(a, b, f, first),
        painted(b, c, f, second),
    ensures
        painted(a, c, f, second),
{
    assert forall|x: int, y: int| on_screen(x, y) implies #[trigger] c.pixel(x, y) == (if f(x, y) {
        second
    } else {
        a.pixel(x, y)
    }) by {
        assert(b.pixel(x, y) == (if f(x, y) { first } else { a.pixel(x, y) }));
    }
}

/// Toggling the backlight twice gives back the state it started from.
pub proof fn lemma_backlight_toggle_twice(a: ScreenController, b: ScreenController, c: ScreenController)
    requires
        b.spec_backlight() == !a.spec_backlight(),
        c.spec_backlight() == !b.spec_backlight(),
    ensures
        c.spec_backlight() == a.spec_backlight(),
{
}

/// Painting nothing leaves the pixels as they were.
pub proof fn lemma_painted_refl(a: ScreenController, f: spec_fn(int, int) -> bool, on: bool)
    requires
        forall|x: int, y: int| on_screen(x, y) ==> !#[trigger] f(x, y),
    ensures
        painted(a, a, f, on),
{
}

impl ScreenController {
    /// The pixels are laid out in the 504 bytes sent to the LCD as banks of 8 rows:
    /// pixel (x, y) is bit `y % 8` of byte `x + (y / 8) * 84`; and the bytes are
    /// determined by the pixels.
    pub proof fn lemma_pixel_layout(self, other: ScreenController)
        ensures
            self.spec_bytes().len() == 504,
            forall|x: int, y: int| on_screen(x, y) ==> #[trigger] self.pixel(x, y) == pixel_of(self.spec_bytes(), x, y),
            (forall|x: int, y: int| on_screen(x, y) ==> #[trigger] self.pixel(x, y) == other.pixel(x, y)) ==> self.spec_bytes()
                == other.spec_bytes(),
    {
        self.framebuffer.lemma_view_len();
        other.framebuffer.lemma_view_len();
        if forall|x: int, y: int| on_screen(x, y) ==> #[trigger] self.pixel(x, y) == other.pixel(x, y) {
            assert forall|x: int, y: int| on_screen(x, y) implies #[trigger] pixel_of(self.spec_bytes(), x, y) == pixel_of(
                other.spec_bytes(),
                x,
                y,
            ) by {
                assert(self.pixel(x, y) == other.pixel(x, y));
            }
            lemma_pixels_determine_bytes(self.spec_bytes(), other.spec_bytes());
        }
    }

    /// Whether pixel (x, y) is lit in the framebuffer.
    pub closed spec fn pixel(self, x: int, y: int) -> bool {
        self.framebuffer.pixel(x, y)
    }

    /// The framebuffer bytes, in the order they are sent to the LCD.
    pub closed spec fn spec_bytes(self) -> Seq<u8> {
        self.framebuffer.view()
    }

    pub closed spec fn spec_backlight(self) -> bool {
        self.backlight_enabled
    }

    pub closed spec fn spec_font(self) -> Font {
        self.font
    }

    /// A blank display with the backlight off, drawing text with `font`.
    pub fn new(font: Font) -> (r: Self)
        ensures
            !r.spec_backlight(),
            r.spec_font() == font,
            forall|x: int, y: int| on_screen(x, y) ==> !#[trigger] r.pixel(x, y),
    {
        ScreenController { framebuffer: Framebuffer::new(), backlight_enabled: false, font }
    }

    /// The text font.
    pub fn font(&self) -> (r: &Font)
        ensures
            *r == self.spec_font(),
    {
        &self.font
    }

    /// Switches every pixel of the framebuffer off.
    pub fn clear(&mut self)
        ensures
            painted(*old(self), *final(self), |x: int, y: int| true, false),
            forall|i: int| 0 <= i < 504 ==> #[trigger] final(self).spec_bytes()[i] == 0,
    {
        self.framebuffer.clear();
    }

    /// The instructions that precede a flush: the address of column 0, bank 0.
    /// The whole framebuffer follows them as data.
    pub fn flush_commands(&self) -> (r: [u8; 2])
        ensures
            r@ == seq![0x80u8, 0x40u8],
    {
        let r = address_commands(0, 0);
        proof {
            assert((0x80u8 | 0u8) == 0x80u8 && (0x40u8 | 0u8) == 0x40u8) by (bit_vector);
        }
        r
    }

    /// The framebuffer bytes, sent to the LCD as data by a flush.
    pub fn framebuffer_bytes(&self) -> (r: &[u8; 504])
        ensures
            r@ == self.spec_bytes(),
    {
        self.framebuffer.as_bytes()
    }

    /// Whether pixel (x, y) is lit; pixels off the display never are.
    pub fn get_pixel(&self, x: i16, y: i16) -> (r: bool)
        ensures
            r == (on_screen(x as int, y as int) && self.pixel(x as int, y as int)),
    {
        if x < 0 || y < 0 || x >= 84 || y >= 48 {
            return false;
        }
        self.framebuffer.get_pixel(x as usize, y as usize)
    }

    /// Whether the backlight is on.
    pub fn backlight(&self) -> (r: bool)
        ensures
            r == self.spec_backlight(),
    {
        self.backlight_enabled
    }

    /// Switches the backlight over and returns its new state, which the caller
    /// drives onto the backlight pin.
    pub fn toggle_backlight(&mut self) -> (r: bool)
        ensures
            r == final(self).spec_backlight(),
            final(self).spec_backlight() == !old(self).spec_backlight(),
            final(self).spec_font() == old(self).spec_font(),
            final(self).spec_bytes() == old(self).spec_bytes(),
            forall|x: int, y: int| #[trigger] final(self).pixel(x, y) == old(self).pixel(x, y),
    {
        self.backlight_enabled = !self.backlight_enabled;
        self.backlight_enabled
    }

    /// Sets pixel (x, y) to `!inverse` when it lies on the display, and says whether it did.
    pub fn draw_px(&mut self, x: i16, y: i16, inverse: bool) -> (r: bool)
        ensures
            r == on_screen(x as int, y as int),
            painted(*old(self), *final(self), |px: int, py: int| px == x && py == y, !inverse),
    {
        if x < 0 || y < 0 || x >= 84 || y >= 48 {
            return false;
        }
        self.framebuffer.set_pixel(x as usize, y as usize, !inverse);
        true
    }

    /// `draw_px` on coordinates of any size: pixels off the display are ignored.
    pub fn plot(&mut self, x: i64, y: i64, inverse: bool)
        ensures
            painted(*old(self), *final(self), |px: int, py: int| px == x && py == y, !inverse),
    {
        if x < 0 || y < 0 || x >= 84 || y >= 48 {
            return;
        }
        self.framebuffer.set_pixel(x as usize, y as usize, !inverse);
    }
}

} // verus!
