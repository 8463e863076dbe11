use vstd::prelude::*;

use crate::screen::controller::{lemma_painted_ext, lemma_painted_refl, lemma_painted_trans, painted, ScreenController};
use crate::screen::font::Font;
use crate::screen::framebuffer::{byte_bit, on_screen};
use crate::screen::shapes::{round_rect_covers, u16_as_i16};

verus! {

/// Whether the glyph of `c` drawn with its top-left corner at (ax, ay) covers (px, py):
/// `c` is ASCII, has a glyph in the font, and the glyph's column `px - ax` has bit
/// `py - ay` set, for a row within the font's height.
pub open spec fn glyph_covers(font: Font, ax: int, ay: int, c: char, px: int, py: int) -> bool {
    let code = c as int;
    let idx = code - font.spec_first_index();
    let col = px - ax;
    let row = py - ay;
    &&& code < 128
    &&& 0 <= idx < font.spec_glyphs().len()
    &&& 0 <= col < font.spec_glyphs()[idx].len()
    &&& 0 <= row < font.spec_char_height()
    &&& byte_bit(font.spec_glyphs()[idx][col], row as u8)
}

/// The glyphs that `draw_text` places for the characters `s`, continuing from
/// (x, y) for text anchored at column `ax`: each glyph with the position of its
/// top-left corner. A newline, or with `soft_wrap` a glyph that would cross the right
/// edge, moves to the start of the next line; drawing stops below the display.
pub open spec fn text_placements(font: Font, ax: int, x: int, y: int, s: Seq<char>, soft_wrap: bool) -> Seq<(int, int, char)>
    decreases s.len(),
{
    if s.len() == 0 || y >= 48 {
        Seq::empty()
    } else {
        let ch = s[0];
        let wrap = (soft_wrap && x + font.spec_char_width() > 84) || ch == '\n';
        let x1 = if wrap { ax } else { x };
        let y1 = if wrap { y + font.spec_char_height() + font.spec_line_spacing() } else { y };
        if ch == '\n' {
            text_placements(font, ax, x1, y1, s.drop_first(), soft_wrap)
        } else {
            seq![(x1, y1, ch)] + text_placements(
                font,
                ax,
                x1 + font.spec_char_width() + font.spec_char_spacing(),
                y1,
                s.drop_first(),
                soft_wrap,
            )
        }
    }
}

/// Whether one of the placed glyphs covers (px, py).
pub open spec fn placements_cover(font: Font, p: Seq<(int, int, char)>, px: int, py: int) -> bool {
    exists|k: int| 0 <= k < p.len() && #[trigger] glyph_covers(font, p[k].0, p[k].1, p[k].2, px, py)
}

/// The width of the box that `draw_filled_text` draws around `len` characters.
pub open spec fn filled_text_width(font: Font, len: nat) -> u16 {
    ((len % 65536) * (font.spec_char_width() + font.spec_char_spacing()) + 9) as u16
}

proof fn lemma_placements_push(font: Font, p: Seq<(int, int, char)>, q: (int, int, char), px: int, py: int)
    ensures
        placements_cover(font, p.push(q), px, py) == (placements_cover(font, p, px, py) || glyph_covers(
            font,
            q.0,
            q.1,
            q.2,
            px,
            py,
        )),
{
    let r = p.push(q);
    if placements_cover(font, r, px, py) {
        let k = choose|k: int| 0 <= k < r.len() && #[trigger] glyph_covers(font, r[k].0, r[k].1, r[k].2, px, py);
        if k < p.len() {
            assert(p[k] == r[k]);
        }
    }
    if placements_cover(font, p, px, py) {
        let k = choose|k: int| 0 <= k < p.len() && #[trigger] glyph_covers(font, p[k].0, p[k].1, p[k].2, px, py);
        assert(r[k] == p[k]);
    }
    if glyph_covers(font, q.0, q.1, q.2, px, py) {
        assert(r[p.len() as int] == q);
    }
}

/// The glyph placements of the characters `s` written by a `ScreenFmtWriter` from
/// the cursor (x, y) with lines starting at column `ax`, and where the cursor ends.
pub open spec fn fmt_placements(font: Font, ax: int, x: int, y: int, s: Seq<char>, soft_wrap: bool) -> (Seq<(int, int, char)>, int, int)
    decreases s.len(),
{
    if s.len() == 0 {
        (Seq::empty(), x, y)
    } else {
        let ch = s[0];
        let line = font.spec_char_height() + font.spec_line_spacing();
        if ch == '\n' {
            fmt_placements(font, ax, ax, y + line, s.drop_first(), soft_wrap)
        } else {
            let nx = x + font.spec_char_width() + font.spec_char_spacing();
            let wrap = soft_wrap && nx + font.spec_char_width() >= 84;
            let r = fmt_placements(font, ax, if wrap { ax } else { nx }, if wrap { y + line } else { y }, s.drop_first(), soft_wrap);
            (seq![(x, y, ch)] + r.0, r.1, r.2)
        }
    }
}

proof fn lemma_fmt_placements_bounds(font: Font, ax: int, x: int, y: int, s: Seq<char>, soft_wrap: bool)
    ensures
        ({
            let r = fmt_placements(font, ax, x, y, s, soft_wrap);
            &&& y <= r.2 <= y + s.len() * 510
            &&& (x <= r.1 <= x + s.len() * 510 || ax <= r.1 <= ax + s.len() * 510)
        }),
    decreases s.len(),
{
    if s.len() > 0 {
        let line = font.spec_char_height() + font.spec_line_spacing();
        let nx = x + font.spec_char_width() + font.spec_char_spacing();
        let wrap = soft_wrap && nx + font.spec_char_width() >= 84;
        if s[0] == '\n' {
            lemma_fmt_placements_bounds(font, ax, ax, y + line, s.drop_first(), soft_wrap);
        } else {
            lemma_fmt_placements_bounds(font, ax, if wrap { ax } else { nx }, if wrap { y + line } else { y }, s.drop_first(), soft_wrap);
        }
    }
}

/// The vertical distance between two lines of text in `font`.
pub open spec fn line_height(font: Font) -> int {
    font.spec_char_height() + font.spec_line_spacing()
}

proof fn lemma_placements_concat(font: Font, p: Seq<(int, int, char)>, q: Seq<(int, int, char)>, px: int, py: int)
    ensures
        placements_cover(font, p + q, px, py) == (placements_cover(font, p, px, py) || placements_cover(font, q, px, py)),
{
    let r = p + q;
    if placements_cover(font, r, px, py) {
        let k = choose|k: int| 0 <= k < r.len() && #[trigger] glyph_covers(font, r[k].0, r[k].1, r[k].2, px, py);
        if k < p.len() {
            assert(p[k] == r[k]);
        } else {
            assert(q[k - p.len()] == r[k]);
        }
    }
    if placements_cover(font, p, px, py) {
        let k = choose|k: int| 0 <= k < p.len() && #[trigger] glyph_covers(font, p[k].0, p[k].1, p[k].2, px, py);
        assert(r[k] == p[k]);
    }
    if placements_cover(font, q, px, py) {
        let k = choose|k: int| 0 <= k < q.len() && #[trigger] glyph_covers(font, q[k].0, q[k].1, q[k].2, px, py);
        assert(r[k + p.len()] == q[k]);
    }
}

proof fn lemma_text_newline_trace(font: Font, ax: int, x: int, y: int, s1: Seq<char>, s2: Seq<char>)
    requires
        forall|i: int| 0 <= i < s1.len() ==> s1[i] != '\n',
    ensures
        text_placements(font, ax, x, y, s1 + seq!['\n'] + s2, false) == text_placements(font, ax, x, y, s1, false)
            + text_placements(font, ax, ax, y + line_height(font), s2, false),
    decreases s1.len(),
{
    let s = s1 + seq!['\n'] + s2;
    if y >= 48 {
        assert(text_placements(font, ax, x, y, s1, false) =~= Seq::<(int, int, char)>::empty());
    } else if s1.len() == 0 {
        assert(s.drop_first() =~= s2);
        assert(text_placements(font, ax, x, y, s1, false) =~= Seq::<(int, int, char)>::empty());
        assert(Seq::<(int, int, char)>::empty() + text_placements(font, ax, ax, y + line_height(font), s2, false)
            =~= text_placements(font, ax, ax, y + line_height(font), s2, false));
    } else {
        let nx = x + font.spec_char_width() + font.spec_char_spacing();
        assert(s[0] == s1[0]);
        assert(s.drop_first() =~= s1.drop_first() + seq!['\n'] + s2);
        lemma_text_newline_trace(font, ax, nx, y, s1.drop_first(), s2);
        let a = text_placements(font, ax, nx, y, s1.drop_first(), false);
        let b = text_placements(font, ax, ax, y + line_height(font), s2, false);
        assert(seq![(x, y, s1[0])] + (a + b) =~= (seq![(x, y, s1[0])] + a) + b);
    }
}

/// Text split at a newline: without soft wrap, drawing `s1`, a newline and `s2` from
/// (ax, ay) leaves the display exactly as drawing `s1` from (ax, ay) and then `s2`
/// one line lower from (ax, ay + line height), for `s1` without a newline. Here `b`
/// is the display after the first way, `c` and `d` after the two steps of the second,
/// all from `a`, as `draw_text` states them.
pub proof fn lemma_draw_text_newline_split(
    a: ScreenController,
    b: ScreenController,
    c: ScreenController,
    d: ScreenController,
    ax: int,
    ay: int,
    s1: Seq<char>,
    s2: Seq<char>,
    inverse: bool,
)
    requires
        forall|i: int| 0 <= i < s1.len() ==> s1[i] != '\n',
        painted(
            a,
            b,
            |px: int, py: int| placements_cover(a.spec_font(), text_placements(a.spec_font(), ax, ax, ay, s1 + seq!['\n'] + s2, false), px, py),
            !inverse,
        ),
        painted(
            a,
            c,
            |px: int, py: int| placements_cover(a.spec_font(), text_placements(a.spec_font(), ax, ax, ay, s1, false), px, py),
            !inverse,
        ),
        painted(
            c,
            d,
            |px: int, py: int|
                placements_cover(
                    c.spec_font(),
                    text_placements(c.spec_font(), ax, ax, ay + line_height(c.spec_font()), s2, false),
                    px,
                    py,
                ),
            !inverse,
        ),
    ensures
        forall|px: int, py: int| on_screen(px, py) ==> #[trigger] b.pixel(px, py) == d.pixel(px, py),
        b.spec_bytes() == d.spec_bytes(),
        b.spec_backlight() == d.spec_backlight(),
        b.spec_font() == d.spec_font(),
{
    let font = a.spec_font();
    let p1 = text_placements(font, ax, ax, ay, s1, false);
    let p2 = text_placements(font, ax, ax, ay + line_height(font), s2, false);
    lemma_text_newline_trace(font, ax, ax, ay, s1, s2);
    assert forall|px: int, py: int| on_screen(px, py) implies
        #[trigger] placements_cover(font, text_placements(font, ax, ax, ay, s1 + seq!['\n'] + s2, false), px, py)
        == (placements_cover(font, p1, px, py) || placements_cover(font, p2, px, py)) by {
        lemma_placements_concat(font, p1, p2, px, py);
    }
    lemma_painted_trans(
        a,
        c,
        d,
        |px: int, py: int| placements_cover(font, p1, px, py),
        |px: int, py: int| placements_cover(font, p2, px, py),
        |px: int, py: int| placements_cover(font, text_placements(font, ax, ax, ay, s1 + seq!['\n'] + s2, false), px, py),
        !inverse,
    );
    assert forall|px: int, py: int| on_screen(px, py) implies #[trigger] b.pixel(px, py) == d.pixel(px, py) by {}
    b.lemma_pixel_layout(d);
}

proof fn lemma_fmt_rows_from(font: Font, ax: int, x: int, y: int, s: Seq<char>)
    ensures
        forall|k: int| 0 <= k < fmt_placements(font, ax, x, y, s, false).0.len() ==> #[trigger] fmt_placements(font, ax, x, y, s, false).0[k].1 >= y,
    decreases s.len(),
{
    if s.len() > 0 {
        if s[0] == '\n' {
            lemma_fmt_rows_from(font, ax, ax, y + line_height(font), s.drop_first());
            assert(fmt_placements(font, ax, x, y, s, false) == fmt_placements(font, ax, ax, y + line_height(font), s.drop_first(), false));
        } else {
            let nx = x + font.spec_char_width() + font.spec_char_spacing();
            lemma_fmt_rows_from(font, ax, nx, y, s.drop_first());
            let r = fmt_placements(font, ax, nx, y, s.drop_first(), false).0;
            assert(fmt_placements(font, ax, x, y, s, false).0 == seq![(x, y, s[0])] + r);
            assert forall|k: int| 0 <= k < (seq![(x, y, s[0])] + r).len() implies #[trigger] (seq![(x, y, s[0])] + r)[k].1 >= y by {
                if k > 0 {
                    assert((seq![(x, y, s[0])] + r)[k] == r[k - 1]);
                }
            }
        }
    }
}

proof fn lemma_fmt_text_trace(font: Font, ax: int, x: int, y: int, s: Seq<char>)
    ensures
        exists|rest: Seq<(int, int, char)>| {
            &&& fmt_placements(font, ax, x, y, s, false).0 == text_placements(font, ax, x, y, s, false) + rest
            &&& forall|k: int| 0 <= k < rest.len() ==> #[trigger] rest[k].1 >= 48
        },
    decreases s.len(),
{
    let f = fmt_placements(font, ax, x, y, s, false).0;
    let t = text_placements(font, ax, x, y, s, false);
    if s.len() == 0 {
        assert(f == t + Seq::<(int, int, char)>::empty());
    } else if y >= 48 {
        lemma_fmt_rows_from(font, ax, x, y, s);
        assert(f =~= t + f);
    } else if s[0] == '\n' {
        lemma_fmt_text_trace(font, ax, ax, y + line_height(font), s.drop_first());
    } else {
        let nx = x + font.spec_char_width() + font.spec_char_spacing();
        lemma_fmt_text_trace(font, ax, nx, y, s.drop_first());
        let rest = choose|rest: Seq<(int, int, char)>| {
            &&& fmt_placements(font, ax, nx, y, s.drop_first(), false).0 == text_placements(font, ax, nx, y, s.drop_first(), false) + rest
            &&& forall|k: int| 0 <= k < rest.len() ==> #[trigger] rest[k].1 >= 48
        };
        let head = seq![(x, y, s[0])];
        assert(head + (text_placements(font, ax, nx, y, s.drop_first(), false) + rest) =~= (head + text_placements(
            font,
            ax,
            nx,
            y,
            s.drop_first(),
            false,
        )) + rest);
    }
}

/// The text writer draws what `draw_text` draws: without soft wrap, a fresh writer at
/// (ax, ay) writing `s` lights the same pixels of the display as `draw_text` of `s`
/// from (ax, ay). Here `b` is the display after the writer's `write_str` and `c`
/// after `draw_text`, both from `a`, as the two functions state them.
pub proof fn lemma_writer_draws_as_draw_text(
    a: ScreenController,
    b: ScreenController,
    c: ScreenController,
    ax: int,
    ay: int,
    s: Seq<char>,
    inverse: bool,
)
    requires
        painted(
            a,
            b,
            |px: int, py: int| placements_cover(a.spec_font(), fmt_placements(a.spec_font(), ax, ax, ay, s, false).0, px, py),
            !inverse,
        ),
        painted(
            a,
            c,
            |px: int, py: int| placements_cover(a.spec_font(), text_placements(a.spec_font(), ax, ax, ay, s, false), px, py),
            !inverse,
        ),
    ensures
        forall|px: int, py: int| on_screen(px, py) ==> #[trigger] b.pixel(px, py) == c.pixel(px, py),
        b.spec_bytes() == c.spec_bytes(),
        b.spec_backlight() == c.spec_backlight(),
        b.spec_font() == c.spec_font(),
{
    let font = a.spec_font();
    lemma_fmt_text_trace(font, ax, ax, ay, s);
    let t = text_placements(font, ax, ax, ay, s, false);
    let rest = choose|rest: Seq<(int, int, char)>| {
        &&& fmt_placements(font, ax, ax, ay, s, false).0 == t + rest
        &&& forall|k: int| 0 <= k < rest.len() ==> #[trigger] rest[k].1 >= 48
    };
    assert forall|px: int, py: int| on_screen(px, py) implies #[trigger] b.pixel(px, py) == c.pixel(px, py) by {
        lemma_placements_concat(font, t, rest, px, py);
        if placements_cover(font, rest, px, py) {
            let k = choose|k: int| 0 <= k < rest.len() && #[trigger] glyph_covers(font, rest[k].0, rest[k].1, rest[k].2, px, py);
            assert(rest[k].1 >= 48);
        }
    }
    b.lemma_pixel_layout(c);
}

/// Writes text onto the display from a cursor that moves glyph by glyph and line by
/// line; successive writes continue where the previous one stopped.
pub struct ScreenFmtWriter {
    cursor: (i64, i64),
    line_start_x: i64,
    soft_wrap: bool,
    inverse: bool,
}

impl ScreenFmtWriter {
    pub closed spec fn spec_cursor(self) -> (int, int) {
        (self.cursor.0 as int, self.cursor.1 as int)
    }

    pub closed spec fn spec_line_start(self) -> int {
        self.line_start_x as int
    }

    pub closed spec fn spec_soft_wrap(self) -> bool {
        self.soft_wrap
    }

    pub closed spec fn spec_inverse(self) -> bool {
        self.inverse
    }

    /// A writer whose cursor and lines start at `anchor`.
    pub fn new(anchor: (i16, i16), soft_wrap: bool, inverse: bool) -> (r: Self)
        ensures
            r.spec_cursor() == (anchor.0 as int, anchor.1 as int),
            r.spec_line_start() == anchor.0 as int,
            r.spec_soft_wrap() == soft_wrap,
            r.spec_inverse() == inverse,
    {
        ScreenFmtWriter {
            cursor: (anchor.0 as i64, anchor.1 as i64),
            line_start_x: anchor.0 as i64,
            soft_wrap,
            inverse,
        }
    }

    /// Where the next glyph goes.
    pub fn cursor(&self) -> (r: (i64, i64))
        ensures
            (r.0 as int, r.1 as int) == self.spec_cursor(),
    {
        self.cursor
    }

    /// Writes `s` onto `screen`: a newline moves the cursor to the start of the next
    /// line; any other character draws its glyph at the cursor and moves it one glyph
    /// cell right, and with soft wrap to the next line once another glyph would reach
    /// the right edge. The glyphs' set bits become `!inverse`.
    pub fn write_str(&mut self, screen: &mut ScreenController, s: &str)
        requires
            s@.len() <= 0xFFFF_FFFF,
            -0x1_0000_0000_0000 <= old(self).spec_cursor().0 <= 0x1_0000_0000_0000,
            -0x1_0000_0000_0000 <= old(self).spec_cursor().1 <= 0x1_0000_0000_0000,
            -0x8000 <= old(self).spec_line_start() <= 0x8000,
        ensures
            ({
                let r = fmt_placements(
                    old(screen).spec_font(),
                    old(self).spec_line_start(),
                    old(self).spec_cursor().0,
                    old(self).spec_cursor().1,
                    s@,
                    old(self).spec_soft_wrap(),
                );
                &&& painted(
                    *old(screen),
                    *final(screen),
                    |px: int, py: int| placements_cover(old(screen).spec_font(), r.0, px, py),
                    !old(self).spec_inverse(),
                )
                &&& final(self).spec_cursor() == (r.1, r.2)
            }),
            final(self).spec_line_start() == old(self).spec_line_start(),
            final(self).spec_soft_wrap() == old(self).spec_soft_wrap(),
            final(self).spec_inverse() == old(self).spec_inverse(),
    {
        let ghost s0 = *screen;
        let ghost font = screen.spec_font();
        let ghost ax = self.line_start_x as int;
        let ghost all = fmt_placements(font, ax, self.cursor.0 as int, self.cursor.1 as int, s@, self.soft_wrap);
        let width = screen.font().char_width() as i64;
        let char_width = width + screen.font().char_spacing() as i64;
        let line_height = screen.font().char_height() as i64 + screen.font().line_spacing() as i64;
        let n = s.unicode_len();
        let mut i: usize = 0;
        let ghost mut placed: Seq<(int, int, char)> = Seq::empty();
        let ghost c0 = self.cursor;
        proof {
            lemma_painted_refl(*screen, |px: int, py: int| placements_cover(font, placed, px, py), !self.inverse);
            assert(s@.skip(0) =~= s@);
        }
        while i < n
            invariant
                screen.spec_font() == font,
                n == s@.len(),
                n <= 0xFFFF_FFFF,
                0 <= i <= n,
                width == font.spec_char_width(),
                char_width == font.spec_char_width() + font.spec_char_spacing(),
                line_height == font.spec_char_height() + font.spec_line_spacing(),
                ax == self.line_start_x,
                -0x8000 <= ax <= 0x8000,
                self.soft_wrap == old(self).soft_wrap,
                self.inverse == old(self).inverse,
                self.line_start_x == old(self).line_start_x,
                -0x1_0000_0000_0000 <= c0.0 <= 0x1_0000_0000_0000,
                -0x1_0000_0000_0000 <= c0.1 <= 0x1_0000_0000_0000,
                (c0.0 <= self.cursor.0 <= c0.0 + i * 510) || (ax <= self.cursor.0 <= ax + i * 510),
                c0.1 <= self.cursor.1 <= c0.1 + i * 510,
                ({
                    let r = fmt_placements(font, ax, self.cursor.0 as int, self.cursor.1 as int, s@.skip(i as int), self.soft_wrap);
                    all == (placed + r.0, r.1, r.2)
                }),
                painted(s0, *screen, |px: int, py: int| placements_cover(font, placed, px, py), !self.inverse),
            decreases n - i,
        {
            let ch = s.get_char(i);
            proof {
                assert(s@.skip(i as int)[0] == ch);
                assert(s@.skip(i as int).drop_first() =~= s@.skip(i + 1));
            }
            if ch == '\n' {
                self.cursor.0 = self.line_start_x;
                self.cursor.1 = self.cursor.1 + line_height;
            } else {
                let ghost before = *screen;
                let x = self.cursor.0;
                let y = self.cursor.1;
                screen.draw_char_at(x, y, ch, self.inverse);
                proof {
                    let p2 = placed.push((x as int, y as int, ch));
                    assert forall|px: int, py: int| on_screen(px, py) implies #[trigger] placements_cover(font, p2, px, py)
                        == (placements_cover(font, placed, px, py) || glyph_covers(font, x as int, y as int, ch, px, py)) by {
                        lemma_placements_push(font, placed, (x as int, y as int, ch), px, py);
                    }
                    lemma_painted_trans(
                        s0,
                        before,
                        *screen,
                        |px: int, py: int| placements_cover(font, placed, px, py),
                        |px: int, py: int| glyph_covers(font, x as int, y as int, ch, px, py),
                        |px: int, py: int| placements_cover(font, p2, px, py),
                        !self.inverse,
                    );
                    placed = p2;
                }
                self.cursor.0 = self.cursor.0 + char_width;
                if self.soft_wrap && self.cursor.0 + width >= 84 {
                    self.cursor.0 = self.line_start_x;
                    self.cursor.1 = self.cursor.1 + line_height;
                }
            }
            i = i + 1;
        }
        proof {
            assert(s@.skip(i as int) =~= Seq::<char>::empty());
            assert(placed + Seq::<(int, int, char)>::empty() =~= placed);
        }
    }
}

impl ScreenController {
    /// Draws the glyph of `c` with its top-left corner at `anchor`: the glyph's set
    /// bits become `!inverse`. Characters outside ASCII or without a glyph draw nothing.
    pub fn draw_char(&mut self, anchor: (i16, i16), c: char, inverse: bool)
        ensures
            painted(
                *old(self),
                *final(self),
                |px: int, py: int| glyph_covers(old(self).spec_font(), anchor.0 as int, anchor.1 as int, c, px, py),
                !inverse,
            ),
    {
        self.draw_char_at(anchor.0 as i64, anchor.1 as i64, c, inverse);
    }

    /// Draws `text` from `anchor`, glyph after glyph, as `text_placements` places them;
    /// the glyphs' set bits become `!inverse`.
    pub fn draw_text(&mut self, anchor: (i16, i16), text: &str, soft_wrap: bool, inverse: bool)
        requires
            text@.len() <= 0xFFFF_FFFF,
        ensures
            painted(
                *old(self),
                *final(self),
                |px: int, py: int|
                    placements_cover(
                        old(self).spec_font(),
                        text_placements(old(self).spec_font(), anchor.0 as int, anchor.0 as int, anchor.1 as int, text@, soft_wrap),
                        px,
                        py,
                    ),
                !inverse,
            ),
    {
        let ghost s0 = *self;
        let ghost font = self.spec_font();
        let ghost all = text_placements(font, anchor.0 as int, anchor.0 as int, anchor.1 as int, text@, soft_wrap);
        let width = self.font().char_width() as i64;
        let char_width = width + self.font().char_spacing() as i64;
        let line_height = self.font().char_height() as i64 + self.font().line_spacing() as i64;
        let ax = anchor.0 as i64;
        let mut x = anchor.0 as i64;
        let mut y = anchor.1 as i64;
        let n = text.unicode_len();
        let mut i: usize = 0;
        let ghost mut placed: Seq<(int, int, char)> = Seq::empty();
        proof {
            lemma_painted_refl(*self, |px: int, py: int| placements_cover(font, placed, px, py), !inverse);
            assert(text@.skip(0) =~= text@);
        }
        while i < n
            invariant_except_break
                self.spec_font() == font,
                n == text@.len(),
                n <= 0xFFFF_FFFF,
                0 <= i <= n,
                width == font.spec_char_width(),
                char_width == font.spec_char_width() + font.spec_char_spacing(),
                line_height == font.spec_char_height() + font.spec_line_spacing(),
                ax == anchor.0,
                -0x8000 <= x <= 0x8000 + i * 510,
                -0x8000 <= y <= 0x8000 + 510,
                all == placed + text_placements(font, ax as int, x as int, y as int, text@.skip(i as int), soft_wrap),
                all == text_placements(font, anchor.0 as int, anchor.0 as int, anchor.1 as int, text@, soft_wrap),
                i == n ==> all == placed,
                painted(s0, *self, |px: int, py: int| placements_cover(font, placed, px, py), !inverse),
            ensures
                painted(s0, *self, |px: int, py: int| placements_cover(font, all, px, py), !inverse),
            decreases n - i,
        {
            if y >= 48 {
                proof {
                    assert(all =~= placed);
                }
                break;
            }
            let ch = text.get_char(i);
            proof {
                assert(text@.skip(i as int)[0] == ch);
                assert(text@.skip(i as int).drop_first() =~= text@.skip(i + 1));
            }
            if (soft_wrap && x + width > 84) || ch == '\n' {
                x = ax;
                y = y + line_height;
            }
            if ch != '\n' {
                let ghost before = *self;
                self.draw_char_at(x, y, ch, inverse);
                proof {
                    let p2 = placed.push((x as int, y as int, ch));
                    assert forall|px: int, py: int| on_screen(px, py) implies #[trigger] placements_cover(font, p2, px, py)
                        == (placements_cover(font, placed, px, py) || glyph_covers(font, x as int, y as int, ch, px, py)) by {
                        lemma_placements_push(font, placed, (x as int, y as int, ch), px, py);
                    }
                    lemma_painted_trans(
                        s0,
                        before,
                        *self,
                        |px: int, py: int| placements_cover(font, placed, px, py),
                        |px: int, py: int| glyph_covers(font, x as int, y as int, ch, px, py),
                        |px: int, py: int| placements_cover(font, p2, px, py),
                        !inverse,
                    );
                    assert(all == p2 + text_placements(font, ax as int, x + char_width, y as int, text@.skip(i + 1), soft_wrap));
                    placed = p2;
                }
                x = x + char_width;
            }
            i = i + 1;
            proof {
                if i == n {
                    assert(text@.skip(i as int) =~= Seq::<char>::empty());
                    assert(text_placements(font, ax as int, x as int, y as int, text@.skip(i as int), soft_wrap) =~= Seq::empty());
                    assert(all =~= placed);
                }
            }
        }
    }

    /// Draws `text` in inverse video inside a filled rounded box: the box is as wide as
    /// the text (each glyph cell plus spacing) plus 9 pixels, 15 pixels high, with
    /// corner radius 3, and the text starts 5 pixels right of and 4 below `anchor`.
    pub fn draw_filled_text(&mut self, anchor: (i16, i16), text: &str)
        requires
            text@.len() <= 0xFFFF_FFFF,
            (text@.len() % 65536) * (old(self).spec_font().spec_char_width() + old(self).spec_font().spec_char_spacing()) + 9 <= 65535,
            anchor.0 + 5 <= 32767,
            anchor.1 + 4 <= 32767,
        ensures
            final(self).spec_font() == old(self).spec_font(),
            final(self).spec_backlight() == old(self).spec_backlight(),
            forall|px: int, py: int| on_screen(px, py) ==> #[trigger] final(self).pixel(px, py) == (
                if placements_cover(
                    old(self).spec_font(),
                    text_placements(old(self).spec_font(), anchor.0 + 5, anchor.0 + 5, anchor.1 + 4, text@, false),
                    px,
                    py,
                ) {
                    false
                } else if round_rect_covers(
                    anchor.0 as int,
                    anchor.1 as int,
                    anchor.0 + u16_as_i16(filled_text_width(old(self).spec_font(), text@.len())) - 1,
                    anchor.1 + 14,
                    3,
                    true,
                    px,
                    py,
                ) {
                    true
                } else {
                    old(self).pixel(px, py)
                }),
    {
        let ghost s0 = *self;
        let ghost font = self.spec_font();
        let count = (text.unicode_len() % 65536) as u16;
        let cell = self.font().char_width() as u16 + self.font().char_spacing() as u16;
        proof {
            assert(count * cell <= 65535 - 9);
            assert(0 <= count * cell) by (nonlinear_arith)
                requires
                    count >= 0,
                    cell >= 0,
            ;
        }
        let width: u16 = count * cell + 9;
        self.draw_round_rect(anchor, width, 15, 3, true);
        let ghost s1 = *self;
        self.draw_text((anchor.0 + 5, anchor.1 + 4), text, false, true);
    }

    /// `draw_char` at a position of any size up to 2^50 away from 0.
    pub fn draw_char_at(&mut self, ax: i64, ay: i64, c: char, inverse: bool)
        requires
            -0x4_0000_0000_0000 <= ax <= 0x4_0000_0000_0000,
            -0x4_0000_0000_0000 <= ay <= 0x4_0000_0000_0000,
        ensures
            painted(
                *old(self),
                *final(self),
                |px: int, py: int| glyph_covers(old(self).spec_font(), ax as int, ay as int, c, px, py),
                !inverse,
            ),
    {
        let ghost s0 = *self;
        let ghost font = self.spec_font();
        let ghost target = |px: int, py: int| glyph_covers(font, ax as int, ay as int, c, px, py);
        let code = c as u32;
        if code >= 128 {
            proof {
                lemma_painted_refl(*self, target, !inverse);
            }
            return;
        }
        let ascii = code as usize;
        let first = self.font().first_index();
        if ascii < first {
            proof {
                lemma_painted_refl(*self, target, !inverse);
            }
            return;
        }
        let height = self.font().char_height();
        let glyph: Vec<u8> = match self.font().glyph(ascii - first) {
            Some(g) => g.clone(),
            None => {
                proof {
                    lemma_painted_refl(*self, target, !inverse);
                }
                return;
            },
        };
        let ghost idx = ascii - first;
        self.font().check_wf();
        proof {
            assert(glyph@ == font.spec_glyphs()[idx as int]);
        }
        let mut col_i: usize = 0;
        let ghost so_far = |px: int, py: int| target(px, py) && px - ax < col_i;
        proof {
            lemma_painted_refl(*self, so_far, !inverse);
        }
        while col_i < glyph.len()
            invariant
                self.spec_font() == font,
                font.wf(),
                height == font.spec_char_height(),
                glyph@ == font.spec_glyphs()[idx as int],
                idx == code - font.spec_first_index(),
                0 <= idx < font.spec_glyphs().len(),
                code == c as int,
                code < 128,
                -0x4_0000_0000_0000 <= ax <= 0x4_0000_0000_0000,
                -0x4_0000_0000_0000 <= ay <= 0x4_0000_0000_0000,
                col_i <= glyph.len(),
                glyph.len() <= 0xFFFF,
                so_far == (|px: int, py: int| target(px, py) && px - ax < col_i),
                target == (|px: int, py: int| glyph_covers(font, ax as int, ay as int, c, px, py)),
                painted(s0, *self, so_far, !inverse),
            decreases glyph.len() - col_i,
        {
            let column = glyph[col_i];
            let mut row_i: u8 = 0;
            let ghost so_far2 = |px: int, py: int| so_far(px, py) || (px - ax == col_i && target(px, py) && py - ay < row_i);
            proof {
                lemma_painted_ext(s0, *self, so_far, so_far2, !inverse);
            }
            while row_i < height
                invariant
                    self.spec_font() == font,
                    font.wf(),
                    height == font.spec_char_height(),
                    height <= 8,
                    glyph@ == font.spec_glyphs()[idx as int],
                    idx == code - font.spec_first_index(),
                    0 <= idx < font.spec_glyphs().len(),
                    code == c as int,
                    code < 128,
                    -0x4_0000_0000_0000 <= ax <= 0x4_0000_0000_0000,
                    -0x4_0000_0000_0000 <= ay <= 0x4_0000_0000_0000,
                    col_i < glyph.len(),
                    glyph.len() <= 0xFFFF,
                    column == glyph@[col_i as int],
                    row_i <= height,
                    so_far == (|px: int, py: int| target(px, py) && px - ax < col_i),
                    so_far2 == (|px: int, py: int| so_far(px, py) || (px - ax == col_i && target(px, py) && py - ay < row_i)),
                    target == (|px: int, py: int| glyph_covers(font, ax as int, ay as int, c, px, py)),
                    painted(s0, *self, so_far2, !inverse),
                decreases height - row_i,
            {
                let bit = column & (1u8 << row_i);
                proof {
                    assert((bit == 0) == !byte_bit(column, row_i)) by (bit_vector)
                        requires
                            bit == column & (1u8 << row_i),
                            row_i < 8,
                    ;
                }
                let ghost before = *self;
                if bit != 0 {
                    let px0 = ax + col_i as i64;
                    let py0 = ay + row_i as i64;
                    self.plot(px0, py0, inverse);
                    proof {
                        let next = |px: int, py: int| so_far(px, py) || (px - ax == col_i && target(px, py) && py - ay < row_i + 1);
                        lemma_painted_trans(
                            s0,
                            before,
                            *self,
                            so_far2,
                            |px: int, py: int| px == px0 && py == py0,
                            next,
                            !inverse,
                        );
                        so_far2 = next;
                    }
                } else {
                    proof {
                        let next = |px: int, py: int| so_far(px, py) || (px - ax == col_i && target(px, py) && py - ay < row_i + 1);
                        lemma_painted_ext(s0, *self, so_far2, next, !inverse);
                        so_far2 = next;
                    }
                }
                row_i = row_i + 1;
            }
            proof {
                let next = |px: int, py: int| target(px, py) && px - ax < col_i + 1;
                lemma_painted_ext(s0, *self, so_far2, next, !inverse);
                so_far = next;
            }
            col_i = col_i + 1;
        }
        proof {
            lemma_painted_ext(s0, *self, so_far, target, !inverse);
        }
    }
}

} // verus!
