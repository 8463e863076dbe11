use vstd::prelude::*;

verus! {

/// A bitmap font for the ASCII range. Each glyph is a list of pixel columns;
/// bit `r` of a column is row `r` of the glyph, row 0 on top.
pub struct Font {
    char_width: u8,
    char_height: u8,
    char_spacing: u8,
    line_spacing: u8,
    first_index: usize,
    glyphs: Vec<Vec<u8>>,
}

impl Font {
    /// Width of a glyph cell in pixels.
    pub closed spec fn spec_char_width(self) -> u8 {
        self.char_width
    }

    /// Height of a glyph in pixels (at most 8: one bit per row of a column byte).
    pub closed spec fn spec_char_height(self) -> u8 {
        self.char_height
    }

    /// Blank columns between two glyphs.
    pub closed spec fn spec_char_spacing(self) -> u8 {
        self.char_spacing
    }

    /// Blank rows between two lines of text.
    pub closed spec fn spec_line_spacing(self) -> u8 {
        self.line_spacing
    }

    /// The character code of the first glyph.
    pub closed spec fn spec_first_index(self) -> usize {
        self.first_index
    }

    /// The glyphs, each a sequence of column bytes; glyph `i` is character `first_index + i`.
    pub closed spec fn spec_glyphs(self) -> Seq<Seq<u8>> {
        self.glyphs@.map_values(|g: Vec<u8>| g@)
    }

    /// A glyph's rows fit in a column byte, and a glyph has at most 65535 columns.
    #[verifier::type_invariant]
    spec fn inv(self) -> bool {
        &&& self.char_height <= 8
        &&& forall|i: int| 0 <= i < self.glyphs@.len() ==> #[trigger] self.glyphs@[i]@.len() <= 0xFFFF
    }

    /// A glyph's rows fit in a column byte, and a glyph has at most 65535 columns.
    pub open spec fn wf(self) -> bool {
        &&& self.spec_char_height() <= 8
        &&& forall|i: int| 0 <= i < self.spec_glyphs().len() ==> #[trigger] self.spec_glyphs()[i].len() <= 0xFFFF
    }

    /// A font from its metrics and glyph table.
    pub fn new(
        char_width: u8,
        char_height: u8,
        char_spacing: u8,
        line_spacing: u8,
        first_index: usize,
        glyphs: Vec<Vec<u8>>,
    ) -> (r: Self)
        requires
            char_height <= 8,
            forall|i: int| 0 <= i < glyphs@.len() ==> #[trigger] glyphs@[i]@.len() <= 0xFFFF,
        ensures
            r.wf(),
            r.spec_char_width() == char_width,
            r.spec_char_height() == char_height,
            r.spec_char_spacing() == char_spacing,
            r.spec_line_spacing() == line_spacing,
            r.spec_first_index() == first_index,
            r.spec_glyphs() == glyphs@.map_values(|g: Vec<u8>| g@),
    {
        Font { char_width, char_height, char_spacing, line_spacing, first_index, glyphs }
    }

    /// Every font meets `wf`.
    pub fn check_wf(&self)
        ensures
            self.wf(),
    {
        proof {
            use_type_invariant(self);
        }
    }

    pub fn char_width(&self) -> (r: u8)
        ensures
            r == self.spec_char_width(),
    {
        self.char_width
    }

    pub fn char_height(&self) -> (r: u8)
        ensures
            r == self.spec_char_height(),
    {
        self.char_height
    }

    pub fn char_spacing(&self) -> (r: u8)
        ensures
            r == self.spec_char_spacing(),
    {
        self.char_spacing
    }

    pub fn line_spacing(&self) -> (r: u8)
        ensures
            r == self.spec_line_spacing(),
    {
        self.line_spacing
    }

    pub fn first_index(&self) -> (r: usize)
        ensures
            r == self.spec_first_index(),
    {
        self.first_index
    }

    /// The glyph at position `i` of the table, if there is one.
    pub fn glyph(&self, i: usize) -> (r: Option<&Vec<u8>>)
        ensures
            i < self.spec_glyphs().len() ==> r is Some && r->0@ == self.spec_glyphs()[i as int],
            i >= self.spec_glyphs().len() ==> r is None,
    {
        if i < self.glyphs.len() {
            Some(&self.glyphs[i])
        } else {
            None
        }
    }
}

} // verus!
