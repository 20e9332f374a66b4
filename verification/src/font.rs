//! Fixed-cell raster fonts for the emergency console.
//!
//! A fixed font is a run of glyph bitmaps, one per printable ASCII
//! character, each `stride` bytes long.  The glyph bitmaps themselves
//! are an embedded asset owned by the display layer; this module
//! verifies the geometry: line heights, strides, and the bounds of
//! every glyph lookup.

use vstd::prelude::*;

verus! {

/// What any font driver answers about its geometry.
pub trait FontDriver {
    /// Whether glyphs can be rendered at arbitrary heights.
    fn is_scalable(&self) -> bool;

    /// Height of the glyph cell.
    fn base_height(&self) -> i64;

    /// Vertical space a text line should get.
    fn preferred_line_height(&self) -> i64;

    /// Horizontal space taken by one character.
    fn width_of(&self, character: char) -> i64;

    /// Kerning between two characters.
    fn kern(&self, first: char, second: char) -> i64;
}

/// A monospaced raster font over an embedded glyph bitmap.
pub struct FixedFontDriver {
    width: i64,
    height: i64,
    fix_y: i64,
    line_height: i64,
    stride: usize,
    data: Vec<u8>,
}

impl FixedFontDriver {
    pub closed spec fn spec_width(self) -> int {
        self.width as int
    }

    pub closed spec fn spec_height(self) -> int {
        self.height as int
    }

    pub closed spec fn spec_line_height(self) -> int {
        self.line_height as int
    }

    pub closed spec fn spec_fix_y(self) -> int {
        self.fix_y as int
    }

    pub closed spec fn spec_stride(self) -> int {
        self.stride as int
    }

    pub closed spec fn glyph_data(self) -> Seq<u8> {
        self.data@
    }

    /// Geometry is positive and the bitmap holds all 96 printable
    /// ASCII glyphs.
    pub open spec fn wf(self) -> bool {
        &&& 0 < self.spec_width() <= 64
        &&& 0 < self.spec_height() <= 64
        &&& self.spec_line_height() == self.spec_height() * 5 / 4
        &&& self.spec_fix_y() == (self.spec_line_height() - self.spec_height()) / 2
        &&& self.spec_stride() == ((self.spec_width() + 7) / 8) * self.spec_height()
        &&& self.glyph_data().len() >= self.spec_stride() * 96
    }

    /// A driver over `width` x `height` glyph cells stored in `data`.
    pub fn new(width: usize, height: usize, data: Vec<u8>) -> (r: Self)
        requires
            0 < width <= 64,
            0 < height <= 64,
            data@.len() >= (((width + 7) / 8) * height) * 96,
        ensures
            r.wf(),
            r.spec_width() == width,
            r.spec_height() == height,
            r.glyph_data() == data@,
    {
        let w = width as i64;
        let h = height as i64;
        let line_height = h * 5 / 4;
        let fix_y = (line_height - h) / 2;
        let cell_bytes = (width + 7) / 8;
        proof {
            assert(cell_bytes * height <= 512) by (nonlinear_arith)
                requires
                    0 <= cell_bytes <= 8,
                    0 <= height <= 64,
            ;
        }
        let stride = cell_bytes * height;
        FixedFontDriver { width: w, height: h, fix_y, line_height, stride, data }
    }

    /// Width of the glyph cell.
    pub fn width(&self) -> (r: i64)
        ensures
            r == self.spec_width(),
    {
        self.width
    }

    /// Vertical space one text line takes.
    pub fn line_height(&self) -> (r: i64)
        ensures
            r == self.spec_line_height(),
    {
        self.line_height
    }

    /// Vertical offset that centers the glyph cell in its line.
    pub fn fix_y(&self) -> (r: i64)
        ensures
            r == self.spec_fix_y(),
    {
        self.fix_y
    }

    /// The raster of one printable ASCII character; control characters
    /// and anything beyond ASCII have no glyph.
    pub fn glyph_for<'a>(&'a self, character: char) -> (r: Option<&'a [u8]>)
        requires
            self.wf(),
        ensures
            ({
                let ci = character as int;
                (0x20 < ci < 0x80) <==> r is Some
            }),
            r matches Some(g) ==> g@ == self.glyph_data().subrange(
                self.spec_stride() * (character as int - 0x20),
                self.spec_stride() * (character as int - 0x20) + self.spec_stride(),
            ),
    {
        let c = character as u32;
        if c > 0x20 && c < 0x80 {
            proof {
                assert(self.spec_stride() <= 576) by (nonlinear_arith)
                    requires
                        self.spec_stride() == ((self.spec_width() + 7) / 8) * self.spec_height(),
                        0 < self.spec_width() <= 64,
                        0 < self.spec_height() <= 64,
                ;
                assert(self.spec_stride() * (c - 0x20) + self.spec_stride() <= self.spec_stride()
                    * 96) by (nonlinear_arith)
                    requires
                        0 < c - 0x20 < 96,
                        self.spec_stride() >= 0,
                ;
                assert(self.spec_stride() * (c - 0x20) <= self.spec_stride() * 96)
                    by (nonlinear_arith)
                    requires
                        0 < c - 0x20 < 96,
                        self.spec_stride() >= 0,
                ;
            }
            let base = self.stride * ((c - 0x20) as usize);
            Some(vstd::slice::slice_subrange(self.data.as_slice(), base, base + self.stride))
        } else {
            None
        }
    }
}

impl FontDriver for FixedFontDriver {
    fn is_scalable(&self) -> bool {
        false
    }

    fn base_height(&self) -> i64 {
        self.height
    }

    fn preferred_line_height(&self) -> i64 {
        self.line_height
    }

    fn width_of(&self, _character: char) -> i64 {
        self.width
    }

    fn kern(&self, _first: char, _second: char) -> i64 {
        0
    }
}

/// Hands out the fonts this kernel ships.
pub struct FontManager;

impl FontManager {
    /// The 8 x 16 system font over the embedded glyph bitmap the
    /// display layer owns.
    pub fn fixed_system_font(data: Vec<u8>) -> (r: FixedFontDriver)
        requires
            data@.len() >= 0x600,
        ensures
            r.wf(),
            r.spec_width() == 8,
            r.spec_height() == 16,
    {
        FixedFontDriver::new(8, 16, data)
    }

    /// The font the emergency console prefers: the system font.
    pub fn preferred_console_font(data: Vec<u8>) -> (r: FixedFontDriver)
        requires
            data@.len() >= 0x600,
        ensures
            r.wf(),
            r.spec_width() == 8,
            r.spec_height() == 16,
    {
        Self::fixed_system_font(data)
    }
}

} // verus!
