//! Emergency debugging console.
//!
//! A character-cell cursor over the main screen: it wraps at the
//! right edge, scrolls at the bottom, and understands backspace,
//! carriage return and newline.  The cursor arithmetic is verified
//! here; the pixel pushing it commands — scrolling the framebuffer
//! and rasterizing glyphs — is the display layer's.

use crate::font::FixedFontDriver;
use vstd::prelude::*;

verus! {

/// What one character tells the display layer to do.
pub struct DrawAction {
    /// The screen contents must scroll up one text line first.
    pub scrolled: bool,
    /// A glyph to draw, with the character cell it lands in.
    pub glyph: Option<(char, usize, usize)>,
}

/// The emergency console state: a cursor and its colors.
pub struct EmConsole {
    x: usize,
    y: usize,
    fg_color: u32,
    bg_color: u32,
    font: FixedFontDriver,
}

impl EmConsole {
    /// Default text color: light gray.
    pub const DEFAULT_FG_COLOR: u32 = 0x07;

    /// Default background: black.
    pub const DEFAULT_BG_COLOR: u32 = 0x0000_0000;

    /// Pixels kept free around the text area.
    pub const PADDING: i64 = 8;

    pub closed spec fn spec_x(self) -> usize {
        self.x
    }

    pub closed spec fn spec_y(self) -> usize {
        self.y
    }

    pub closed spec fn spec_font(self) -> FixedFontDriver {
        self.font
    }

    pub closed spec fn spec_fg_color(self) -> u32 {
        self.fg_color
    }

    pub closed spec fn spec_bg_color(self) -> u32 {
        self.bg_color
    }

    /// The color glyphs are drawn in.
    pub fn fg_color(&self) -> (r: u32)
        ensures
            r == self.spec_fg_color(),
    {
        self.fg_color
    }

    /// The color cells are cleared to.
    pub fn bg_color(&self) -> (r: u32)
        ensures
            r == self.spec_bg_color(),
    {
        self.bg_color
    }

    pub fn new(font: FixedFontDriver) -> (r: Self)
        ensures
            r.spec_x() == 0,
            r.spec_y() == 0,
            r.spec_font() == font,
            r.spec_fg_color() == 0x07,
            r.spec_bg_color() == 0,
    {
        EmConsole {
            x: 0,
            y: 0,
            fg_color: Self::DEFAULT_FG_COLOR,
            bg_color: Self::DEFAULT_BG_COLOR,
            font,
        }
    }

    /// Text columns and rows that fit on a screen of the given pixel
    /// size, with the padding taken off.
    pub fn dims(&self, screen_w: i64, screen_h: i64) -> (r: (i64, i64))
        requires
            self.spec_font().wf(),
            16 <= screen_w <= 0x1_0000,
            16 <= screen_h <= 0x1_0000,
        ensures
            r.0 == (screen_w - 16) / self.spec_font().spec_width(),
            r.1 == (screen_h - 16) / self.spec_font().spec_line_height(),
    {
        let cols = (screen_w - Self::PADDING * 2) / self.font.width();
        let rows = (screen_h - Self::PADDING * 2) / self.font.line_height();
        (cols, rows)
    }

    /// Feeds one character to the console: the cursor wraps off the
    /// right edge, the bottom row scrolls rather than falling off the
    /// screen, backspace steps left, carriage return and newline move
    /// the line start, and anything else becomes a glyph cell and
    /// advances the cursor.
    pub fn write_char(&mut self, c: char, cols: usize, rows: usize) -> (r: DrawAction)
        requires
            1 <= cols,
            1 <= rows < usize::MAX,
            old(self).spec_x() <= cols,
            old(self).spec_y() <= rows,
        ensures
            final(self).spec_font() == old(self).spec_font(),
            final(self).spec_x() <= cols,
            final(self).spec_y() <= rows,
            ({
                // wrap, then scroll, then act on the character
                let x0 = if old(self).spec_x() >= cols {
                    0
                } else {
                    old(self).spec_x()
                };
                let y1 = if old(self).spec_x() >= cols {
                    old(self).spec_y() + 1
                } else {
                    old(self).spec_y() as int
                };
                let scrolled = y1 >= rows;
                let y0 = if scrolled {
                    rows - 1
                } else {
                    y1
                };
                &&& r.scrolled == scrolled
                &&& if c == '\u{8}' {
                    &&& r.glyph is None
                    &&& final(self).spec_x() == (if x0 > 0 {
                        x0 - 1
                    } else {
                        0
                    })
                    &&& final(self).spec_y() == y0
                } else if c == '\r' {
                    &&& r.glyph is None
                    &&& final(self).spec_x() == 0
                    &&& final(self).spec_y() == y0
                } else if c == '\n' {
                    &&& r.glyph is None
                    &&& final(self).spec_x() == 0
                    &&& final(self).spec_y() == y0 + 1
                } else {
                    &&& r.glyph == Some((c, x0 as usize, y0 as usize))
                    &&& final(self).spec_x() == x0 + 1
                    &&& final(self).spec_y() == y0
                }
            }),
    {
        if self.x >= cols {
            self.x = 0;
            self.y = self.y + 1;
        }
        let scrolled = if self.y >= rows {
            self.y = rows - 1;
            true
        } else {
            false
        };
        match c {
            '\u{8}' => {
                if self.x > 0 {
                    self.x = self.x - 1;
                }
                DrawAction { scrolled, glyph: None }
            },
            '\r' => {
                self.x = 0;
                DrawAction { scrolled, glyph: None }
            },
            '\n' => {
                self.x = 0;
                self.y = self.y + 1;
                DrawAction { scrolled, glyph: None }
            },
            _ => {
                let gx = self.x;
                let gy = self.y;
                self.x = self.x + 1;
                DrawAction { scrolled, glyph: Some((c, gx, gy)) }
            },
        }
    }
}

} // verus!
