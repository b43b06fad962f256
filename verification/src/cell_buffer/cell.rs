use vstd::prelude::*;

use crate::geom::Pos;

verus! {

/// A color by its red, green and blue parts.
#[derive(Debug, Clone, Copy, PartialEq, Eq, Structural, Default)]
pub struct ColorRGB {
    pub red: u8,
    pub green: u8,
    pub blue: u8,
}

/// A color as an index into the terminal's palette.
pub type ColorPalette = usize;

/// The attributes of a cell of a program's screen.
#[derive(Debug, Clone, Copy, PartialEq, Eq, Structural, Default)]
pub struct ScreenCellAttr {
    pub bold: bool,
    pub underline: u8,
    pub italic: bool,
    pub blink: bool,
    pub reverse: bool,
    pub strike: bool,
    pub font: u8,
    pub dwl: bool,
    pub dhl: u8,
}

/// A cell of a program's screen as the terminal emulator reports it.
#[derive(Debug, Clone)]
pub struct ScreenCell {
    /// The bytes for the glyph in the cell
    pub chars: Vec<u8>,
    pub width: u8,
    pub attrs: ScreenCellAttr,
    /// foreground color in rgb
    pub fg_rgb: ColorRGB,
    /// background color in rgb
    pub bg_rgb: ColorRGB,
    /// foreground color as a palette index
    pub fg_palette: ColorPalette,
    /// background color as a palette index
    pub bg_palette: ColorPalette,
}

/// A cell of the client's screen.
#[derive(Debug, Clone)]
pub struct Cell {
    pub bg_palette: ColorPalette,
    pub bg_rgb: ColorRGB,
    pub blink: bool,
    pub bold: bool,
    pub chars: Vec<u8>,
    /// On a DECDHL line (1=top 2=bottom)
    pub dhl: u8,
    pub dirty: bool,
    /// On a DECDWL or DECDHL line
    pub dwl: bool,
    pub fg_palette: ColorPalette,
    pub fg_rgb: ColorRGB,
    /// 0 to 9
    pub font: u8,
    pub italic: bool,
    pub pos: Pos,
    pub reverse: bool,
    pub strike: bool,
    /// 0 to 3
    pub underline: u8,
    pub width: u8,
}

/// The background a blank cell has.
pub open spec fn blank_bg() -> ColorRGB {
    ColorRGB { red: 5, green: 5, blue: 5 }
}

/// The foreground a blank cell has.
pub open spec fn blank_fg() -> ColorRGB {
    ColorRGB { red: 230, green: 230, blue: 230 }
}

impl Cell {
    /// A cell is blank at `pos`: no glyph, no attributes, the default colors. `dirty` is left open.
    pub open spec fn is_blank(&self, pos: Pos) -> bool {
        &&& self.bg_palette == 0
        &&& self.bg_rgb == blank_bg()
        &&& !self.blink
        &&& !self.bold
        &&& self.chars@ == Seq::<u8>::empty()
        &&& self.dhl == 0
        &&& !self.dwl
        &&& self.fg_palette == 7
        &&& self.fg_rgb == blank_fg()
        &&& self.font == 0
        &&& !self.italic
        &&& self.pos == pos
        &&& !self.reverse
        &&& !self.strike
        &&& self.underline == 0
        &&& self.width == 0
    }

    pub fn new(pos: Pos) -> (r: Cell)
        ensures
            r.is_blank(pos),
            !r.dirty,
    {
        Cell {
            bg_palette: 0,
            bg_rgb: ColorRGB { red: 5, green: 5, blue: 5 },
            blink: false,
            bold: false,
            chars: Vec::new(),
            dhl: 0,
            dirty: false,
            dwl: false,
            fg_palette: 7,
            fg_rgb: ColorRGB { red: 230, green: 230, blue: 230 },
            font: 0,
            italic: false,
            pos: pos,
            reverse: false,
            strike: false,
            underline: 0,
            width: 0,
        }
    }

    /// Takes glyph, colors and attributes from the emulator's cell; the position stays.
    pub fn update_from_vterm_cell(&mut self, vterm_cell: &ScreenCell)
        ensures
            final(self).bg_palette == vterm_cell.bg_palette,
            final(self).bg_rgb == vterm_cell.bg_rgb,
            final(self).blink == vterm_cell.attrs.blink,
            final(self).bold == vterm_cell.attrs.bold,
            final(self).chars@ == vterm_cell.chars@,
            final(self).dhl == vterm_cell.attrs.dhl,
            final(self).dwl == vterm_cell.attrs.dwl,
            final(self).fg_palette == vterm_cell.fg_palette,
            final(self).fg_rgb == vterm_cell.fg_rgb,
            final(self).font == vterm_cell.attrs.font,
            final(self).italic == vterm_cell.attrs.italic,
            final(self).reverse == vterm_cell.attrs.reverse,
            final(self).strike == vterm_cell.attrs.strike,
            final(self).underline == vterm_cell.attrs.underline,
            final(self).width == vterm_cell.width,
            final(self).pos == old(self).pos,
            final(self).dirty == old(self).dirty,
    {
        self.bg_palette = vterm_cell.bg_palette;
        self.bg_rgb = vterm_cell.bg_rgb;
        self.blink = vterm_cell.attrs.blink;
        self.bold = vterm_cell.attrs.bold;
        self.chars = vterm_cell.chars.clone();
        self.dhl = vterm_cell.attrs.dhl;
        self.dwl = vterm_cell.attrs.dwl;
        self.fg_palette = vterm_cell.fg_palette;
        self.fg_rgb = vterm_cell.fg_rgb;
        self.font = vterm_cell.attrs.font;
        self.italic = vterm_cell.attrs.italic;
        self.reverse = vterm_cell.attrs.reverse;
        self.strike = vterm_cell.attrs.strike;
        self.underline = vterm_cell.attrs.underline;
        self.width = vterm_cell.width;
    }

    /// Blanks the cell where it is and marks it dirty.
    pub fn clear(&mut self)
        ensures
            final(self).is_blank(old(self).pos),
            final(self).dirty,
    {
        self.bg_palette = 0;
        self.bg_rgb = ColorRGB { red: 5, green: 5, blue: 5 };
        self.blink = false;
        self.bold = false;
        self.chars.clear();
        self.dhl = 0;
        self.dirty = true;
        self.dwl = false;
        self.fg_palette = 7;
        self.fg_rgb = ColorRGB { red: 230, green: 230, blue: 230 };
        self.font = 0;
        self.italic = false;
        self.reverse = false;
        self.strike = false;
        self.underline = 0;
        self.width = 0;
    }
}

} // verus!
