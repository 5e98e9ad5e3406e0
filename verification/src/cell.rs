//! The atomic display unit: one character together with its colors and
//! text attributes, as held in a screen grid cell.

use vstd::prelude::*;

verus! {

/// Text attributes as a bit set over {bold, dim, italic, underline,
/// reverse, strikethrough}.
#[derive(Debug, Clone, Copy, PartialEq, Eq, Structural)]
pub struct Attrs(pub u8);

/// Bit for the bold attribute.
pub const ATTR_BOLD: u8 = 1;
/// Bit for the dim attribute.
pub const ATTR_DIM: u8 = 2;
/// Bit for the italic attribute.
pub const ATTR_ITALIC: u8 = 4;
/// Bit for the underline attribute.
pub const ATTR_UNDERLINE: u8 = 8;
/// Bit for the reverse-video attribute.
pub const ATTR_REVERSE: u8 = 16;
/// Bit for the strikethrough attribute.
pub const ATTR_STRIKETHROUGH: u8 = 32;

impl Attrs {
    /// Whether any of the bits in `attr` is set.
    pub fn has(&self, attr: u8) -> (r: bool)
        ensures
            r == ((self.0 & attr) != 0),
    {
        self.0 & attr != 0
    }

    /// Set the bits in `attr`.
    pub fn set(&mut self, attr: u8)
        ensures
            final(self).0 == (old(self).0 | attr),
    {
        self.0 = self.0 | attr;
    }

    /// Clear the bits in `attr`.
    pub fn clear(&mut self, attr: u8)
        ensures
            final(self).0 == (old(self).0 & !attr),
    {
        self.0 = self.0 & !attr;
    }

    /// Clear every attribute.
    pub fn reset(&mut self)
        ensures
            final(self).0 == 0,
    {
        self.0 = 0;
    }
}

impl Default for Attrs {
    /// The empty attribute set.
    fn default() -> (r: Self)
        ensures
            r.0 == 0,
    {
        Attrs(0)
    }
}

/// A terminal color: one of the 16 named ANSI colors, an entry of the
/// 256-color palette, or a 24-bit RGB triple.
#[derive(Debug, Clone, Copy, PartialEq, Eq, Structural)]
pub enum Color {
    /// Named ANSI color, index 0 to 15 (8 normal + 8 bright).
    Named(u8),
    /// Extended 256-color palette index.
    Indexed(u8),
    /// 24-bit truecolor value.
    Rgb(u8, u8, u8),
}

/// A cell in the screen grid. A value type with structural equality,
/// which the compositor relies on for diffing.
#[derive(Debug, Clone, Copy, PartialEq, Eq, Structural)]
pub struct Cell {
    /// The character shown in the cell.
    pub ch: char,
    /// Foreground color; `None` inherits the terminal default.
    pub fg: Option<Color>,
    /// Background color; `None` inherits the terminal default.
    pub bg: Option<Color>,
    /// Text attributes of the cell.
    pub attrs: Attrs,
}

impl Cell {
    /// The cell every grid position starts as: a plain space.
    pub open spec fn default_spec() -> Cell {
        Cell { ch: ' ', fg: None, bg: None, attrs: Attrs(0) }
    }
}

impl Default for Cell {
    /// A blank cell: a space with no colors and no attributes.
    fn default() -> (r: Self)
        ensures
            r == Cell::default_spec(),
    {
        Cell { ch: ' ', fg: None, bg: None, attrs: Attrs(0) }
    }
}

/// The style applied to the next printed character: foreground,
/// background and attribute state as set by SGR sequences.
#[derive(Debug, Clone, Copy, PartialEq, Eq, Structural)]
pub struct Style {
    /// Current foreground color, `None` for the terminal default.
    pub fg: Option<Color>,
    /// Current background color, `None` for the terminal default.
    pub bg: Option<Color>,
    /// Current attribute set.
    pub attrs: Attrs,
}

impl Style {
    /// The default style: no colors, no attributes.
    pub open spec fn default_spec() -> Style {
        Style { fg: None, bg: None, attrs: Attrs(0) }
    }
}

impl Default for Style {
    /// The default style: no colors, no attributes.
    fn default() -> (r: Self)
        ensures
            r == Style::default_spec(),
    {
        Style { fg: None, bg: None, attrs: Attrs(0) }
    }
}

} // verus!
