//! Terminal cell state: one character position's glyph, colors and optional
//! text overlay, plus the shared grapheme records the text compositor interns.

use vstd::prelude::*;
use crate::gfx::{Color, Point};

verus! {

/// One user-perceived unit of display text: its UTF-8 text, the sub-cell
/// column this record covers (0 for single width, 0 or 1 for double width),
/// its total display width in cells, and its color. Grapheme records are
/// interned in the renderer's arena and shared by the cells they cover.
#[derive(Clone, Debug)]
pub struct Grapheme {
    /// Unicode character in UTF-8; may contain several code points.
    pub text: String,
    /// Sub-cell column index within the grapheme's span.
    pub index: usize,
    /// Total display width of the grapheme, in cells.
    pub width: usize,
    pub color: Color,
}

/// Terminal cell representing a single character position.
///
/// When `grapheme` is set the cell displays text and the pixel-path fields
/// (`quadrant`, `background`, `foreground`, `codepoint`) keep whatever the
/// last pixel write left; text takes precedence for display.
#[derive(Clone, Copy, Debug)]
pub struct Cell {
    pub cursor: Point<u32>,
    /// Handle into the renderer's grapheme arena, if text covers this cell.
    pub grapheme: Option<usize>,
    /// 2x2 sub-sampled colors of the covered pixel block (CPU path only).
    pub quadrant: (Color, Color, Color, Color),
    pub background: Color,
    pub foreground: Color,
    pub codepoint: u32,
}

/// The default state of the cell at grid position `(x, y)`: no text, all
/// colors black, and a space glyph.
pub open spec fn default_cell(x: u32, y: u32) -> Cell {
    Cell {
        cursor: Point { x, y },
        grapheme: None,
        quadrant: (
            Color { r: 0u8, g: 0u8, b: 0u8 },
            Color { r: 0u8, g: 0u8, b: 0u8 },
            Color { r: 0u8, g: 0u8, b: 0u8 },
            Color { r: 0u8, g: 0u8, b: 0u8 },
        ),
        background: Color { r: 0u8, g: 0u8, b: 0u8 },
        foreground: Color { r: 0u8, g: 0u8, b: 0u8 },
        codepoint: 0x20,
    }
}

impl Cell {
    pub fn new(x: u32, y: u32) -> (c: Cell)
        ensures
            c == default_cell(x, y),
    {
        Cell {
            cursor: Point::new(x, y),
            grapheme: None,
            quadrant: (Color::black(), Color::black(), Color::black(), Color::black()),
            background: Color::black(),
            foreground: Color::black(),
            codepoint: 0x20,  // space
        }
    }
}

} // verus!
