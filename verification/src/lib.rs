//! Terminal cell renderer: converts a BGRA pixel framebuffer into a grid of
//! character cells (glyph + foreground + background), overlays Unicode text,
//! and diffs successive frames so that only changed cells are repainted.

pub mod accel;
pub mod cell;
pub mod gfx;
pub mod quant;
pub mod renderer;
pub mod unicode;

pub use accel::{AccelAction, AccelState, CopySpan, FttyUnicodePixel};
pub use cell::{Cell, Grapheme};
pub use gfx::{Color, Point, Rect, Size};
pub use renderer::Renderer;
