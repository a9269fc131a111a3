//! A text console for linear, memory-mapped video framebuffers.
//!
//! Two surfaces are supported: a character-cell grid ([`cell`]) and a pixel
//! buffer onto which glyph bitmaps are rendered ([`pixel`]). Both share the
//! inline formatting language of [`escape`] and the color model of [`color`];
//! the glyphs come from [`font`]. Every executable function carries a
//! contract over a mathematical model of the console, and the modules whose
//! names end in `_laws` prove what holds across calls.

pub mod cell;
pub mod cell_laws;
pub mod color;
pub mod color_laws;
pub mod escape;
pub mod escape_laws;
pub mod font;
pub mod pixel;
pub mod pixel_laws;
pub mod pixel_page_laws;
pub mod sink;
pub mod text;
