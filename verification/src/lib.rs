//! Bitmap fonts for embedded displays, converted from the BDF format.
//!
//! The library has two halves. The font half (`geometry`, `font`, `style`)
//! describes a converted font, looks glyphs up by character and computes which
//! pixels a glyph or a string lights. The converter half (`source`, `convert`,
//! `render`, `conv`, `util`, `visitor`, `range`) turns a parsed BDF font into
//! packed glyph data and into the Rust source text that declares it; `laws`
//! holds the properties that span its steps and `text` the string helpers.

pub mod conv;
pub mod convert;
pub mod font;
pub mod geometry;
pub mod laws;
pub mod range;
pub mod render;
pub mod source;
pub mod style;
pub mod text;
pub mod util;
pub mod visitor;

pub use font::{BdfFont, BdfGlyph};
pub use geometry::{Point, Rectangle, Size, TextMetrics};
pub use style::BdfTextStyle;
