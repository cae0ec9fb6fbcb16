//! Pixel compositing and text rendering for a minimal graphical login prompt.
//!
//! The crate draws onto a flat store of 4-byte pixels through bounds-checked
//! rectangular viewports, blends colours by integer opacity, keeps a cache of
//! rasterised glyphs per font size, and offers a few shape primitives.

pub mod color;
pub mod buffer;
pub mod draw;
pub mod text;
pub mod parse;
pub mod graphics;
pub mod error;
pub mod manager;
pub mod theme;
