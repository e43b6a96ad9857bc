//! Glyph atlas layout and compositing.
//!
//! A collection of glyph coverage bitmaps is ordered and filtered, a grid of
//! equally sized cells is chosen for it, and every bitmap is copied into its
//! cell of one flat single-channel pixel buffer.

pub mod collection;
pub mod compositor;
pub mod errors;
pub mod export;
pub mod generation;
pub mod layout;
pub mod rasterization;
pub mod renderer;
pub mod text;
