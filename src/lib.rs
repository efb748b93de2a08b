//! Content-loading pipeline, glyph compositing and selection animation of a
//! scrollable grid of media tiles.

pub mod util;
pub mod glyph;
pub mod queue;
pub mod worker;
pub mod display;
pub mod catalog;
