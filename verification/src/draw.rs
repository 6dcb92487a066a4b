//! The shapes that can be drawn.

pub mod circle;
pub mod line;
pub mod polygon;
pub mod sprite;
