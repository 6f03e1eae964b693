//! Terminal line-chart rendering: scaling of numeric series onto an integer
//! row grid, axis-label placement, glyph selection for line segments, and
//! serialization of the grid with run-length color escapes.

pub mod color;
pub mod grid;
pub mod options;
pub mod render;
pub mod utility;
