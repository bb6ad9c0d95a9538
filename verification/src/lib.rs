//! Stroke geometry on a fixed-point canvas: bounding-box algebra, input
//! samples, the five stroke kinds behind one contract, and the composition
//! of their vector output into renderable documents.
//!
//! Every length and coordinate is an integer count of thousandths of a
//! canvas unit (see [`geometry::UNIT`]).

pub mod color;
pub mod compose;
pub mod geometry;
pub mod render;
pub mod strokes;
pub mod text;
