//! Renders numeral-encoding expression trees as Cistercian-style glyph
//! drawings: an expression tree is mapped to a drawing-shape tree, and the
//! shape tree is flattened into an ordered, time-weighted list of strokes
//! for animated handwriting playback.
//!
//! All layout arithmetic is exact: coordinates are rational numbers, and
//! points on circles are kept symbolically (center, radii, slice index),
//! so a downstream renderer evaluates the trigonometry.

pub mod builder;
pub mod flatten;
pub mod laws;
pub mod rat;
pub mod shape;

pub use builder::Expr;
pub use builder::Op;
pub use shape::Draw;
pub use shape::Pt;
pub use shape::Settings;
pub use shape::Stroke;
pub use rat::Rat;
