//! Exact geometric analysis of quadratic Bézier curve segments.
//!
//! A segment is defined by three control points over an exact rational
//! scalar type, and the library provides evaluation, differentiation,
//! monotonicity analysis, subdivision, bounding computation, polyline
//! flattening and degree elevation, each with a verified contract.

pub mod rat;
pub mod geom;
pub mod quadratic_bezier;
pub mod monotonic;
pub mod flatten;
