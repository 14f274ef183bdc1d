//! Exact two-dimensional intersection kernel on integer coordinates.
//!
//! Orientation tests, ordered segments, segment/segment intersection
//! detection and location, batch intersection finders (brute force and
//! sweep-line pruned), the state machine of the circle/polygon boundary
//! tracer, circle containment and random test data.

pub mod point;
pub mod segment;
pub mod intersections;
pub mod trace;
pub mod js_api;
pub mod circle;
pub mod random;
pub mod geometry;
