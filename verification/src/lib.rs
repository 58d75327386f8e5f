//! A boundary tracer for 2-D integer point clouds.
//!
//! Given a finite set of integer-coordinate points, the tracer walks an
//! ordered, closed, non-self-intersecting outline that hugs the cloud's
//! perimeter: candidate edges are capped at a maximum length, the next
//! vertex is the admissible neighbour with the sharpest turning angle, and
//! a proposed edge that would cross an already-committed outline edge is
//! rejected.  All geometric predicates are exact integer arithmetic.

pub mod geometry;
pub mod angle;
pub mod intersect;
pub mod prepare;
pub mod tracer;
pub mod pivot;
