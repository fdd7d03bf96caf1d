//! Exact intersections of line segments and of closed polygon outlines.
//!
//! Coordinates are integers on a grid whose unit the caller chooses. Every
//! intersection point is reported exactly, as a pair of fractions with a
//! shared positive denominator, so no tolerance other than "the segments are
//! parallel" enters any decision.

pub mod segment;
pub mod polygon;

pub use polygon::{find_all_intersections, PolygonError, ScanError};
pub use segment::{find_intersection, Crossing, Point, Ratio};
