//! A slicing and contour-correction engine for additive manufacturing.
//!
//! The engine converts a triangulated surface mesh into an ordered stack of
//! layer contours and derives print metrics and geometric corrections on
//! those contours.  All geometry is carried in fixed-point integer
//! coordinates: the caller chooses the physical meaning of one unit and
//! converts to and from its own representation at the boundary.  Every
//! operation is exact integer arithmetic, so each function's contract pins
//! down its result completely.

pub mod adjust_for_shrink_and_offset;
pub mod blend_merge;
pub mod calculate_print_time;
pub mod geometry;
pub mod math;
pub mod model;
pub mod slicer;
