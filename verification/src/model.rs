//! The data model shared by the slicing engine and the contour corrections:
//! fixed-point points, the error taxonomy, and views of nested point stacks.

use vstd::prelude::*;

verus! {

/// Largest coordinate magnitude the contour corrections accept.  The bound
/// exists only so that squares and scaled products of coordinates fit in the
/// 128-bit intermediates the arithmetic uses; it is far beyond any physical
/// build volume.
pub const MAX_COORD: i64 = 1_000_000_000_000_000_000;

/// A point of a layer contour, in fixed-point integer coordinates.
#[derive(Clone, Copy, Debug, PartialEq, Eq, Structural)]
pub struct RawPoint {
    pub x: i64,
    pub y: i64,
    pub z: i64,
}

impl RawPoint {
    pub open spec fn in_range(self) -> bool {
        -MAX_COORD <= self.x <= MAX_COORD && -MAX_COORD <= self.y <= MAX_COORD
            && -MAX_COORD <= self.z <= MAX_COORD
    }
}

/// Every point of every layer lies within the coordinate bound.
pub open spec fn stack_in_range(rows: Seq<Seq<RawPoint>>) -> bool {
    forall|i: int, j: int|
        0 <= i < rows.len() && 0 <= j < rows[i].len() ==> (#[trigger] rows[i][j]).in_range()
}

/// The mathematical view of a stack of layers: a sequence of sequences of
/// points, outer index ordered by height, inner index by angular sample.
pub open spec fn rows(m: Seq<Vec<RawPoint>>) -> Seq<Seq<RawPoint>> {
    m.map_values(|layer: Vec<RawPoint>| layer@)
}

/// How an engine operation can fail.  Structural violations of the input
/// contract and missing configuration are surfaced to the caller; the engine
/// never panics on any input.
#[derive(Clone, Copy, Debug, PartialEq, Eq, Structural)]
pub enum SliceError {
    /// The flat vertex stream's length is not a multiple of nine.
    MalformedVertexStream,
    /// The center point does not consist of exactly three coordinates.
    InvalidCenter,
    /// The vertical-axis selector is not one of the recognized axes.
    InvalidAxis,
    /// A supplied configuration value is outside its documented range.
    InvalidConfiguration,
    /// A configuration provider could not deliver its value.
    ProviderFailure,
}

} // verus!
