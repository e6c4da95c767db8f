//! The faults that the decoders report.

use vstd::prelude::*;

verus! {

/// Why an asset could not be decoded. Every variant is fatal for the asset at
/// hand: no decoder retries or hands out a partial result.
#[derive(Clone, Copy, Debug, PartialEq, Eq, Structural)]
pub enum DecodeError {
    /// The magic version constant at the head of a mesh block is not the
    /// supported one.
    FormatVersionMismatch,
    /// A length or a structural invariant of the input does not hold.
    IntegrityMismatch,
    /// The input ends before the data that the layout calls for.
    TruncatedStream,
    /// The input uses a layout that is not supported, such as an
    /// uncompressed terrain.
    UnsupportedLayout,
    /// A polygon declares a corner count other than 3 or 4.
    InvalidPolygonArity,
}

impl DecodeError {
    /// The text that describes the fault.
    pub open spec fn text(&self) -> Seq<char> {
        match self {
            DecodeError::FormatVersionMismatch => "unsupported format version"@,
            DecodeError::IntegrityMismatch => "input fails an integrity check"@,
            DecodeError::TruncatedStream => "input ends too early"@,
            DecodeError::UnsupportedLayout => "unsupported layout"@,
            DecodeError::InvalidPolygonArity => "polygon must have 3 or 4 corners"@,
        }
    }

    /// A short description of the fault.
    pub fn message(&self) -> (s: &'static str)
        ensures
            s@ == self.text(),
    {
        match self {
            DecodeError::FormatVersionMismatch => "unsupported format version",
            DecodeError::IntegrityMismatch => "input fails an integrity check",
            DecodeError::TruncatedStream => "input ends too early",
            DecodeError::UnsupportedLayout => "unsupported layout",
            DecodeError::InvalidPolygonArity => "polygon must have 3 or 4 corners",
        }
    }
}

} // verus!
