//! The ways in which one metric of one polling cycle can fail.

use vstd::prelude::*;

verus! {

/// Why a metric could not be sampled.
#[derive(Clone, Copy, Debug, PartialEq, Eq, Structural)]
pub enum SampleError {
    /// The file could not be read, or the probe could not be run.
    SourceUnavailable,
    /// The captured bytes are not well-formed UTF-8.
    EncodingError,
    /// A token was asked for at a position that the text does not have.
    FieldMissing,
    /// The label that a value is found by does not occur in the text.
    LabelNotFound,
    /// The token is there but does not denote a number that fits.
    ParseError,
}

} // verus!
