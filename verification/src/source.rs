//! What was captured from a source, before any of it is read as a number.

use crate::error::SampleError;
use vstd::prelude::*;
use vstd::utf8::valid_utf8;

verus! {

/// Whether `bytes` are well-formed UTF-8.
///
/// Calls `core::str::from_utf8` and keeps only whether it succeeded. The
/// contract claims that it succeeds exactly on the byte strings that are
/// well-formed UTF-8, which is what its documentation says.
#[verifier::external_body]
fn is_utf8(bytes: &[u8]) -> (well_formed: bool)
    ensures
        well_formed == valid_utf8(bytes@),
{
    core::str::from_utf8(bytes).is_ok()
}

/// The text of a capture: the bytes themselves where there was a capture
/// and it is well-formed UTF-8.
pub open spec fn spec_decode(capture: Option<Seq<u8>>) -> Result<Seq<u8>, SampleError> {
    match capture {
        None => Err(SampleError::SourceUnavailable),
        Some(bytes) => if valid_utf8(bytes) {
            Ok(bytes)
        } else {
            Err(SampleError::EncodingError)
        },
    }
}

/// What a capture holds, where there is one.
pub open spec fn capture_view(capture: Option<Vec<u8>>) -> Option<Seq<u8>> {
    match capture {
        None => None,
        Some(bytes) => Some(bytes@),
    }
}

/// Turns what a read delivered into text. No capture means that the source
/// could not be read; bytes that are not UTF-8 are refused.
pub fn decode(capture: &Option<Vec<u8>>) -> (text: Result<&[u8], SampleError>)
    ensures
        match text {
            Ok(bytes) => spec_decode(capture_view(*capture)) == Ok::<Seq<u8>, SampleError>(
                bytes@,
            ),
            Err(e) => spec_decode(capture_view(*capture)) == Err::<Seq<u8>, SampleError>(e),
        },
{
    match capture {
        None => Err(SampleError::SourceUnavailable),
        Some(bytes) => {
            if is_utf8(bytes.as_slice()) {
                Ok(bytes.as_slice())
            } else {
                Err(SampleError::EncodingError)
            }
        },
    }
}

/// What a probe that ran leaves as its capture: what it wrote, unless it
/// failed and wrote nothing.
pub open spec fn spec_probe_capture(succeeded: bool, output: Seq<u8>) -> Option<Seq<u8>> {
    if succeeded || output.len() > 0 {
        Some(output)
    } else {
        None
    }
}

/// The capture of a probe that ran, from how it ended and what it wrote.
/// A probe that failed and wrote nothing counts as a source that could not
/// be read.
pub fn probe_capture(succeeded: bool, output: Vec<u8>) -> (capture: Option<Vec<u8>>)
    ensures
        capture_view(capture) == spec_probe_capture(succeeded, output@),
{
    if succeeded || output.len() > 0 {
        Some(output)
    } else {
        None
    }
}

} // verus!
