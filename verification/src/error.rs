use vstd::prelude::*;

verus! {

/// The closed set of failures that chunk and container operations can report.
///
/// `IntegrityFailure` carries the CRC stored in the input alongside the one
/// recomputed over the type and data bytes, so a caller can see both sides of
/// the mismatch.
#[derive(Debug, Clone, Copy, PartialEq, Eq, Structural)]
pub enum PngError {
    /// The input is too short, or the container signature is missing.
    MalformedInput,
    /// A chunk type byte is not an ASCII letter, or a type string does not
    /// encode to exactly four bytes.
    InvalidType,
    /// The CRC stored in the input does not match the one recomputed over the
    /// chunk's type and data bytes.
    IntegrityFailure { stored: u32, computed: u32 },
    /// No chunk of the requested type exists in the container.
    NotFound,
    /// A chunk payload was asked for as text but is not valid UTF-8.
    EncodingFailure,
}

} // verus!
