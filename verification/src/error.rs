use vstd::prelude::*;

verus! {

/// Why a buffer could not be decoded.
#[derive(Debug, Clone, Copy, PartialEq, Eq, Structural)]
pub enum DecodeError {
    /// A field or a record reaches past the end of the buffer.
    Bounds,
    /// A field that must be hexadecimal is not, or a byte count is too small
    /// for the fields that its record must hold.
    Format,
    /// The record's tag is none of `S0`, `S1`, `S2`, `S3`, `S5`, `S7`, `S8`, `S9`.
    UnsupportedRecord,
}

} // verus!
