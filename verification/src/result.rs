//! The ways in which reading a list can fail.

use vstd::prelude::*;

verus! {

/// Why a buffer was rejected. Every variant is final for that buffer:
/// reading the same bytes again gives the same answer.
#[derive(Clone, Copy, Debug, PartialEq, Eq, Structural)]
pub enum Error {
    /// A field holds a byte above `0x7f`.
    InvalidAscii,
    /// A field holds an ASCII byte that is neither a letter, a digit nor
    /// one of the few punctuation marks a field may carry. The byte is
    /// handed back for diagnostics; it is always below `0x80`.
    SpecialChar(u8),
    /// The generation field is not a plain decimal number that fits the
    /// generation's width.
    InvalidGeneration,
    /// The list has more records than the storage has room for.
    TooManyRecords,
    /// A record stops before its last mandatory field.
    TooFewFields,
}

} // verus!
