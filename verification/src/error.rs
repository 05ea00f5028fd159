//! The ways an operation on the board can fail.

use vstd::prelude::*;

verus! {

/// Why an operation was refused. A refused operation changes nothing.
#[derive(Clone, Copy, Debug, PartialEq, Eq, Structural)]
pub enum BoardError {
    /// The operation names a hash that the board does not hold.
    NotFound,
    /// The payload of a node that is not a leaf was to be erased.
    InvalidOperation,
    /// A batch holds a hash that is already known, or a branch whose child
    /// is neither on the board nor earlier in the same batch.
    MalformedTransaction,
    /// A text is not the 64 hexadecimal digits of a hash.
    InvalidEncoding,
    /// The backend could not read or keep its own records.
    Internal,
}

} // verus!
