//! Error kinds of the commitment pipeline. Every stage surfaces the first
//! error it meets and aborts; nothing is retried and no partial result is
//! produced.

use vstd::prelude::*;

verus! {

/// The ways a commitment computation or a store operation can fail.
#[derive(Clone, Copy, Debug, PartialEq, Eq, Structural)]
pub enum CommPError {
    /// The source held fewer bytes than the declared length.
    ShortInput,
    /// A 32-byte window was not strictly below the field modulus.
    Decode,
    /// The requested piece size is smaller than one element, not
    /// element-aligned, or beyond what this machine can index.
    Size,
    /// The backing store could not serve the requested index or range.
    Storage,
    /// The store variant deliberately does not implement the operation.
    UnsupportedOperation,
}

} // verus!
