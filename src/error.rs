//! Errors of the encryption scheme's algebra and message handling.
use vstd::prelude::*;

verus! {

/// Why an encryption-side operation refused its inputs.
#[derive(Debug, PartialEq, Eq, Structural)]
pub enum LatticeError {
    /// A matrix row (`expected` entries) and a vector (`found` entries) that
    /// a product needed to be of equal length were not.
    LengthMismatch { expected: usize, found: usize },
    /// A message other than the bits 0 and 1 was given to encryption.
    InvalidMessage { message: u8 },
}

} // verus!
