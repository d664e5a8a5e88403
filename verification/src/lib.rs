//! Offline taproot signer: matches recorded expected-signer entries against
//! keys derivable from a local hierarchical master secret, tweaks the root
//! key to the output's script-tree commitment, and attaches the key-path and
//! tapleaf signatures a key is authorized to contribute.

use vstd::prelude::*;

pub mod crypto;
pub mod model;
pub mod signer;

verus! {

/// Failures of a whole sign-input operation. Index errors are recoverable and
/// reported before any mutation; a sighash failure signals malformed upstream
/// data (an undecodable transaction or an invalid flag) and is likewise
/// reported before any mutation.
#[derive(Debug, Clone, PartialEq, Eq, Structural)]
pub enum PSBTSigningError {
    /// No spent output recorded for the input at this index.
    NoUTXOAtIndex(usize),
    /// The targeted input index is out of range.
    NoInputAtIndex(usize),
    /// The signature digest could not be computed from the supplied data.
    SighashFailure,
}

impl PSBTSigningError {
    /// A short human-readable description of the failure.
    pub fn message(&self) -> (r: String)
    {
        match self {
            PSBTSigningError::NoUTXOAtIndex(_) => "missing spent output for an input".to_string(),
            PSBTSigningError::NoInputAtIndex(_) => "no input at the requested index".to_string(),
            PSBTSigningError::SighashFailure => "signature digest computation failed".to_string(),
        }
    }
}

} // verus!
