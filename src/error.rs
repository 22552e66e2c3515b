use vstd::prelude::*;

verus! {

/// Identifier of the key a frame was encrypted with.
pub type KeyId = u64;

/// Every way in which an operation of this library can fail.
#[derive(Debug, Clone, Copy, PartialEq, Eq, Structural)]
pub enum SframeError {
    /// The header could not be parsed: too few bytes for what it announces.
    MalformedHeader,
    /// No secret is stored for the key id that the header names.
    MissingDecryptionKey(KeyId),
    /// The validation policy refused the frame counter (replay or stale frame).
    FrameValidationFailed,
    /// The authentication tag did not verify.
    DecryptionFailure,
    /// Key material could not be expanded into a secret.
    KeyExpansion,
}

} // verus!
