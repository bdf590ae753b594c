//! Error values returned by context construction and decryption.
use vstd::prelude::*;

verus! {

/// Every failure of the cipher API is one of these local, non-retryable
/// validation errors; no failure is silently swallowed.
#[derive(Clone, Copy, Debug, PartialEq, Eq, Structural)]
pub enum EdesError {
    /// The key handed to context construction is not exactly 32 bytes.
    InvalidKeyLength,
    /// The ciphertext handed to decryption is empty or not a multiple of
    /// 8 bytes, so it cannot have come out of encryption.
    InvalidCiphertextLength,
    /// The final byte of the decrypted buffer is 0 or exceeds the buffer
    /// length: the ciphertext was corrupted or the key is wrong.
    InvalidPadding,
}

} // verus!
