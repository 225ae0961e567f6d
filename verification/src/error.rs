//! Error values returned by the duplex engines.

use vstd::prelude::*;

verus! {

/// Every failure the library can report. All variants are deterministic
/// validation or integrity outcomes; none is transient.
#[derive(Debug, Copy, Clone, Eq, PartialEq, Structural)]
pub enum Error {
    /// An output buffer is shorter than required, or a ciphertext is
    /// shorter than the authentication tag.
    InvalidBufferLength,
    /// Key, key id and nonce together exceed the keyed absorb rate.
    InvalidParameterLength,
    /// A keyed-only operation was invoked on an unkeyed engine.
    KeyRequired,
    /// The authentication tag did not match the received data.
    TagMismatch,
}

impl Error {
    /// A human-readable description of the error.
    pub fn message(&self) -> (r: &'static str)
        ensures
            r@.len() > 0,
    {
        let r = match self {
            Error::InvalidBufferLength => "Invalid buffer length",
            Error::InvalidParameterLength => "Key too long",
            Error::KeyRequired => "A key is required",
            Error::TagMismatch => "Tag mismatch",
        };
        proof {
            reveal_strlit("Invalid buffer length");
            reveal_strlit("Key too long");
            reveal_strlit("A key is required");
            reveal_strlit("Tag mismatch");
        }
        r
    }
}

} // verus!
