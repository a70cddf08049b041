//! ML-DSA-44 signature verification (FIPS 204) for Solana programs: keys,
//! signatures, prepared keys and the verification pipeline, with their
//! arithmetic proved against the standard's definitions.
use vstd::prelude::*;

pub mod codec;
pub mod laws;
pub mod ml_dsa_44;
pub mod ntt;
pub mod params;
pub mod poly;
pub mod reduce;
pub mod rounding;
pub mod sample;
pub mod shake;

verus! {

/// Signature verification failure.
#[derive(Debug, Clone, Copy, PartialEq, Eq, Structural)]
pub enum Error {
    /// The context string exceeds 255 bytes (FIPS 204 Algorithm 3).
    ContextTooLong,
    /// An encoded value or output buffer has the wrong length.
    InvalidLength,
    /// A prepared coefficient is not a canonical representative modulo Q.
    InvalidEncoding,
    /// Prepared storage must be aligned to four bytes.
    InvalidAlignment,
    /// A prepared row index must be in `0..4`.
    InvalidRow,
    /// The signature does not verify under the key, or is malformed.
    InvalidSignature,
}

impl Error {
    /// The error's message.
    pub fn message(&self) -> (s: &'static str)
        ensures
            s@ == match *self {
                Error::ContextTooLong => "context exceeds 255 bytes"@,
                Error::InvalidLength => "invalid byte length"@,
                Error::InvalidEncoding => "noncanonical prepared coefficient"@,
                Error::InvalidAlignment => "prepared storage must be four-byte aligned"@,
                Error::InvalidRow => "prepared row index must be in 0..4"@,
                Error::InvalidSignature => "invalid signature"@,
            },
    {
        match self {
            Error::ContextTooLong => "context exceeds 255 bytes",
            Error::InvalidLength => "invalid byte length",
            Error::InvalidEncoding => "noncanonical prepared coefficient",
            Error::InvalidAlignment => "prepared storage must be four-byte aligned",
            Error::InvalidRow => "prepared row index must be in 0..4",
            Error::InvalidSignature => "invalid signature",
        }
    }
}

} // verus!
