//! The boundary's error taxonomy.
//!
//! Every failure of the verification boundary is one of the variants of
//! [`VerifyError`]; a malformed byte stream is further classified by
//! [`DecodeError`], which records the structural reason the decoder stopped.

use vstd::prelude::*;

verus! {

/// The structural reason a byte stream was rejected by the wire-format codec.
#[derive(Debug, Clone, Copy, PartialEq, Eq)]
pub enum DecodeError {
    /// The stream ended before the field being read was complete.
    UnexpectedEnd,
    /// An optional-value marker held a byte other than 0 or 1.
    InvalidOptionTag,
    /// Decoding finished before the end of the stream; a well-formed
    /// encoding is consumed exactly.
    TrailingBytes,
}

/// A terminal failure of the verification boundary.
#[derive(Debug, Clone, PartialEq, Eq)]
pub enum VerifyError {
    /// The caller-supplied variant tag names no supported (field, VM family)
    /// pair; the proof and key bytes are never decoded in this case.
    UnsupportedVariant,
    /// The proof-bundle or verifying-key bytes are malformed.
    Decode(DecodeError),
    /// The decoded bundle holds a different number of proof segments than
    /// verifying keys, so no segment-to-key pairing exists.
    Assembly { segment_count: usize, key_count: usize },
    /// The external verification machine reported an internal fault; its
    /// message is carried verbatim.
    VerificationFailure(String),
}

} // verus!
