//! The failures a decode can report.

use vstd::prelude::*;

verus! {

/// Why a decode failed. Signature mismatches are deliberately not errors:
/// they are boolean facts a caller consults to decide which table to trust.
#[derive(Clone, Copy, Debug, PartialEq, Eq, Structural)]
pub enum DecodeError {
    /// The buffer or stream holds fewer bytes than the structure needs.
    TruncatedInput,
    /// A boot signature or table magic did not match where one was demanded.
    InvalidSignature,
    /// A GUID field was handed around with a length other than 16 bytes.
    MalformedGuid,
    /// The underlying seek or read failed; raised by callers that own the
    /// byte source, never by the in-memory decoders.
    IoFailure,
}

} // verus!
