//! Failure kinds of the codec.
//!
//! There is no local recovery inside the codec: any failure aborts the
//! current wrap or unwrap and surfaces the first error to the caller.

use vstd::prelude::*;

verus! {

/// The guard message a keyload unwrapper fails with when no recipient
/// entry matches one of its secrets.
pub const KEY_NOT_FOUND_MSG: &'static str = "Key not found";

/// Everything that can go wrong while wrapping or unwrapping a message.
#[derive(Clone, Copy, Debug, PartialEq, Eq)]
pub enum CodecError {
    /// The input or output stream has fewer bytes left than an operator
    /// needs.
    ShortBuffer,
    /// A `join` names a link the store does not hold.
    LinkNotFound,
    /// A tagged union carries a tag no variant answers to; the tag is kept
    /// for diagnosis.
    BadOneof(u8),
    /// An inline authentication tag did not match the squeezed one.
    BadMac,
    /// A signature did not verify.
    BadSignature,
    /// Key decapsulation rejected the ciphertext.
    NtruDecapFailed,
    /// An explicit guard condition failed; the message names the guard.
    Guard(&'static str),
    /// The link store cannot accept another entry.
    Full,
    /// A size prefix is malformed or does not fit the machine word.
    BadSize,
}

} // verus!
