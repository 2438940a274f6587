//! A byte-oriented DDML (data description and markup language) codec for a
//! channelized, append-only secure messaging protocol.
//!
//! The crate implements the wrap/unwrap engine of the protocol: a small
//! command language whose operators describe, in one declarative pass, the
//! binary layout of a message on the wire, the updates applied to a duplex
//! sponge as bytes flow past, and how session keys, recipient lists and
//! authentication tags are mixed into that state.
//!
//! Modules, leaves first:
//! - [`errors`]: the failure kinds surfaced by wrap and unwrap.
//! - [`bytes`]: small verified helpers on byte vectors.
//! - [`sponge`]: the duplex sponge primitive (absorb, squeeze, encrypt,
//!   decrypt, commit, fork, inner-state snapshots).
//! - [`io`]: advance-only byte windows over input and output buffers.
//! - [`types`]: the primitive wire values (`Uint8`, `Size`, `Bytes`,
//!   `NBytes`, `Mac`) and the variable-length size prefix codec.
//! - [`prng`]: a deterministic pseudo-random generator over the sponge.
//! - [`kem`]: a sponge-based key-encapsulation placeholder with the fixed
//!   ciphertext layout the keyload codec expects.
//! - [`sig`]: a sponge-based signing placeholder for the `mssig` operator.
//! - [`linkstore`]: the map from message links to inner sponge states that
//!   `join` consults.
//! - [`command`]: the three operator interpreters (`sizeof`, `wrap`,
//!   `unwrap`).
//! - [`identifier`]: the tagged-union recipient identifier codec.
//! - [`keyload`]: the keyload message codec, distributing one session key
//!   to pre-shared-key and public-key recipients.

use vstd::prelude::*;

pub mod bytes;
pub mod command;
pub mod errors;
pub mod identifier;
pub mod io;
pub mod kem;
pub mod keyload;
pub mod linkstore;
pub mod prng;
pub mod sig;
pub mod sponge;
pub mod types;

verus! {

/// Bytes in the outer (rate) part of the sponge state.
pub const RATE: usize = 32;

/// Bytes in the inner (capacity) part of the sponge state; this is what the
/// link store snapshots.
pub const CAP: usize = 32;

/// Bytes in the full permutation state.
pub const STATE_SIZE: usize = 64;

/// Bytes in a keyload nonce.
pub const NONCE_SIZE: usize = 17;

/// Bytes in a session key.
pub const KEY_SIZE: usize = 32;

/// Default width of an inline authentication tag.
pub const MAC_SIZE: usize = 16;

/// Bytes in a pre-shared key.
pub const PSK_SIZE: usize = 32;

/// Bytes in a pre-shared-key identifier.
pub const PSKID_SIZE: usize = 17;

/// Bytes in a public key (key-encapsulation or signing).
pub const PK_SIZE: usize = 32;

/// Bytes in a secret key (key-encapsulation or signing).
pub const SK_SIZE: usize = 32;

/// Bytes in the digest identifying a key-encapsulation public key.
pub const PKID_SIZE: usize = 16;

/// Bytes of the ephemeral value inside a key-encapsulation ciphertext.
pub const EPH_SIZE: usize = 16;

/// Bytes of the check tag inside a key-encapsulation ciphertext.
pub const KEM_TAG_SIZE: usize = 16;

/// Bytes of a full key-encapsulation ciphertext.
pub const EKEY_SIZE: usize = EPH_SIZE + KEY_SIZE + KEM_TAG_SIZE;

/// Bytes of a relative message link on the wire.
pub const LINK_SIZE: usize = 16;

/// Bytes of a signature.
pub const SIG_SIZE: usize = 32;

/// Bytes of a squeezed message digest.
pub const HASH_SIZE: usize = 32;

} // verus!
