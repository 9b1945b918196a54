//! Sender-key group messaging: one sender encrypts a message once and every
//! group member can verify and decrypt it.
//!
//! The core is a one-way key-derivation chain (the ratchet) producing
//! per-iteration message keys, a bounded cache of skipped keys for
//! out-of-order delivery, and a signature layer for sender authentication.
//! The symmetric cipher, the MAC used for key derivation, and the signature
//! scheme are outside collaborators, reached through trusted wrappers.

pub mod bytes;
pub mod consts;
pub mod crypto;
pub mod curve;
pub mod error;
pub mod group_cipher;
pub mod laws;
pub mod protocol;
pub mod sender_keys;
pub mod storage;
