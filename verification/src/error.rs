use vstd::prelude::*;

verus! {

/// The error conditions of the sender-key protocol.
///
/// Callers distinguish "message cannot be trusted or decrypted"
/// (`SignatureValidationFailed`, `DuplicatedMessage`,
/// `MessageFromTooFarInTheFuture`, `InvalidSenderKeyMessage`,
/// `DecryptionFailed`) from "configuration or state problem"
/// (`InvalidSenderKeyId`, `NoSenderKeyState`, `SenderKeySigningKeyMissing`).
#[derive(Clone, Copy, Debug, PartialEq, Eq, Structural)]
pub enum SignalProtocolError {
    /// No record is stored for the name, or no state matches the key id.
    InvalidSenderKeyId,
    /// The record holds no state at all.
    NoSenderKeyState,
    /// Encryption was attempted on a state that has no private signing key,
    /// i.e. a state obtained only from a distribution message.
    SenderKeySigningKeyMissing,
    /// The message's signature does not verify under the state's public key.
    SignatureValidationFailed,
    /// The target iteration was already consumed and is not in the
    /// skipped-key cache; carries (current chain iteration, target).
    DuplicatedMessage(u32, u32),
    /// The target iteration lies beyond the forward-jump bound, or past the
    /// end of the 32-bit iteration counter.
    MessageFromTooFarInTheFuture,
    /// The message bytes do not parse as a sender key message.
    InvalidSenderKeyMessage,
    /// The symmetric cipher rejected the ciphertext.
    DecryptionFailed,
    /// The store collaborator failed; its errors pass through unmodified.
    StoreFailure,
}

} // verus!
