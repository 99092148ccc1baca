use vstd::prelude::*;

verus! {

/// The error kinds surfaced to callers of the protocol engine.
#[derive(Debug, Clone, Copy, PartialEq, Eq, Structural)]
pub enum QuestError {
    /// No adapter, or the scan failed.
    BleUnavailable,
    /// The transport was lost mid-call.
    BleDisconnected,
    /// An unusable MTU or a malformed device-key file.
    ConfigError,
    /// The Hello reply lacked signed data, held a malformed key, or did not decode.
    HandshakeFailed,
    /// The headset presented a challenge but no device secret is held.
    AuthMissingKey,
    /// The headset answered the challenge response with a failure code.
    AuthRejected,
    /// Encryption or decryption failed.
    CryptoFailed,
    /// The envelope did not decode, a required body was missing, or the call
    /// was not valid in the session's state.
    ProtocolError,
    /// The per-call deadline passed.
    Timeout,
}

} // verus!
