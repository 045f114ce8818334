use vstd::prelude::*;

verus! {

/// Failures of the message transport.
#[derive(Debug, Clone, Copy, PartialEq, Eq, Structural)]
pub enum TransportError {
    /// Stored key material is not a valid private key.
    CorruptKeyMaterial,
    /// No relay accepted a published envelope.
    PublishFailed,
    /// A ciphertext could not be opened with the given keys.
    DecryptionFailed,
    /// A record decoded, but its contents do not form a valid message.
    MalformedPayload,
    /// A record is shorter than its header or its declared length.
    TruncatedMessage,
    /// A relay address is not a valid URL.
    InvalidRelayUrl,
    /// A reassembly buffer outlived the stale-segment timeout.
    StaleReassembly,
}

} // verus!
