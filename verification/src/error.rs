//! The errors the library reports.

use vstd::prelude::*;

verus! {

/// The broad class of an error, as the I/O layer reports it.
#[derive(Clone, Copy, Debug, PartialEq, Eq, Structural)]
pub enum ErrorKind {
    /// The caller handed over something unusable.
    InvalidInput,
    /// Data received from elsewhere is malformed.
    InvalidData,
    /// Anything else.
    Other,
}

/// Everything that can go wrong in key agreement, encryption and framing.
#[derive(Clone, Copy, Debug, PartialEq, Eq, Structural)]
pub enum SpanError {
    /// The peer's public key is not hex.
    BadPeerPublicKey,
    /// The peer's public key is not 32 bytes long.
    BadPeerPublicKeyLength,
    /// The key derivation function refused the requested length.
    KeyDerivationFailed,
    /// The cipher refused the plaintext.
    EncryptFailed,
    /// The ciphertext did not authenticate.
    DecryptFailed,
    /// The decrypted bytes are not UTF-8.
    PlaintextNotUtf8,
    /// A packet to be sent carries too large a ciphertext.
    CiphertextTooLargeToSend,
    /// A received packet carries too large a ciphertext.
    CiphertextTooLarge,
    /// A received packet's header line is not UTF-8.
    HeaderNotUtf8,
    /// A received packet does not start with the protocol's magic word.
    BadMagic,
    /// A received packet has no usable sender id.
    BadDeviceId,
    /// A received packet has no usable nonce.
    BadNonce,
    /// A received packet has no usable ciphertext.
    BadCiphertext,
}

impl SpanError {
    /// The class of this error.
    pub fn kind(&self) -> (res: ErrorKind)
        ensures
            res == match *self {
                SpanError::BadPeerPublicKey
                | SpanError::BadPeerPublicKeyLength
                | SpanError::CiphertextTooLargeToSend => ErrorKind::InvalidInput,
                SpanError::KeyDerivationFailed | SpanError::EncryptFailed => ErrorKind::Other,
                _ => ErrorKind::InvalidData,
            },
    {
        match self {
            SpanError::BadPeerPublicKey
            | SpanError::BadPeerPublicKeyLength
            | SpanError::CiphertextTooLargeToSend => ErrorKind::InvalidInput,
            SpanError::KeyDerivationFailed | SpanError::EncryptFailed => ErrorKind::Other,
            _ => ErrorKind::InvalidData,
        }
    }

    /// A short description of this error.
    pub fn message(&self) -> (res: &'static str)
        ensures
            res@ == spec_message(*self),
    {
        match self {
            SpanError::BadPeerPublicKey => "bad peer public key",
            SpanError::BadPeerPublicKeyLength => "bad peer public key length",
            SpanError::KeyDerivationFailed => "hkdf expand failed",
            SpanError::EncryptFailed => "encrypt failed",
            SpanError::DecryptFailed => "decrypt failed",
            SpanError::PlaintextNotUtf8 => "plaintext is not utf-8",
            SpanError::CiphertextTooLargeToSend => "ciphertext too large",
            SpanError::CiphertextTooLarge => "ciphertext too large",
            SpanError::HeaderNotUtf8 => "stream did not contain valid UTF-8",
            SpanError::BadMagic => "bad magic",
            SpanError::BadDeviceId => "bad device id",
            SpanError::BadNonce => "bad nonce",
            SpanError::BadCiphertext => "bad ciphertext",
        }
    }
}

/// The description of each error.
pub open spec fn spec_message(e: SpanError) -> Seq<char> {
    match e {
        SpanError::BadPeerPublicKey => "bad peer public key"@,
        SpanError::BadPeerPublicKeyLength => "bad peer public key length"@,
        SpanError::KeyDerivationFailed => "hkdf expand failed"@,
        SpanError::EncryptFailed => "encrypt failed"@,
        SpanError::DecryptFailed => "decrypt failed"@,
        SpanError::PlaintextNotUtf8 => "plaintext is not utf-8"@,
        SpanError::CiphertextTooLargeToSend => "ciphertext too large"@,
        SpanError::CiphertextTooLarge => "ciphertext too large"@,
        SpanError::HeaderNotUtf8 => "stream did not contain valid UTF-8"@,
        SpanError::BadMagic => "bad magic"@,
        SpanError::BadDeviceId => "bad device id"@,
        SpanError::BadNonce => "bad nonce"@,
        SpanError::BadCiphertext => "bad ciphertext"@,
    }
}

} // verus!
