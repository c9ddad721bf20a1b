use vstd::prelude::*;

verus! {

/// Why a field of a message was refused.
#[derive(Debug, Clone, Copy, PartialEq, Eq, Structural)]
pub enum DataFault {
    /// A domain name longer than 255 bytes cannot be encoded.
    DomainTooLong,
    /// A signed connection id longer than 255 bytes cannot be encoded.
    SignedIdTooLong,
    /// The bytes of a domain name are not UTF-8.
    InvalidDomainName,
    /// The bytes of a text message are not UTF-8.
    InvalidUtf8,
    /// Compressed data could not be decompressed.
    DecompressionFailed,
    /// The data, once decompressed, does not have the announced length.
    LengthMismatch { expected: usize, got: usize },
}

/// Why the payload could not be decrypted.
#[derive(Debug, Clone, Copy, PartialEq, Eq, Structural)]
pub enum DecryptFault {
    /// Fewer bytes than a nonce.
    TooShort,
    /// The authentication tag did not match.
    Refused,
}

/// Errors of the protocol.
#[derive(Debug, Clone, Copy, PartialEq, Eq, Structural)]
pub enum ProtocolError {
    /// The input ended before a field was complete.
    Io,
    InvalidAddressType(u8),
    InvalidMessageType(u8),
    EncryptionError,
    DecryptionError(DecryptFault),
    InvalidSignature,
    InvalidPublicKey,
    InvalidPrivateKey,
    BufferTooSmall,
    InvalidData(DataFault),
}

} // verus!
