//! Error taxonomy of the synchronization subsystem.

use vstd::prelude::*;

verus! {

/// Failures of the token vault: key handling, encryption and decryption.
#[derive(Debug, Clone, Copy, PartialEq, Eq, Structural)]
pub enum VaultError {
    /// The key file could not be read or written.
    KeyIo,
    /// An existing key file is not valid hex of the expected length.
    KeyFormat,
    /// The cipher failed to seal the plaintext.
    Encryption,
    /// Authentication-tag mismatch or malformed ciphertext.
    Decryption,
    /// The ciphertext blob is shorter than a nonce.
    InvalidCiphertext,
    /// The decrypted bytes are not valid text.
    Encoding,
}

/// Failures of the OAuth flow and of the provider API.
#[derive(Debug, Clone)]
pub enum OAuthError {
    /// Network or TLS failure.
    Transport(String),
    /// Non-success HTTP status, or malformed JSON.
    Protocol(String),
    /// The token response lacks the required access-token field.
    MissingAccessToken,
    /// The identity response lacks the required email field.
    MissingIdentity,
}

/// Per-item normalization failures: the remote item lacks a field the
/// local schema requires.
#[derive(Debug, Clone, Copy, PartialEq, Eq, Structural)]
pub enum ParseError {
    /// The item carries no external event identifier.
    MissingEventId,
    /// The item carries neither a start timestamp nor a start date.
    MissingStartTime,
    /// The item carries neither an end timestamp nor an end date.
    MissingEndTime,
}

/// Failures of the local store.
#[derive(Debug, Clone, Copy, PartialEq, Eq, Structural)]
pub enum StoreError {
    /// No record with the given identifier exists.
    NotFound,
}

/// Failures of a whole-connection sync pass.
#[derive(Debug, Clone, Copy, PartialEq, Eq, Structural)]
pub enum SyncError {
    /// The connection's provider is not a supported one.
    UnsupportedProvider,
}

} // verus!
