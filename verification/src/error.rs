//! Error types of the library.

use vstd::prelude::*;
use crate::net::{NetAddr, TimeSpan};
use crate::text::copy_str;

verus! {

/// Network-related errors.
#[derive(Debug, Clone, PartialEq)]
pub enum NetworkError {
    BindFailed { addr: NetAddr, reason: String },
    ConnectionFailed { addr: NetAddr, reason: String },
    /// The peer is banned until the given time (nanoseconds since the Unix epoch).
    PeerBanned { addr: NetAddr, expires_at: i64 },
    MessageTooLarge { size: usize, max_size: usize },
    InvalidMessage { reason: String },
    Timeout { duration: TimeSpan },
    NoPeersAvailable,
    NatDiscoveryFailed { reason: String },
    HolePunchFailed { addr: NetAddr, reason: String },
}

/// Cryptographic errors.
#[derive(Debug, Clone, PartialEq)]
pub enum CryptoError {
    InvalidSignature,
    InvalidPublicKey { reason: String },
    InvalidPrivateKey { reason: String },
    HashVerificationFailed,
    ProofOfWorkFailed,
    VrfVerificationFailed,
    VdfVerificationFailed,
    VdfError { reason: String },
    KeyGenerationFailed { reason: String },
    EncryptionFailed { reason: String },
    DecryptionFailed { reason: String },
}

/// Storage-related errors.
#[derive(Debug, Clone, PartialEq)]
pub enum StorageError {
    DatabaseOperation { reason: String },
    KeyNotFound { key: String },
    SerializationFailed { reason: String },
    DeserializationFailed { reason: String },
    Corruption { reason: String },
    ReadOnly,
    TransactionFailed { reason: String },
}

/// Serialization errors. The JSON and binary variants carry the message of
/// the encoder's error.
#[derive(Debug, Clone, PartialEq)]
pub enum SerializationError {
    Json { message: String },
    Binary { message: String },
    InvalidFormat { expected: String, actual: String },
    MissingField { field: String },
    FieldValidation { field: String, reason: String },
}

/// Main error type of the library.
#[derive(Debug, Clone, PartialEq)]
pub enum ChaincraftError {
    Network(NetworkError),
    Crypto(CryptoError),
    Storage(StorageError),
    Serialization(SerializationError),
    Validation(String),
    Consensus(String),
    Config(String),
    /// An I/O error, carried by its message.
    Io(String),
    Generic(String),
}

impl ChaincraftError {
    /// A validation error with message `msg`.
    pub fn validation(msg: &str) -> (e: ChaincraftError)
        ensures
            e matches ChaincraftError::Validation(m) && m@ == msg@,
    {
        ChaincraftError::Validation(copy_str(msg))
    }

    /// A consensus error with message `msg`.
    pub fn consensus(msg: &str) -> (e: ChaincraftError)
        ensures
            e matches ChaincraftError::Consensus(m) && m@ == msg@,
    {
        ChaincraftError::Consensus(copy_str(msg))
    }

    /// A configuration error with message `msg`.
    pub fn config(msg: &str) -> (e: ChaincraftError)
        ensures
            e matches ChaincraftError::Config(m) && m@ == msg@,
    {
        ChaincraftError::Config(copy_str(msg))
    }

    /// A generic error with message `msg`.
    pub fn generic(msg: &str) -> (e: ChaincraftError)
        ensures
            e matches ChaincraftError::Generic(m) && m@ == msg@,
    {
        ChaincraftError::Generic(copy_str(msg))
    }
}

} // verus!
