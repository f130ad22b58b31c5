//! Errors of the storage operations.

use vstd::prelude::*;

verus! {

/// The I/O error type of the standard library, carried through unchanged.
#[verifier::external_type_specification]
#[verifier::external_body]
pub struct ExIoError(std::io::Error);

/// The TOML serializer's error type, carried through unchanged.
#[verifier::external_type_specification]
#[verifier::external_body]
pub struct ExTomlSerError(toml::ser::Error);

/// The TOML deserializer's error type, carried through unchanged.
#[verifier::external_type_specification]
#[verifier::external_body]
pub struct ExTomlDeError(toml::de::Error);

/// Errors that can occur during storage operations.
#[derive(Debug)]
pub enum StorageError {
    /// Reading or writing the profile file failed.
    Io(std::io::Error),
    /// The profile could not be written as TOML.
    Serialization(toml::ser::Error),
    /// The profile file is not valid TOML for a profile.
    Deserialization(toml::de::Error),
    /// No profile file at this path.
    ProfileNotFound(String),
    /// A private key of the wrong length.
    InvalidKeyLength,
    /// A username that is empty or only whitespace.
    EmptyUsername,
    /// A username of more than 32 characters.
    UsernameTooLong,
    /// No generated key gave a peer id that the transport accepts.
    KeyGenerationFailed,
}

} // verus!
