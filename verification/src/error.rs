//! The errors of the vault and of its parts.

use vstd::prelude::*;

verus! {

/// Why a vault operation did not succeed.
#[derive(Clone, Copy, Debug, PartialEq, Eq, Structural)]
pub enum VaultError {
    /// There is no vault file: the caller decides whether to start a new one.
    NotFound,
    /// The container did not authenticate or did not decode. A wrong
    /// passphrase and a damaged file are deliberately not told apart.
    OpenFailed,
    /// The container carries a format version that this library does not read.
    UnsupportedVersion,
    /// The salt has a length outside the accepted range.
    DerivationError,
    /// The file system or the system's random source reported a failure, or
    /// the set is too large to be sealed.
    IoError,
}

/// The salt handed to key derivation has a length outside the accepted range.
#[derive(Clone, Copy, Debug, PartialEq, Eq, Structural)]
pub struct DerivationError;

/// An application name was empty.
#[derive(Clone, Copy, Debug, PartialEq, Eq, Structural)]
pub struct EmptyName;

/// Bytes that are not the encoding of any credential set.
#[derive(Clone, Copy, Debug, PartialEq, Eq, Structural)]
pub struct MalformedData;

/// The integrity tag did not verify under the given key and nonce.
#[derive(Clone, Copy, Debug, PartialEq, Eq, Structural)]
pub struct AuthenticationFailure;

/// Why a plaintext could not be sealed.
#[derive(Clone, Copy, Debug, PartialEq, Eq, Structural)]
pub enum SealError {
    /// The plaintext is longer than one nonce may protect.
    TooLong,
    /// The system's random source gave no nonce.
    RandomSource,
}

impl VaultError {
    /// A short description, free of any secret.
    pub fn message(&self) -> (text: &'static str)
        ensures
            text@ == Self::message_of(*self),
    {
        match self {
            VaultError::NotFound => "vault file not found",
            VaultError::OpenFailed => "vault could not be opened",
            VaultError::UnsupportedVersion => "unsupported vault format version",
            VaultError::DerivationError => "salt length out of range",
            VaultError::IoError => "input or output failed",
        }
    }

    /// The text that [`VaultError::message`] returns for each error.
    pub open spec fn message_of(e: VaultError) -> Seq<char> {
        match e {
            VaultError::NotFound => "vault file not found"@,
            VaultError::OpenFailed => "vault could not be opened"@,
            VaultError::UnsupportedVersion => "unsupported vault format version"@,
            VaultError::DerivationError => "salt length out of range"@,
            VaultError::IoError => "input or output failed"@,
        }
    }
}

} // verus!
