//! An encrypted credential vault.
//!
//! A [`CredentialSet`](credentials::CredentialSet) maps application names to
//! login details. It is kept at rest as a container of bytes: a short header
//! with a format version, a salt and a nonce, followed by the AES-256-GCM
//! encryption of the set's record encoding under a key stretched from the
//! master passphrase.
//!
//! The crate touches no file: callers hand it the bytes they read and write
//! out the bytes it returns, in the order that [`atomic::SaveProgress`] lays down.

pub mod aead;
pub mod atomic;
pub mod codec;
pub mod container;
pub mod credentials;
pub mod error;
pub mod kdf;
pub mod session;
pub mod store;
pub mod text;
