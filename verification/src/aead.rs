//! Authenticated encryption of the encoded set: AES-256-GCM with a 96-bit
//! nonce and a 128-bit tag appended to the ciphertext.
//!
//! The cipher comes from the `aes-gcm` crate. Its results are named here,
//! [`aes256_gcm_seal`] and [`aes256_gcm_open`], and the contracts around them
//! are exact in those names.

use aes_gcm::aead::rand_core::RngCore;
use aes_gcm::aead::Aead;
use aes_gcm::aead::KeyInit;
use aes_gcm::aead::OsRng;
use aes_gcm::Aes256Gcm;
use vstd::prelude::*;
use vstd::slice::slice_to_vec;

use crate::error::AuthenticationFailure;
use crate::error::SealError;
use crate::kdf::DerivedKey;
use crate::kdf::KEY_LEN;

verus! {

/// Length of a nonce in bytes.
pub const NONCE_LEN: usize = 12;

/// Length of the integrity tag in bytes.
pub const TAG_LEN: usize = 16;

/// The longest plaintext, in bytes, that AES-GCM protects under one nonce.
pub const MAX_PLAINTEXT_LEN: u64 = 68_719_476_736;

/// What AES-256-GCM encryption of `plaintext` under `key` and `nonce`, with
/// no associated data, returns: the ciphertext followed by the tag.
pub uninterp spec fn aes256_gcm_seal(key: Seq<u8>, nonce: Seq<u8>, plaintext: Seq<u8>) -> Seq<u8>;

/// What AES-256-GCM decryption of `sealed` under `key` and `nonce`, with no
/// associated data, returns: the plaintext where the tag verifies.
pub uninterp spec fn aes256_gcm_open(key: Seq<u8>, nonce: Seq<u8>, sealed: Seq<u8>) -> Option<
    Seq<u8>,
>;

/// Calls `Aes256Gcm::encrypt` of `aes-gcm`. Trusted: it fails exactly on a
/// plaintext beyond the cipher's limit; what it returns is the named result,
/// which is as long as the plaintext and a tag of 16 bytes; and decryption
/// under the same key and nonce gives the plaintext back.
#[verifier::external_body]
fn gcm_encrypt(key: &[u8], nonce: &[u8], plaintext: &[u8]) -> (sealed: Option<Vec<u8>>)
    requires
        key@.len() == KEY_LEN,
        nonce@.len() == NONCE_LEN,
    ensures
        sealed is Some <==> plaintext@.len() <= MAX_PLAINTEXT_LEN,
        sealed is Some ==> sealed->0@ == aes256_gcm_seal(key@, nonce@, plaintext@),
        sealed is Some ==> sealed->0@.len() == plaintext@.len() + TAG_LEN,
        sealed is Some ==> aes256_gcm_open(key@, nonce@, sealed->0@) == Some(plaintext@),
{
    let cipher = Aes256Gcm::new(aes_gcm::Key::<Aes256Gcm>::from_slice(key));
    cipher.encrypt(aes_gcm::Nonce::from_slice(nonce), plaintext).ok()
}

/// Calls `Aes256Gcm::decrypt` of `aes-gcm`. Trusted: what it returns is the
/// named result, and a plaintext that comes back is shorter than what was
/// sealed by the tag's 16 bytes, so that nothing shorter than a tag opens.
#[verifier::external_body]
fn gcm_decrypt(key: &[u8], nonce: &[u8], sealed: &[u8]) -> (opened: Option<Vec<u8>>)
    requires
        key@.len() == KEY_LEN,
        nonce@.len() == NONCE_LEN,
    ensures
        match opened {
            Some(plaintext) => aes256_gcm_open(key@, nonce@, sealed@) == Some(plaintext@),
            None => aes256_gcm_open(key@, nonce@, sealed@) is None,
        },
        opened is Some ==> opened->0@.len() + TAG_LEN == sealed@.len(),
{
    let cipher = Aes256Gcm::new(aes_gcm::Key::<Aes256Gcm>::from_slice(key));
    cipher.decrypt(aes_gcm::Nonce::from_slice(nonce), sealed).ok()
}

/// Calls `OsRng::try_fill_bytes`. Trusted: where the system's random source
/// answers, the result has the length asked for. Nothing is said of the
/// bytes themselves.
#[verifier::external_body]
pub(crate) fn os_random(len: usize) -> (bytes: Option<Vec<u8>>)
    ensures
        bytes is Some ==> bytes->0@.len() == len,
{
    let mut buffer = vec![0u8; len];
    match OsRng.try_fill_bytes(&mut buffer) {
        Ok(()) => Some(buffer),
        Err(_) => None,
    }
}

/// A 96-bit nonce. It is no secret, but must never serve twice under one key.
pub struct Nonce {
    bytes: Vec<u8>,
}

impl View for Nonce {
    type V = Seq<u8>;

    closed spec fn view(&self) -> Seq<u8> {
        self.bytes@
    }
}

impl Nonce {
    #[verifier::type_invariant]
    spec fn has_nonce_len(&self) -> bool {
        self.bytes@.len() == NONCE_LEN
    }

    /// Takes 12 bytes as a nonce; any other number of bytes is none.
    pub fn from_bytes(bytes: &[u8]) -> (nonce: Option<Nonce>)
        ensures
            nonce is Some <==> bytes@.len() == NONCE_LEN,
            nonce is Some ==> nonce->0@ == bytes@,
    {
        if bytes.len() == NONCE_LEN {
            Some(Nonce { bytes: slice_to_vec(bytes) })
        } else {
            None
        }
    }

    /// A nonce drawn from the system's random source, if that answers.
    pub fn fresh() -> (nonce: Option<Nonce>)
        ensures
            nonce is Some ==> nonce->0@.len() == NONCE_LEN,
    {
        match os_random(NONCE_LEN) {
            Some(bytes) => Some(Nonce { bytes }),
            None => None,
        }
    }

    /// The nonce's 12 bytes.
    pub fn as_bytes(&self) -> (bytes: &[u8])
        ensures
            bytes@ == self@,
            bytes@.len() == NONCE_LEN,
    {
        proof {
            use_type_invariant(self);
        }
        self.bytes.as_slice()
    }
}

/// A fresh nonce and the ciphertext made with it.
pub struct Sealed {
    pub nonce: Nonce,
    pub ciphertext: Vec<u8>,
}

/// What decryption returns for a nonce of any length: nothing authenticates
/// under a nonce that is not 12 bytes long.
pub open spec fn opening(key: Seq<u8>, nonce: Seq<u8>, sealed: Seq<u8>) -> Option<Seq<u8>> {
    if nonce.len() == NONCE_LEN {
        aes256_gcm_open(key, nonce, sealed)
    } else {
        None
    }
}

/// Encrypts `plaintext` under `key` with the given nonce. The whole
/// ciphertext is returned, or none of it.
///
/// The caller answers for the nonce: it must not have served under this key
/// before. [`encrypt`] draws a fresh one.
pub fn encrypt_with_nonce(key: &DerivedKey, nonce: &Nonce, plaintext: &[u8]) -> (sealed: Option<
    Vec<u8>,
>)
    ensures
        sealed is Some <==> plaintext@.len() <= MAX_PLAINTEXT_LEN,
        sealed is Some ==> sealed->0@ == aes256_gcm_seal(key@, nonce@, plaintext@),
        sealed is Some ==> sealed->0@.len() == plaintext@.len() + TAG_LEN,
        sealed is Some ==> opening(key@, nonce@, sealed->0@) == Some(plaintext@),
{
    gcm_encrypt(key.as_bytes(), nonce.as_bytes(), plaintext)
}

/// Encrypts `plaintext` under `key` with a nonce drawn for this call alone.
pub fn encrypt(key: &DerivedKey, plaintext: &[u8]) -> (sealed: Result<Sealed, SealError>)
    ensures
        sealed == Err::<Sealed, SealError>(SealError::TooLong) <==> plaintext@.len()
            > MAX_PLAINTEXT_LEN,
        sealed is Ok ==> sealed->Ok_0.ciphertext@ == aes256_gcm_seal(
            key@,
            sealed->Ok_0.nonce@,
            plaintext@,
        ),
        sealed is Ok ==> sealed->Ok_0.nonce@.len() == NONCE_LEN,
        sealed is Ok ==> sealed->Ok_0.ciphertext@.len() == plaintext@.len() + TAG_LEN,
        sealed is Ok ==> opening(key@, sealed->Ok_0.nonce@, sealed->Ok_0.ciphertext@) == Some(
            plaintext@,
        ),
{
    if plaintext.len() as u64 > MAX_PLAINTEXT_LEN {
        return Err(SealError::TooLong);
    }
    let nonce = match Nonce::fresh() {
        Some(nonce) => nonce,
        None => { return Err(SealError::RandomSource); },
    };
    match encrypt_with_nonce(key, &nonce, plaintext) {
        Some(ciphertext) => Ok(Sealed { nonce, ciphertext }),
        None => Err(SealError::TooLong),
    }
}

/// Decrypts `sealed` under `key` and `nonce`. The plaintext is returned only
/// where the tag verifies; a wrong key and altered bytes fail alike.
pub fn decrypt(key: &DerivedKey, nonce: &[u8], sealed: &[u8]) -> (opened: Result<
    Vec<u8>,
    AuthenticationFailure,
>)
    ensures
        match opened {
            Ok(plaintext) => opening(key@, nonce@, sealed@) == Some(plaintext@),
            Err(_) => opening(key@, nonce@, sealed@) is None,
        },
        opened is Ok ==> nonce@.len() == NONCE_LEN,
        opened is Ok ==> opened->Ok_0@.len() + TAG_LEN == sealed@.len(),
        sealed@.len() < TAG_LEN ==> opened is Err,
{
    if nonce.len() != NONCE_LEN {
        return Err(AuthenticationFailure);
    }
    match gcm_decrypt(key.as_bytes(), nonce, sealed) {
        Some(plaintext) => Ok(plaintext),
        None => Err(AuthenticationFailure),
    }
}

} // verus!
