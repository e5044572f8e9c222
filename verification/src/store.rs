//! Opening and saving a vault.
//!
//! This module turns a container's bytes and a passphrase into a credential
//! set and back. It reads and writes no file: [`open`] takes what reading the
//! vault file gave, [`save`] returns the bytes of the new container, and
//! [`SaveProgress`](crate::atomic::SaveProgress) tells the caller in which
//! order to write them out so that the earlier container is replaced at once
//! or not at all.

use vstd::prelude::*;

use crate::aead::aes256_gcm_open;
use crate::aead::aes256_gcm_seal;
use crate::aead::decrypt;
use crate::aead::encrypt_with_nonce;
use crate::aead::opening;
use crate::aead::os_random;
use crate::aead::Nonce;
use crate::aead::MAX_PLAINTEXT_LEN;
use crate::aead::NONCE_LEN;
use crate::aead::TAG_LEN;
use crate::codec::decode;
use crate::codec::decoding;
use crate::codec::encodable;
use crate::codec::encode;
use crate::codec::encoding;
use crate::codec::lemma_decode_encode;
use crate::container::lemma_parse_of_bytes;
use crate::container::parse_container;
use crate::container::ContainerView;
use crate::container::VaultContainer;
use crate::container::FORMAT_VERSION;
use crate::container::HEADER_LEN;
use crate::credentials::records_ok;
use crate::credentials::CredentialSet;
use crate::credentials::Record;
use crate::error::VaultError;
use crate::kdf::derive_key;
use crate::kdf::derived_key;
use crate::kdf::salt_len_ok;
use crate::kdf::KDF_ROUNDS;
use crate::kdf::MIN_SALT_LEN;

verus! {

/// The key of the vault with this passphrase and salt.
pub open spec fn vault_key(passphrase: Seq<char>, salt: Seq<u8>) -> Seq<u8> {
    derived_key(passphrase, salt, KDF_ROUNDS as nat)
}

/// What opening `bytes` with `passphrase` gives: the records, where the
/// bytes hold a container whose ciphertext authenticates under the key of
/// passphrase and stored salt and whose plaintext decodes. Failure to
/// authenticate and failure to decode are the same error.
pub open spec fn opened(bytes: Seq<u8>, passphrase: Seq<char>) -> Result<Seq<Record>, VaultError> {
    match parse_container(bytes) {
        Err(e) => Err(e),
        Ok(container) => match opening(
            vault_key(passphrase, container.salt),
            container.nonce,
            container.ciphertext,
        ) {
            None => Err(VaultError::OpenFailed),
            Some(plaintext) => match decoding(plaintext) {
                None => Err(VaultError::OpenFailed),
                Some(records) => Ok(records),
            },
        },
    }
}

/// The container that holds `records` under `passphrase`, made with the
/// given salt and nonce.
pub open spec fn sealed(
    records: Seq<Record>,
    passphrase: Seq<char>,
    salt: Seq<u8>,
    nonce: Seq<u8>,
) -> ContainerView {
    ContainerView {
        format_version: FORMAT_VERSION,
        salt,
        nonce,
        ciphertext: aes256_gcm_seal(vault_key(passphrase, salt), nonce, encoding(records)),
    }
}

/// A sealed container opens to what was sealed, with the same passphrase:
/// for valid records that can be written down, a salt and a nonce of
/// accepted lengths, and provided that the cipher opens what it sealed under
/// this key and nonce.
pub proof fn lemma_sealed_opens(
    records: Seq<Record>,
    passphrase: Seq<char>,
    salt: Seq<u8>,
    nonce: Seq<u8>,
)
    requires
        records_ok(records),
        encodable(records),
        salt_len_ok(salt.len()),
        nonce.len() == NONCE_LEN,
        aes256_gcm_open(
            vault_key(passphrase, salt),
            nonce,
            aes256_gcm_seal(vault_key(passphrase, salt), nonce, encoding(records)),
        ) == Some(encoding(records)),
    ensures
        opened(sealed(records, passphrase, salt, nonce).bytes(), passphrase) == Ok::<
            Seq<Record>,
            VaultError,
        >(records),
{
    lemma_parse_of_bytes(sealed(records, passphrase, salt, nonce));
    lemma_decode_encode(records);
}

/// Altering a byte of the stored nonce or ciphertext is never passed over:
/// the altered container opens only if the cipher authenticates a nonce and
/// ciphertext other than the stored ones, and in every other case opening
/// fails with `OpenFailed`.
pub proof fn lemma_altered_container(bytes: Seq<u8>, passphrase: Seq<char>, at: int, byte: u8)
    requires
        parse_container(bytes) is Ok,
        HEADER_LEN + bytes[4] <= at < bytes.len(),
        byte != bytes[at],
    ensures
        ({
            let stored = parse_container(bytes)->Ok_0;
            let altered = parse_container(bytes.update(at, byte))->Ok_0;
            let result = opened(bytes.update(at, byte), passphrase);
            &&& altered.nonce != stored.nonce || altered.ciphertext != stored.ciphertext
            &&& result is Ok ==> opening(
                vault_key(passphrase, stored.salt),
                altered.nonce,
                altered.ciphertext,
            ) is Some
            &&& result is Err ==> result == Err::<Seq<Record>, VaultError>(VaultError::OpenFailed)
        }),
{
    crate::container::lemma_altered_byte_shows(bytes, at, byte);
}

/// The length of a container with a salt of `salt_len` bytes around a
/// plaintext of `plaintext_len` bytes: the header, the salt, the nonce, and
/// the ciphertext, which is the plaintext's length and the tag.
pub open spec fn container_len(salt_len: nat, plaintext_len: nat) -> nat {
    HEADER_LEN as nat + salt_len + NONCE_LEN as nat + plaintext_len + TAG_LEN as nat
}

/// Opens a container: parses it, derives the key from the stored salt,
/// decrypts and decodes.
pub fn open_bytes(bytes: &[u8], passphrase: &str) -> (set: Result<CredentialSet, VaultError>)
    ensures
        match set {
            Ok(set) => opened(bytes@, passphrase@) == Ok::<Seq<Record>, VaultError>(set.records()),
            Err(e) => opened(bytes@, passphrase@) == Err::<Seq<Record>, VaultError>(e),
        },
{
    let container = match VaultContainer::parse(bytes) {
        Ok(container) => container,
        Err(e) => { return Err(e); },
    };
    let mut key = match derive_key(passphrase, container.salt()) {
        Ok(key) => key,
        Err(_) => { return Err(VaultError::DerivationError); },
    };
    let plaintext = decrypt(&key, container.nonce().as_bytes(), container.ciphertext());
    key.wipe();
    match plaintext {
        Ok(plaintext) => match decode(plaintext.as_slice()) {
            Ok(set) => Ok(set),
            Err(_) => Err(VaultError::OpenFailed),
        },
        Err(_) => Err(VaultError::OpenFailed),
    }
}

/// Seals a set into a container's bytes with the given salt and nonce.
/// Opening the result with the same passphrase gives the set back.
///
/// The caller answers for the nonce: it must not have served with this
/// passphrase and salt before. [`save`] draws a fresh one.
pub fn seal_with(set: &CredentialSet, passphrase: &str, salt: &[u8], nonce: Nonce) -> (bytes:
    Result<Vec<u8>, VaultError>)
    ensures
        match bytes {
            Ok(bytes) => {
                &&& salt_len_ok(salt@.len())
                &&& encoding(set.records()).len() <= MAX_PLAINTEXT_LEN
                &&& bytes@ == sealed(set.records(), passphrase@, salt@, nonce@).bytes()
                &&& parse_container(bytes@) == Ok::<ContainerView, VaultError>(
                    sealed(set.records(), passphrase@, salt@, nonce@),
                )
                &&& nonce@.len() == NONCE_LEN
                &&& bytes@.len() == container_len(salt@.len(), encoding(set.records()).len())
                &&& opened(bytes@, passphrase@) == Ok::<Seq<Record>, VaultError>(set.records())
            },
            Err(e) => if salt_len_ok(salt@.len()) {
                e == VaultError::IoError && encoding(set.records()).len() > MAX_PLAINTEXT_LEN
            } else {
                e == VaultError::DerivationError
            },
        },
{
    let mut key = match derive_key(passphrase, salt) {
        Ok(key) => key,
        Err(_) => { return Err(VaultError::DerivationError); },
    };
    let plaintext = encode(set);
    let ciphertext = encrypt_with_nonce(&key, &nonce, plaintext.as_slice());
    key.wipe();
    let ciphertext = match ciphertext {
        Some(ciphertext) => ciphertext,
        None => { return Err(VaultError::IoError); },
    };
    match VaultContainer::new(salt, nonce, ciphertext) {
        Ok(container) => Ok(container.to_bytes()),
        Err(_) => Err(VaultError::DerivationError),
    }
}

/// What reading the vault file gave.
pub enum FileRead {
    /// There is no file at the vault's path.
    Missing,
    /// There is a file, but it could not be read.
    Failed,
    /// The file's bytes.
    Contents(Vec<u8>),
}

/// What opening a vault gives, from what reading its file gave: no file is
/// `NotFound`, a failed read is `IoError`, and bytes are opened as a
/// container.
pub open spec fn opened_from(read: FileRead, passphrase: Seq<char>) -> Result<
    Seq<Record>,
    VaultError,
> {
    match read {
        FileRead::Missing => Err(VaultError::NotFound),
        FileRead::Failed => Err(VaultError::IoError),
        FileRead::Contents(bytes) => opened(bytes@, passphrase),
    }
}

/// Opens the vault from what reading its file gave. A missing file is
/// reported as such: whether to start an empty vault then is the caller's
/// decision.
pub fn open(read: &FileRead, passphrase: &str) -> (set: Result<CredentialSet, VaultError>)
    ensures
        match set {
            Ok(set) => opened_from(*read, passphrase@) == Ok::<Seq<Record>, VaultError>(
                set.records(),
            ),
            Err(e) => opened_from(*read, passphrase@) == Err::<Seq<Record>, VaultError>(e),
        },
{
    match read {
        FileRead::Missing => Err(VaultError::NotFound),
        FileRead::Failed => Err(VaultError::IoError),
        FileRead::Contents(bytes) => open_bytes(bytes.as_slice(), passphrase),
    }
}

/// The salt that an earlier container at the vault's path stores, where the
/// file holds a container.
pub open spec fn stored_salt(previous: FileRead) -> Option<Seq<u8>> {
    match previous {
        FileRead::Contents(bytes) => match parse_container(bytes@) {
            Ok(container) => Some(container.salt),
            Err(_) => None,
        },
        _ => None,
    }
}

/// The salt that an earlier container at the vault's path stores.
pub fn stored_salt_of(previous: &FileRead) -> (salt: Option<Vec<u8>>)
    ensures
        match salt {
            Some(salt) => stored_salt(*previous) == Some(salt@),
            None => stored_salt(*previous) is None,
        },
{
    match previous {
        FileRead::Contents(bytes) => match VaultContainer::parse(bytes.as_slice()) {
            Ok(container) => Some(vstd::slice::slice_to_vec(container.salt())),
            Err(_) => None,
        },
        _ => None,
    }
}

/// The bytes to save, for each thing that the random source may have given.
/// The salt is the one already stored, or else the one drawn; the nonce is
/// always the one drawn. A file that could not be read, a random source
/// that gave nothing and a set too large to seal are an `IoError`.
pub open spec fn saved(
    records: Seq<Record>,
    passphrase: Seq<char>,
    previous: FileRead,
    drawn_salt: Option<Seq<u8>>,
    drawn_nonce: Option<Seq<u8>>,
) -> Result<Seq<u8>, VaultError> {
    let salt = if stored_salt(previous) is Some {
        stored_salt(previous)
    } else {
        drawn_salt
    };
    if previous is Failed || salt is None || drawn_nonce is None {
        Err(VaultError::IoError)
    } else if !salt_len_ok(salt->0.len()) {
        Err(VaultError::DerivationError)
    } else if encoding(records).len() > MAX_PLAINTEXT_LEN {
        Err(VaultError::IoError)
    } else {
        Ok(sealed(records, passphrase, salt->0, drawn_nonce->0).bytes())
    }
}

/// Two saves that drew different nonces write different containers, though
/// set, passphrase and salt be the same; and the nonce that a container
/// stores is the one that was drawn for it.
pub proof fn lemma_saves_differ(
    records: Seq<Record>,
    passphrase: Seq<char>,
    previous: FileRead,
    drawn_salt: Option<Seq<u8>>,
    first: Seq<u8>,
    second: Seq<u8>,
)
    requires
        first.len() == NONCE_LEN,
        second.len() == NONCE_LEN,
        first != second,
        saved(records, passphrase, previous, drawn_salt, Some(first)) is Ok,
    ensures
        ({
            let one = saved(records, passphrase, previous, drawn_salt, Some(first));
            let other = saved(records, passphrase, previous, drawn_salt, Some(second));
            &&& other is Ok
            &&& one->Ok_0 != other->Ok_0
            &&& parse_container(one->Ok_0) is Ok
            &&& parse_container(one->Ok_0)->Ok_0.nonce == first
            &&& parse_container(other->Ok_0) is Ok
            &&& parse_container(other->Ok_0)->Ok_0.nonce == second
        }),
{
    let salt = if stored_salt(previous) is Some {
        stored_salt(previous)->0
    } else {
        drawn_salt->0
    };
    let one = sealed(records, passphrase, salt, first);
    let other = sealed(records, passphrase, salt, second);
    lemma_parse_of_bytes(one);
    lemma_parse_of_bytes(other);
    crate::container::lemma_nonce_shows(one, other);
}

/// Seals the set for saving, given what the random source gave. Opening the
/// result with the same passphrase gives the set back.
pub fn save_with(
    set: &CredentialSet,
    passphrase: &str,
    previous: &FileRead,
    drawn_salt: Option<Vec<u8>>,
    drawn_nonce: Option<Nonce>,
) -> (bytes: Result<Vec<u8>, VaultError>)
    ensures
        match bytes {
            Ok(bytes) => {
                &&& saved(
                    set.records(),
                    passphrase@,
                    *previous,
                    match drawn_salt {
                        Some(salt) => Some(salt@),
                        None => None,
                    },
                    match drawn_nonce {
                        Some(nonce) => Some(nonce@),
                        None => None,
                    },
                ) == Ok::<Seq<u8>, VaultError>(bytes@)
                &&& parse_container(bytes@) is Ok
                &&& bytes@.len() == container_len(
                    parse_container(bytes@)->Ok_0.salt.len(),
                    encoding(set.records()).len(),
                )
                &&& opened(bytes@, passphrase@) == Ok::<Seq<Record>, VaultError>(set.records())
            },
            Err(e) => saved(
                set.records(),
                passphrase@,
                *previous,
                match drawn_salt {
                    Some(salt) => Some(salt@),
                    None => None,
                },
                match drawn_nonce {
                    Some(nonce) => Some(nonce@),
                    None => None,
                },
            ) == Err::<Seq<u8>, VaultError>(e),
        },
{
    if let FileRead::Failed = previous {
        return Err(VaultError::IoError);
    }
    let salt = match stored_salt_of(previous) {
        Some(salt) => salt,
        None => match drawn_salt {
            Some(salt) => salt,
            None => { return Err(VaultError::IoError); },
        },
    };
    match drawn_nonce {
        Some(nonce) => seal_with(set, passphrase, salt.as_slice(), nonce),
        None => Err(VaultError::IoError),
    }
}

/// A salt for a new vault, drawn from the system's random source, if that
/// answers.
pub fn fresh_salt() -> (salt: Option<Vec<u8>>)
    ensures
        salt is Some ==> salt->0@.len() == MIN_SALT_LEN,
{
    os_random(MIN_SALT_LEN)
}

/// Seals the set for saving: under the salt that the earlier container
/// stores, or under a fresh one where there is none, and always under a
/// fresh nonce. The caller writes the bytes out as
/// [`SaveProgress`](crate::atomic::SaveProgress) directs.
pub fn save(set: &CredentialSet, passphrase: &str, previous: &FileRead) -> (bytes: Result<
    Vec<u8>,
    VaultError,
>)
    ensures
        previous is Failed ==> bytes is Err,
        encoding(set.records()).len() > MAX_PLAINTEXT_LEN ==> bytes is Err,
        bytes is Err ==> bytes->Err_0 == VaultError::IoError,
        bytes is Ok ==> {
            &&& opened(bytes->Ok_0@, passphrase@) == Ok::<Seq<Record>, VaultError>(set.records())
            &&& parse_container(bytes->Ok_0@) is Ok
            &&& parse_container(bytes->Ok_0@)->Ok_0.well_formed()
            &&& bytes->Ok_0@.len() == container_len(
                parse_container(bytes->Ok_0@)->Ok_0.salt.len(),
                encoding(set.records()).len(),
            )
            &&& bytes->Ok_0@.len() >= HEADER_LEN + MIN_SALT_LEN + NONCE_LEN + TAG_LEN
            &&& stored_salt(*previous) is Some ==> parse_container(bytes->Ok_0@)->Ok_0.salt
                == stored_salt(*previous)->0
            &&& stored_salt(*previous) is None ==> parse_container(bytes->Ok_0@)->Ok_0.salt.len()
                == MIN_SALT_LEN
            &&& parse_container(bytes->Ok_0@)->Ok_0.ciphertext == aes256_gcm_seal(
                vault_key(passphrase@, parse_container(bytes->Ok_0@)->Ok_0.salt),
                parse_container(bytes->Ok_0@)->Ok_0.nonce,
                encoding(set.records()),
            )
        },
{
    let drawn_salt = match stored_salt_of(previous) {
        Some(_) => None,
        None => fresh_salt(),
    };
    let drawn_nonce = Nonce::fresh();
    proof {
        if stored_salt(*previous) is Some {
            crate::container::lemma_bytes_of_parsed(previous->Contents_0@);
        }
        if drawn_nonce is Some {
            let salt = if stored_salt(*previous) is Some {
                stored_salt(*previous)
            } else if drawn_salt is Some {
                Some(drawn_salt->0@)
            } else {
                None
            };
            if salt is Some && salt_len_ok(salt->0.len()) {
                lemma_parse_of_bytes(sealed(set.records(), passphrase@, salt->0, drawn_nonce->0@));
            }
        }
    }
    save_with(set, passphrase, previous, drawn_salt, drawn_nonce)
}

} // verus!
