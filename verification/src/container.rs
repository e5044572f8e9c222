//! The vault container: what is kept on disk.
//!
//! A container is the format version (a `u32`, least significant byte
//! first), one byte with the salt's length, the salt, the 12 bytes of the
//! nonce, and the ciphertext up to the end.

use vstd::prelude::*;
use vstd::slice::slice_subrange;
use vstd::slice::slice_to_vec;

use crate::aead::Nonce;
use crate::aead::NONCE_LEN;
use crate::error::DerivationError;
use crate::error::VaultError;
use crate::kdf::salt_len_ok;
use crate::kdf::MAX_SALT_LEN;
use crate::kdf::MIN_SALT_LEN;

verus! {

/// The one format version that this library writes and reads.
pub const FORMAT_VERSION: u32 = 1;

/// Number of bytes that precede the salt: the version and the salt's length.
pub const HEADER_LEN: usize = 5;

/// Number of bytes that hold the format version.
pub const VERSION_LEN: usize = 4;

/// The four bytes of a version number, least significant byte first.
pub open spec fn version_bytes(version: u32) -> Seq<u8> {
    seq![
        (version % 256) as u8,
        (version / 256 % 256) as u8,
        (version / 256 / 256 % 256) as u8,
        (version / 256 / 256 / 256) as u8,
    ]
}

/// The version number that the first four bytes hold, least significant
/// byte first.
pub open spec fn stored_version(bytes: Seq<u8>) -> int {
    bytes[0] + 256 * (bytes[1] + 256 * (bytes[2] + 256 * bytes[3]))
}

/// A number below 256 times `high`, plus `low` below 256, divides back into
/// the two.
proof fn lemma_digit(low: int, high: int)
    requires
        0 <= low < 256,
        0 <= high,
    ensures
        (low + 256 * high) % 256 == low,
        (low + 256 * high) / 256 == high,
{
}

/// A version number is read back from its four bytes.
pub proof fn lemma_version_of_bytes(version: u32)
    ensures
        version_bytes(version).len() == VERSION_LEN,
        stored_version(version_bytes(version)) == version,
{
    let v = version as int;
    let q1 = v / 256;
    let q2 = q1 / 256;
    let q3 = q2 / 256;
    assert(v == v % 256 + 256 * q1);
    assert(q1 == q1 % 256 + 256 * q2);
    assert(q2 == q2 % 256 + 256 * q3);
    assert(0 <= q3 < 256);
}

/// Four bytes that hold a version number are that number's bytes.
pub proof fn lemma_bytes_of_version(bytes: Seq<u8>, version: u32)
    requires
        bytes.len() >= VERSION_LEN,
        stored_version(bytes) == version,
    ensures
        bytes.subrange(0, VERSION_LEN as int) == version_bytes(version),
{
    let b0 = bytes[0] as int;
    let b1 = bytes[1] as int;
    let b2 = bytes[2] as int;
    let b3 = bytes[3] as int;
    lemma_digit(b0, b1 + 256 * (b2 + 256 * b3));
    lemma_digit(b1, b2 + 256 * b3);
    lemma_digit(b2, b3);
    assert(bytes.subrange(0, VERSION_LEN as int) =~= version_bytes(version));
}

/// What the contracts see of a container.
pub ghost struct ContainerView {
    pub format_version: u32,
    pub salt: Seq<u8>,
    pub nonce: Seq<u8>,
    pub ciphertext: Seq<u8>,
}

impl ContainerView {
    /// A salt of accepted length, a nonce of 12 bytes, the version that this
    /// library writes.
    pub open spec fn well_formed(self) -> bool {
        &&& self.format_version == FORMAT_VERSION
        &&& salt_len_ok(self.salt.len())
        &&& self.nonce.len() == NONCE_LEN
    }

    /// The container's bytes on disk.
    pub open spec fn bytes(self) -> Seq<u8> {
        version_bytes(self.format_version) + seq![self.salt.len() as u8] + self.salt
            + self.nonce + self.ciphertext
    }
}

/// The container that `bytes` hold, or why they hold none. A version other
/// than the known one is refused before anything else is looked at.
pub open spec fn parse_container(bytes: Seq<u8>) -> Result<ContainerView, VaultError> {
    if bytes.len() < VERSION_LEN {
        Err(VaultError::OpenFailed)
    } else if stored_version(bytes) != FORMAT_VERSION {
        Err(VaultError::UnsupportedVersion)
    } else if bytes.len() < HEADER_LEN {
        Err(VaultError::OpenFailed)
    } else if !salt_len_ok(bytes[4] as nat) {
        Err(VaultError::DerivationError)
    } else if bytes.len() < HEADER_LEN + bytes[4] + NONCE_LEN {
        Err(VaultError::OpenFailed)
    } else {
        Ok(
            ContainerView {
                format_version: FORMAT_VERSION,
                salt: bytes.subrange(HEADER_LEN as int, HEADER_LEN + bytes[4]),
                nonce: bytes.subrange(HEADER_LEN + bytes[4], HEADER_LEN + bytes[4] + NONCE_LEN),
                ciphertext: bytes.subrange(HEADER_LEN + bytes[4] + NONCE_LEN, bytes.len() as int),
            },
        )
    }
}

/// The bytes of a well-formed container are read back as that container.
pub proof fn lemma_parse_of_bytes(container: ContainerView)
    requires
        container.well_formed(),
    ensures
        parse_container(container.bytes()) == Ok::<ContainerView, VaultError>(container),
{
    let bytes = container.bytes();
    let n = container.salt.len() as int;
    lemma_version_of_bytes(FORMAT_VERSION);
    assert(stored_version(bytes) == stored_version(version_bytes(FORMAT_VERSION)));
    assert(bytes[4] == n as u8);
    assert(bytes.subrange(HEADER_LEN as int, HEADER_LEN + n) =~= container.salt);
    assert(bytes.subrange(HEADER_LEN + n, HEADER_LEN + n + NONCE_LEN) =~= container.nonce);
    assert(bytes.subrange(HEADER_LEN + n + NONCE_LEN, bytes.len() as int)
        =~= container.ciphertext);
}

/// What was read as a container is well formed and has exactly the bytes it
/// was read from.
pub proof fn lemma_bytes_of_parsed(bytes: Seq<u8>)
    requires
        parse_container(bytes) is Ok,
    ensures
        parse_container(bytes)->Ok_0.well_formed(),
        parse_container(bytes)->Ok_0.bytes() == bytes,
{
    let container = parse_container(bytes)->Ok_0;
    lemma_bytes_of_version(bytes, FORMAT_VERSION);
    assert(container.bytes() =~= bytes);
}

/// Containers that differ in their nonce differ in their bytes.
pub proof fn lemma_nonce_shows(first: ContainerView, second: ContainerView)
    requires
        first.well_formed(),
        second.well_formed(),
        first.nonce != second.nonce,
    ensures
        first.bytes() != second.bytes(),
{
    lemma_parse_of_bytes(first);
    lemma_parse_of_bytes(second);
}

/// No byte of the nonce or the ciphertext is idle: with one of them altered,
/// the bytes still hold a container with the same salt, and its nonce or its
/// ciphertext differs from the one that was stored.
pub proof fn lemma_altered_byte_shows(bytes: Seq<u8>, at: int, byte: u8)
    requires
        parse_container(bytes) is Ok,
        HEADER_LEN + bytes[4] <= at < bytes.len(),
        byte != bytes[at],
    ensures
        ({
            let stored = parse_container(bytes)->Ok_0;
            let altered = parse_container(bytes.update(at, byte));
            &&& altered is Ok
            &&& altered->Ok_0.salt == stored.salt
            &&& altered->Ok_0.nonce != stored.nonce || altered->Ok_0.ciphertext
                != stored.ciphertext
        }),
{
    let changed = bytes.update(at, byte);
    let n = bytes[4] as int;
    assert(stored_version(changed) == stored_version(bytes));
    assert(changed.subrange(HEADER_LEN as int, HEADER_LEN + n) =~= bytes.subrange(
        HEADER_LEN as int,
        HEADER_LEN + n,
    ));
    let stored = parse_container(bytes)->Ok_0;
    let altered = parse_container(changed)->Ok_0;
    if at < HEADER_LEN + n + NONCE_LEN {
        assert(altered.nonce[at - HEADER_LEN - n] == byte);
        assert(stored.nonce[at - HEADER_LEN - n] == bytes[at]);
    } else {
        assert(altered.ciphertext[at - HEADER_LEN - n - NONCE_LEN] == byte);
        assert(stored.ciphertext[at - HEADER_LEN - n - NONCE_LEN] == bytes[at]);
    }
}

/// Appends the four bytes of a version number.
fn put_version(out: &mut Vec<u8>, version: u32)
    ensures
        final(out)@ == old(out)@ + version_bytes(version),
{
    out.push((version % 256) as u8);
    out.push((version / 256 % 256) as u8);
    out.push((version / 256 / 256 % 256) as u8);
    out.push((version / 256 / 256 / 256) as u8);
    assert(out@ =~= old(out)@ + version_bytes(version));
}

/// Reads the version number at the head of a container.
fn take_version(bytes: &[u8]) -> (version: u32)
    requires
        bytes@.len() >= VERSION_LEN,
    ensures
        version == stored_version(bytes@),
{
    let high: u32 = bytes[2] as u32 + 256 * (bytes[3] as u32);
    let upper: u32 = bytes[1] as u32 + 256 * high;
    bytes[0] as u32 + 256 * upper
}

/// A container in memory: a salt of 16 to 32 bytes, a nonce and a ciphertext.
pub struct VaultContainer {
    salt: Vec<u8>,
    nonce: Nonce,
    ciphertext: Vec<u8>,
}

impl View for VaultContainer {
    type V = ContainerView;

    closed spec fn view(&self) -> ContainerView {
        ContainerView {
            format_version: FORMAT_VERSION,
            salt: self.salt@,
            nonce: self.nonce@,
            ciphertext: self.ciphertext@,
        }
    }
}

impl VaultContainer {
    #[verifier::type_invariant]
    spec fn valid(&self) -> bool {
        self@.well_formed()
    }

    /// A container of the given parts. Only a salt of the wrong length is
    /// refused.
    pub fn new(salt: &[u8], nonce: Nonce, ciphertext: Vec<u8>) -> (made: Result<
        VaultContainer,
        DerivationError,
    >)
        ensures
            made is Ok <==> salt_len_ok(salt@.len()),
            made is Ok ==> made->Ok_0@ == (ContainerView {
                format_version: FORMAT_VERSION,
                salt: salt@,
                nonce: nonce@,
                ciphertext: ciphertext@,
            }),
            made is Ok ==> made->Ok_0@.well_formed(),
    {
        if salt.len() < MIN_SALT_LEN || salt.len() > MAX_SALT_LEN {
            return Err(DerivationError);
        }
        // Looking at the nonce brings its length into view, which the
        // container's invariant asks for.
        let _ = nonce.as_bytes();
        Ok(VaultContainer { salt: slice_to_vec(salt), nonce, ciphertext })
    }

    /// The format version, which is always the one this library writes.
    pub fn format_version(&self) -> (version: u32)
        ensures
            version == self@.format_version,
            version == FORMAT_VERSION,
    {
        FORMAT_VERSION
    }

    /// The salt from which the vault's key is derived.
    pub fn salt(&self) -> (salt: &[u8])
        ensures
            salt@ == self@.salt,
            salt_len_ok(salt@.len()),
    {
        proof {
            use_type_invariant(self);
        }
        self.salt.as_slice()
    }

    /// The nonce under which the ciphertext was made.
    pub fn nonce(&self) -> (nonce: &Nonce)
        ensures
            nonce@ == self@.nonce,
            nonce@.len() == NONCE_LEN,
    {
        proof {
            use_type_invariant(self);
        }
        &self.nonce
    }

    /// The ciphertext with its tag.
    pub fn ciphertext(&self) -> (ciphertext: &[u8])
        ensures
            ciphertext@ == self@.ciphertext,
    {
        self.ciphertext.as_slice()
    }

    /// The container's bytes on disk. They are read back as this container.
    pub fn to_bytes(&self) -> (bytes: Vec<u8>)
        ensures
            bytes@ == self@.bytes(),
            self@.well_formed(),
            parse_container(bytes@) == Ok::<ContainerView, VaultError>(self@),
    {
        proof {
            use_type_invariant(self);
            lemma_parse_of_bytes(self@);
        }
        let mut bytes: Vec<u8> = Vec::new();
        put_version(&mut bytes, FORMAT_VERSION);
        bytes.push(self.salt.len() as u8);
        bytes.extend_from_slice(self.salt.as_slice());
        bytes.extend_from_slice(self.nonce.as_bytes());
        bytes.extend_from_slice(self.ciphertext.as_slice());
        assert(bytes@ =~= self@.bytes());
        bytes
    }

    /// Reads a container from its bytes.
    pub fn parse(bytes: &[u8]) -> (parsed: Result<VaultContainer, VaultError>)
        ensures
            match parsed {
                Ok(container) => parse_container(bytes@) == Ok::<ContainerView, VaultError>(
                    container@,
                ) && container@.well_formed(),
                Err(e) => parse_container(bytes@) == Err::<ContainerView, VaultError>(e),
            },
    {
        if bytes.len() < VERSION_LEN {
            return Err(VaultError::OpenFailed);
        }
        if take_version(bytes) != FORMAT_VERSION {
            return Err(VaultError::UnsupportedVersion);
        }
        if bytes.len() < HEADER_LEN {
            return Err(VaultError::OpenFailed);
        }
        let salt_len: usize = bytes[4] as usize;
        if salt_len < MIN_SALT_LEN || salt_len > MAX_SALT_LEN {
            return Err(VaultError::DerivationError);
        }
        if bytes.len() < HEADER_LEN + salt_len + NONCE_LEN {
            return Err(VaultError::OpenFailed);
        }
        let salt_end: usize = HEADER_LEN + salt_len;
        let nonce_end: usize = salt_end + NONCE_LEN;
        let salt = slice_to_vec(slice_subrange(bytes, HEADER_LEN, salt_end));
        let nonce = match Nonce::from_bytes(slice_subrange(bytes, salt_end, nonce_end)) {
            Some(nonce) => nonce,
            None => { return Err(VaultError::OpenFailed); },
        };
        let ciphertext = slice_to_vec(slice_subrange(bytes, nonce_end, bytes.len()));
        Ok(VaultContainer { salt, nonce, ciphertext })
    }
}

} // verus!
