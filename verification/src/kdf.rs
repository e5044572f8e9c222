//! Key derivation: PBKDF2 with HMAC-SHA-256 over a per-vault salt, keyed with
//! the SHA-256 digest of the passphrase.
//!
//! The hash itself comes from the `sha2` crate; HMAC and the PBKDF2 iteration
//! are built on it here and verified against their definitions.

use sha2::Digest;
use sha2::Sha256;
use vstd::prelude::*;
use vstd::slice::slice_to_vec;

use crate::error::DerivationError;

verus! {

/// Length of a derived key in bytes.
pub const KEY_LEN: usize = 32;

/// Shortest salt that key derivation accepts.
pub const MIN_SALT_LEN: usize = 16;

/// Longest salt that key derivation accepts.
pub const MAX_SALT_LEN: usize = 32;

/// Number of PBKDF2 iterations behind every vault key.
pub const KDF_ROUNDS: u32 = 60_000;

/// Block length of SHA-256, to which HMAC pads its key.
pub const HMAC_BLOCK_LEN: usize = 64;

/// The SHA-256 digest of a message.
pub uninterp spec fn sha256(message: Seq<u8>) -> Seq<u8>;

/// Calls `sha2::Sha256::digest`. Trusted: the result is the SHA-256 digest of
/// `message`, which is 32 bytes long.
#[verifier::external_body]
fn sha256_digest(message: &[u8]) -> (digest: Vec<u8>)
    ensures
        digest@ == sha256(message@),
        digest@.len() == 32,
{
    Sha256::digest(message).to_vec()
}

/// Every byte of `block` combined with `pad` by exclusive or.
pub open spec fn xor_with(block: Seq<u8>, pad: u8) -> Seq<u8> {
    Seq::new(block.len(), |i: int| block[i] ^ pad)
}

/// The bytes of `a`, each combined with the byte of `b` at the same place.
pub open spec fn xor_blocks(a: Seq<u8>, b: Seq<u8>) -> Seq<u8> {
    Seq::new(a.len(), |i: int| a[i] ^ b[i])
}

/// The HMAC key block: a key longer than a hash block is hashed first, and
/// the key is then filled up with zeros to the block length.
pub open spec fn hmac_key_block(key: Seq<u8>) -> Seq<u8> {
    let short = if key.len() > HMAC_BLOCK_LEN { sha256(key) } else { key };
    Seq::new(HMAC_BLOCK_LEN as nat, |i: int| if i < short.len() { short[i] } else { 0u8 })
}

/// HMAC-SHA-256 of `message` under `key`.
pub open spec fn hmac_sha256(key: Seq<u8>, message: Seq<u8>) -> Seq<u8> {
    let block = hmac_key_block(key);
    sha256(xor_with(block, 0x5c) + sha256(xor_with(block, 0x36) + message))
}

/// The `i`-th value of the PBKDF2 chain for the first output block: the MAC
/// of the salt and the block number 1, then the MAC of the previous value.
pub open spec fn pbkdf2_chain(password: Seq<u8>, salt: Seq<u8>, i: nat) -> Seq<u8>
    decreases i,
{
    if i <= 1 {
        hmac_sha256(password, salt + seq![0u8, 0u8, 0u8, 1u8])
    } else {
        hmac_sha256(password, pbkdf2_chain(password, salt, (i - 1) as nat))
    }
}

/// The first PBKDF2 output block after `rounds` iterations: the exclusive or
/// of the chain's first `rounds` values. No rounds count as one.
pub open spec fn pbkdf2_block(password: Seq<u8>, salt: Seq<u8>, rounds: nat) -> Seq<u8>
    decreases rounds,
{
    if rounds <= 1 {
        pbkdf2_chain(password, salt, 1)
    } else {
        xor_blocks(
            pbkdf2_block(password, salt, (rounds - 1) as nat),
            pbkdf2_chain(password, salt, rounds),
        )
    }
}

/// Whether `len` is an accepted salt length.
pub open spec fn salt_len_ok(len: nat) -> bool {
    MIN_SALT_LEN <= len <= MAX_SALT_LEN
}

/// The key that `passphrase` and `salt` derive with `rounds` iterations:
/// PBKDF2 keyed with the SHA-256 digest of the passphrase's UTF-8 bytes.
///
/// HMAC fills a short key up with zeros, so keyed with the passphrase itself
/// it would not tell a passphrase from the same one with zero bytes appended.
/// The digest has one length for every passphrase, and the key block is then
/// the digest itself (see [`lemma_key_block_tells_digests_apart`]).
pub open spec fn derived_key(passphrase: Seq<char>, salt: Seq<u8>, rounds: nat) -> Seq<u8> {
    pbkdf2_block(sha256(vstd::utf8::encode_utf8(passphrase)), salt, rounds)
}

/// The key block of a key no longer than a hash block begins with the key.
pub proof fn lemma_key_block_holds_key(key: Seq<u8>)
    requires
        key.len() <= HMAC_BLOCK_LEN,
    ensures
        hmac_key_block(key).len() == HMAC_BLOCK_LEN,
        hmac_key_block(key).subrange(0, key.len() as int) == key,
        forall|i: int| key.len() <= i < HMAC_BLOCK_LEN ==> hmac_key_block(key)[i] == 0u8,
{
    assert(hmac_key_block(key).subrange(0, key.len() as int) =~= key);
}

/// Keys of one length, no longer than a hash block, have different key
/// blocks where they differ. Two digests are such keys, so passphrases with
/// different digests key the MAC differently.
pub proof fn lemma_key_block_tells_digests_apart(first: Seq<u8>, second: Seq<u8>)
    requires
        first.len() == second.len(),
        first.len() <= HMAC_BLOCK_LEN,
        first != second,
    ensures
        hmac_key_block(first) != hmac_key_block(second),
{
    lemma_key_block_holds_key(first);
    lemma_key_block_holds_key(second);
}

/// An HMAC key prepared for repeated use: the key block under both pads.
struct HmacKey {
    inner: Vec<u8>,
    outer: Vec<u8>,
}

impl HmacKey {
    spec fn keyed_by(&self, key: Seq<u8>) -> bool {
        &&& self.inner@ == xor_with(hmac_key_block(key), 0x36)
        &&& self.outer@ == xor_with(hmac_key_block(key), 0x5c)
    }

    fn new(key: &[u8]) -> (prepared: HmacKey)
        ensures
            prepared.keyed_by(key@),
    {
        let short = if key.len() > HMAC_BLOCK_LEN {
            sha256_digest(key)
        } else {
            slice_to_vec(key)
        };
        let mut inner: Vec<u8> = Vec::new();
        let mut outer: Vec<u8> = Vec::new();
        let mut i: usize = 0;
        while i < HMAC_BLOCK_LEN
            invariant
                i <= HMAC_BLOCK_LEN,
                short@.len() <= HMAC_BLOCK_LEN,
                short@ == (if key@.len() > HMAC_BLOCK_LEN { sha256(key@) } else { key@ }),
                inner@.len() == i,
                outer@.len() == i,
                forall|j: int|
                    0 <= j < i ==> inner@[j] == #[trigger] hmac_key_block(key@)[j] ^ 0x36,
                forall|j: int|
                    0 <= j < i ==> outer@[j] == #[trigger] hmac_key_block(key@)[j] ^ 0x5c,
            decreases HMAC_BLOCK_LEN - i,
        {
            let byte: u8 = if i < short.len() { short[i] } else { 0u8 };
            inner.push(byte ^ 0x36);
            outer.push(byte ^ 0x5c);
            i += 1;
        }
        assert(inner@ =~= xor_with(hmac_key_block(key@), 0x36));
        assert(outer@ =~= xor_with(hmac_key_block(key@), 0x5c));
        HmacKey { inner, outer }
    }

    fn mac(&self, key: Ghost<Seq<u8>>, message: &[u8]) -> (tag: Vec<u8>)
        requires
            self.keyed_by(key@),
        ensures
            tag@ == hmac_sha256(key@, message@),
            tag@.len() == 32,
    {
        let mut first = self.inner.clone();
        first.extend_from_slice(message);
        assert(first@ =~= self.inner@ + message@);
        let digest = sha256_digest(first.as_slice());
        let mut second = self.outer.clone();
        second.extend_from_slice(digest.as_slice());
        assert(second@ =~= self.outer@ + digest@);
        sha256_digest(second.as_slice())
    }
}

/// HMAC-SHA-256 of `message` under `key`. As HMAC is defined, keys that
/// differ only in zero bytes at their end are one key.
pub fn hmac(key: &[u8], message: &[u8]) -> (tag: Vec<u8>)
    ensures
        tag@ == hmac_sha256(key@, message@),
        tag@.len() == 32,
{
    let prepared = HmacKey::new(key);
    prepared.mac(Ghost(key@), message)
}

/// PBKDF2 with HMAC-SHA-256, for an output of one hash length (32 bytes).
/// A `rounds` of zero is served as one round.
pub fn pbkdf2_hmac_sha256(password: &[u8], salt: &[u8], rounds: u32) -> (block: Vec<u8>)
    ensures
        block@ == pbkdf2_block(password@, salt@, rounds as nat),
        block@.len() == 32,
{
    let prepared = HmacKey::new(password);
    let mut first = slice_to_vec(salt);
    first.push(0u8);
    first.push(0u8);
    first.push(0u8);
    first.push(1u8);
    assert(first@ =~= salt@ + seq![0u8, 0u8, 0u8, 1u8]);
    let mut link = prepared.mac(Ghost(password@), first.as_slice());
    let mut block = link.clone();
    assert(block@ =~= link@);
    let mut done: u32 = 1;
    while done < rounds
        invariant
            1 <= done,
            done <= rounds || done == 1,
            prepared.keyed_by(password@),
            link@ == pbkdf2_chain(password@, salt@, done as nat),
            link@.len() == 32,
            block@ == pbkdf2_block(password@, salt@, done as nat),
            block@.len() == 32,
        decreases rounds - done,
    {
        link = prepared.mac(Ghost(password@), link.as_slice());
        done += 1;
        let ghost before = block@;
        let mut i: usize = 0;
        while i < 32
            invariant
                i <= 32,
                link@.len() == 32,
                block@.len() == 32,
                before.len() == 32,
                forall|j: int| 0 <= j < i ==> block@[j] == before[j] ^ link@[j],
                forall|j: int| i <= j < 32 ==> block@[j] == before[j],
            decreases 32 - i,
        {
            let mixed: u8 = block[i] ^ link[i];
            block.set(i, mixed);
            i += 1;
        }
        assert(block@ =~= xor_blocks(before, link@));
    }
    assert(pbkdf2_block(password@, salt@, 0) == pbkdf2_block(password@, salt@, 1));
    block
}

/// Overwrites every byte with zero, where it lies.
fn wipe_bytes(bytes: &mut Vec<u8>)
    ensures
        final(bytes)@ == Seq::new(old(bytes)@.len(), |i: int| 0u8),
{
    let mut i: usize = 0;
    while i < bytes.len()
        invariant
            i <= bytes@.len(),
            bytes@.len() == old(bytes)@.len(),
            forall|j: int| 0 <= j < i ==> bytes@[j] == 0u8,
        decreases bytes@.len() - i,
    {
        bytes.set(i, 0u8);
        i += 1;
    }
    assert(bytes@ =~= Seq::new(old(bytes)@.len(), |i: int| 0u8));
}

/// A 256-bit key derived from a passphrase. It lives only as long as the
/// operation that asked for it, and can be wiped once that is done.
pub struct DerivedKey {
    bytes: Vec<u8>,
}

impl View for DerivedKey {
    type V = Seq<u8>;

    closed spec fn view(&self) -> Seq<u8> {
        self.bytes@
    }
}

impl DerivedKey {
    #[verifier::type_invariant]
    spec fn has_key_len(&self) -> bool {
        self.bytes@.len() == KEY_LEN
    }

    /// Takes 32 bytes as a key; any other number of bytes is no key.
    pub fn from_bytes(bytes: &[u8]) -> (key: Option<DerivedKey>)
        ensures
            key is Some <==> bytes@.len() == KEY_LEN,
            key is Some ==> key->0@ == bytes@,
    {
        if bytes.len() == KEY_LEN {
            Some(DerivedKey { bytes: slice_to_vec(bytes) })
        } else {
            None
        }
    }

    /// The key's 32 bytes.
    pub fn as_bytes(&self) -> (bytes: &[u8])
        ensures
            bytes@ == self@,
            bytes@.len() == KEY_LEN,
    {
        proof {
            use_type_invariant(self);
        }
        self.bytes.as_slice()
    }

    /// Overwrites the key with zeros, byte by byte, where it lies.
    pub fn wipe(&mut self)
        ensures
            final(self)@ == Seq::new(KEY_LEN as nat, |i: int| 0u8),
    {
        proof {
            use_type_invariant(&*self);
        }
        // The key's own buffer is taken out, overwritten and put back; what
        // stands in for it meanwhile holds zeros only.
        let mut taken: Vec<u8> = vec![0u8; KEY_LEN];
        std::mem::swap(&mut taken, &mut self.bytes);
        wipe_bytes(&mut taken);
        self.bytes = taken;
    }
}

/// Derives the vault key from a passphrase and the vault's salt, with
/// `rounds` PBKDF2 iterations keyed by the passphrase's digest. Any
/// passphrase is accepted, the empty one too; only a salt of the wrong
/// length is refused.
pub fn derive_key_with_rounds(passphrase: &str, salt: &[u8], rounds: u32) -> (key: Result<
    DerivedKey,
    DerivationError,
>)
    ensures
        key is Ok <==> salt_len_ok(salt@.len()),
        key is Ok ==> key->Ok_0@ == derived_key(passphrase@, salt@, rounds as nat),
{
    if salt.len() < MIN_SALT_LEN || salt.len() > MAX_SALT_LEN {
        return Err(DerivationError);
    }
    let mut digest = sha256_digest(passphrase.as_bytes());
    let bytes = pbkdf2_hmac_sha256(digest.as_slice(), salt, rounds);
    wipe_bytes(&mut digest);
    Ok(DerivedKey { bytes })
}

/// Derives the vault key from a passphrase and the vault's salt.
pub fn derive_key(passphrase: &str, salt: &[u8]) -> (key: Result<DerivedKey, DerivationError>)
    ensures
        key is Ok <==> salt_len_ok(salt@.len()),
        key is Ok ==> key->Ok_0@ == derived_key(passphrase@, salt@, KDF_ROUNDS as nat),
{
    derive_key_with_rounds(passphrase, salt, KDF_ROUNDS)
}

} // verus!
