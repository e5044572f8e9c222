use passvault::aead::decrypt;
use passvault::aead::encrypt;
use passvault::aead::encrypt_with_nonce;
use passvault::aead::Nonce;
use passvault::aead::NONCE_LEN;
use passvault::aead::TAG_LEN;
use passvault::error::AuthenticationFailure;
use passvault::kdf::DerivedKey;

fn to_hex(bytes: &[u8]) -> String {
    let mut text = String::new();
    for byte in bytes {
        text.push_str(&format!("{:02x}", byte));
    }
    text
}

fn test_key() -> DerivedKey {
    let bytes: Vec<u8> = (0..32).collect();
    DerivedKey::from_bytes(&bytes).unwrap()
}

fn test_nonce() -> Nonce {
    let bytes: Vec<u8> = (0..12).collect();
    Nonce::from_bytes(&bytes).unwrap()
}

#[test]
fn encryption_matches_the_known_value() {
    let sealed = encrypt_with_nonce(&test_key(), &test_nonce(), b"hello vault").unwrap();
    assert_eq!(to_hex(&sealed), "2f67ba77aac5b47af82de3ddd543c71c3c329b79c5b18481ea2372");
}

#[test]
fn the_empty_plaintext_is_sealed_as_a_tag_alone() {
    let sealed = encrypt_with_nonce(&test_key(), &test_nonce(), b"").unwrap();
    assert_eq!(to_hex(&sealed), "f4c2db1dc38805a37b92171c5d0a81cc");
    assert_eq!(sealed.len(), TAG_LEN);
    assert_eq!(decrypt(&test_key(), test_nonce().as_bytes(), &sealed), Ok(Vec::new()));
}

#[test]
fn the_ciphertext_carries_a_tag_of_16_bytes() {
    let plaintext = [9u8; 100];
    let sealed = encrypt_with_nonce(&test_key(), &test_nonce(), &plaintext).unwrap();
    assert_eq!(sealed.len(), plaintext.len() + TAG_LEN);
    assert_ne!(&sealed[..100], &plaintext[..]);
}

#[test]
fn decryption_gives_the_plaintext_back() {
    let sealed = encrypt_with_nonce(&test_key(), &test_nonce(), b"hello vault").unwrap();
    let opened = decrypt(&test_key(), test_nonce().as_bytes(), &sealed);
    assert_eq!(opened, Ok(b"hello vault".to_vec()));
}

#[test]
fn decryption_of_the_known_value() {
    let sealed: Vec<u8> = vec![
        0x2f, 0x67, 0xba, 0x77, 0xaa, 0xc5, 0xb4, 0x7a, 0xf8, 0x2d, 0xe3, 0xdd, 0xd5, 0x43, 0xc7,
        0x1c, 0x3c, 0x32, 0x9b, 0x79, 0xc5, 0xb1, 0x84, 0x81, 0xea, 0x23, 0x72,
    ];
    let opened = decrypt(&test_key(), test_nonce().as_bytes(), &sealed);
    assert_eq!(opened, Ok(b"hello vault".to_vec()));
}

#[test]
fn a_wrong_key_fails_to_authenticate() {
    let sealed = encrypt_with_nonce(&test_key(), &test_nonce(), b"hello vault").unwrap();
    let mut bytes: Vec<u8> = (0..32).collect();
    bytes[31] ^= 0x80;
    let other = DerivedKey::from_bytes(&bytes).unwrap();
    assert_eq!(decrypt(&other, test_nonce().as_bytes(), &sealed), Err(AuthenticationFailure));
}

#[test]
fn every_flipped_bit_of_the_ciphertext_fails_to_authenticate() {
    let sealed = encrypt_with_nonce(&test_key(), &test_nonce(), b"hello vault").unwrap();
    for at in 0..sealed.len() {
        for bit in 0..8 {
            let mut altered = sealed.clone();
            altered[at] ^= 1 << bit;
            assert_eq!(
                decrypt(&test_key(), test_nonce().as_bytes(), &altered),
                Err(AuthenticationFailure)
            );
        }
    }
}

#[test]
fn every_flipped_bit_of_the_nonce_fails_to_authenticate() {
    let sealed = encrypt_with_nonce(&test_key(), &test_nonce(), b"hello vault").unwrap();
    for at in 0..NONCE_LEN {
        for bit in 0..8 {
            let mut nonce = test_nonce().as_bytes().to_vec();
            nonce[at] ^= 1 << bit;
            assert_eq!(decrypt(&test_key(), &nonce, &sealed), Err(AuthenticationFailure));
        }
    }
}

#[test]
fn a_cut_ciphertext_fails_to_authenticate() {
    let sealed = encrypt_with_nonce(&test_key(), &test_nonce(), b"hello vault").unwrap();
    for len in 0..sealed.len() {
        assert_eq!(
            decrypt(&test_key(), test_nonce().as_bytes(), &sealed[..len]),
            Err(AuthenticationFailure)
        );
    }
}

#[test]
fn what_opens_is_shorter_by_the_tag() {
    for len in [0usize, 1, 15, 16, 17, 1000] {
        let plaintext = vec![0x5a; len];
        let sealed = encrypt_with_nonce(&test_key(), &test_nonce(), &plaintext).unwrap();
        assert_eq!(sealed.len(), len + TAG_LEN);
        let opened = decrypt(&test_key(), test_nonce().as_bytes(), &sealed).ok().unwrap();
        assert_eq!(opened.len() + TAG_LEN, sealed.len());
    }
    let fresh = encrypt(&test_key(), &[1, 2, 3]).ok().unwrap();
    assert_eq!(fresh.ciphertext.len(), 3 + TAG_LEN);
    assert_eq!(fresh.nonce.as_bytes().len(), NONCE_LEN);
}

#[test]
fn nothing_shorter_than_a_tag_opens() {
    for len in 0..TAG_LEN {
        let short = vec![0u8; len];
        assert_eq!(
            decrypt(&test_key(), test_nonce().as_bytes(), &short),
            Err(AuthenticationFailure)
        );
    }
}

#[test]
fn a_nonce_of_another_length_authenticates_nothing() {
    let sealed = encrypt_with_nonce(&test_key(), &test_nonce(), b"hello vault").unwrap();
    assert_eq!(decrypt(&test_key(), &[0u8; 11], &sealed), Err(AuthenticationFailure));
    assert_eq!(decrypt(&test_key(), &[0u8; 13], &sealed), Err(AuthenticationFailure));
    assert_eq!(decrypt(&test_key(), &[], &sealed), Err(AuthenticationFailure));
}

#[test]
fn a_nonce_is_made_of_exactly_12_bytes() {
    assert!(Nonce::from_bytes(&[0u8; 11]).is_none());
    assert!(Nonce::from_bytes(&[0u8; 13]).is_none());
    let nonce = Nonce::from_bytes(&[5u8; 12]).unwrap();
    assert_eq!(nonce.as_bytes(), &[5u8; 12][..]);
}

#[test]
fn fresh_nonces_have_12_bytes_and_differ() {
    let first = Nonce::fresh().unwrap();
    let second = Nonce::fresh().unwrap();
    assert_eq!(first.as_bytes().len(), NONCE_LEN);
    assert_eq!(second.as_bytes().len(), NONCE_LEN);
    assert_ne!(first.as_bytes(), second.as_bytes());
}

#[test]
fn two_encryptions_of_one_plaintext_differ_in_nonce_and_ciphertext() {
    let key = test_key();
    let first = encrypt(&key, b"the same plaintext").ok().unwrap();
    let second = encrypt(&key, b"the same plaintext").ok().unwrap();
    assert_ne!(first.nonce.as_bytes(), second.nonce.as_bytes());
    assert_ne!(first.ciphertext, second.ciphertext);
    assert_eq!(
        decrypt(&key, first.nonce.as_bytes(), &first.ciphertext),
        Ok(b"the same plaintext".to_vec())
    );
    assert_eq!(
        decrypt(&key, second.nonce.as_bytes(), &second.ciphertext),
        Ok(b"the same plaintext".to_vec())
    );
}

#[test]
fn a_ciphertext_opens_only_under_its_own_nonce() {
    let key = test_key();
    let first = encrypt(&key, b"one").ok().unwrap();
    let second = encrypt(&key, b"two").ok().unwrap();
    assert_eq!(
        decrypt(&key, second.nonce.as_bytes(), &first.ciphertext),
        Err(AuthenticationFailure)
    );
}
