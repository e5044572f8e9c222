use passvault::error::DerivationError;
use passvault::kdf::derive_key;
use passvault::kdf::derive_key_with_rounds;
use passvault::kdf::hmac;
use passvault::kdf::pbkdf2_hmac_sha256;
use passvault::kdf::DerivedKey;
use passvault::kdf::KDF_ROUNDS;
use passvault::kdf::KEY_LEN;
use passvault::kdf::MAX_SALT_LEN;
use passvault::kdf::MIN_SALT_LEN;

fn hex(bytes: &[u8]) -> String {
    let mut text = String::new();
    for byte in bytes {
        text.push_str(&format!("{:02x}", byte));
    }
    text
}

fn counting(len: usize) -> Vec<u8> {
    (0..len).map(|i| i as u8).collect()
}

#[test]
fn hmac_of_a_short_key_matches_the_known_value() {
    let tag = hmac(b"key", b"The quick brown fox jumps over the lazy dog");
    assert_eq!(hex(&tag), "f7bc83f430538424b13298e6aa6fb143ef4d59a14946175997479dbc2d1a3cd8");
}

#[test]
fn hmac_hashes_a_key_longer_than_a_block() {
    let key = vec![b'k'; 100];
    let tag = hmac(&key, b"message");
    assert_eq!(hex(&tag), "1c28735416d320163f56f81bdbb83d651eed508d184e6b8b03662740a533293e");
}

#[test]
fn hmac_is_not_its_message() {
    let message = [7u8; 32];
    assert_ne!(hmac(b"key", &message), message.to_vec());
}

#[test]
fn pbkdf2_with_one_round() {
    let block = pbkdf2_hmac_sha256(b"password", b"salt", 1);
    assert_eq!(hex(&block), "120fb6cffcf8b32c43e7225256c4f837a86548c92ccc35480805987cb70be17b");
}

#[test]
fn pbkdf2_with_two_rounds() {
    let block = pbkdf2_hmac_sha256(b"password", b"salt", 2);
    assert_eq!(hex(&block), "ae4d0c95af6b46d32d0adff928f06dd02a303f8ef3c251dfd6e2d85a95474c43");
}

#[test]
fn pbkdf2_with_4096_rounds() {
    let block = pbkdf2_hmac_sha256(b"password", b"salt", 4096);
    assert_eq!(hex(&block), "c5e478d59288c841aa530db6845c4c8d962893a001ce4e11a4963873aa98134a");
}

#[test]
fn pbkdf2_with_long_password_and_salt() {
    let block = pbkdf2_hmac_sha256(
        b"passwordPASSWORDpassword",
        b"saltSALTsaltSALTsaltSALTsaltSALTsalt",
        4096,
    );
    assert_eq!(hex(&block), "348c89dbcbd32b2f32d814b8116e84cf2b17347ebc1800181c4e2a1fb8dd53e1");
}

#[test]
fn pbkdf2_serves_no_rounds_as_one() {
    assert_eq!(
        pbkdf2_hmac_sha256(b"password", b"salt", 0),
        pbkdf2_hmac_sha256(b"password", b"salt", 1)
    );
}

#[test]
fn the_vault_key_is_pbkdf2_of_the_passphrase_digest_and_salt() {
    assert_eq!(KDF_ROUNDS, 60_000);
    let key = derive_key("correct horse", &counting(16)).unwrap();
    assert_eq!(
        hex(key.as_bytes()),
        "e487f294f910336afd1d3edd0ae352fc7ad67a993bf11a43cdccdd6c11eef2ab"
    );
}

#[test]
fn a_passphrase_is_taken_by_its_utf8_bytes() {
    let key = derive_key_with_rounds("pässwörd", &counting(32), 3).unwrap();
    assert_eq!(
        hex(key.as_bytes()),
        "a4189e352e1bff05da8367ddc20d6c7565acab58bc7effd9ab34275cdaeeb56e"
    );
}

#[test]
fn derivation_is_deterministic() {
    let salt = counting(16);
    let first = derive_key_with_rounds("open sesame", &salt, 10).unwrap();
    let second = derive_key_with_rounds("open sesame", &salt, 10).unwrap();
    assert_eq!(first.as_bytes(), second.as_bytes());
    assert_eq!(first.as_bytes().len(), KEY_LEN);
}

#[test]
fn another_salt_gives_another_key() {
    let mut other = counting(16);
    other[15] ^= 1;
    let first = derive_key_with_rounds("open sesame", &counting(16), 10).unwrap();
    let second = derive_key_with_rounds("open sesame", &other, 10).unwrap();
    assert_ne!(first.as_bytes(), second.as_bytes());
}

#[test]
fn another_passphrase_gives_another_key() {
    let first = derive_key_with_rounds("open sesame", &counting(16), 10).unwrap();
    let second = derive_key_with_rounds("open sesamf", &counting(16), 10).unwrap();
    assert_ne!(first.as_bytes(), second.as_bytes());
}

#[test]
fn more_rounds_give_another_key() {
    let first = derive_key_with_rounds("open sesame", &counting(16), 10).unwrap();
    let second = derive_key_with_rounds("open sesame", &counting(16), 11).unwrap();
    assert_ne!(first.as_bytes(), second.as_bytes());
}

#[test]
fn a_salt_too_short_is_refused() {
    let refused = derive_key_with_rounds("pw", &counting(MIN_SALT_LEN - 1), 1);
    assert!(matches!(refused, Err(DerivationError)));
    assert!(matches!(derive_key("pw", &[]), Err(DerivationError)));
}

#[test]
fn a_salt_too_long_is_refused() {
    let refused = derive_key_with_rounds("pw", &counting(MAX_SALT_LEN + 1), 1);
    assert!(matches!(refused, Err(DerivationError)));
}

#[test]
fn salts_at_both_ends_of_the_range_are_accepted() {
    assert!(derive_key_with_rounds("pw", &counting(MIN_SALT_LEN), 1).is_ok());
    assert!(derive_key_with_rounds("pw", &counting(MAX_SALT_LEN), 1).is_ok());
    assert!(derive_key_with_rounds("pw", &counting(24), 1).is_ok());
}

#[test]
fn the_empty_passphrase_is_accepted() {
    let key = derive_key_with_rounds("", &counting(16), 2).unwrap();
    let digest_of_nothing = [
        0xe3, 0xb0, 0xc4, 0x42, 0x98, 0xfc, 0x1c, 0x14, 0x9a, 0xfb, 0xf4, 0xc8, 0x99, 0x6f, 0xb9,
        0x24, 0x27, 0xae, 0x41, 0xe4, 0x64, 0x9b, 0x93, 0x4c, 0xa4, 0x95, 0x99, 0x1b, 0x78, 0x52,
        0xb8, 0x55,
    ];
    assert_eq!(
        key.as_bytes().to_vec(),
        pbkdf2_hmac_sha256(&digest_of_nothing, &counting(16), 2)
    );
}

#[test]
fn a_passphrase_with_a_nul_appended_gives_another_key() {
    let plain = derive_key_with_rounds("pw", &counting(16), 2).unwrap();
    let padded = derive_key_with_rounds("pw\0", &counting(16), 2).unwrap();
    assert_eq!(
        hex(plain.as_bytes()),
        "7887af4ca2314a3e324edca1746f141aefcbbcf9a4a358dde3ac6d3f3cc7a3c8"
    );
    assert_eq!(
        hex(padded.as_bytes()),
        "55f52c1b20fe29f9ae395907b98703aa256f9428c6cd685b1615220bd8685df7"
    );
    assert_ne!(plain.as_bytes(), padded.as_bytes());
    let longer = derive_key_with_rounds("pw\0\0\0", &counting(16), 2).unwrap();
    assert_ne!(plain.as_bytes(), longer.as_bytes());
    assert_ne!(padded.as_bytes(), longer.as_bytes());
    let empty = derive_key_with_rounds("", &counting(16), 2).unwrap();
    let nul = derive_key_with_rounds("\0", &counting(16), 2).unwrap();
    assert_ne!(empty.as_bytes(), nul.as_bytes());
}

#[test]
fn the_passphrase_does_not_key_the_mac_as_it_stands() {
    let key = derive_key_with_rounds("pw", &counting(16), 2).unwrap();
    assert_ne!(key.as_bytes().to_vec(), pbkdf2_hmac_sha256(b"pw", &counting(16), 2));
}

#[test]
fn hmac_keys_that_differ_in_zeros_at_the_end_are_one_key() {
    assert_eq!(hmac(b"pw", b"message"), hmac(b"pw\0", b"message"));
    assert_ne!(hmac(b"pw", b"message"), hmac(b"\0pw", b"message"));
}

#[test]
fn a_key_is_made_of_exactly_32_bytes() {
    assert!(DerivedKey::from_bytes(&counting(31)).is_none());
    assert!(DerivedKey::from_bytes(&counting(33)).is_none());
    let key = DerivedKey::from_bytes(&counting(32)).unwrap();
    assert_eq!(key.as_bytes(), &counting(32)[..]);
}

#[test]
fn a_wiped_key_is_all_zeros() {
    let mut key = DerivedKey::from_bytes(&counting(32)).unwrap();
    key.wipe();
    assert_eq!(key.as_bytes(), &[0u8; 32][..]);
}
