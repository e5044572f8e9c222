use passvault::codec::decode;
use passvault::codec::encode;
use passvault::credentials::AccountDetails;
use passvault::credentials::CredentialSet;
use passvault::credentials::Entry;
use passvault::error::MalformedData;

fn from_hex(text: &str) -> Vec<u8> {
    let digits: Vec<u8> = text.bytes().map(|c| (c as char).to_digit(16).unwrap() as u8).collect();
    digits.chunks(2).map(|pair| pair[0] * 16 + pair[1]).collect()
}

fn account(login: &str, secret: &str) -> AccountDetails {
    AccountDetails { login: login.to_string(), secret: secret.to_string() }
}

fn set_of(entries: &[(&str, &str, &str)]) -> CredentialSet {
    let mut set = CredentialSet::new();
    for (name, login, secret) in entries {
        set.add(name.to_string(), account(login, secret)).unwrap();
    }
    set
}

fn field(text: &[u8]) -> Vec<u8> {
    let mut bytes = (text.len() as u64).to_le_bytes().to_vec();
    bytes.extend_from_slice(text);
    bytes
}

fn refused(bytes: &[u8]) -> bool {
    matches!(decode(bytes), Err(MalformedData))
}

#[test]
fn the_empty_set_is_a_count_of_zero() {
    assert_eq!(encode(&CredentialSet::new()), vec![0u8; 8]);
}

#[test]
fn the_empty_set_round_trips() {
    let decoded = decode(&encode(&CredentialSet::new())).ok().unwrap();
    assert!(decoded.is_empty());
}

#[test]
fn one_entry_is_encoded_with_explicit_lengths() {
    let bytes = encode(&set_of(&[("mail", "alice", "s3cret")]));
    assert_eq!(
        bytes,
        from_hex(
            "010000000000000004000000000000006d61696c0500000000000000616c6963650600000000000000733363726574"
        )
    );
}

#[test]
fn two_entries_with_any_text_are_encoded_in_order() {
    let bytes = encode(&set_of(&[("mail", "alice", "s3cret"), ("bänk", "bob", "pä$$ wörd\n:,")]));
    assert_eq!(
        bytes,
        from_hex(
            "020000000000000004000000000000006d61696c0500000000000000616c6963650600000000000000733363726574050000000000000062c3a46e6b0300000000000000626f620e0000000000000070c3a424242077c3b672640a3a2c"
        )
    );
}

#[test]
fn known_bytes_decode_to_their_entries() {
    let decoded = decode(&from_hex(
        "020000000000000004000000000000006d61696c0500000000000000616c6963650600000000000000733363726574050000000000000062c3a46e6b0300000000000000626f620e0000000000000070c3a424242077c3b672640a3a2c",
    ))
    .ok()
    .unwrap();
    assert_eq!(
        decoded.list().to_vec(),
        vec![
            Entry { name: "mail".to_string(), details: account("alice", "s3cret") },
            Entry { name: "bänk".to_string(), details: account("bob", "pä$$ wörd\n:,") },
        ]
    );
}

#[test]
fn a_set_round_trips_with_its_order() {
    let set = set_of(&[("zeta", "z", "1"), ("alpha", "a", "2"), ("mid", "", "")]);
    let decoded = decode(&encode(&set)).ok().unwrap();
    assert_eq!(decoded.list(), set.list());
}

#[test]
fn text_that_looks_like_structure_round_trips() {
    let tricky = "\u{0}\u{1}\"{}[],:\\\n\r\t";
    let lengths = String::from_utf8(8u64.to_le_bytes().to_vec()).unwrap();
    let set = set_of(&[
        (tricky, tricky, tricky),
        (&lengths, &lengths, &lengths),
        ("日本語🔑", "ключ", "مفتاح"),
    ]);
    let decoded = decode(&encode(&set)).ok().unwrap();
    assert_eq!(decoded.list(), set.list());
    assert_eq!(decoded.find("日本語🔑"), Some(&account("ключ", "مفتاح")));
}

#[test]
fn a_long_secret_round_trips() {
    let secret = "x".repeat(70_000);
    let set = set_of(&[("big", "login", &secret)]);
    let bytes = encode(&set);
    assert_eq!(bytes.len(), 8 + (8 + 3) + (8 + 5) + (8 + 70_000));
    let decoded = decode(&bytes).ok().unwrap();
    assert_eq!(decoded.find("big").unwrap().secret, secret);
}

#[test]
fn every_cut_encoding_is_refused() {
    let bytes = encode(&set_of(&[("mail", "alice", "s3cret"), ("bank", "bob", "pw")]));
    for len in 0..bytes.len() {
        assert!(refused(&bytes[..len]), "cut to {} bytes", len);
    }
    assert!(decode(&bytes).is_ok());
}

#[test]
fn bytes_behind_the_last_record_are_refused() {
    let mut bytes = encode(&set_of(&[("mail", "alice", "s3cret")]));
    bytes.push(0);
    assert!(refused(&bytes));
    let mut empty = encode(&CredentialSet::new());
    empty.push(0);
    assert!(refused(&empty));
}

#[test]
fn a_count_beyond_the_records_is_refused() {
    let mut bytes = encode(&set_of(&[("mail", "alice", "s3cret")]));
    bytes[0] = 2;
    assert!(refused(&bytes));
    let mut huge = vec![0xffu8; 8];
    huge.extend_from_slice(&field(b"a"));
    assert!(refused(&huge));
}

#[test]
fn a_count_short_of_the_records_is_refused() {
    let mut bytes = encode(&set_of(&[("mail", "alice", "s3cret"), ("bank", "bob", "pw")]));
    bytes[0] = 1;
    assert!(refused(&bytes));
}

#[test]
fn a_length_beyond_the_bytes_is_refused() {
    let mut bytes = 1u64.to_le_bytes().to_vec();
    bytes.extend_from_slice(&u64::MAX.to_le_bytes());
    bytes.extend_from_slice(b"mail");
    assert!(refused(&bytes));
    let mut near = 1u64.to_le_bytes().to_vec();
    near.extend_from_slice(&5u64.to_le_bytes());
    near.extend_from_slice(b"mail");
    assert!(refused(&near));
}

#[test]
fn a_repeated_name_is_refused() {
    let mut bytes = 2u64.to_le_bytes().to_vec();
    for secret in [&b"one"[..], &b"two"[..]] {
        bytes.extend_from_slice(&field(b"mail"));
        bytes.extend_from_slice(&field(b"alice"));
        bytes.extend_from_slice(&field(secret));
    }
    assert!(refused(&bytes));
}

#[test]
fn an_empty_name_is_refused() {
    let mut bytes = 1u64.to_le_bytes().to_vec();
    bytes.extend_from_slice(&field(b""));
    bytes.extend_from_slice(&field(b"alice"));
    bytes.extend_from_slice(&field(b"pw"));
    assert!(refused(&bytes));
}

#[test]
fn text_that_is_not_utf8_is_refused() {
    for bad in [&[0xffu8][..], &[0xc3][..], &[0xed, 0xa0, 0x80][..], &[0xc0, 0x80][..]] {
        let mut in_name = 1u64.to_le_bytes().to_vec();
        in_name.extend_from_slice(&field(bad));
        in_name.extend_from_slice(&field(b"alice"));
        in_name.extend_from_slice(&field(b"pw"));
        assert!(refused(&in_name));
        let mut in_secret = 1u64.to_le_bytes().to_vec();
        in_secret.extend_from_slice(&field(b"mail"));
        in_secret.extend_from_slice(&field(b"alice"));
        in_secret.extend_from_slice(&field(bad));
        assert!(refused(&in_secret));
    }
}

#[test]
fn bytes_of_another_format_are_refused() {
    assert!(refused(b""));
    assert!(refused(b"{\"accounts\":{}}"));
    assert!(refused(&[1, 2, 3]));
}

#[test]
fn what_decodes_encodes_to_the_same_bytes() {
    let bytes = from_hex(
        "010000000000000004000000000000006d61696c0500000000000000616c6963650600000000000000733363726574",
    );
    let decoded = decode(&bytes).ok().unwrap();
    assert_eq!(encode(&decoded), bytes);
}
