use passvault::text::same_text;
use passvault::text::text_of;

#[test]
fn equal_texts_are_the_same() {
    assert!(same_text("", ""));
    assert!(same_text("mail", "mail"));
    assert!(same_text("bänk 🔑", "bänk 🔑"));
}

#[test]
fn texts_that_differ_anywhere_are_not_the_same() {
    assert!(!same_text("mail", "Mail"));
    assert!(!same_text("mail", "mai"));
    assert!(!same_text("mail", "mail "));
    assert!(!same_text("", " "));
    assert!(!same_text("bänk", "bank"));
    assert!(!same_text("ab", "ba"));
}

#[test]
fn valid_utf8_spells_its_text() {
    assert_eq!(text_of(b""), Some(String::new()));
    assert_eq!(text_of(b"mail"), Some("mail".to_string()));
    assert_eq!(text_of(&[0x62, 0xc3, 0xa4, 0x6e, 0x6b]), Some("bänk".to_string()));
    assert_eq!(text_of(&[0xf0, 0x9f, 0x94, 0x91]), Some("🔑".to_string()));
}

#[test]
fn bytes_that_are_not_utf8_spell_nothing() {
    assert_eq!(text_of(&[0xff]), None);
    assert_eq!(text_of(&[0x62, 0xc3]), None);
    assert_eq!(text_of(&[0xed, 0xa0, 0x80]), None);
    assert_eq!(text_of(&[0xc0, 0x80]), None);
    assert_eq!(text_of(&[0xf4, 0x90, 0x80, 0x80]), None);
}
