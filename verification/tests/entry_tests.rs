use pw_tokenizer::entry::{build_entry, contains_zero_byte, TokenCatalog, TOKENIZER_ENTRY_MAGIC};
use pw_tokenizer::error::TokenizeError;
use pw_tokenizer::hash::hash_string;

#[test]
fn entry_layout_is_packed_and_ordered() {
    let entry = build_entry("d", "hi").unwrap();
    let bytes = entry.to_bytes();
    let token = hash_string("hi");
    let mut expected: Vec<u8> = Vec::new();
    expected.extend_from_slice(&TOKENIZER_ENTRY_MAGIC.to_le_bytes());
    expected.extend_from_slice(&token.to_le_bytes());
    expected.extend_from_slice(&2u32.to_le_bytes());
    expected.extend_from_slice(&3u32.to_le_bytes());
    expected.extend_from_slice(b"d\0");
    expected.extend_from_slice(b"hi\0");
    assert_eq!(bytes, expected);
}

#[test]
fn entry_magic_value() {
    assert_eq!(TOKENIZER_ENTRY_MAGIC, 0xBAA98DEE);
}

#[test]
fn entry_token_hashes_string_not_domain() {
    let entry = build_entry("some_domain", "some text").unwrap();
    assert_eq!(entry.token, hash_string("some text"));
    assert_ne!(entry.token, hash_string("some_domain"));
}

#[test]
fn entry_default_domain_is_empty() {
    let entry = build_entry("", "fmt").unwrap();
    assert!(entry.domain.is_empty());
    // The empty domain still gets its terminator: length field is 1.
    let bytes = entry.to_bytes();
    assert_eq!(&bytes[8..12], &1u32.to_le_bytes());
}

#[test]
fn entry_construction_is_idempotent() {
    let first = build_entry("net", "rx %d bytes").unwrap();
    let second = build_entry("net", "rx %d bytes").unwrap();
    assert_eq!(first.to_bytes(), second.to_bytes());
}

#[test]
fn entry_embedded_zero_in_text_fails() {
    let r = build_entry("", "bad\0fmt");
    assert_eq!(r.err(), Some(TokenizeError::InvalidContent));
}

#[test]
fn entry_embedded_zero_in_domain_fails() {
    let r = build_entry("do\0main", "fmt");
    assert_eq!(r.err(), Some(TokenizeError::InvalidContent));
}

#[test]
fn catalog_keeps_registration_order() {
    let mut catalog = TokenCatalog::new();
    let first = build_entry("", "one %d").unwrap();
    let second = build_entry("net", "two %s").unwrap();
    let mut expected: Vec<u8> = first.to_bytes();
    expected.extend_from_slice(&second.to_bytes());
    catalog.register(first);
    catalog.register(second);
    assert_eq!(catalog.to_bytes(), expected);
}

#[test]
fn catalog_accepts_redundant_registration() {
    let mut catalog = TokenCatalog::new();
    catalog.register(build_entry("", "again").unwrap());
    catalog.register(build_entry("", "again").unwrap());
    assert_eq!(catalog.entries.len(), 2);
    let one = build_entry("", "again").unwrap().to_bytes();
    let mut expected = one.clone();
    expected.extend_from_slice(&one);
    assert_eq!(catalog.to_bytes(), expected);
}

#[test]
fn zero_byte_scan_matches_contents() {
    assert!(contains_zero_byte(&[1, 2, 0, 3]));
    assert!(contains_zero_byte(&[0]));
    assert!(!contains_zero_byte(&[1, 2, 3]));
    assert!(!contains_zero_byte(&[]));
}
