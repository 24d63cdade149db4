use pw_tokenizer::encode::VecSink;
use pw_tokenizer::error::TokenizeError;
use pw_tokenizer::generator::{BufferGenerator, Generator, WriterGenerator};
use pw_tokenizer::hash::hash_string;

#[test]
fn generator_literal_and_integer_to_buffer() {
    let mut generator = BufferGenerator::new("", 8);
    generator.string_fragment("count=");
    generator.integer_conversion(5);
    let message = generator.finalize("count=%d").unwrap();
    // Four token bytes plus the one-byte varint of 5: five bytes consumed.
    assert_eq!(message.data.len(), 5);
    let token = hash_string("count=%d");
    assert_eq!(&message.data[0..4], &token.to_le_bytes());
    assert_eq!(message.data[4], 10);
    assert_eq!(message.entry.token, token);
}

#[test]
fn generator_buffer_too_small_fails_whole() {
    let mut generator = BufferGenerator::new("", 3);
    generator.string_fragment("count=");
    generator.integer_conversion(5);
    let r = generator.finalize("count=%d");
    assert_eq!(r.err(), Some(TokenizeError::BufferExhausted));
}

#[test]
fn generator_registers_entry_for_domain_and_format() {
    let mut generator = BufferGenerator::new("app", 32);
    generator.string_fragment("v=");
    generator.integer_conversion(-1);
    let message = generator.finalize("v=%d").unwrap();
    assert_eq!(message.entry.domain, b"app".to_vec());
    assert_eq!(message.entry.text, b"v=%d".to_vec());
    assert_eq!(message.entry.token, hash_string("v=%d"));
}

#[test]
fn generator_no_arguments_fast_path() {
    let generator = BufferGenerator::new("", 16);
    let message = generator.finalize("plain text").unwrap();
    assert_eq!(message.data, hash_string("plain text").to_le_bytes().to_vec());
}

#[test]
fn generator_embedded_zero_fails_construction() {
    let generator = BufferGenerator::new("", 16);
    let r = generator.finalize("bad\0fmt");
    assert_eq!(r.err(), Some(TokenizeError::InvalidContent));
    let generator = WriterGenerator::new("");
    let mut sink = VecSink::new();
    let r = generator.finalize("bad\0fmt", &mut sink);
    assert_eq!(r.err(), Some(TokenizeError::InvalidContent));
    assert!(sink.data.is_empty());
}

#[test]
fn generator_variants_produce_identical_wire_bytes() {
    let mut to_buffer = BufferGenerator::new("", 64);
    to_buffer.string_fragment("x=");
    to_buffer.integer_conversion(300);
    to_buffer.string_conversion("y");
    to_buffer.char_conversion(b'z');
    let message = to_buffer.finalize("x=%d %s %c").unwrap();

    let mut to_writer = WriterGenerator::new("");
    to_writer.string_fragment("x=");
    to_writer.integer_conversion(300);
    to_writer.string_conversion("y");
    to_writer.char_conversion(b'z');
    let mut sink = VecSink::new();
    let (entry, n) = to_writer.finalize("x=%d %s %c", &mut sink).unwrap();

    assert_eq!(sink.data, message.data);
    assert_eq!(n, message.data.len());
    assert_eq!(entry.to_bytes(), message.entry.to_bytes());
}

#[test]
fn generator_writer_counts_bytes() {
    let mut generator = WriterGenerator::new("");
    generator.string_fragment("s=");
    generator.string_conversion("abc");
    let mut sink = VecSink::new();
    let (_, n) = generator.finalize("s=%s", &mut sink).unwrap();
    // Token, one length byte, three payload bytes.
    assert_eq!(n, 8);
    assert_eq!(sink.data.len(), 8);
}
